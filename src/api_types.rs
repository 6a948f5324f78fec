use crate::storage::SharedInmemoryStorage;
use vstd::prelude::*;

verus! {

/// What every request handler shares: the store.
#[derive(Clone)]
pub struct AppState {
    pub storage: SharedInmemoryStorage,
}

impl AppState {
    pub fn new(storage: SharedInmemoryStorage) -> (r: AppState)
        ensures
            r.storage == storage,
    {
        AppState { storage }
    }
}

/// The user on whose behalf a request is made.
#[derive(Clone, Debug)]
pub struct Auth {
    pub user_id: String,
}

impl Auth {
    pub fn new(user_id: String) -> (r: Auth)
        ensures
            r.user_id == user_id,
    {
        Auth { user_id }
    }
}

/// Which page of a listing a request asks for.
#[derive(Clone, Copy, Debug, PartialEq, Eq, Structural)]
pub struct PaginationParams {
    pub offset: usize,
    pub count: usize,
}

} // verus!
