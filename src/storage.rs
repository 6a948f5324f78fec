use crate::money_pool::MoneyPool;
use crate::timestamp::Timestamp;
use crate::transaction::{Transaction, TransactionFilter};
use vstd::prelude::*;

verus! {

/// An internal failure of a store, with its reason in words. A user or a pool that is
/// not there is no error: it reads as an empty result.
#[derive(Clone, Debug)]
pub struct StorageError {
    pub reason: String,
}

impl StorageError {
    /// The error in words.
    pub fn message(&self) -> (r: String)
        ensures
            r@ == "Storage error, reason: "@ + self.reason@,
    {
        let mut m = String::from_str("Storage error, reason: ");
        m.append(self.reason.as_str());
        m
    }
}

/// Transactions in non-decreasing timestamp order.
pub open spec fn sorted_by_time(s: Seq<Transaction>) -> bool {
    forall|i: int, j: int| 0 <= i <= j < s.len() ==> (#[trigger] s[i]).timestamp.le((#[trigger] s[j]).timestamp)
}

/// `after` is `before` with `t` inserted at `k`, behind every transaction not later than
/// `t` and ahead of every later one.
pub open spec fn placed_at(before: Seq<Transaction>, t: Transaction, after: Seq<Transaction>, k: int) -> bool {
    &&& 0 <= k <= before.len()
    &&& after == before.insert(k, t)
    &&& forall|i: int| 0 <= i < k ==> (#[trigger] before[i]).timestamp.le(t.timestamp)
    &&& forall|i: int| k <= i < before.len() ==> t.timestamp.lt((#[trigger] before[i]).timestamp)
}

/// `after` is `before` with `t` placed behind every transaction not later than `t` and
/// ahead of every later one.
pub open spec fn placed_by_time(before: Seq<Transaction>, t: Transaction, after: Seq<Transaction>) -> bool {
    exists|k: int| #[trigger] placed_at(before, t, after, k)
}

/// Whether an optional filter admits a transaction; no filter admits all.
pub open spec fn admitted(f: Option<TransactionFilter>, t: Transaction) -> bool {
    match f {
        Some(f) => f.admits(t),
        None => true,
    }
}

/// The admitted transactions of `s`, from the last stored to the first.
pub open spec fn newest_matching(s: Seq<Transaction>, f: Option<TransactionFilter>) -> Seq<Transaction>
    decreases s.len(),
{
    if s.len() == 0 {
        seq![]
    } else {
        let rest = newest_matching(s.drop_last(), f);
        if admitted(f, s.last()) {
            seq![s.last()] + rest
        } else {
            rest
        }
    }
}

/// The window of `s` that skips `offset` items and then holds up to `count`.
pub open spec fn page<A>(s: Seq<A>, offset: int, count: int) -> Seq<A> {
    let lo = if offset < s.len() { offset } else { s.len() as int };
    let hi = if offset + count < s.len() { offset + count } else { s.len() as int };
    s.subrange(lo, hi)
}

/// What a transaction query returns: the admitted transactions, newest first, paged.
pub open spec fn query(s: Seq<Transaction>, f: Option<TransactionFilter>, offset: int, count: int) -> Seq<Transaction> {
    page(newest_matching(s, f), offset, count)
}

/// The first pool of `s` with the given id.
pub open spec fn first_pool(s: Seq<MoneyPool>, id: Seq<char>) -> Option<MoneyPool>
    decreases s.len(),
{
    if s.len() == 0 {
        None
    } else if s[0].id@ == id {
        Some(s[0])
    } else {
        first_pool(s.drop_first(), id)
    }
}

/// Inserting at a place that `placed_by_time` describes keeps a sequence sorted.
proof fn lemma_placed_sorted(s: Seq<Transaction>, k: int, t: Transaction)
    requires
        sorted_by_time(s),
        0 <= k <= s.len(),
        forall|i: int| 0 <= i < k ==> (#[trigger] s[i]).timestamp.le(t.timestamp),
        forall|i: int| k <= i < s.len() ==> t.timestamp.lt((#[trigger] s[i]).timestamp),
    ensures
        sorted_by_time(s.insert(k, t)),
{
    let r = s.insert(k, t);
    assert forall|i: int, j: int| 0 <= i <= j < r.len() implies (#[trigger] r[i]).timestamp.le(
        (#[trigger] r[j]).timestamp) by {
        if i < k && j < k {
            assert(s[i].timestamp.le(s[j].timestamp));
        } else if i > k && j > k {
            assert(s[i - 1].timestamp.le(s[j - 1].timestamp));
        } else if i < k && j > k {
            assert(s[i].timestamp.le(t.timestamp));
            assert(t.timestamp.lt(s[j - 1].timestamp));
        }
    }
}

/// Where a transaction at `ts` goes in sorted `s`: behind every one not later than `ts`.
fn insertion_point(s: &Vec<Transaction>, ts: &Timestamp) -> (k: usize)
    requires
        sorted_by_time(s@),
    ensures
        k <= s@.len(),
        forall|i: int| 0 <= i < k ==> (#[trigger] s@[i]).timestamp.le(*ts),
        forall|i: int| k <= i < s@.len() ==> ts.lt((#[trigger] s@[i]).timestamp),
{
    let mut k: usize = s.len();
    while k > 0 && ts.is_before(&s[k - 1].timestamp)
        invariant
            sorted_by_time(s@),
            k <= s@.len(),
            forall|i: int| k <= i < s@.len() ==> ts.lt((#[trigger] s@[i]).timestamp),
        decreases k,
    {
        k = k - 1;
    }
    proof {
        if k > 0 {
            assert forall|i: int| 0 <= i < k implies (#[trigger] s@[i]).timestamp.le(*ts) by {
                assert(s@[i].timestamp.le(s@[k - 1].timestamp));
            }
        }
    }
    k
}

/// `t` passed through `f`.
fn admits_opt(f: &Option<TransactionFilter>, t: &Transaction) -> (r: bool)
    ensures
        r == admitted(*f, *t),
{
    match f {
        Some(f) => f.matches(t),
        None => true,
    }
}

/// A store of pools and transactions, each held under the user that owns it. What it
/// holds is described by `pools_of` and `transactions_of`; a backend may fail with a
/// `StorageError`, and then changes nothing.
pub trait Storage: Sized {
    /// The backend's own well-formedness.
    spec fn wf(&self) -> bool;

    /// Whether anything was ever stored for the user.
    spec fn has_user(&self, u: Seq<char>) -> bool;

    /// The user's pools, in the order they were added.
    spec fn pools_of(&self, u: Seq<char>) -> Seq<MoneyPool>;

    /// The user's transactions, in timestamp order.
    spec fn transactions_of(&self, u: Seq<char>) -> Seq<Transaction>;

    /// Appends `new_pool` to the user's pools.
    fn add_pool(&mut self, user_id: &str, new_pool: MoneyPool) -> (r: Result<(), StorageError>)
        requires
            old(self).wf(),
        ensures
            r is Ok ==> {
                &&& final(self).wf()
                &&& forall|v: Seq<char>| #[trigger] final(self).has_user(v) == (old(self).has_user(v) || v == user_id@)
                &&& forall|v: Seq<char>|
                    #[trigger] final(self).pools_of(v) == if v == user_id@ {
                        old(self).pools_of(v).push(new_pool)
                    } else {
                        old(self).pools_of(v)
                    }
                &&& forall|v: Seq<char>| #[trigger] final(self).transactions_of(v) == old(self).transactions_of(v)
            },
            r is Err ==> {
                &&& final(self).wf()
                &&& forall|v: Seq<char>| #[trigger] final(self).has_user(v) == old(self).has_user(v)
                &&& forall|v: Seq<char>| #[trigger] final(self).pools_of(v) == old(self).pools_of(v)
                &&& forall|v: Seq<char>| #[trigger] final(self).transactions_of(v) == old(self).transactions_of(v)
            },
    ;

    /// A copy of the user's pools, in the order they were added.
    fn load_pools(&self, user_id: &str) -> (r: Result<Vec<MoneyPool>, StorageError>)
        requires
            self.wf(),
        ensures
            r matches Ok(v) ==> v@ == self.pools_of(user_id@),
    ;

    /// The first of the user's pools with the given id, if any.
    fn load_pool(&self, user_id: &str, pool_id: &str) -> (r: Result<Option<MoneyPool>, StorageError>)
        requires
            self.wf(),
        ensures
            r matches Ok(p) ==> p == first_pool(self.pools_of(user_id@), pool_id@),
    ;

    /// Adds the transaction to the user's, in timestamp order.
    fn add_transaction(&mut self, user_id: &str, transaction: Transaction) -> (r: Result<(), StorageError>)
        requires
            old(self).wf(),
        ensures
            r is Ok ==> {
                &&& final(self).wf()
                &&& forall|v: Seq<char>| #[trigger] final(self).has_user(v) == (old(self).has_user(v) || v == user_id@)
                &&& forall|v: Seq<char>| #[trigger] final(self).pools_of(v) == old(self).pools_of(v)
                &&& forall|v: Seq<char>|
                    v != user_id@ ==> #[trigger] final(self).transactions_of(v) == old(self).transactions_of(v)
                &&& placed_by_time(old(self).transactions_of(user_id@), transaction, final(self).transactions_of(user_id@))
            },
            r is Err ==> {
                &&& final(self).wf()
                &&& forall|v: Seq<char>| #[trigger] final(self).has_user(v) == old(self).has_user(v)
                &&& forall|v: Seq<char>| #[trigger] final(self).pools_of(v) == old(self).pools_of(v)
                &&& forall|v: Seq<char>| #[trigger] final(self).transactions_of(v) == old(self).transactions_of(v)
            },
    ;

    /// One page of the user's transactions that `filter` admits, newest first.
    fn load_transactions(
        &self,
        user_id: &str,
        filter: Option<TransactionFilter>,
        offset: usize,
        count: usize,
    ) -> (r: Result<Vec<Transaction>, StorageError>)
        requires
            self.wf(),
        ensures
            r matches Ok(v) ==> v@ == query(self.transactions_of(user_id@), filter, offset as int, count as int),
    ;
}

/// The effect of adding pool `p` for user `u`, from `before` to `after`.
pub open spec fn pool_added<S: Storage>(before: S, after: S, u: Seq<char>, p: MoneyPool) -> bool {
    &&& after.wf()
    &&& forall|v: Seq<char>| #[trigger] after.has_user(v) == (before.has_user(v) || v == u)
    &&& forall|v: Seq<char>|
        #[trigger] after.pools_of(v) == if v == u {
            before.pools_of(v).push(p)
        } else {
            before.pools_of(v)
        }
    &&& forall|v: Seq<char>| #[trigger] after.transactions_of(v) == before.transactions_of(v)
}

/// The effect of adding transaction `t` for user `u`, from `before` to `after`.
pub open spec fn transaction_added<S: Storage>(before: S, after: S, u: Seq<char>, t: Transaction) -> bool {
    &&& after.wf()
    &&& forall|v: Seq<char>| #[trigger] after.has_user(v) == (before.has_user(v) || v == u)
    &&& forall|v: Seq<char>| #[trigger] after.pools_of(v) == before.pools_of(v)
    &&& forall|v: Seq<char>| v != u ==> #[trigger] after.transactions_of(v) == before.transactions_of(v)
    &&& placed_by_time(before.transactions_of(u), t, after.transactions_of(u))
}

/// What one user has stored.
struct UserBucket {
    user_id: String,
    pools: Vec<MoneyPool>,
    transactions: Vec<Transaction>,
}

/// Pools and transactions held in memory, each under the user that owns it.
pub struct InmemoryStorage {
    buckets: Vec<UserBucket>,
}

impl Storage for InmemoryStorage {
    open spec fn wf(&self) -> bool {
        InmemoryStorage::wf(self)
    }

    open spec fn has_user(&self, u: Seq<char>) -> bool {
        InmemoryStorage::has_user(self, u)
    }

    open spec fn pools_of(&self, u: Seq<char>) -> Seq<MoneyPool> {
        InmemoryStorage::pools_of(self, u)
    }

    open spec fn transactions_of(&self, u: Seq<char>) -> Seq<Transaction> {
        InmemoryStorage::transactions_of(self, u)
    }

    fn add_pool(&mut self, user_id: &str, new_pool: MoneyPool) -> (r: Result<(), StorageError>) {
        InmemoryStorage::add_pool(self, user_id, new_pool)
    }

    fn load_pools(&self, user_id: &str) -> (r: Result<Vec<MoneyPool>, StorageError>) {
        InmemoryStorage::load_pools(self, user_id)
    }

    fn load_pool(&self, user_id: &str, pool_id: &str) -> (r: Result<Option<MoneyPool>, StorageError>) {
        InmemoryStorage::load_pool(self, user_id, pool_id)
    }

    fn add_transaction(&mut self, user_id: &str, transaction: Transaction) -> (r: Result<(), StorageError>) {
        InmemoryStorage::add_transaction(self, user_id, transaction)
    }

    fn load_transactions(
        &self,
        user_id: &str,
        filter: Option<TransactionFilter>,
        offset: usize,
        count: usize,
    ) -> (r: Result<Vec<Transaction>, StorageError>) {
        InmemoryStorage::load_transactions(self, user_id, filter, offset, count)
    }
}

impl InmemoryStorage {
    /// One bucket per user, and each user's transactions in timestamp order.
    pub closed spec fn wf(&self) -> bool {
        &&& forall|i: int, j: int|
            0 <= i < j < self.buckets@.len() ==> (#[trigger] self.buckets@[i]).user_id@
                != (#[trigger] self.buckets@[j]).user_id@
        &&& forall|i: int|
            0 <= i < self.buckets@.len() ==> sorted_by_time((#[trigger] self.buckets@[i]).transactions@)
    }

    /// Whether anything was ever stored for the user.
    pub closed spec fn has_user(&self, u: Seq<char>) -> bool {
        exists|i: int| 0 <= i < self.buckets@.len() && (#[trigger] self.buckets@[i]).user_id@ == u
    }

    /// The user's pools, in the order they were added.
    pub closed spec fn pools_of(&self, u: Seq<char>) -> Seq<MoneyPool> {
        if self.has_user(u) {
            self.buckets@[self.index_of(u)].pools@
        } else {
            seq![]
        }
    }

    /// The user's transactions, in timestamp order.
    pub closed spec fn transactions_of(&self, u: Seq<char>) -> Seq<Transaction> {
        if self.has_user(u) {
            self.buckets@[self.index_of(u)].transactions@
        } else {
            seq![]
        }
    }

    closed spec fn index_of(&self, u: Seq<char>) -> int {
        choose|i: int| 0 <= i < self.buckets@.len() && (#[trigger] self.buckets@[i]).user_id@ == u
    }

    proof fn lemma_index_of(&self, u: Seq<char>, k: int)
        requires
            self.wf(),
            0 <= k < self.buckets@.len(),
            self.buckets@[k].user_id@ == u,
        ensures
            self.has_user(u),
            self.index_of(u) == k,
    {
        let c = self.index_of(u);
        assert(0 <= c < self.buckets@.len() && self.buckets@[c].user_id@ == u);
        if c < k {
            assert(self.buckets@[c].user_id@ != self.buckets@[k].user_id@);
        } else if k < c {
            assert(self.buckets@[k].user_id@ != self.buckets@[c].user_id@);
        }
    }

    /// Replacing one bucket by one for the same user, with sorted transactions, keeps the
    /// store well formed and every user where it was.
    proof fn lemma_bucket_replaced(before: InmemoryStorage, after: InmemoryStorage, i: int)
        requires
            before.wf(),
            0 <= i < before.buckets@.len(),
            after.buckets@.len() == before.buckets@.len(),
            forall|a: int| 0 <= a < before.buckets@.len() && a != i ==> after.buckets@[a] == before.buckets@[a],
            after.buckets@[i].user_id == before.buckets@[i].user_id,
            sorted_by_time(after.buckets@[i].transactions@),
        ensures
            after.wf(),
            forall|v: Seq<char>| #[trigger] after.has_user(v) == before.has_user(v),
            forall|v: Seq<char>| before.has_user(v) ==> after.index_of(v) == before.index_of(v),
            after.index_of(before.buckets@[i].user_id@) == i,
    {
        assert forall|a: int, b: int|
            0 <= a < b < after.buckets@.len() implies (#[trigger] after.buckets@[a]).user_id@
                != (#[trigger] after.buckets@[b]).user_id@ by {
            assert(before.buckets@[a].user_id@ != before.buckets@[b].user_id@);
        }
        assert forall|a: int| 0 <= a < after.buckets@.len() implies sorted_by_time(
            (#[trigger] after.buckets@[a]).transactions@) by {
            if a != i {
                assert(sorted_by_time(before.buckets@[a].transactions@));
            }
        }
        assert forall|v: Seq<char>| #[trigger] after.has_user(v) == before.has_user(v) by {
            if before.has_user(v) {
                let k = before.index_of(v);
                assert(after.buckets@[k].user_id@ == v);
            }
            if after.has_user(v) {
                let k = after.index_of(v);
                assert(before.buckets@[k].user_id@ == v);
            }
        }
        assert forall|v: Seq<char>| before.has_user(v) implies after.index_of(v) == before.index_of(v) by {
            let k = before.index_of(v);
            before.lemma_index_of(v, k);
            after.lemma_index_of(v, k);
        }
        after.lemma_index_of(before.buckets@[i].user_id@, i);
    }

    /// Appending a bucket for a new user, with sorted transactions, keeps the store well
    /// formed and every other user where it was.
    proof fn lemma_bucket_pushed(before: InmemoryStorage, after: InmemoryStorage, u: Seq<char>)
        requires
            before.wf(),
            !before.has_user(u),
            after.buckets@.len() == before.buckets@.len() + 1,
            forall|a: int| 0 <= a < before.buckets@.len() ==> after.buckets@[a] == before.buckets@[a],
            after.buckets@.last().user_id@ == u,
            sorted_by_time(after.buckets@.last().transactions@),
        ensures
            after.wf(),
            forall|v: Seq<char>| #[trigger] after.has_user(v) == (before.has_user(v) || v == u),
            forall|v: Seq<char>| before.has_user(v) ==> after.index_of(v) == before.index_of(v),
            after.index_of(u) == before.buckets@.len(),
    {
        let n = before.buckets@.len() as int;
        assert forall|a: int, b: int|
            0 <= a < b < after.buckets@.len() implies (#[trigger] after.buckets@[a]).user_id@
                != (#[trigger] after.buckets@[b]).user_id@ by {
            if b < n {
                assert(before.buckets@[a].user_id@ != before.buckets@[b].user_id@);
            } else {
                assert(before.buckets@[a].user_id@ != u);
            }
        }
        assert forall|a: int| 0 <= a < after.buckets@.len() implies sorted_by_time(
            (#[trigger] after.buckets@[a]).transactions@) by {
            if a < n {
                assert(sorted_by_time(before.buckets@[a].transactions@));
            }
        }
        assert forall|v: Seq<char>| #[trigger] after.has_user(v) == (before.has_user(v) || v == u) by {
            if before.has_user(v) {
                let k = before.index_of(v);
                assert(after.buckets@[k].user_id@ == v);
            }
            if v == u {
                assert(after.buckets@[n].user_id@ == v);
            }
            if after.has_user(v) && v != u {
                let k = after.index_of(v);
                assert(before.buckets@[k].user_id@ == v);
            }
        }
        assert forall|v: Seq<char>| before.has_user(v) implies after.index_of(v) == before.index_of(v) by {
            let k = before.index_of(v);
            before.lemma_index_of(v, k);
            after.lemma_index_of(v, k);
        }
        after.lemma_index_of(u, n);
    }

    pub fn new() -> (r: InmemoryStorage)
        ensures
            r.wf(),
            forall|u: Seq<char>| !(#[trigger] r.has_user(u)),
    {
        InmemoryStorage { buckets: Vec::new() }
    }

    /// The position of the user's bucket, if there is one.
    fn find_bucket(&self, user_id: &str) -> (r: Option<usize>)
        requires
            self.wf(),
        ensures
            match r {
                Some(i) => i < self.buckets@.len() && self.buckets@[i as int].user_id@ == user_id@,
                None => !self.has_user(user_id@),
            },
    {
        let key = user_id.to_owned();
        let mut i: usize = 0;
        while i < self.buckets.len()
            invariant
                key@ == user_id@,
                i <= self.buckets@.len(),
                forall|j: int| 0 <= j < i ==> (#[trigger] self.buckets@[j]).user_id@ != user_id@,
            decreases self.buckets@.len() - i,
        {
            if self.buckets[i].user_id == key {
                return Some(i);
            }
            i = i + 1;
        }
        None
    }

    /// Appends `new_pool` to the user's pools, making the user's bucket if there is none.
    pub fn add_pool(&mut self, user_id: &str, new_pool: MoneyPool) -> (r: Result<(), StorageError>)
        requires
            old(self).wf(),
        ensures
            r is Ok,
            final(self).wf(),
            forall|v: Seq<char>| #[trigger] final(self).has_user(v) == (old(self).has_user(v) || v == user_id@),
            forall|v: Seq<char>|
                #[trigger] final(self).pools_of(v) == if v == user_id@ {
                    old(self).pools_of(v).push(new_pool)
                } else {
                    old(self).pools_of(v)
                },
            forall|v: Seq<char>| #[trigger] final(self).transactions_of(v) == old(self).transactions_of(v),
    {
        let ghost before = *self;
        match self.find_bucket(user_id) {
            Some(i) => {
                self.buckets[i].pools.push(new_pool);
                proof {
                    InmemoryStorage::lemma_bucket_replaced(before, *self, i as int);
                    before.lemma_index_of(user_id@, i as int);
                }
            },
            None => {
                let mut pools: Vec<MoneyPool> = Vec::new();
                pools.push(new_pool);
                let bucket = UserBucket { user_id: user_id.to_owned(), pools, transactions: Vec::new() };
                self.buckets.push(bucket);
                proof {
                    InmemoryStorage::lemma_bucket_pushed(before, *self, user_id@);
                    assert(self.buckets@.last().pools@ =~= Seq::<MoneyPool>::empty().push(new_pool));
                }
            },
        }
        Ok(())
    }

    /// A copy of the user's pools, in the order they were added; none for an unknown user.
    pub fn load_pools(&self, user_id: &str) -> (r: Result<Vec<MoneyPool>, StorageError>)
        requires
            self.wf(),
        ensures
            r matches Ok(v) && v@ == self.pools_of(user_id@),
    {
        match self.find_bucket(user_id) {
            Some(i) => {
                proof {
                    self.lemma_index_of(user_id@, i as int);
                }
                let src = &self.buckets[i].pools;
                let mut out: Vec<MoneyPool> = Vec::new();
                let mut j: usize = 0;
                while j < src.len()
                    invariant
                        j <= src@.len(),
                        out@ == src@.subrange(0, j as int),
                    decreases src@.len() - j,
                {
                    out.push(src[j].duplicate());
                    j = j + 1;
                    assert(out@ =~= src@.subrange(0, j as int));
                }
                assert(out@ =~= src@);
                Ok(out)
            },
            None => Ok(Vec::new()),
        }
    }

    /// The first of the user's pools with the given id, or `None` if it has none.
    pub fn load_pool(&self, user_id: &str, pool_id: &str) -> (r: Result<Option<MoneyPool>, StorageError>)
        requires
            self.wf(),
        ensures
            r matches Ok(p) && p == first_pool(self.pools_of(user_id@), pool_id@),
    {
        let pools = match self.load_pools(user_id) {
            Ok(v) => v,
            Err(e) => {
                return Err(e);
            },
        };
        let key = pool_id.to_owned();
        let mut i: usize = 0;
        assert(pools@.subrange(0, pools@.len() as int) =~= pools@);
        while i < pools.len()
            invariant
                pools@ == self.pools_of(user_id@),
                key@ == pool_id@,
                i <= pools@.len(),
                first_pool(pools@, pool_id@) == first_pool(pools@.subrange(i as int, pools@.len() as int), pool_id@),
            decreases pools@.len() - i,
        {
            let ghost rest = pools@.subrange(i as int, pools@.len() as int);
            assert(rest.drop_first() =~= pools@.subrange(i + 1, pools@.len() as int));
            if pools[i].id == key {
                assert(rest[0] == pools@[i as int]);
                return Ok(Some(pools[i].duplicate()));
            }
            i = i + 1;
        }
        Ok(None)
    }

    /// Adds the transaction to the user's, making the user's bucket if there is none,
    /// and keeps them in timestamp order: it goes behind every transaction not later
    /// than it.
    pub fn add_transaction(&mut self, user_id: &str, transaction: Transaction) -> (r: Result<(), StorageError>)
        requires
            old(self).wf(),
        ensures
            r is Ok,
            final(self).wf(),
            forall|v: Seq<char>| #[trigger] final(self).has_user(v) == (old(self).has_user(v) || v == user_id@),
            forall|v: Seq<char>| #[trigger] final(self).pools_of(v) == old(self).pools_of(v),
            forall|v: Seq<char>|
                v != user_id@ ==> #[trigger] final(self).transactions_of(v) == old(self).transactions_of(v),
            placed_by_time(old(self).transactions_of(user_id@), transaction, final(self).transactions_of(user_id@)),
    {
        let ghost before = *self;
        match self.find_bucket(user_id) {
            Some(i) => {
                proof {
                    before.lemma_index_of(user_id@, i as int);
                }
                let k = insertion_point(&self.buckets[i].transactions, &transaction.timestamp);
                let ghost t = transaction;
                self.buckets[i].transactions.insert(k, transaction);
                proof {
                    let old_txs = before.buckets@[i as int].transactions@;
                    lemma_placed_sorted(old_txs, k as int, t);
                    InmemoryStorage::lemma_bucket_replaced(before, *self, i as int);
                    assert(placed_at(old_txs, t, self.transactions_of(user_id@), k as int));
                }
            },
            None => {
                let mut txs: Vec<Transaction> = Vec::new();
                let ghost t = transaction;
                txs.push(transaction);
                let bucket = UserBucket { user_id: user_id.to_owned(), pools: Vec::new(), transactions: txs };
                self.buckets.push(bucket);
                proof {
                    InmemoryStorage::lemma_bucket_pushed(before, *self, user_id@);
                    assert(self.buckets@.last().transactions@ =~= Seq::<Transaction>::empty().insert(0, t));
                    assert(placed_at(Seq::<Transaction>::empty(), t, self.buckets@.last().transactions@, 0));
                    assert(self.buckets@.last().pools@ =~= Seq::<MoneyPool>::empty());
                }
            },
        }
        Ok(())
    }

    /// The user's transactions that `filter` admits (all of them when it is `None`),
    /// newest first, skipping `offset` of them and keeping up to `count`; none for an
    /// unknown user.
    pub fn load_transactions(
        &self,
        user_id: &str,
        filter: Option<TransactionFilter>,
        offset: usize,
        count: usize,
    ) -> (r: Result<Vec<Transaction>, StorageError>)
        requires
            self.wf(),
        ensures
            r matches Ok(v) && v@ == query(self.transactions_of(user_id@), filter, offset as int, count as int),
    {
        match self.find_bucket(user_id) {
            None => {
                assert(page(newest_matching(seq![], filter), offset as int, count as int) =~= seq![]);
                Ok(Vec::new())
            },
            Some(i) => {
                proof {
                    self.lemma_index_of(user_id@, i as int);
                }
                let txs = &self.buckets[i].transactions;
                let mut out: Vec<Transaction> = Vec::new();
                let mut seen: usize = 0;
                let ghost mut matched: Seq<Transaction> = seq![];
                let n: usize = txs.len();
                let mut j: usize = n;
                assert(txs@.subrange(0, j as int) =~= txs@);
                while j > 0
                    invariant
                        n == txs@.len(),
                        j <= txs@.len(),
                        matched.len() <= txs@.len() - j,
                        seen == matched.len(),
                        newest_matching(txs@, filter) == matched + newest_matching(txs@.subrange(0, j as int), filter),
                        out@ == page(matched, offset as int, count as int),
                    decreases j,
                {
                    let ghost pre = txs@.subrange(0, j as int);
                    assert(pre.drop_last() =~= txs@.subrange(0, j - 1));
                    assert(pre.last() == txs@[j - 1]);
                    let t = &txs[j - 1];
                    if admits_opt(&filter, t) {
                        let ghost m2 = matched.push(*t);
                        if seen >= offset && out.len() < count {
                            out.push(t.duplicate());
                        }
                        assert(seen < txs@.len());
                        seen = seen + 1;
                        proof {
                            assert(matched + (seq![*t] + newest_matching(txs@.subrange(0, j - 1), filter))
                                =~= m2 + newest_matching(txs@.subrange(0, j - 1), filter));
                            assert(out@ =~= page(m2, offset as int, count as int));
                            matched = m2;
                        }
                    }
                    j = j - 1;
                }
                assert(txs@.subrange(0, 0) =~= seq![]);
                assert(matched + seq![] =~= matched);
                Ok(out)
            },
        }
    }
}


#[verifier::external_type_specification]
#[verifier::external_body]
#[verifier::reject_recursive_types(T)]
pub struct ExTokioMutex<T: ?Sized>(tokio::sync::Mutex<T>);

/// Relies on `tokio::sync::Mutex::new`: a lock around the store, not held by anyone yet.
#[verifier::external_body]
fn new_lock(store: InmemoryStorage) -> (r: tokio::sync::Mutex<InmemoryStorage>) {
    tokio::sync::Mutex::new(store)
}

/// An in-memory store behind one lock, shared by every clone of the handle. Each
/// operation takes the lock for its own duration only, so operations on the store run
/// one at a time, in the order the lock is granted.
#[derive(Clone)]
pub struct SharedInmemoryStorage {
    pub inner: std::sync::Arc<tokio::sync::Mutex<InmemoryStorage>>,
}

impl SharedInmemoryStorage {
    /// A handle to a new, empty store.
    pub fn new() -> (r: SharedInmemoryStorage) {
        SharedInmemoryStorage { inner: std::sync::Arc::new(new_lock(InmemoryStorage::new())) }
    }
}

/// With no filter, the query order is the stored order reversed.
proof fn lemma_unfiltered_reversed(s: Seq<Transaction>)
    ensures
        newest_matching(s, None) == s.reverse(),
    decreases s.len(),
{
    if s.len() > 0 {
        lemma_unfiltered_reversed(s.drop_last());
        assert(newest_matching(s, None) =~= s.reverse());
    } else {
        assert(newest_matching(s, None) =~= s.reverse());
    }
}

/// A user that the store has never seen has no pools, no pool under any id, and no
/// transactions on any page of any query.
pub proof fn unseen_user_reads_empty(
    st: InmemoryStorage,
    u: Seq<char>,
    pool_id: Seq<char>,
    f: Option<TransactionFilter>,
    offset: int,
    count: int,
)
    requires
        st.wf(),
        !st.has_user(u),
        0 <= offset,
        0 <= count,
    ensures
        st.pools_of(u) == Seq::<MoneyPool>::empty(),
        first_pool(st.pools_of(u), pool_id) is None,
        st.transactions_of(u) == Seq::<Transaction>::empty(),
        query(st.transactions_of(u), f, offset, count) == Seq::<Transaction>::empty(),
{
    assert(query(st.transactions_of(u), f, offset, count) =~= Seq::<Transaction>::empty());
}

/// Pools added one after another for a user are listed after the user's earlier pools,
/// in the order they were added; so the last one added is listed.
pub proof fn pools_listed_in_insertion_order<S: Storage>(states: Seq<S>, u: Seq<char>, ps: Seq<MoneyPool>)
    requires
        states.len() == ps.len() + 1,
        forall|i: int| 0 <= i < ps.len() ==> pool_added(#[trigger] states[i], states[i + 1], u, ps[i]),
    ensures
        states.last().pools_of(u) == states[0].pools_of(u) + ps,
        ps.len() > 0 ==> states.last().pools_of(u).contains(ps.last()),
    decreases ps.len(),
{
    if ps.len() > 0 {
        let n = ps.len() as int;
        let st2 = states.drop_last();
        let ps2 = ps.drop_last();
        assert forall|i: int| 0 <= i < ps2.len() implies pool_added(#[trigger] st2[i], st2[i + 1], u, ps2[i]) by {
            assert(pool_added(states[i], states[i + 1], u, ps[i]));
        }
        pools_listed_in_insertion_order(st2, u, ps2);
        assert(pool_added(states[n - 1], states[n], u, ps[n - 1]));
        assert(states.last().pools_of(u) =~= states[0].pools_of(u) + ps);
        let all = states.last().pools_of(u);
        assert(all[all.len() - 1] == ps.last());
    } else {
        assert(states[0].pools_of(u) + ps =~= states[0].pools_of(u));
    }
}

/// Transactions added one after another for a user whom the store had not seen are all
/// kept, once each, and stay in timestamp order, whatever order they came in.
pub proof fn transactions_kept_in_time_order<S: Storage>(states: Seq<S>, u: Seq<char>, ts: Seq<Transaction>)
    requires
        states.len() == ts.len() + 1,
        states[0].transactions_of(u) == Seq::<Transaction>::empty(),
        forall|i: int| 0 <= i < ts.len() ==> transaction_added(#[trigger] states[i], states[i + 1], u, ts[i]),
    ensures
        states.last().transactions_of(u).to_multiset() == ts.to_multiset(),
        states.last().transactions_of(u).len() == ts.len(),
        sorted_by_time(states.last().transactions_of(u)),
    decreases ts.len(),
{
    broadcast use vstd::seq_lib::to_multiset_insert, vstd::seq_lib::to_multiset_build;

    if ts.len() > 0 {
        let n = ts.len() as int;
        let st2 = states.drop_last();
        let ts2 = ts.drop_last();
        assert forall|i: int| 0 <= i < ts2.len() implies transaction_added(#[trigger] st2[i], st2[i + 1], u, ts2[i]) by {
            assert(transaction_added(states[i], states[i + 1], u, ts[i]));
        }
        transactions_kept_in_time_order(st2, u, ts2);
        assert(transaction_added(states[n - 1], states[n], u, ts[n - 1]));
        let before = states[n - 1].transactions_of(u);
        let after = states[n].transactions_of(u);
        let k = choose|k: int| #[trigger] placed_at(before, ts[n - 1], after, k);
        assert(st2.last() == states[n - 1]);
        assert(before.to_multiset() == ts2.to_multiset());
        assert(after.to_multiset() == before.to_multiset().insert(ts[n - 1]));
        assert(ts2.push(ts[n - 1]) =~= ts);
        assert(ts.to_multiset() == ts2.to_multiset().insert(ts[n - 1]));
        lemma_placed_sorted(before, k, ts[n - 1]);
    } else {
        assert(states[0].transactions_of(u) =~= Seq::<Transaction>::empty());
        assert(ts =~= Seq::<Transaction>::empty());
    }
}

/// Read back unfiltered and in one page as large as their number, the transactions of
/// the law above come all of them, newest first.
pub proof fn transactions_listed_newest_first<S: Storage>(states: Seq<S>, u: Seq<char>, ts: Seq<Transaction>)
    requires
        states.len() == ts.len() + 1,
        states[0].transactions_of(u) == Seq::<Transaction>::empty(),
        forall|i: int| 0 <= i < ts.len() ==> transaction_added(#[trigger] states[i], states[i + 1], u, ts[i]),
    ensures
        ({
            let r = query(states.last().transactions_of(u), None, 0, ts.len() as int);
            &&& r.len() == ts.len()
            &&& r.to_multiset() == ts.to_multiset()
            &&& forall|i: int, j: int| 0 <= i <= j < r.len() ==> (#[trigger] r[j]).timestamp.le((#[trigger] r[i]).timestamp)
        }),
{
    transactions_kept_in_time_order(states, u, ts);
    let s = states.last().transactions_of(u);
    lemma_unfiltered_reversed(s);
    s.lemma_reverse_to_multiset();
    let r = query(s, None, 0, ts.len() as int);
    assert(r =~= s.reverse());
    assert forall|i: int, j: int| 0 <= i <= j < r.len() implies (#[trigger] r[j]).timestamp.le((#[trigger] r[i]).timestamp) by {
        assert(s[s.len() - 1 - j].timestamp.le(s[s.len() - 1 - i].timestamp));
    }
}

} // verus!
