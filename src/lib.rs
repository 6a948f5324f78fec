pub mod api_types;
pub mod currency;
pub mod money_pool;
pub mod storage;
pub mod timestamp;
pub mod transaction;
