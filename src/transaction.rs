use vstd::prelude::*;

verus! {

/// Number of transaction-scraper partitions.
pub const NUM_TRANSACTION_PARTITIONS: u64 = 3;

/// One signature of the program's transaction history, as stored.
#[derive(Clone, Debug)]
pub struct PgTransaction {
    pub signature: String,
    pub program_pk: String,
    /// Unix seconds of the block.
    pub block_datetime: i64,
    pub slot: u64,
    pub err: bool,
    pub processed: bool,
    pub worker_partition: i32,
}

} // verus!
