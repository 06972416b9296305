use vstd::prelude::*;
use vstd::utf8::encode_utf8;

use crate::transaction::{PgTransaction, NUM_TRANSACTION_PARTITIONS};

verus! {

/// Modulus of the signature hash.
pub const HASH_MODULUS: u64 = 1000000007;

/// Multiplier of the signature hash.
pub const HASH_BASE: u64 = 257;

/// Polynomial hash of a signature's UTF-8 bytes, modulo a prime: it depends on the
/// bytes alone, so every process and every restart computes the same value.
pub open spec fn stable_hash(b: Seq<u8>) -> int
    decreases b.len(),
{
    if b.len() == 0 {
        0
    } else {
        (stable_hash(b.drop_last()) * HASH_BASE + b.last()) % (HASH_MODULUS as int)
    }
}

/// The scraper partition that owns a signature.
pub open spec fn spec_partition(b: Seq<u8>) -> int {
    stable_hash(b) % (NUM_TRANSACTION_PARTITIONS as int)
}

pub fn partition(signature: &str) -> (r: i32)
    ensures
        r == spec_partition(encode_utf8(signature@)),
        0 <= r < NUM_TRANSACTION_PARTITIONS,
{
    let bytes = signature.as_bytes();
    let mut h: u64 = 0;
    let mut k: usize = 0;
    while k < bytes.len()
        invariant
            bytes@ == encode_utf8(signature@),
            k <= bytes@.len(),
            h < HASH_MODULUS,
            h == stable_hash(bytes@.subrange(0, k as int)),
        decreases bytes@.len() - k,
    {
        proof {
            let next = bytes@.subrange(0, k + 1);
            assert(next.drop_last() == bytes@.subrange(0, k as int));
            assert(next.last() == bytes@[k as int]);
        }
        h = (h * HASH_BASE + bytes[k] as u64) % HASH_MODULUS;
        k = k + 1;
    }
    proof {
        assert(bytes@.subrange(0, bytes@.len() as int) == bytes@);
    }
    (h % NUM_TRANSACTION_PARTITIONS) as i32
}

/// A signature as the RPC lists it.
#[derive(Clone, Debug)]
pub struct SignatureInfo {
    pub signature: String,
    pub slot: u64,
    /// Unix seconds of the block.
    pub block_time: i64,
    pub err: bool,
}

/// `row` is the stored form of a newly listed signature: unprocessed, in its partition.
pub open spec fn new_row(row: PgTransaction, info: SignatureInfo, program_pk: Seq<char>) -> bool {
    &&& row.signature == info.signature
    &&& row.program_pk@ == program_pk
    &&& row.block_datetime == info.block_time
    &&& row.slot == info.slot
    &&& row.err == info.err
    &&& !row.processed
    &&& row.worker_partition == spec_partition(encode_utf8(info.signature@))
}


/// The rows stored for newly listed signatures, in order.
pub fn build_signature_rows(infos: Vec<SignatureInfo>, program_pk: &String) -> (rows: Vec<PgTransaction>)
    ensures
        rows@.len() == infos@.len(),
        forall|k: int| 0 <= k < rows@.len() ==> new_row(#[trigger] rows@[k], infos@[k], program_pk@),
{
    let ghost input = infos@;
    let mut rows: Vec<PgTransaction> = Vec::new();
    let mut k: usize = 0;
    let n = infos.len();
    while k < n
        invariant
            n == input.len(),
            k <= n,
            infos@ == input,
            rows@.len() == k,
            forall|t: int| 0 <= t < k ==> new_row(#[trigger] rows@[t], input[t], program_pk@),
        decreases n - k,
    {
        let sig = infos[k].signature.clone();
        let p = partition(sig.as_str());
        let row = PgTransaction {
            signature: sig,
            program_pk: program_pk.clone(),
            block_datetime: infos[k].block_time,
            slot: infos[k].slot,
            err: infos[k].err,
            processed: false,
            worker_partition: p,
        };
        rows.push(row);
        k = k + 1;
    }
    rows
}

/// Every process computes the same partition for the same signature text, and it names
/// one of the scraper partitions.
pub proof fn lemma_partition_deterministic(a: Seq<char>, b: Seq<char>)
    requires
        a == b,
    ensures
        spec_partition(encode_utf8(a)) == spec_partition(encode_utf8(b)),
        0 <= spec_partition(encode_utf8(a)) < NUM_TRANSACTION_PARTITIONS,
{
}


/// Position of the first listed signature with the text `known`, or the page length.
pub open spec fn first_known(page: Seq<SignatureInfo>, known: Seq<char>, i: int) -> int
    decreases page.len() - i,
{
    if i < 0 || i >= page.len() {
        page.len() as int
    } else if page[i].signature@ == known {
        i
    } else {
        first_known(page, known, i + 1)
    }
}

/// Signatures of a page, listed newest first, that are newer than the newest one already
/// stored: the page up to that signature, or the whole page when it is not on it.
pub fn take_new_signatures(listed: Vec<SignatureInfo>, newest_known: &Option<String>) -> (r: Vec<
    SignatureInfo,
>)
    ensures
        r@ == match newest_known {
            Some(k) => listed@.subrange(0, first_known(listed@, k@, 0)),
            None => listed@,
        },
{
    let ghost p0 = listed@;
    let mut page = listed;
    let known = match newest_known {
        Some(k) => k,
        None => {
            return page;
        },
    };
    let mut i: usize = 0;
    while i < page.len()
        invariant
            page@ == p0,
            p0 == listed@,
            newest_known == Some(*known),
            i <= p0.len(),
            first_known(p0, known@, 0) == first_known(p0, known@, i as int),
        decreases p0.len() - i,
    {
        if page[i].signature == *known {
            page.truncate(i);
            return page;
        }
        i = i + 1;
    }
    proof {
        assert(p0.subrange(0, p0.len() as int) == p0);
    }
    page
}

} // verus!
