use vstd::prelude::*;

use crate::codec::{base58_decoded, base58_encoded, base64_decoded, decode_base58, decode_base64};
use crate::openbook_v2::{
    fill_from_record, fill_log_decodes, market_from_record, market_log_decodes, record_fees_defined,
    FillLog, MarketMetaDataLog, OpenBookFill, OpenBookMarketMetadata,
};

verus! {

/// Bytes of a fill record's event discriminator.
pub const FILL_DISCRIMINATOR_LEN: usize = 8;

/// Bytes of a market record's event discriminator and padding.
pub const MARKET_DISCRIMINATOR_LEN: usize = 16;

/// The prefix of a log line that carries event data.
pub open spec fn program_data_prefix() -> Seq<char> {
    seq!['P', 'r', 'o', 'g', 'r', 'a', 'm', ' ', 'd', 'a', 't', 'a', ':', ' ']
}

/// The word whose presence in a log marks a market creation.
pub open spec fn create_market_word() -> Seq<char> {
    seq!['C', 'r', 'e', 'a', 't', 'e', 'M', 'a', 'r', 'k', 'e', 't']
}

pub open spec fn has_prefix(s: Seq<char>, p: Seq<char>) -> bool {
    p.len() <= s.len() && s.subrange(0, p.len() as int) == p
}

pub open spec fn occurs_at(s: Seq<char>, p: Seq<char>, i: int) -> bool {
    0 <= i && i + p.len() <= s.len() && s.subrange(i, i + p.len()) == p
}

pub open spec fn contains_text(s: Seq<char>, p: Seq<char>) -> bool {
    exists|i: int| occurs_at(s, p, i)
}

/// Whether `p` occurs in `s`.
pub fn str_contains(s: &str, p: &str) -> (r: bool)
    ensures
        r == contains_text(s@, p@),
{
    let n = s.unicode_len();
    let m = p.unicode_len();
    if m == 0 {
        proof {
            assert(s@.subrange(0, 0) =~= p@);
            assert(occurs_at(s@, p@, 0));
        }
        return true;
    }
    let mut i: usize = 0;
    while i < n
        invariant
            n == s@.len(),
            m == p@.len(),
            m >= 1,
            i <= n,
            forall|k: int| 0 <= k < i ==> !occurs_at(s@, p@, k),
        decreases n - i,
    {
        if m <= n - i {
            let mut j: usize = 0;
            let mut same = true;
            proof {
                assert(s@.subrange(i as int, i as int) =~= p@.subrange(0, 0));
            }
            while j < m
                invariant
                    n == s@.len(),
                    m == p@.len(),
                    i + m <= n,
                    j <= m,
                    same == (s@.subrange(i as int, i + j) == p@.subrange(0, j as int)),
                decreases m - j,
            {
                let a = s.get_char(i + j);
                let b = p.get_char(j);
                proof {
                    assert(s@.subrange(i as int, i + j + 1) =~= s@.subrange(i as int, i + j).push(a));
                    assert(p@.subrange(0, j + 1) =~= p@.subrange(0, j as int).push(b));
                    if s@.subrange(i as int, i + j + 1) == p@.subrange(0, j + 1) {
                        assert(s@.subrange(i as int, i + j) =~= s@.subrange(i as int, i + j + 1).subrange(0, j as int));
                        assert(p@.subrange(0, j as int) =~= p@.subrange(0, j + 1).subrange(0, j as int));
                        assert(a == s@.subrange(i as int, i + j + 1)[j as int]);
                        assert(b == p@.subrange(0, j + 1)[j as int]);
                    }
                }
                same = same && a == b;
                j = j + 1;
            }
            proof {
                assert(p@.subrange(0, m as int) =~= p@);
            }
            if same {
                proof {
                    assert(occurs_at(s@, p@, i as int));
                }
                return true;
            }
        }
        i = i + 1;
    }
    proof {
        assert forall|k: int| !occurs_at(s@, p@, k) by {
            if k >= n {
                assert(k + p@.len() > s@.len());
            }
        }
    }
    false
}

/// The text after the event-data prefix, if the line has it.
pub fn strip_program_data(l: &str) -> (r: Option<&str>)
    ensures
        r is Some <==> has_prefix(l@, program_data_prefix()),
        r matches Some(t) ==> t@ == l@.subrange(14, l@.len() as int),
{
    let prefix = "Program data: ";
    proof {
        reveal_strlit("Program data: ");
        assert(prefix@ == program_data_prefix());
    }
    let n = l.unicode_len();
    if n < 14 {
        return None;
    }
    let head = l.substring_char(0, 14);
    let mut k: usize = 0;
    while k < 14
        invariant
            head@ == l@.subrange(0, 14),
            prefix@ == program_data_prefix(),
            n == l@.len(),
            n >= 14,
            k <= 14,
            forall|t: int| 0 <= t < k ==> head@[t] == prefix@[t],
        decreases 14 - k,
    {
        if head.get_char(k) != prefix.get_char(k) {
            return None;
        }
        k = k + 1;
    }
    proof {
        assert(head@ == prefix@);
    }
    Some(l.substring_char(14, n))
}

/// Index of the first market of `ms` from `i` on whose key text is `pk`.
pub open spec fn first_market(ms: Seq<OpenBookMarketMetadata>, pk: Seq<char>, i: int) -> Option<int>
    decreases ms.len() - i,
{
    if i < 0 || i >= ms.len() {
        None
    } else if ms[i].market_pk@ == pk {
        Some(i)
    } else {
        first_market(ms, pk, i + 1)
    }
}

/// Position in the registry of the market whose key text is `pk`.
pub fn find_market(markets: &Vec<OpenBookMarketMetadata>, pk: &String) -> (r: Option<usize>)
    ensures
        r matches Some(k) ==> first_market(markets@, pk@, 0) == Some(k as int),
        r is None ==> first_market(markets@, pk@, 0) is None,
        r matches Some(k) ==> k < markets@.len(),
{
    let mut k: usize = 0;
    while k < markets.len()
        invariant
            k <= markets@.len(),
            first_market(markets@, pk@, 0) == first_market(markets@, pk@, k as int),
        decreases markets@.len() - k,
    {
        if markets[k].market_pk == *pk {
            return Some(k);
        }
        k = k + 1;
    }
    None
}

/// The record bytes that a log line carries: base64 after the event-data prefix.
pub open spec fn line_record(l: Seq<char>) -> Option<Seq<u8>> {
    if has_prefix(l, program_data_prefix()) {
        base64_decoded(l.subrange(14, l.len() as int))
    } else {
        None
    }
}

/// The registry position of the market named by the fill record in `b`.
pub open spec fn record_market(b: Seq<u8>, ms: Seq<OpenBookMarketMetadata>) -> Option<int> {
    first_market(ms, base58_encoded(b.subrange(8, 40)), 0)
}

/// A log line yields a fill: it carries a fill record of a registered market whose fees
/// can be computed.
pub open spec fn line_yields(l: Seq<char>, ms: Seq<OpenBookMarketMetadata>) -> bool {
    match line_record(l) {
        Some(b) => fill_log_decodes(b, 8) && match record_market(b, ms) {
            Some(i) => record_fees_defined(b, 8, ms[i]),
            None => false,
        },
        None => false,
    }
}

/// `f` is the fill that the log line yields.
pub open spec fn line_fill(
    f: OpenBookFill,
    l: Seq<char>,
    ms: Seq<OpenBookMarketMetadata>,
    slot: u64,
    block_time: i64,
) -> bool {
    let b = line_record(l).unwrap();
    fill_from_record(f, b, 8, ms[record_market(b, ms).unwrap()], slot, block_time)
}

/// How many of the first `n` lines yield a fill.
pub open spec fn fill_count(logs: Seq<String>, ms: Seq<OpenBookMarketMetadata>, n: int) -> int
    decreases n,
{
    if n <= 0 {
        0
    } else {
        fill_count(logs, ms, n - 1) + if line_yields(logs[n - 1]@, ms) {
            1int
        } else {
            0int
        }
    }
}

proof fn lemma_fill_count_nonneg(logs: Seq<String>, ms: Seq<OpenBookMarketMetadata>, a: int)
    ensures
        0 <= fill_count(logs, ms, a),
    decreases a,
{
    if a > 0 {
        lemma_fill_count_nonneg(logs, ms, a - 1);
    }
}

proof fn lemma_fill_count_monotone(logs: Seq<String>, ms: Seq<OpenBookMarketMetadata>, a: int, b: int)
    requires
        0 <= a <= b,
    ensures
        0 <= fill_count(logs, ms, a) <= fill_count(logs, ms, b),
    decreases b - a,
{
    if b > a {
        lemma_fill_count_monotone(logs, ms, a, b - 1);
    } else {
        lemma_fill_count_nonneg(logs, ms, a);
    }
}

/// The fill that one log line yields, if any.
pub fn parse_fill_line(
    l: &String,
    target_markets: &Vec<OpenBookMarketMetadata>,
    block_time: i64,
    slot: u64,
) -> (r: Option<OpenBookFill>)
    ensures
        r is Some <==> line_yields(l@, target_markets@),
        r matches Some(f) ==> line_fill(f, l@, target_markets@, slot, block_time),
{
    let data = match strip_program_data(l.as_str()) {
        Some(d) => d,
        None => {
            return None;
        },
    };
    let bytes = match decode_base64(data) {
        Some(b) => b,
        None => {
            return None;
        },
    };
    let log = match FillLog::deserialize(&bytes, FILL_DISCRIMINATOR_LEN) {
        Some(f) => f,
        None => {
            return None;
        },
    };
    let key = crate::codec::encode_base58(&log.market);
    proof {
        assert(log.market@ == bytes@.subrange(8, 40));
    }
    let idx = match find_market(target_markets, &key) {
        Some(i) => i,
        None => {
            return None;
        },
    };
    OpenBookFill::from_log(log, &target_markets[idx], slot, block_time)
}

/// The fills that a transaction's log lines yield, in the order of the lines; None when
/// there are none.
pub fn try_parse_openbook_fills_from_logs(
    logs: &Vec<String>,
    target_markets: &Vec<OpenBookMarketMetadata>,
    block_time: i64,
    slot: u64,
) -> (r: Option<Vec<OpenBookFill>>)
    ensures
        r is Some <==> fill_count(logs@, target_markets@, logs@.len() as int) > 0,
        r matches Some(v) ==> v@.len() == fill_count(logs@, target_markets@, logs@.len() as int),
        r matches Some(v) ==> forall|k: int|
            0 <= k < logs@.len() && line_yields(#[trigger] logs@[k]@, target_markets@)
                ==> line_fill(
                v@[fill_count(logs@, target_markets@, k)],
                logs@[k]@,
                target_markets@,
                slot,
                block_time,
            ),
{
    let mut fills: Vec<OpenBookFill> = Vec::new();
    let mut k: usize = 0;
    while k < logs.len()
        invariant
            k <= logs@.len(),
            fills@.len() == fill_count(logs@, target_markets@, k as int),
            forall|t: int|
                0 <= t < k && line_yields(#[trigger] logs@[t]@, target_markets@) ==> line_fill(
                    fills@[fill_count(logs@, target_markets@, t)],
                    logs@[t]@,
                    target_markets@,
                    slot,
                    block_time,
                ),
        decreases logs@.len() - k,
    {
        proof {
            assert forall|t: int| 0 <= t < k implies fill_count(logs@, target_markets@, t)
                <= fill_count(logs@, target_markets@, k as int) && (line_yields(
                logs@[t]@,
                target_markets@,
            ) ==> fill_count(logs@, target_markets@, t) < fill_count(
                logs@,
                target_markets@,
                k as int,
            )) by {
                lemma_fill_count_monotone(logs@, target_markets@, t + 1, k as int);
            }
        }
        let ghost before = fills@;
        let parsed = parse_fill_line(&logs[k], target_markets, block_time, slot);
        let ghost got = parsed;
        if let Some(f) = parsed {
            fills.push(f);
        }
        proof {
            if got is Some {
                assert(fills@ == before.push(got.unwrap()));
            } else {
                assert(fills@ == before);
            }
            assert forall|x: int| 0 <= x < before.len() implies fills@[x] == before[x] by {
                if got is Some {
                    assert(fills@[x] == before.push(got.unwrap())[x]);
                }
            }
            assert(fill_count(logs@, target_markets@, k + 1) == fill_count(
                logs@,
                target_markets@,
                k as int,
            ) + if line_yields(logs@[k as int]@, target_markets@) {
                1int
            } else {
                0int
            });
            assert forall|t: int|
                0 <= t < k + 1 && line_yields(#[trigger] logs@[t]@, target_markets@) implies line_fill(
                fills@[fill_count(logs@, target_markets@, t)],
                logs@[t]@,
                target_markets@,
                slot,
                block_time,
            ) by {
                if t < k {
                    lemma_fill_count_monotone(logs@, target_markets@, t + 1, k as int);
                    lemma_fill_count_nonneg(logs@, target_markets@, t);
                    assert(fill_count(logs@, target_markets@, t + 1) == fill_count(
                        logs@,
                        target_markets@,
                        t,
                    ) + 1);
                    assert(before.len() == fill_count(logs@, target_markets@, k as int));
                    assert(fill_count(logs@, target_markets@, t) < before.len());
                    let x = fill_count(logs@, target_markets@, t);
                    assert(fills@[x] == before[x]);
                }
            }
        }
        k = k + 1;
    }
    if fills.len() > 0 {
        Some(fills)
    } else {
        None
    }
}


/// Data of one inner instruction, as the RPC hands it over.
#[derive(Clone, Debug)]
pub enum InstructionData {
    /// Base58 data of a compiled instruction.
    Compiled(String),
    /// The `data` entry of a parsed instruction's object, when it is a string.
    Parsed(Option<String>),
    /// Base58 data of a partially decoded instruction.
    PartiallyDecoded(String),
}

/// What a transaction's status metadata holds that decoding reads.
#[derive(Clone, Debug)]
pub struct TransactionMeta {
    pub log_messages: Option<Vec<String>>,
    /// Inner instructions of all groups, in order.
    pub inner_instructions: Option<Vec<InstructionData>>,
}

/// A fetched transaction.
#[derive(Clone, Debug)]
pub struct RpcTransaction {
    pub slot: u64,
    /// Unix seconds of the block.
    pub block_time: i64,
    pub meta: Option<TransactionMeta>,
}

pub open spec fn instruction_text(i: InstructionData) -> Option<Seq<char>> {
    match i {
        InstructionData::Compiled(d) => Some(d@),
        InstructionData::Parsed(d) => match d {
            Some(t) => Some(t@),
            None => None,
        },
        InstructionData::PartiallyDecoded(d) => Some(d@),
    }
}

/// The record bytes that an instruction carries: its base58 data.
pub open spec fn instruction_record(i: InstructionData) -> Option<Seq<u8>> {
    match instruction_text(i) {
        Some(t) => base58_decoded(t),
        None => None,
    }
}

pub open spec fn data_yields_market(b: Option<Seq<u8>>) -> bool {
    match b {
        Some(bytes) => market_log_decodes(bytes, 16),
        None => false,
    }
}

/// The market that base58 `data` announces, if it holds a market record after the
/// discriminator and padding.
pub fn parse_market_from_data(data: &str, block_time: i64, program_pk: &String) -> (r: Option<
    OpenBookMarketMetadata,
>)
    ensures
        r is Some <==> data_yields_market(base58_decoded(data@)),
        r matches Some(m) ==> market_from_record(
            m,
            base58_decoded(data@).unwrap(),
            16,
            program_pk@,
            block_time,
        ),
{
    let bytes = match decode_base58(data) {
        Some(b) => b,
        None => {
            return None;
        },
    };
    match MarketMetaDataLog::deserialize(&bytes, MARKET_DISCRIMINATOR_LEN) {
        Some(e) => Some(OpenBookMarketMetadata::from_event(e, block_time, program_pk)),
        None => None,
    }
}

/// How many of the first `n` instructions announce a market.
pub open spec fn market_count(ixs: Seq<InstructionData>, n: int) -> int
    decreases n,
{
    if n <= 0 {
        0
    } else {
        market_count(ixs, n - 1) + if data_yields_market(instruction_record(ixs[n - 1])) {
            1int
        } else {
            0int
        }
    }
}

proof fn lemma_market_count_monotone(ixs: Seq<InstructionData>, a: int, b: int)
    requires
        0 <= a <= b,
    ensures
        0 <= market_count(ixs, a) <= market_count(ixs, b),
    decreases b,
{
    if b > 0 {
        if a == b {
            lemma_market_count_monotone(ixs, a - 1, b - 1);
        } else {
            lemma_market_count_monotone(ixs, a, b - 1);
        }
    }
}

pub open spec fn mentions_create_market(logs: Seq<String>) -> bool {
    exists|k: int| 0 <= k < logs.len() && contains_text(#[trigger] logs[k]@, create_market_word())
}

/// Whether the transaction creates markets: some log line mentions it.
pub open spec fn creates_markets(meta: TransactionMeta) -> bool {
    match meta.log_messages {
        Some(l) => mentions_create_market(l@),
        None => false,
    }
}

/// Instructions examined for new markets.
pub open spec fn market_instructions(meta: TransactionMeta) -> Seq<InstructionData> {
    if creates_markets(meta) {
        match meta.inner_instructions {
            Some(ixs) => ixs@,
            None => Seq::empty(),
        }
    } else {
        Seq::empty()
    }
}

/// The markets that a transaction announces, in the order of its inner instructions;
/// None when there are none.
pub fn try_parse_new_market(meta: &TransactionMeta, block_time: i64, program_pk: &String) -> (r:
    Option<Vec<OpenBookMarketMetadata>>)
    ensures
        ({
            let ixs = market_instructions(*meta);
            &&& r is Some <==> market_count(ixs, ixs.len() as int) > 0
            &&& r matches Some(v) ==> v@.len() == market_count(ixs, ixs.len() as int)
            &&& r matches Some(v) ==> forall|k: int|
                0 <= k < ixs.len() && data_yields_market(#[trigger] instruction_record(ixs[k]))
                    ==> market_from_record(
                    v@[market_count(ixs, k)],
                    instruction_record(ixs[k]).unwrap(),
                    16,
                    program_pk@,
                    block_time,
                )
        }),
{
    let mut markets: Vec<OpenBookMarketMetadata> = Vec::new();
    let logs = match &meta.log_messages {
        Some(l) => l,
        None => {
            return None;
        },
    };
    let word = "CreateMarket";
    proof {
        reveal_strlit("CreateMarket");
        assert(word@ == create_market_word());
    }
    let mut found = false;
    let mut j: usize = 0;
    while j < logs.len()
        invariant
            word@ == create_market_word(),
            j <= logs@.len(),
            found == exists|t: int| 0 <= t < j && contains_text(#[trigger] logs@[t]@, create_market_word()),
        decreases logs@.len() - j,
    {
        if str_contains(logs[j].as_str(), word) {
            found = true;
        }
        j = j + 1;
    }
    if !found {
        return None;
    }
    let ixs = match &meta.inner_instructions {
        Some(i) => i,
        None => {
            return None;
        },
    };
    let ghost is = ixs@;
    proof {
        assert(market_instructions(*meta) == is);
    }
    let mut k: usize = 0;
    while k < ixs.len()
        invariant
            is == ixs@,
            k <= is.len(),
            markets@.len() == market_count(is, k as int),
            forall|t: int|
                0 <= t < k && data_yields_market(#[trigger] instruction_record(is[t]))
                    ==> market_from_record(
                    markets@[market_count(is, t)],
                    instruction_record(is[t]).unwrap(),
                    16,
                    program_pk@,
                    block_time,
                ),
        decreases is.len() - k,
    {
        let parsed = match &ixs[k] {
            InstructionData::Compiled(d) => parse_market_from_data(d.as_str(), block_time, program_pk),
            InstructionData::Parsed(d) => match d {
                Some(t) => parse_market_from_data(t.as_str(), block_time, program_pk),
                None => None,
            },
            InstructionData::PartiallyDecoded(d) => parse_market_from_data(
                d.as_str(),
                block_time,
                program_pk,
            ),
        };
        let ghost before = markets@;
        let ghost got = parsed;
        if let Some(m) = parsed {
            markets.push(m);
        }
        proof {
            assert(got is Some <==> data_yields_market(instruction_record(is[k as int])));
            if got is Some {
                assert(markets@ == before.push(got.unwrap()));
            } else {
                assert(markets@ == before);
            }
            assert forall|x: int| 0 <= x < before.len() implies markets@[x] == before[x] by {
                if got is Some {
                    assert(markets@[x] == before.push(got.unwrap())[x]);
                }
            }
            assert forall|t: int|
                0 <= t < k + 1 && data_yields_market(#[trigger] instruction_record(is[t]))
                    implies market_from_record(
                markets@[market_count(is, t)],
                instruction_record(is[t]).unwrap(),
                16,
                program_pk@,
                block_time,
            ) by {
                if t < k {
                    lemma_market_count_monotone(is, t + 1, k as int);
                    lemma_market_count_monotone(is, t, t);
                    let x = market_count(is, t);
                    assert(markets@[x] == before[x]);
                }
            }
        }
        k = k + 1;
    }
    if markets.len() > 0 {
        Some(markets)
    } else {
        None
    }
}


/// Log lines of a fetched transaction; none for a failed fetch.
pub open spec fn txn_logs(t: Option<RpcTransaction>) -> Seq<String> {
    match t {
        Some(tx) => match tx.meta {
            Some(m) => match m.log_messages {
                Some(l) => l@,
                None => Seq::empty(),
            },
            None => Seq::empty(),
        },
        None => Seq::empty(),
    }
}

/// Instructions of a fetched transaction examined for new markets.
pub open spec fn txn_market_instructions(t: Option<RpcTransaction>) -> Seq<InstructionData> {
    match t {
        Some(tx) => match tx.meta {
            Some(m) => market_instructions(m),
            None => Seq::empty(),
        },
        None => Seq::empty(),
    }
}

/// Fills yielded by the first `k` transactions.
pub open spec fn fills_before(
    txns: Seq<Option<RpcTransaction>>,
    ms: Seq<OpenBookMarketMetadata>,
    k: int,
) -> int
    decreases k,
{
    if k <= 0 {
        0
    } else {
        let l = txn_logs(txns[k - 1]);
        fills_before(txns, ms, k - 1) + fill_count(l, ms, l.len() as int)
    }
}

/// Markets announced by the first `k` transactions.
pub open spec fn markets_before(txns: Seq<Option<RpcTransaction>>, k: int) -> int
    decreases k,
{
    if k <= 0 {
        0
    } else {
        let ixs = txn_market_instructions(txns[k - 1]);
        markets_before(txns, k - 1) + market_count(ixs, ixs.len() as int)
    }
}

/// The signature text belongs to one of the first `n` transactions, whose fetch failed.
pub open spec fn failed_among(
    txns: Seq<Option<RpcTransaction>>,
    sigs: Seq<String>,
    n: int,
    s: Seq<char>,
) -> bool {
    exists|k: int| 0 <= k < n && txns[k] is None && #[trigger] sigs[k]@ == s
}

/// The signature text belongs to a transaction whose fetch failed.
pub open spec fn fetch_failed(
    txns: Seq<Option<RpcTransaction>>,
    sigs: Seq<String>,
    s: Seq<char>,
) -> bool {
    failed_among(txns, sigs, txns.len() as int, s)
}

/// Some string of `v` has the text `s`.
pub open spec fn holds_text(v: Seq<String>, s: Seq<char>) -> bool {
    exists|m: int| 0 <= m < v.len() && #[trigger] v[m]@ == s
}

/// Signatures that a batch marks processed: those with no failed fetch.
pub open spec fn keeps_signature(txns: Seq<Option<RpcTransaction>>, sigs: Seq<String>) -> spec_fn(
    String,
) -> bool {
    |s: String| !fetch_failed(txns, sigs, s@)
}

/// Whether `v` holds a string with the text of `s`.
pub fn contains_string(v: &Vec<String>, s: &String) -> (r: bool)
    ensures
        r == holds_text(v@, s@),
{
    let mut m: usize = 0;
    while m < v.len()
        invariant
            m <= v@.len(),
            forall|t: int| 0 <= t < m ==> #[trigger] v@[t]@ != s@,
        decreases v@.len() - m,
    {
        if v[m] == *s {
            return true;
        }
        m = m + 1;
    }
    false
}

proof fn lemma_fills_before_monotone(
    txns: Seq<Option<RpcTransaction>>,
    ms: Seq<OpenBookMarketMetadata>,
    a: int,
    b: int,
)
    requires
        0 <= a <= b,
    ensures
        0 <= fills_before(txns, ms, a) <= fills_before(txns, ms, b),
    decreases b,
{
    if b > 0 {
        let l = txn_logs(txns[b - 1]);
        lemma_fill_count_nonneg(l, ms, l.len() as int);
        if a == b {
            lemma_fills_before_monotone(txns, ms, a - 1, b - 1);
        } else {
            lemma_fills_before_monotone(txns, ms, a, b - 1);
        }
    }
}

proof fn lemma_markets_before_monotone(txns: Seq<Option<RpcTransaction>>, a: int, b: int)
    requires
        0 <= a <= b,
    ensures
        0 <= markets_before(txns, a) <= markets_before(txns, b),
    decreases b,
{
    if b > 0 {
        let ixs = txn_market_instructions(txns[b - 1]);
        lemma_market_count_monotone(ixs, 0, ixs.len() as int);
        if a == b {
            lemma_markets_before_monotone(txns, a - 1, b - 1);
        } else {
            lemma_markets_before_monotone(txns, a, b - 1);
        }
    }
}

/// Decodes a batch of fetched transactions, `txns[k]` being the fetch of `sig_strings[k]`
/// (None where the fetch failed). Returns the fills and the announced markets of the
/// fetched transactions, in order, and the signatures to mark processed: all but those
/// of failed fetches.
pub fn parse_openbook_txns(
    txns: &Vec<Option<RpcTransaction>>,
    sig_strings: Vec<String>,
    target_markets: &Vec<OpenBookMarketMetadata>,
    program_pk: &String,
) -> (r: (Vec<OpenBookFill>, Vec<OpenBookMarketMetadata>, Vec<String>))
    requires
        txns@.len() == sig_strings@.len(),
    ensures
        r.2@ == sig_strings@.filter(keeps_signature(txns@, sig_strings@)),
        r.0@.len() == fills_before(txns@, target_markets@, txns@.len() as int),
        forall|k: int, j: int|
            0 <= k < txns@.len() && 0 <= j < txn_logs(txns@[k]).len() && line_yields(
                #[trigger] txn_logs(txns@[k])[j]@,
                target_markets@,
            ) ==> line_fill(
                r.0@[fills_before(txns@, target_markets@, k) + fill_count(
                    txn_logs(txns@[k]),
                    target_markets@,
                    j,
                )],
                txn_logs(txns@[k])[j]@,
                target_markets@,
                txns@[k].unwrap().slot,
                txns@[k].unwrap().block_time,
            ),
        r.1@.len() == markets_before(txns@, txns@.len() as int),
        forall|k: int, j: int|
            0 <= k < txns@.len() && 0 <= j < txn_market_instructions(txns@[k]).len()
                && data_yields_market(
                #[trigger] instruction_record(txn_market_instructions(txns@[k])[j]),
            ) ==> market_from_record(
                r.1@[markets_before(txns@, k) + market_count(txn_market_instructions(txns@[k]), j)],
                instruction_record(txn_market_instructions(txns@[k])[j]).unwrap(),
                16,
                program_pk@,
                txns@[k].unwrap().block_time,
            ),
{
    let ghost ts = txns@;
    let ghost ms = target_markets@;
    let mut fills_vector: Vec<OpenBookFill> = Vec::new();
    let mut markets_vector: Vec<OpenBookMarketMetadata> = Vec::new();
    let mut failed_sigs: Vec<String> = Vec::new();
    let mut idx: usize = 0;
    while idx < txns.len()
        invariant
            ts == txns@,
            ms == target_markets@,
            ts.len() == sig_strings@.len(),
            idx <= ts.len(),
            forall|x: Seq<char>|
                #![trigger holds_text(failed_sigs@, x)]
                #![trigger failed_among(ts, sig_strings@, idx as int, x)]
                holds_text(failed_sigs@, x) <==> failed_among(ts, sig_strings@, idx as int, x),
            fills_vector@.len() == fills_before(ts, ms, idx as int),
            forall|k: int, j: int|
                0 <= k < idx && 0 <= j < txn_logs(ts[k]).len() && line_yields(
                    #[trigger] txn_logs(ts[k])[j]@,
                    ms,
                ) ==> line_fill(
                    fills_vector@[fills_before(ts, ms, k) + fill_count(txn_logs(ts[k]), ms, j)],
                    txn_logs(ts[k])[j]@,
                    ms,
                    ts[k].unwrap().slot,
                    ts[k].unwrap().block_time,
                ),
            markets_vector@.len() == markets_before(ts, idx as int),
            forall|k: int, j: int|
                0 <= k < idx && 0 <= j < txn_market_instructions(ts[k]).len() && data_yields_market(
                    #[trigger] instruction_record(txn_market_instructions(ts[k])[j]),
                ) ==> market_from_record(
                    markets_vector@[markets_before(ts, k) + market_count(
                        txn_market_instructions(ts[k]),
                        j,
                    )],
                    instruction_record(txn_market_instructions(ts[k])[j]).unwrap(),
                    16,
                    program_pk@,
                    ts[k].unwrap().block_time,
                ),
        decreases ts.len() - idx,
    {
        let ghost old_fills = fills_vector@;
        let ghost old_markets = markets_vector@;
        let ghost old_failed = failed_sigs@;
        let mut new_fills: Vec<OpenBookFill> = Vec::new();
        let mut new_markets: Vec<OpenBookMarketMetadata> = Vec::new();
        match &txns[idx] {
            Some(t) => {
                match &t.meta {
                    Some(m) => {
                        match try_parse_new_market(m, t.block_time, program_pk) {
                            Some(v) => {
                                new_markets = v;
                            },
                            None => {},
                        }
                        match &m.log_messages {
                            Some(logs) => {
                                match try_parse_openbook_fills_from_logs(
                                    logs,
                                    target_markets,
                                    t.block_time,
                                    t.slot,
                                ) {
                                    Some(v) => {
                                        new_fills = v;
                                    },
                                    None => {},
                                }
                            },
                            None => {},
                        }
                    },
                    None => {},
                }
            },
            None => {
                failed_sigs.push(sig_strings[idx].clone());
            },
        }
        let ghost nf = new_fills@;
        let ghost nm = new_markets@;
        let ghost l = txn_logs(ts[idx as int]);
        let ghost ixs = txn_market_instructions(ts[idx as int]);
        proof {
            lemma_fill_count_nonneg(l, ms, l.len() as int);
            assert forall|j: int| 0 <= j < l.len() && line_yields(#[trigger] l[j]@, ms) implies fill_count(
                l,
                ms,
                l.len() as int,
            ) > 0 by {
                lemma_fill_count_monotone(l, ms, j + 1, l.len() as int);
                lemma_fill_count_nonneg(l, ms, j);
            }
            assert(nf.len() == fill_count(l, ms, l.len() as int));
            assert(forall|j: int|
                0 <= j < l.len() && line_yields(#[trigger] l[j]@, ms) ==> line_fill(
                    nf[fill_count(l, ms, j)],
                    l[j]@,
                    ms,
                    ts[idx as int].unwrap().slot,
                    ts[idx as int].unwrap().block_time,
                ));
            lemma_market_count_monotone(ixs, 0, ixs.len() as int);
            assert forall|j: int|
                0 <= j < ixs.len() && data_yields_market(#[trigger] instruction_record(ixs[j]))
                    implies market_count(ixs, ixs.len() as int) > 0 by {
                lemma_market_count_monotone(ixs, j + 1, ixs.len() as int);
                lemma_market_count_monotone(ixs, j, j);
            }
            assert(nm.len() == market_count(ixs, ixs.len() as int));
            assert(forall|j: int|
                0 <= j < ixs.len() && data_yields_market(#[trigger] instruction_record(ixs[j]))
                    ==> market_from_record(
                    nm[market_count(ixs, j)],
                    instruction_record(ixs[j]).unwrap(),
                    16,
                    program_pk@,
                    ts[idx as int].unwrap().block_time,
                ));
        }
        fills_vector.append(&mut new_fills);
        markets_vector.append(&mut new_markets);
        proof {
            assert(fills_vector@ == old_fills + nf);
            assert(markets_vector@ == old_markets + nm);
            assert forall|k: int, j: int|
                0 <= k < idx + 1 && 0 <= j < txn_logs(ts[k]).len() && line_yields(
                    #[trigger] txn_logs(ts[k])[j]@,
                    ms,
                ) implies line_fill(
                fills_vector@[fills_before(ts, ms, k) + fill_count(txn_logs(ts[k]), ms, j)],
                txn_logs(ts[k])[j]@,
                ms,
                ts[k].unwrap().slot,
                ts[k].unwrap().block_time,
            ) by {
                let lk = txn_logs(ts[k]);
                lemma_fill_count_monotone(lk, ms, j + 1, lk.len() as int);
                lemma_fill_count_nonneg(lk, ms, j);
                lemma_fills_before_monotone(ts, ms, k, k);
                let x = fills_before(ts, ms, k) + fill_count(lk, ms, j);
                if k < idx {
                    lemma_fills_before_monotone(ts, ms, k + 1, idx as int);
                    assert(fills_vector@[x] == old_fills[x]);
                } else {
                    assert(fills_vector@[x] == nf[fill_count(lk, ms, j)]);
                }
            }
            assert forall|k: int, j: int|
                0 <= k < idx + 1 && 0 <= j < txn_market_instructions(ts[k]).len()
                    && data_yields_market(
                    #[trigger] instruction_record(txn_market_instructions(ts[k])[j]),
                ) implies market_from_record(
                markets_vector@[markets_before(ts, k) + market_count(
                    txn_market_instructions(ts[k]),
                    j,
                )],
                instruction_record(txn_market_instructions(ts[k])[j]).unwrap(),
                16,
                program_pk@,
                ts[k].unwrap().block_time,
            ) by {
                let ik = txn_market_instructions(ts[k]);
                lemma_market_count_monotone(ik, j + 1, ik.len() as int);
                lemma_market_count_monotone(ik, j, j);
                lemma_markets_before_monotone(ts, k, k);
                let x = markets_before(ts, k) + market_count(ik, j);
                if k < idx {
                    lemma_markets_before_monotone(ts, k + 1, idx as int);
                    assert(markets_vector@[x] == old_markets[x]);
                } else {
                    assert(markets_vector@[x] == nm[market_count(ik, j)]);
                }
            }
            assert forall|x: Seq<char>|
                #![trigger holds_text(failed_sigs@, x)]
                #![trigger failed_among(ts, sig_strings@, idx + 1, x)]
                holds_text(failed_sigs@, x) <==> failed_among(ts, sig_strings@, idx + 1, x) by {
                if holds_text(failed_sigs@, x) {
                    let m = choose|m: int| 0 <= m < failed_sigs@.len() && #[trigger] failed_sigs@[m]@ == x;
                    if m < old_failed.len() {
                        assert(old_failed[m]@ == x);
                        assert(holds_text(old_failed, x));
                        assert(failed_among(ts, sig_strings@, idx as int, x));
                        let k = choose|k: int| 0 <= k < idx && ts[k] is None && #[trigger] sig_strings@[k]@ == x;
                        assert(0 <= k < idx + 1 && ts[k] is None && sig_strings@[k]@ == x);
                    } else {
                        assert(sig_strings@[idx as int]@ == x);
                        assert(ts[idx as int] is None);
                    }
                }
                if failed_among(ts, sig_strings@, idx + 1, x) {
                    let k = choose|k: int| 0 <= k < idx + 1 && ts[k] is None && #[trigger] sig_strings@[k]@ == x;
                    if k < idx {
                        assert(failed_among(ts, sig_strings@, idx as int, x));
                        assert(holds_text(old_failed, x));
                        let m = choose|m: int| 0 <= m < old_failed.len() && #[trigger] old_failed[m]@ == x;
                        assert(failed_sigs@[m] == old_failed[m]);
                    } else {
                        assert(failed_sigs@[old_failed.len() as int]@ == x);
                    }
                }
            }
        }
        idx = idx + 1;
    }
    let ghost pred = keeps_signature(ts, sig_strings@);
    let mut processed: Vec<String> = Vec::new();
    let mut i: usize = 0;
    while i < sig_strings.len()
        invariant
            ts == txns@,
            ts.len() == sig_strings@.len(),
            i <= sig_strings@.len(),
            pred == keeps_signature(ts, sig_strings@),
            forall|x: Seq<char>|
                #![trigger holds_text(failed_sigs@, x)]
                #![trigger failed_among(ts, sig_strings@, ts.len() as int, x)]
                holds_text(failed_sigs@, x) <==> failed_among(ts, sig_strings@, ts.len() as int, x),
            processed@ == sig_strings@.subrange(0, i as int).filter(pred),
        decreases sig_strings@.len() - i,
    {
        proof {
            assert(sig_strings@.subrange(0, i + 1) == sig_strings@.subrange(0, i as int).push(
                sig_strings@[i as int],
            ));
            sig_strings@.subrange(0, i as int).lemma_filter_push(sig_strings@[i as int], pred);
        }
        let failed = contains_string(&failed_sigs, &sig_strings[i]);
        if !failed {
            processed.push(sig_strings[i].clone());
        }
        i = i + 1;
    }
    proof {
        assert(sig_strings@.subrange(0, sig_strings@.len() as int) == sig_strings@);
    }
    (fills_vector, markets_vector, processed)
}


/// Processed and committed together: in the signatures that a batch marks processed,
/// every signature is one whose every fetch succeeded, so the fills of its transactions
/// are in the same batch; and a signature none of whose fetches failed is marked.
pub proof fn lemma_processed_signatures_were_fetched(
    txns: Seq<Option<RpcTransaction>>,
    sigs: Seq<String>,
    processed: Seq<String>,
)
    requires
        txns.len() == sigs.len(),
        processed == sigs.filter(keeps_signature(txns, sigs)),
    ensures
        forall|m: int, k: int|
            0 <= m < processed.len() && 0 <= k < txns.len() && #[trigger] sigs[k]@
                == #[trigger] processed[m]@ ==> txns[k] is Some,
        forall|k: int|
            0 <= k < sigs.len() && !fetch_failed(txns, sigs, #[trigger] sigs[k]@)
                ==> processed.contains(sigs[k]),
{
    let pred = keeps_signature(txns, sigs);
    assert forall|m: int, k: int|
        0 <= m < processed.len() && 0 <= k < txns.len() && #[trigger] sigs[k]@
            == #[trigger] processed[m]@ implies txns[k] is Some by {
        sigs.lemma_filter_pred(pred, m);
        if txns[k] is None {
            assert(failed_among(txns, sigs, txns.len() as int, processed[m]@));
        }
    }
    assert forall|k: int|
        0 <= k < sigs.len() && !fetch_failed(txns, sigs, #[trigger] sigs[k]@) implies processed.contains(
        sigs[k],
    ) by {
        sigs.lemma_filter_contains(pred, k);
    }
}

} // verus!
