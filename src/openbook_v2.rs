use vstd::prelude::*;
use vstd::utf8::{decode_utf8, valid_utf8};

use crate::candle::abs_int;
use crate::codec::{
    base58_encoded, encode_base58, le_i64, le_u32, le_u64, read_bytes, read_i64_le, read_u32_le,
    read_u64_le, utf8_string,
};

verus! {

/// Metadata of one market, as stored in the registry.
#[derive(Clone, Debug)]
pub struct OpenBookMarketMetadata {
    /// Unix seconds of the transaction that created the market.
    pub creation_datetime: i64,
    pub program_pk: String,
    pub market_pk: String,
    pub market_name: String,
    pub base_mint: String,
    pub quote_mint: String,
    pub base_decimals: u8,
    pub quote_decimals: u8,
    pub base_lot_size: i64,
    pub quote_lot_size: i64,
    pub scraper_active: bool,
}

/// One trade match, in native units: prices in quote lots per base lot,
/// quantities in base lots, fees in quote lots.
#[derive(Clone, Debug)]
pub struct OpenBookFill {
    /// Unix seconds of the block that holds the fill.
    pub block_datetime: i64,
    pub slot: u64,
    pub market_pk: String,
    pub seq_num: u64,
    pub maker: String,
    pub maker_client_order_id: u64,
    pub maker_fee: i64,
    /// Unix seconds at which the maker order was placed.
    pub maker_datetime: u64,
    pub taker: String,
    pub taker_client_order_id: u64,
    pub taker_fee: i64,
    pub taker_side: u8,
    pub maker_slot: u8,
    pub maker_out: bool,
    pub price: i64,
    pub quantity: i64,
}


/// Fees are stated in millionths.
pub const FEES_SCALE_FACTOR: i64 = 1000000;

/// Byte length of an encoded fill record.
pub const FILL_LOG_LEN: usize = 171;

/// A fill event as the exchange program logs it.
#[derive(Clone, Debug)]
pub struct FillLog {
    pub market: Vec<u8>,
    pub taker_side: u8,
    pub maker_slot: u8,
    pub maker_out: bool,
    pub timestamp: u64,
    pub seq_num: u64,
    pub maker: Vec<u8>,
    pub maker_client_order_id: u64,
    pub maker_fee: i64,
    pub maker_timestamp: u64,
    pub taker: Vec<u8>,
    pub taker_client_order_id: u64,
    pub taker_fee: i64,
    pub price: i64,
    pub quantity: i64,
}

/// A market-creation event as the exchange program logs it.
#[derive(Clone, Debug)]
pub struct MarketMetaDataLog {
    pub market: Vec<u8>,
    pub name: String,
    pub base_mint: Vec<u8>,
    pub quote_mint: Vec<u8>,
    pub base_decimals: u8,
    pub quote_decimals: u8,
    pub base_lot_size: i64,
    pub quote_lot_size: i64,
}

/// `f` holds the fill record encoded at offset `o` of `b`: fields in declaration order,
/// keys as 32 raw bytes, integers little-endian, a bool as one byte 0 or 1.
pub open spec fn fill_log_at(f: FillLog, b: Seq<u8>, o: int) -> bool {
    &&& f.market@ == b.subrange(o, o + 32)
    &&& f.taker_side == b[o + 32]
    &&& f.maker_slot == b[o + 33]
    &&& f.maker_out == (b[o + 34] == 1)
    &&& f.timestamp == le_u64(b, o + 35)
    &&& f.seq_num == le_u64(b, o + 43)
    &&& f.maker@ == b.subrange(o + 51, o + 83)
    &&& f.maker_client_order_id == le_u64(b, o + 83)
    &&& f.maker_fee == le_i64(b, o + 91)
    &&& f.maker_timestamp == le_u64(b, o + 99)
    &&& f.taker@ == b.subrange(o + 107, o + 139)
    &&& f.taker_client_order_id == le_u64(b, o + 139)
    &&& f.taker_fee == le_i64(b, o + 147)
    &&& f.price == le_i64(b, o + 155)
    &&& f.quantity == le_i64(b, o + 163)
}

/// A fill record can be read at offset `o` of `b`.
pub open spec fn fill_log_decodes(b: Seq<u8>, o: int) -> bool {
    &&& 0 <= o
    &&& o + FILL_LOG_LEN <= b.len()
    &&& b[o + 34] <= 1
}

impl FillLog {
    /// Reads the fill record that starts at `offset`; bytes after it are ignored.
    pub fn deserialize(bytes: &Vec<u8>, offset: usize) -> (r: Option<FillLog>)
        ensures
            r is Some <==> fill_log_decodes(bytes@, offset as int),
            r matches Some(f) ==> fill_log_at(f, bytes@, offset as int),
    {
        if bytes.len() < FILL_LOG_LEN || offset > bytes.len() - FILL_LOG_LEN {
            return None;
        }
        let o = offset;
        let maker_out_byte = bytes[o + 34];
        if maker_out_byte > 1 {
            return None;
        }
        Some(FillLog {
            market: read_bytes(bytes, o, 32),
            taker_side: bytes[o + 32],
            maker_slot: bytes[o + 33],
            maker_out: maker_out_byte == 1,
            timestamp: read_u64_le(bytes, o + 35),
            seq_num: read_u64_le(bytes, o + 43),
            maker: read_bytes(bytes, o + 51, 32),
            maker_client_order_id: read_u64_le(bytes, o + 83),
            maker_fee: read_i64_le(bytes, o + 91),
            maker_timestamp: read_u64_le(bytes, o + 99),
            taker: read_bytes(bytes, o + 107, 32),
            taker_client_order_id: read_u64_le(bytes, o + 139),
            taker_fee: read_i64_le(bytes, o + 147),
            price: read_i64_le(bytes, o + 155),
            quantity: read_i64_le(bytes, o + 163),
        })
    }
}

/// Byte length of the market record at offset `o` of `b`, whose name holds `n` bytes.
pub open spec fn market_log_len(n: int) -> int {
    118 + n
}

/// A market record can be read at offset `o` of `b`.
pub open spec fn market_log_decodes(b: Seq<u8>, o: int) -> bool {
    &&& 0 <= o
    &&& o + 36 <= b.len()
    &&& o + market_log_len(le_u32(b, o + 32)) <= b.len()
    &&& valid_utf8(b.subrange(o + 36, o + 36 + le_u32(b, o + 32)))
}

/// `m` holds the market record encoded at offset `o` of `b`; the name is a
/// length-prefixed UTF-8 string.
pub open spec fn market_log_at(m: MarketMetaDataLog, b: Seq<u8>, o: int) -> bool {
    let n = le_u32(b, o + 32);
    let p = o + 36 + n;
    &&& m.market@ == b.subrange(o, o + 32)
    &&& m.name@ == decode_utf8(b.subrange(o + 36, p))
    &&& m.base_mint@ == b.subrange(p, p + 32)
    &&& m.quote_mint@ == b.subrange(p + 32, p + 64)
    &&& m.base_decimals == b[p + 64]
    &&& m.quote_decimals == b[p + 65]
    &&& m.base_lot_size == le_i64(b, p + 66)
    &&& m.quote_lot_size == le_i64(b, p + 74)
}

impl MarketMetaDataLog {
    /// Reads the market record that starts at `offset`; bytes after it are ignored.
    pub fn deserialize(bytes: &Vec<u8>, offset: usize) -> (r: Option<MarketMetaDataLog>)
        ensures
            r is Some <==> market_log_decodes(bytes@, offset as int),
            r matches Some(m) ==> market_log_at(m, bytes@, offset as int),
    {
        if bytes.len() < 36 || offset > bytes.len() - 36 {
            return None;
        }
        let o = offset;
        let n: u32 = read_u32_le(bytes, o + 32);
        let rest: usize = bytes.len() - o;
        if rest < 118 || (n as usize) > rest - 118 {
            return None;
        }
        let name_bytes = read_bytes(bytes, o + 36, n as usize);
        let name = match utf8_string(&name_bytes) {
            Some(s) => s,
            None => {
                return None;
            },
        };
        let p: usize = o + 36 + n as usize;
        Some(MarketMetaDataLog {
            market: read_bytes(bytes, o, 32),
            name: name,
            base_mint: read_bytes(bytes, p, 32),
            quote_mint: read_bytes(bytes, p + 32, 32),
            base_decimals: bytes[p + 64],
            quote_decimals: bytes[p + 65],
            base_lot_size: read_i64_le(bytes, p + 66),
            quote_lot_size: read_i64_le(bytes, p + 74),
        })
    }
}

pub open spec fn in_i64(x: int) -> bool {
    i64::MIN <= x <= i64::MAX
}

/// Integer division rounding toward zero.
pub open spec fn trunc_div(x: int, y: int) -> int {
    let q = abs_int(x) / abs_int(y);
    if (x < 0) != (y < 0) { -q } else { q }
}

fn trunc_div_i128(x: i128, y: i128) -> (r: i128)
    requires
        y != 0,
        -0x4000_0000_0000_0000_0000_0000_0000_0000 <= x <= 0x4000_0000_0000_0000_0000_0000_0000_0000,
        -0x4000_0000_0000_0000_0000_0000_0000_0000 <= y <= 0x4000_0000_0000_0000_0000_0000_0000_0000,
    ensures
        r == trunc_div(x as int, y as int),
{
    let ax: u128 = if x < 0 { (-x) as u128 } else { x as u128 };
    let ay: u128 = if y < 0 { (-y) as u128 } else { y as u128 };
    let q: u128 = ax / ay;
    proof {
        assert(q <= ax) by (nonlinear_arith)
            requires
                q == ax / ay,
                ay >= 1,
        ;
    }
    if (x < 0) != (y < 0) {
        -(q as i128)
    } else {
        q as i128
    }
}

/// A fee in quote lots, as the exchange computes it in 64-bit arithmetic: the matched
/// quote amount `quantity / price * quote_lot_size` (the quotient taken first), times
/// the fee rate, over the scale factor. None where a step divides by zero or leaves
/// the 64-bit range.
pub open spec fn spec_fee_quote_lots(quantity: int, price: int, quote_lot_size: int, fee: int) -> Option<
    int,
> {
    if price == 0 {
        None
    } else {
        let per_lot = trunc_div(quantity, price);
        let matched = per_lot * quote_lot_size;
        let scaled = matched * fee;
        if !in_i64(per_lot) || !in_i64(matched) || !in_i64(scaled) {
            None
        } else {
            Some(trunc_div(scaled, FEES_SCALE_FACTOR as int))
        }
    }
}

pub fn fee_quote_lots(quantity: i64, price: i64, quote_lot_size: i64, fee: i64) -> (r: Option<i64>)
    ensures
        r matches Some(v) ==> spec_fee_quote_lots(
            quantity as int,
            price as int,
            quote_lot_size as int,
            fee as int,
        ) == Some(v as int),
        r is None ==> spec_fee_quote_lots(
            quantity as int,
            price as int,
            quote_lot_size as int,
            fee as int,
        ) is None,
{
    if price == 0 {
        return None;
    }
    let per_lot: i128 = trunc_div_i128(quantity as i128, price as i128);
    if per_lot < i64::MIN as i128 || per_lot > i64::MAX as i128 {
        return None;
    }
    proof {
        let (a, b) = (per_lot as int, quote_lot_size as int);
        assert(-0x8000_0000_0000_0000 * 0x8000_0000_0000_0000 <= a * b <= 0x8000_0000_0000_0000
            * 0x8000_0000_0000_0000) by (nonlinear_arith)
            requires
                -0x8000_0000_0000_0000 <= a <= 0x8000_0000_0000_0000,
                -0x8000_0000_0000_0000 <= b <= 0x8000_0000_0000_0000,
        ;
    }
    let matched: i128 = per_lot * (quote_lot_size as i128);
    if matched < i64::MIN as i128 || matched > i64::MAX as i128 {
        return None;
    }
    proof {
        let (a, b) = (matched as int, fee as int);
        assert(-0x8000_0000_0000_0000 * 0x8000_0000_0000_0000 <= a * b <= 0x8000_0000_0000_0000
            * 0x8000_0000_0000_0000) by (nonlinear_arith)
            requires
                -0x8000_0000_0000_0000 <= a <= 0x8000_0000_0000_0000,
                -0x8000_0000_0000_0000 <= b <= 0x8000_0000_0000_0000,
        ;
    }
    let scaled: i128 = matched * (fee as i128);
    if scaled < i64::MIN as i128 || scaled > i64::MAX as i128 {
        return None;
    }
    let v: i128 = trunc_div_i128(scaled, FEES_SCALE_FACTOR as i128);
    proof {
        assert(abs_int(scaled as int) / 1000000 <= abs_int(scaled as int)) by (nonlinear_arith);
    }
    Some(v as i64)
}

/// `r` is the fill that the record in `b` at `o` describes, in `market`, in the block
/// at `slot` and `block_time`.
pub open spec fn fill_from_record(
    r: OpenBookFill,
    b: Seq<u8>,
    o: int,
    market: OpenBookMarketMetadata,
    slot: u64,
    block_time: i64,
) -> bool {
    let q = le_i64(b, o + 163) as int;
    let p = le_i64(b, o + 155) as int;
    let lot = market.quote_lot_size as int;
    &&& r.block_datetime == block_time
    &&& r.slot == slot
    &&& r.market_pk@ == base58_encoded(b.subrange(o, o + 32))
    &&& r.seq_num == le_u64(b, o + 43)
    &&& r.maker@ == base58_encoded(b.subrange(o + 51, o + 83))
    &&& r.maker_client_order_id == le_u64(b, o + 83)
    &&& spec_fee_quote_lots(q, p, lot, le_i64(b, o + 91) as int) == Some(r.maker_fee as int)
    &&& r.maker_datetime == le_u64(b, o + 99)
    &&& r.taker@ == base58_encoded(b.subrange(o + 107, o + 139))
    &&& r.taker_client_order_id == le_u64(b, o + 139)
    &&& spec_fee_quote_lots(q, p, lot, le_i64(b, o + 147) as int) == Some(r.taker_fee as int)
    &&& r.taker_side == b[o + 32]
    &&& r.maker_slot == b[o + 33]
    &&& r.maker_out == (b[o + 34] == 1)
    &&& r.price == p
    &&& r.quantity == q
}

/// Both fees of the record in `b` at `o` can be computed for `market`.
pub open spec fn record_fees_defined(b: Seq<u8>, o: int, market: OpenBookMarketMetadata) -> bool {
    let q = le_i64(b, o + 163) as int;
    let p = le_i64(b, o + 155) as int;
    let lot = market.quote_lot_size as int;
    &&& spec_fee_quote_lots(q, p, lot, le_i64(b, o + 91) as int) is Some
    &&& spec_fee_quote_lots(q, p, lot, le_i64(b, o + 147) as int) is Some
}

impl OpenBookFill {
    /// The fill that a decoded record describes. None where a fee cannot be computed.
    pub fn from_log(
        log: FillLog,
        market: &OpenBookMarketMetadata,
        slot: u64,
        block_datetime: i64,
    ) -> (r: Option<OpenBookFill>)
        ensures
            forall|b: Seq<u8>, o: int|
                #![trigger fill_log_at(log, b, o)]
                fill_log_decodes(b, o) && fill_log_at(log, b, o) ==> (r is Some
                    <==> record_fees_defined(b, o, *market)) && (r matches Some(f)
                    ==> fill_from_record(f, b, o, *market, slot, block_datetime)),
    {
        let maker_fee = match fee_quote_lots(log.quantity, log.price, market.quote_lot_size, log.maker_fee) {
            Some(v) => v,
            None => {
                return None;
            },
        };
        let taker_fee = match fee_quote_lots(log.quantity, log.price, market.quote_lot_size, log.taker_fee) {
            Some(v) => v,
            None => {
                return None;
            },
        };
        Some(OpenBookFill {
            block_datetime: block_datetime,
            slot: slot,
            market_pk: encode_base58(&log.market),
            seq_num: log.seq_num,
            maker: encode_base58(&log.maker),
            maker_client_order_id: log.maker_client_order_id,
            maker_fee: maker_fee,
            maker_datetime: log.maker_timestamp,
            taker: encode_base58(&log.taker),
            taker_client_order_id: log.taker_client_order_id,
            taker_fee: taker_fee,
            taker_side: log.taker_side,
            maker_slot: log.maker_slot,
            maker_out: log.maker_out,
            price: log.price,
            quantity: log.quantity,
        })
    }
}

/// `m` is the market that the record in `b` at `o` announces, created at `block_time`
/// under `program_pk`, not yet scraped.
pub open spec fn market_from_record(
    m: OpenBookMarketMetadata,
    b: Seq<u8>,
    o: int,
    program_pk: Seq<char>,
    block_time: i64,
) -> bool {
    let p = o + 36 + le_u32(b, o + 32);
    &&& m.creation_datetime == block_time
    &&& m.program_pk@ == program_pk
    &&& m.market_pk@ == base58_encoded(b.subrange(o, o + 32))
    &&& m.market_name@ == base58_encoded(b.subrange(o, o + 32))
    &&& m.base_mint@ == base58_encoded(b.subrange(p, p + 32))
    &&& m.quote_mint@ == base58_encoded(b.subrange(p + 32, p + 64))
    &&& m.base_decimals == b[p + 64]
    &&& m.quote_decimals == b[p + 65]
    &&& m.base_lot_size == le_i64(b, p + 66)
    &&& m.quote_lot_size == le_i64(b, p + 74)
    &&& !m.scraper_active
}

impl OpenBookMarketMetadata {
    /// The registry entry for a newly created market; it starts inactive.
    pub fn from_event(log: MarketMetaDataLog, block_datetime: i64, program_pk: &String) -> (r:
        OpenBookMarketMetadata)
        ensures
            forall|b: Seq<u8>, o: int|
                #![trigger market_log_at(log, b, o)]
                market_log_decodes(b, o) && market_log_at(log, b, o) ==> market_from_record(
                    r,
                    b,
                    o,
                    program_pk@,
                    block_datetime,
                ),
    {
        OpenBookMarketMetadata {
            creation_datetime: block_datetime,
            program_pk: program_pk.clone(),
            market_pk: encode_base58(&log.market),
            market_name: encode_base58(&log.market),
            base_mint: encode_base58(&log.base_mint),
            quote_mint: encode_base58(&log.quote_mint),
            base_decimals: log.base_decimals,
            quote_decimals: log.quote_decimals,
            base_lot_size: log.base_lot_size,
            quote_lot_size: log.quote_lot_size,
            scraper_active: false,
        }
    }
}

} // verus!
