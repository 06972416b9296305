use vstd::prelude::*;

use crate::candle::Candle;
use crate::openbook_v2::{OpenBookFill, OpenBookMarketMetadata};
use crate::transaction::PgTransaction;

verus! {

pub open spec fn digit_char(d: int) -> char {
    if d == 0 {
        '0'
    } else if d == 1 {
        '1'
    } else if d == 2 {
        '2'
    } else if d == 3 {
        '3'
    } else if d == 4 {
        '4'
    } else if d == 5 {
        '5'
    } else if d == 6 {
        '6'
    } else if d == 7 {
        '7'
    } else if d == 8 {
        '8'
    } else {
        '9'
    }
}

/// Decimal digits of `n`, most significant first, without leading zeros.
pub open spec fn decimal_digits(n: nat) -> Seq<char>
    decreases n,
{
    if n < 10 {
        seq![digit_char(n as int)]
    } else {
        decimal_digits(n / 10).push(digit_char((n % 10) as int))
    }
}

fn digit_str(d: u64) -> (r: &'static str)
    requires
        d < 10,
    ensures
        r@ == seq![digit_char(d as int)],
{
    if d == 0 {
        proof { reveal_strlit("0"); }
        "0"
    } else if d == 1 {
        proof { reveal_strlit("1"); }
        "1"
    } else if d == 2 {
        proof { reveal_strlit("2"); }
        "2"
    } else if d == 3 {
        proof { reveal_strlit("3"); }
        "3"
    } else if d == 4 {
        proof { reveal_strlit("4"); }
        "4"
    } else if d == 5 {
        proof { reveal_strlit("5"); }
        "5"
    } else if d == 6 {
        proof { reveal_strlit("6"); }
        "6"
    } else if d == 7 {
        proof { reveal_strlit("7"); }
        "7"
    } else if d == 8 {
        proof { reveal_strlit("8"); }
        "8"
    } else {
        proof { reveal_strlit("9"); }
        "9"
    }
}

/// The decimal text of `n`.
pub fn decimal(n: u64) -> (r: String)
    ensures
        r@ == decimal_digits(n as nat),
    decreases n,
{
    if n < 10 {
        String::from_str(digit_str(n))
    } else {
        let mut s = decimal(n / 10);
        s.append(digit_str(n % 10));
        s
    }
}

/// The placeholders `$first, $first+1, ...`, `count` of them.
pub open spec fn placeholders(first: nat, count: nat) -> Seq<char>
    decreases count,
{
    if count == 0 {
        Seq::empty()
    } else if count == 1 {
        seq!['$'] + decimal_digits(first)
    } else {
        placeholders(first, (count - 1) as nat) + seq![',', ' ', '$'] + decimal_digits(
            (first + count - 1) as nat,
        )
    }
}

/// The value groups of `rows` rows of `width` placeholders each, numbered from 1.
pub open spec fn value_rows(rows: nat, width: nat) -> Seq<char>
    decreases rows,
{
    if rows == 0 {
        Seq::empty()
    } else {
        let sep = if rows == 1 { seq![' '] } else { seq![',', ' '] };
        value_rows((rows - 1) as nat, width) + sep + seq!['('] + placeholders(
            ((rows - 1) * width + 1) as nat,
            width,
        ) + seq![')']
    }
}

/// A multi-row statement: `head`, then the value groups, then a space and `tail`.
pub open spec fn multi_row_statement(head: Seq<char>, rows: nat, width: nat, tail: Seq<char>) -> Seq<
    char,
> {
    head + value_rows(rows, width) + seq![' '] + tail
}

fn push_placeholders(s: &mut String, first: u64, count: u64)
    requires
        count >= 1,
        first + count <= u64::MAX,
    ensures
        final(s)@ == old(s)@ + placeholders(first as nat, count as nat),
{
    let mut k: u64 = 1;
    s.append("$");
    proof {
        reveal_strlit("$");
    }
    let d = decimal(first);
    s.append(d.as_str());
    proof {
        assert(s@ =~= old(s)@ + placeholders(first as nat, 1));
    }
    while k < count
        invariant
            1 <= k <= count,
            first + count <= u64::MAX,
            s@ == old(s)@ + placeholders(first as nat, k as nat),
        decreases count - k,
    {
        proof {
            reveal_strlit(", $");
        }
        s.append(", $");
        let d = decimal(first + k);
        s.append(d.as_str());
        k = k + 1;
        proof {
            assert(s@ =~= old(s)@ + placeholders(first as nat, k as nat));
        }
    }
}

/// `head`, then `rows` groups of `width` numbered placeholders, then `tail`.
pub fn build_multi_row_statement(head: &str, rows: u64, width: u64, tail: &str) -> (r: String)
    requires
        width >= 1,
        rows * width < u64::MAX,
    ensures
        r@ == multi_row_statement(head@, rows as nat, width as nat, tail@),
{
    let mut stmt = String::from_str(head);
    let mut i: u64 = 0;
    while i < rows
        invariant
            i <= rows,
            width >= 1,
            rows * width < u64::MAX,
            stmt@ == head@ + value_rows(i as nat, width as nat),
        decreases rows - i,
    {
        proof {
            assert(i * width + width <= rows * width) by (nonlinear_arith)
                requires
                    i < rows,
            ;
        }
        if i == 0 {
            proof {
                reveal_strlit(" (");
            }
            stmt.append(" (");
        } else {
            proof {
                reveal_strlit(", (");
            }
            stmt.append(", (");
        }
        push_placeholders(&mut stmt, i * width + 1, width);
        proof {
            reveal_strlit(")");
        }
        stmt.append(")");
        i = i + 1;
        proof {
            assert(stmt@ =~= head@ + value_rows(i as nat, width as nat));
        }
    }
    proof {
        reveal_strlit(" ");
    }
    stmt.append(" ");
    stmt.append(tail);
    stmt
}


pub open spec fn fills_head() -> Seq<char> {
    "INSERT INTO fills (block_datetime, slot, market_pk, seq_num, maker, maker_client_order_id, maker_fee, maker_datetime, taker, taker_client_order_id, taker_fee, taker_side, maker_slot, maker_out, price, quantity) VALUES"@
}

pub open spec fn candles_head() -> Seq<char> {
    "INSERT INTO candles (market_name, start_time, end_time, resolution, open, close, high, low, volume, complete) VALUES"@
}

pub open spec fn candles_tail() -> Seq<char> {
    "ON CONFLICT (market_name, start_time, resolution) DO UPDATE SET open=excluded.open, close=excluded.close, high=excluded.high, low=excluded.low, volume=excluded.volume, complete=excluded.complete"@
}

pub open spec fn transactions_head() -> Seq<char> {
    "INSERT INTO transactions (signature, program_pk, block_datetime, slot, err, processed, worker_partition) VALUES"@
}

pub open spec fn markets_head() -> Seq<char> {
    "INSERT INTO public.market_metadata (creation_datetime, program_pk, market_pk, market_name, base_mint, quote_mint, base_decimals, quote_decimals, base_lot_size, quote_lot_size, scraper_active) VALUES"@
}

pub open spec fn do_nothing_tail() -> Seq<char> {
    "ON CONFLICT DO NOTHING"@
}

/// Inserts the fills, one group of 16 parameters per fill in column order; a fill whose
/// key is already stored is left as it is.
pub fn build_fills_upsert_statement(fills: Vec<OpenBookFill>) -> (r: String)
    requires
        fills@.len() * 16 < u64::MAX,
    ensures
        r@ == multi_row_statement(fills_head(), fills@.len(), 16, do_nothing_tail()),
{
    build_multi_row_statement(
        "INSERT INTO fills (block_datetime, slot, market_pk, seq_num, maker, maker_client_order_id, maker_fee, maker_datetime, taker, taker_client_order_id, taker_fee, taker_side, maker_slot, maker_out, price, quantity) VALUES",
        fills.len() as u64,
        16,
        "ON CONFLICT DO NOTHING",
    )
}

/// Upserts the candles, one group of 10 parameters per candle in column order; a candle
/// already stored for the same market, start and resolution takes the new values.
pub fn build_candles_upsert_statement(candles: &Vec<Candle>) -> (r: String)
    requires
        candles@.len() * 10 < u64::MAX,
    ensures
        r@ == multi_row_statement(candles_head(), candles@.len(), 10, candles_tail()),
{
    build_multi_row_statement(
        "INSERT INTO candles (market_name, start_time, end_time, resolution, open, close, high, low, volume, complete) VALUES",
        candles.len() as u64,
        10,
        "ON CONFLICT (market_name, start_time, resolution) DO UPDATE SET open=excluded.open, close=excluded.close, high=excluded.high, low=excluded.low, volume=excluded.volume, complete=excluded.complete",
    )
}

/// Inserts the signatures, one group of 7 parameters each in column order; a signature
/// already stored is left as it is.
pub fn build_transactions_insert_statement(transactions: Vec<PgTransaction>) -> (r: String)
    requires
        transactions@.len() * 7 < u64::MAX,
    ensures
        r@ == multi_row_statement(transactions_head(), transactions@.len(), 7, do_nothing_tail()),
{
    build_multi_row_statement(
        "INSERT INTO transactions (signature, program_pk, block_datetime, slot, err, processed, worker_partition) VALUES",
        transactions.len() as u64,
        7,
        "ON CONFLICT DO NOTHING",
    )
}

/// Inserts newly discovered markets, one group of 11 parameters each in column order; a
/// market already stored is left as it is.
pub fn build_markets_insert_statement(markets: Vec<OpenBookMarketMetadata>) -> (r: String)
    requires
        markets@.len() * 11 < u64::MAX,
    ensures
        r@ == multi_row_statement(markets_head(), markets@.len(), 11, do_nothing_tail()),
{
    build_multi_row_statement(
        "INSERT INTO public.market_metadata (creation_datetime, program_pk, market_pk, market_name, base_mint, quote_mint, base_decimals, quote_decimals, base_lot_size, quote_lot_size, scraper_active) VALUES",
        markets.len() as u64,
        11,
        "ON CONFLICT DO NOTHING",
    )
}

pub open spec fn signed_decimal(v: int) -> Seq<char> {
    if v < 0 {
        seq!['-'] + decimal_digits((-v) as nat)
    } else {
        decimal_digits(v as nat)
    }
}

pub open spec fn processed_update_statement(worker_id: int, n: nat) -> Seq<char> {
    "UPDATE transactions SET processed = true WHERE transactions.signature IN ("@ + placeholders(
        1,
        n,
    ) + ") AND worker_partition = "@ + signed_decimal(worker_id)
}

/// Marks the given signatures of the worker's partition as processed; the signatures are
/// the parameters `$1..$n`, in order.
pub fn build_transactions_processed_update_statement(
    worker_id: i32,
    processed_signatures: Vec<String>,
) -> (r: String)
    requires
        processed_signatures@.len() < u64::MAX,
    ensures
        r@ == processed_update_statement(worker_id as int, processed_signatures@.len()),
{
    let mut stmt = String::from_str(
        "UPDATE transactions SET processed = true WHERE transactions.signature IN (",
    );
    let n = processed_signatures.len() as u64;
    if n >= 1 {
        push_placeholders(&mut stmt, 1, n);
    }
    stmt.append(") AND worker_partition = ");
    if worker_id < 0 {
        proof {
            reveal_strlit("-");
        }
        stmt.append("-");
        let d = decimal((-(worker_id as i64)) as u64);
        stmt.append(d.as_str());
    } else {
        let d = decimal(worker_id as u64);
        stmt.append(d.as_str());
    }
    proof {
        assert(stmt@ =~= processed_update_statement(worker_id as int, processed_signatures@.len()));
    }
    stmt
}

} // verus!
