use vstd::prelude::*;

use crate::openbook_v2::{OpenBookFill, OpenBookMarketMetadata};
use crate::resolution::{Resolution, DAY_SECONDS};

verus! {

/// Largest timestamp, in unix seconds, that the batching arithmetic accepts.
pub const MAX_TIMESTAMP: i64 = 4294967295;

/// Seconds before `now` after which a one-minute candle is final.
pub const COMPLETION_MARGIN_SECONDS: i64 = 600;

/// OHLCV summary of one bucket. Prices are in native price lots, volume in base lots.
#[derive(Clone, Debug)]
pub struct Candle {
    pub market_name: String,
    pub start_time: i64,
    pub end_time: i64,
    pub resolution: Resolution,
    pub open: i64,
    pub close: i64,
    pub high: i64,
    pub low: i64,
    pub volume: i128,
    pub complete: bool,
}

pub open spec fn max_i64(a: i64, b: i64) -> i64 {
    if a >= b { a } else { b }
}

pub open spec fn min_i64(a: i64, b: i64) -> i64 {
    if a <= b { a } else { b }
}

/// Prices stay between low and high, open and close included.
pub open spec fn candle_bounded(c: Candle) -> bool {
    &&& c.low <= c.open <= c.high
    &&& c.low <= c.close <= c.high
}

/// Each candle starts where the previous one ends.
pub open spec fn contiguous(cs: Seq<Candle>) -> bool {
    forall|k: int| 0 <= k < cs.len() - 1 ==> #[trigger] cs[k + 1].start_time == cs[k].end_time
}

// ---------------------------------------------------------------------------
// One-minute candles from fills
// ---------------------------------------------------------------------------

/// Index reached by consuming, from `j`, every fill that lies before `end`.
pub open spec fn fill_advance(fills: Seq<OpenBookFill>, j: int, end: int) -> int
    decreases fills.len() - j,
{
    if 0 <= j < fills.len() && fills[j].block_datetime < end {
        fill_advance(fills, j + 1, end)
    } else {
        j
    }
}

/// Number of fills consumed before the minute with index `i` of a series starting at `st`.
pub open spec fn fill_cursor(fills: Seq<OpenBookFill>, st: int, i: nat) -> int
    decreases i,
{
    if i == 0 {
        0
    } else {
        fill_advance(fills, fill_cursor(fills, st, (i - 1) as nat), st + 60 * i)
    }
}

/// Last traded price once the first `k` fills are consumed.
pub open spec fn fill_carry(fills: Seq<OpenBookFill>, seed: i64, k: int) -> i64 {
    if k > 0 { fills[k - 1].price } else { seed }
}

pub open spec fn fills_high(fills: Seq<OpenBookFill>, a: int, b: int, init: i64) -> i64
    decreases b - a,
{
    if b <= a { init } else { max_i64(fills_high(fills, a, b - 1, init), fills[b - 1].price) }
}

pub open spec fn fills_low(fills: Seq<OpenBookFill>, a: int, b: int, init: i64) -> i64
    decreases b - a,
{
    if b <= a { init } else { min_i64(fills_low(fills, a, b - 1, init), fills[b - 1].price) }
}

pub open spec fn fills_quantity(fills: Seq<OpenBookFill>, a: int, b: int) -> int
    decreases b - a,
{
    if b <= a { 0 } else { fills_quantity(fills, a, b - 1) + fills[b - 1].quantity }
}

/// The price that opens a series: the given one, else that of the first fill.
pub open spec fn seed_price(fills: Seq<OpenBookFill>, maybe_last_price: Option<i64>) -> i64 {
    match maybe_last_price {
        Some(p) => p,
        None => fills[0].price,
    }
}

/// The one-minute candle with index `i` of the series that starts at `st`.
pub open spec fn minute_candle(
    fills: Seq<OpenBookFill>,
    market_name: String,
    st: int,
    seed: i64,
    now: int,
    i: nat,
) -> Candle {
    let a = fill_cursor(fills, st, i);
    let b = fill_cursor(fills, st, i + 1);
    let open = fill_carry(fills, seed, a);
    let end = st + 60 * (i + 1);
    Candle {
        market_name: market_name,
        start_time: (st + 60 * i) as i64,
        end_time: end as i64,
        resolution: Resolution::R1m,
        open: open,
        close: fill_carry(fills, seed, b),
        high: fills_high(fills, a, b, open),
        low: fills_low(fills, a, b, open),
        volume: fills_quantity(fills, a, b) as i128,
        complete: (b < fills.len() && fills[b].block_datetime > end) || end < now
            - COMPLETION_MARGIN_SECONDS,
    }
}

/// The one-minute series over `minutes` buckets from `st`.
pub open spec fn minute_series(
    fills: Seq<OpenBookFill>,
    market_name: String,
    st: int,
    seed: i64,
    now: int,
    minutes: int,
) -> Seq<Candle> {
    Seq::new(minutes as nat, |i: int| minute_candle(fills, market_name, st, seed, now, i as nat))
}

proof fn lemma_fill_advance_bounds(fills: Seq<OpenBookFill>, j: int, end: int)
    requires
        0 <= j <= fills.len(),
    ensures
        j <= fill_advance(fills, j, end) <= fills.len(),
    decreases fills.len() - j,
{
    if j < fills.len() && fills[j].block_datetime < end {
        lemma_fill_advance_bounds(fills, j + 1, end);
    }
}

proof fn lemma_fill_cursor_bounds(fills: Seq<OpenBookFill>, st: int, i: nat)
    ensures
        0 <= fill_cursor(fills, st, i) <= fills.len(),
    decreases i,
{
    if i > 0 {
        lemma_fill_cursor_bounds(fills, st, (i - 1) as nat);
        lemma_fill_advance_bounds(fills, fill_cursor(fills, st, (i - 1) as nat), st + 60 * i);
    }
}

/// Builds the one-minute candles of `[st, et)` from fills ordered by time.
/// A minute without fills repeats the last price with zero volume.
pub fn combine_fills_into_1m_candles(
    fills: &Vec<OpenBookFill>,
    market: &OpenBookMarketMetadata,
    st: i64,
    et: i64,
    maybe_last_price: Option<i64>,
    now: i64,
) -> (candles: Vec<Candle>)
    requires
        0 <= st <= et <= MAX_TIMESTAMP,
        0 <= now <= MAX_TIMESTAMP,
        maybe_last_price.is_some() || fills@.len() > 0,
        fills@.len() <= i64::MAX,
    ensures
        candles@ == minute_series(
            fills@,
            market.market_name,
            st as int,
            seed_price(fills@, maybe_last_price),
            now as int,
            (et - st) / 60,
        ),
        candles@.len() == (et - st) / 60,
        forall|i: int|
            0 <= i < candles@.len() ==> #[trigger] candles@[i] == minute_candle(
                fills@,
                market.market_name,
                st as int,
                seed_price(fills@, maybe_last_price),
                now as int,
                i as nat,
            ),
        forall|i: int| 0 <= i < candles@.len() ==> candle_bounded(#[trigger] candles@[i]),
        forall|i: int|
            0 <= i < candles@.len() ==> #[trigger] candles@[i].end_time == candles@[i].start_time
                + 60,
        contiguous(candles@),
        (forall|k: int| 0 <= k < fills@.len() ==> #[trigger] fills@[k].quantity >= 0) ==> (
        forall|i: int| 0 <= i < candles@.len() ==> #[trigger] candles@[i].volume >= 0),
{
    let ghost f = fills@;
    let ghost seed = seed_price(fills@, maybe_last_price);
    let minutes: usize = ((et - st) / 60) as usize;
    let mut candles: Vec<Candle> = Vec::new();
    let mut last_price: i64 = match maybe_last_price {
        Some(p) => p,
        None => fills[0].price,
    };
    let mut j: usize = 0;
    let mut start_time: i64 = st;
    let mut i: usize = 0;
    while i < minutes
        invariant
            f == fills@,
            seed == seed_price(f, maybe_last_price),
            0 <= st <= et <= MAX_TIMESTAMP,
            0 <= now <= MAX_TIMESTAMP,
            f.len() <= i64::MAX,
            minutes == (et - st) / 60,
            i <= minutes,
            j == fill_cursor(f, st as int, i as nat),
            j <= f.len(),
            last_price == fill_carry(f, seed, j as int),
            start_time == st + 60 * i,
            candles@.len() == i,
            forall|k: int|
                0 <= k < i ==> #[trigger] candles@[k] == minute_candle(
                    f,
                    market.market_name,
                    st as int,
                    seed,
                    now as int,
                    k as nat,
                ),
            forall|k: int| 0 <= k < i ==> candle_bounded(#[trigger] candles@[k]),
            (forall|k: int| 0 <= k < f.len() ==> #[trigger] f[k].quantity >= 0) ==> (forall|
                k: int,
            |
                0 <= k < i ==> #[trigger] candles@[k].volume >= 0),
        decreases minutes - i,
    {
        let end_time: i64 = start_time + 60;
        let open: i64 = last_price;
        let mut high: i64 = open;
        let mut low: i64 = open;
        let mut volume: i128 = 0;
        let ghost a: int = j as int;
        proof {
            lemma_fill_cursor_bounds(f, st as int, i as nat);
        }
        while j < fills.len() && fills[j].block_datetime < end_time
            invariant
                f == fills@,
                f.len() <= i64::MAX,
                0 <= a <= j <= f.len(),
                fill_advance(f, j as int, end_time as int) == fill_advance(f, a, end_time as int),
                last_price == fill_carry(f, seed, j as int),
                open == fill_carry(f, seed, a),
                high == fills_high(f, a, j as int, open),
                low == fills_low(f, a, j as int, open),
                volume == fills_quantity(f, a, j as int),
                -(j - a) * 0x8000_0000_0000_0000 <= volume <= (j - a) * 0x8000_0000_0000_0000,
                low <= open <= high,
                low <= last_price <= high,
                (forall|k: int| 0 <= k < f.len() ==> #[trigger] f[k].quantity >= 0) ==> volume
                    >= 0,
            decreases f.len() - j,
        {
            let p: i64 = fills[j].price;
            let q: i64 = fills[j].quantity;
            last_price = p;
            if p > high {
                high = p;
            }
            if p < low {
                low = p;
            }
            volume = volume + q as i128;
            j = j + 1;
        }
        let ghost b: int = j as int;
        proof {
            assert(fill_cursor(f, st as int, (i + 1) as nat) == fill_advance(
                f,
                fill_cursor(f, st as int, i as nat),
                st + 60 * (i + 1),
            ));
        }
        let complete: bool = (j < fills.len() && fills[j].block_datetime > end_time) || end_time
            < now - COMPLETION_MARGIN_SECONDS;
        let candle = Candle {
            market_name: market.market_name.clone(),
            start_time: start_time,
            end_time: end_time,
            resolution: Resolution::R1m,
            open: open,
            close: last_price,
            high: high,
            low: low,
            volume: volume,
            complete: complete,
        };
        candles.push(candle);
        start_time = end_time;
        i = i + 1;
    }
    candles
}


// ---------------------------------------------------------------------------
// Higher-resolution candles from constituent candles
// ---------------------------------------------------------------------------

/// Index reached by consuming, from `j`, every constituent that ends by `end`.
pub open spec fn candle_advance(cs: Seq<Candle>, j: int, end: int) -> int
    decreases cs.len() - j,
{
    if 0 <= j < cs.len() && cs[j].end_time <= end {
        candle_advance(cs, j + 1, end)
    } else {
        j
    }
}

/// Number of constituents consumed before bucket `i` of width `d` starting at `st`.
pub open spec fn candle_cursor(cs: Seq<Candle>, st: int, d: int, i: nat) -> int
    decreases i,
{
    if i == 0 {
        0
    } else {
        candle_advance(cs, candle_cursor(cs, st, d, (i - 1) as nat), st + d * i)
    }
}

/// Last close once the first `k` constituents are consumed; the first close seeds it.
pub open spec fn candle_carry(cs: Seq<Candle>, k: int) -> i64 {
    if k > 0 { cs[k - 1].close } else { cs[0].close }
}

pub open spec fn candles_high(cs: Seq<Candle>, a: int, b: int, init: i64) -> i64
    decreases b - a,
{
    if b <= a { init } else { max_i64(candles_high(cs, a, b - 1, init), cs[b - 1].high) }
}

pub open spec fn candles_low(cs: Seq<Candle>, a: int, b: int, init: i64) -> i64
    decreases b - a,
{
    if b <= a { init } else { min_i64(candles_low(cs, a, b - 1, init), cs[b - 1].low) }
}

pub open spec fn candles_volume(cs: Seq<Candle>, a: int, b: int) -> int
    decreases b - a,
{
    if b <= a { 0 } else { candles_volume(cs, a, b - 1) + cs[b - 1].volume }
}

pub open spec fn abs_int(x: int) -> int {
    if x >= 0 { x } else { -x }
}

/// Sum of the absolute volumes of the constituents in `[a, b)`.
pub open spec fn candles_abs_volume(cs: Seq<Candle>, a: int, b: int) -> int
    decreases b - a,
{
    if b <= a { 0 } else { candles_abs_volume(cs, a, b - 1) + abs_int(cs[b - 1].volume as int) }
}

/// The constituents' volumes can be summed in any grouping without overflow.
pub open spec fn volumes_fit(cs: Seq<Candle>) -> bool {
    candles_abs_volume(cs, 0, cs.len() as int) <= i128::MAX
}

/// Number of buckets of width `d` from `st` up to `now` floored to the minute,
/// over at most one day, and at least one.
pub open spec fn num_buckets(now: int, st: int, d: int) -> int {
    let w = (now - now % 60) - st;
    if w < 0 {
        1
    } else {
        let win = if w < DAY_SECONDS { w } else { DAY_SECONDS as int };
        (win / 60) / (d / 60) + 1
    }
}

/// Bucket `i` of the roll-up of `cs` into `target`, buckets starting at `st`.
pub open spec fn bucket_candle(cs: Seq<Candle>, target: Resolution, st: int, i: nat) -> Candle {
    let d = target.spec_seconds();
    let a = candle_cursor(cs, st, d, i);
    let b = candle_cursor(cs, st, d, i + 1);
    let open = candle_carry(cs, a);
    Candle {
        market_name: cs[0].market_name,
        start_time: (st + d * i) as i64,
        end_time: (st + d * (i + 1)) as i64,
        resolution: target,
        open: open,
        close: candle_carry(cs, b),
        high: candles_high(cs, a, b, open),
        low: candles_low(cs, a, b, open),
        volume: candles_volume(cs, a, b) as i128,
        complete: if b > a { cs[b - 1].complete } else { false },
    }
}

/// The roll-up of `cs` into `target`, from `st` up to `now`.
pub open spec fn rollup_series(cs: Seq<Candle>, target: Resolution, st: int, now: int) -> Seq<
    Candle,
> {
    Seq::new(
        num_buckets(now, st, target.spec_seconds()) as nat,
        |i: int| bucket_candle(cs, target, st, i as nat),
    )
}

proof fn lemma_candle_advance_bounds(cs: Seq<Candle>, j: int, end: int)
    requires
        0 <= j <= cs.len(),
    ensures
        j <= candle_advance(cs, j, end) <= cs.len(),
    decreases cs.len() - j,
{
    if j < cs.len() && cs[j].end_time <= end {
        lemma_candle_advance_bounds(cs, j + 1, end);
    }
}

proof fn lemma_candle_cursor_bounds(cs: Seq<Candle>, st: int, d: int, i: nat)
    ensures
        0 <= candle_cursor(cs, st, d, i) <= cs.len(),
    decreases i,
{
    if i > 0 {
        lemma_candle_cursor_bounds(cs, st, d, (i - 1) as nat);
        lemma_candle_advance_bounds(cs, candle_cursor(cs, st, d, (i - 1) as nat), st + d * i);
    }
}

proof fn lemma_abs_volume_split(cs: Seq<Candle>, a: int, b: int)
    requires
        0 <= a <= b,
    ensures
        candles_abs_volume(cs, 0, b) == candles_abs_volume(cs, 0, a) + candles_abs_volume(cs, a, b),
        candles_abs_volume(cs, a, b) >= 0,
        candles_abs_volume(cs, 0, a) >= 0,
    decreases b - a,
{
    if b > a {
        lemma_abs_volume_split(cs, a, b - 1);
    } else {
        lemma_abs_volume_nonneg(cs, a);
    }
}

proof fn lemma_abs_volume_nonneg(cs: Seq<Candle>, b: int)
    ensures
        candles_abs_volume(cs, 0, b) >= 0,
    decreases b,
{
    if b > 0 {
        lemma_abs_volume_nonneg(cs, b - 1);
    }
}

/// Rolls the constituent candles up into buckets of `target_resolution` starting at `st`.
/// An empty bucket repeats the last close with zero volume.
pub fn combine_into_higher_order_candles(
    constituent_candles: &Vec<Candle>,
    target_resolution: Resolution,
    st: i64,
    now: i64,
) -> (candles: Vec<Candle>)
    requires
        constituent_candles@.len() > 0,
        volumes_fit(constituent_candles@),
        0 <= st <= MAX_TIMESTAMP,
        0 <= now <= MAX_TIMESTAMP,
    ensures
        candles@ == rollup_series(constituent_candles@, target_resolution, st as int, now as int),
        candles@.len() == num_buckets(now as int, st as int, target_resolution.spec_seconds()),
        forall|i: int|
            0 <= i < candles@.len() ==> #[trigger] candles@[i] == bucket_candle(
                constituent_candles@,
                target_resolution,
                st as int,
                i as nat,
            ),
        forall|i: int|
            0 <= i < candles@.len() ==> #[trigger] candles@[i].end_time == candles@[i].start_time
                + target_resolution.spec_seconds(),
        contiguous(candles@),
        (forall|k: int|
            0 <= k < constituent_candles@.len() ==> candle_bounded(
                #[trigger] constituent_candles@[k],
            )) ==> (forall|i: int|
            0 <= i < candles@.len() ==> candle_bounded(#[trigger] candles@[i])),
        (forall|k: int|
            0 <= k < constituent_candles@.len() ==> #[trigger] constituent_candles@[k].volume
                >= 0) ==> (forall|i: int|
            0 <= i < candles@.len() ==> #[trigger] candles@[i].volume >= 0),
{
    let ghost cs = constituent_candles@;
    let ghost all_bounded = forall|k: int| 0 <= k < cs.len() ==> candle_bounded(#[trigger] cs[k]);
    let ghost all_nonneg = forall|k: int| 0 <= k < cs.len() ==> #[trigger] cs[k].volume >= 0;
    let d: i64 = target_resolution.get_duration_seconds();
    let now_minute: i64 = now - now % 60;
    let window: i64 = now_minute - st;
    let num: usize = if window < 0 {
        1
    } else {
        let win: i64 = if window < DAY_SECONDS { window } else { DAY_SECONDS };
        ((win / 60) / (d / 60) + 1) as usize
    };
    let mut candles: Vec<Candle> = Vec::new();
    let mut last_close: i64 = constituent_candles[0].close;
    let mut j: usize = 0;
    let mut start_time: i64 = st;
    let mut i: usize = 0;
    while i < num
        invariant
            cs == constituent_candles@,
            cs.len() > 0,
            volumes_fit(cs),
            all_bounded == (forall|k: int| 0 <= k < cs.len() ==> candle_bounded(#[trigger] cs[k])),
            all_nonneg == (forall|k: int| 0 <= k < cs.len() ==> #[trigger] cs[k].volume >= 0),
            0 <= st <= MAX_TIMESTAMP,
            d == target_resolution.spec_seconds(),
            60 <= d <= 2592000,
            num == num_buckets(now as int, st as int, d as int),
            1 <= num <= 1441,
            i <= num,
            j == candle_cursor(cs, st as int, d as int, i as nat),
            j <= cs.len(),
            last_close == candle_carry(cs, j as int),
            start_time == st + d * i,
            candles@.len() == i,
            forall|k: int|
                0 <= k < i ==> #[trigger] candles@[k] == bucket_candle(
                    cs,
                    target_resolution,
                    st as int,
                    k as nat,
                ),
            all_bounded ==> forall|k: int| 0 <= k < i ==> candle_bounded(#[trigger] candles@[k]),
            all_nonneg ==> forall|k: int| 0 <= k < i ==> #[trigger] candles@[k].volume >= 0,
        decreases num - i,
    {
        proof {
            assert(d * (i + 1) == d * i + d) by (nonlinear_arith);
            assert(d * (i + 1) <= 2592000 * 1441) by (nonlinear_arith)
                requires
                    0 <= d <= 2592000,
                    0 <= i + 1 <= 1441,
            ;
            lemma_candle_cursor_bounds(cs, st as int, d as int, i as nat);
            lemma_abs_volume_split(cs, j as int, cs.len() as int);
        }
        let end_time: i64 = start_time + d;
        let open: i64 = last_close;
        let mut high: i64 = open;
        let mut low: i64 = open;
        let mut volume: i128 = 0;
        let mut complete: bool = false;
        let ghost a: int = j as int;
        while j < constituent_candles.len() && constituent_candles[j].end_time <= end_time
            invariant
                cs == constituent_candles@,
                cs.len() > 0,
                volumes_fit(cs),
                all_bounded == (forall|k: int| 0 <= k < cs.len() ==> candle_bounded(#[trigger] cs[k])),
                all_nonneg == (forall|k: int| 0 <= k < cs.len() ==> #[trigger] cs[k].volume >= 0),
                0 <= a <= j <= cs.len(),
                candle_advance(cs, j as int, end_time as int) == candle_advance(cs, a, end_time as int),
                last_close == candle_carry(cs, j as int),
                open == candle_carry(cs, a),
                high == candles_high(cs, a, j as int, open),
                low == candles_low(cs, a, j as int, open),
                volume == candles_volume(cs, a, j as int),
                complete == (if j > a { cs[j - 1].complete } else { false }),
                abs_int(volume as int) <= candles_abs_volume(cs, a, j as int),
                low <= open <= high,
                all_bounded ==> low <= last_close <= high,
                all_nonneg ==> volume >= 0,
            decreases cs.len() - j,
        {
            proof {
                lemma_abs_volume_split(cs, a, j + 1);
                lemma_abs_volume_split(cs, j + 1, cs.len() as int);
            }
            let c = &constituent_candles[j];
            if c.high > high {
                high = c.high;
            }
            if c.low < low {
                low = c.low;
            }
            last_close = c.close;
            volume = volume + c.volume;
            complete = c.complete;
            j = j + 1;
        }
        proof {
            assert(candle_cursor(cs, st as int, d as int, (i + 1) as nat) == candle_advance(
                cs,
                candle_cursor(cs, st as int, d as int, i as nat),
                st + d * (i + 1),
            ));
        }
        let candle = Candle {
            market_name: constituent_candles[0].market_name.clone(),
            start_time: start_time,
            end_time: end_time,
            resolution: target_resolution,
            open: open,
            close: last_close,
            high: high,
            low: low,
            volume: volume,
            complete: complete,
        };
        candles.push(candle);
        start_time = end_time;
        i = i + 1;
    }
    candles
}


/// Holds of a candle that ends after `t`.
pub open spec fn ends_after(t: i64) -> spec_fn(Candle) -> bool {
    |x: Candle| x.end_time > t
}

/// Keeps the candles that end after `start_time`, in order.
pub fn trim_candles(c: Vec<Candle>, start_time: i64) -> (r: Vec<Candle>)
    ensures
        r@ == c@.filter(ends_after(start_time)),
{
    let ghost c0 = c@;
    let ghost pred = ends_after(start_time);
    let mut c = c;
    let mut i: usize = 0;
    let ghost mut k: int = 0;
    while i < c.len()
        invariant
            0 <= i <= k <= c0.len(),
            pred == ends_after(start_time),
            c@.len() == i + (c0.len() - k),
            c@.subrange(0, i as int) == c0.subrange(0, k).filter(pred),
            c@.subrange(i as int, c@.len() as int) == c0.subrange(k, c0.len() as int),
        decreases c0.len() - k,
    {
        proof {
            assert(c0.subrange(0, k + 1) == c0.subrange(0, k).push(c0[k]));
            c0.subrange(0, k).lemma_filter_push(c0[k], pred);
            assert(c@[i as int] == c@.subrange(i as int, c@.len() as int)[0]);
            assert(c0[k] == c0.subrange(k, c0.len() as int)[0]);
            assert(c@[i as int] == c0[k]);
            assert(pred(c0[k]) == (c0[k].end_time > start_time));
        }
        if c[i].end_time <= start_time {
            let ghost before = c@;
            c.remove(i);
            proof {
                assert(c@.subrange(0, i as int) == before.subrange(0, i as int));
                assert(c@.subrange(i as int, c@.len() as int) == before.subrange(
                    i + 1,
                    before.len() as int,
                ));
                assert(c0.subrange(k + 1, c0.len() as int) == c0.subrange(k, c0.len() as int).subrange(
                    1,
                    c0.len() - k,
                ));
                k = k + 1;
            }
        } else {
            proof {
                assert(c@.subrange(0, i + 1) == c@.subrange(0, i as int).push(c@[i as int]));
                assert(c0.subrange(k + 1, c0.len() as int) == c0.subrange(k, c0.len() as int).subrange(
                    1,
                    c0.len() - k,
                ));
                assert(c@.subrange(i + 1, c@.len() as int) == c@.subrange(i as int, c@.len() as int).subrange(
                    1,
                    c@.len() - i,
                ));
                k = k + 1;
            }
            i = i + 1;
        }
    }
    proof {
        assert(c@ == c@.subrange(0, i as int));
        assert(c0 == c0.subrange(0, k));
    }
    c
}


/// Each candle of the series ends after it starts.
pub open spec fn forward(cs: Seq<Candle>) -> bool {
    forall|k: int| 0 <= k < cs.len() ==> #[trigger] cs[k].start_time < cs[k].end_time
}

proof fn lemma_filter_ends_after(cs: Seq<Candle>, t: i64)
    requires
        contiguous(cs),
        forward(cs),
    ensures
        contiguous(cs.filter(ends_after(t))),
        forward(cs.filter(ends_after(t))),
        cs.filter(ends_after(t)).len() > 0 ==> cs.filter(ends_after(t)).last() == cs.last(),
    decreases cs.len(),
{
    let pred = ends_after(t);
    if cs.len() > 0 {
        let init = cs.drop_last();
        assert(contiguous(init)) by {
            assert forall|k: int| 0 <= k < init.len() - 1 implies #[trigger] init[k + 1].start_time
                == init[k].end_time by {
                assert(cs[k + 1].start_time == cs[k].end_time);
            }
        }
        assert(forward(init)) by {
            assert forall|k: int| 0 <= k < init.len() implies #[trigger] init[k].start_time
                < init[k].end_time by {
                assert(cs[k].start_time < cs[k].end_time);
            }
        }
        lemma_filter_ends_after(init, t);
        let fi = init.filter(pred);
        assert(cs == init.push(cs.last()));
        init.lemma_filter_push(cs.last(), pred);
        assert(cs.filter(pred) == if pred(cs.last()) {
            fi.push(cs.last())
        } else {
            fi
        });
        if pred(cs.last()) {
            if fi.len() > 0 {
                assert(fi.last() == init.last());
                let j = cs.len() - 2;
                assert(cs[j + 1].start_time == cs[j].end_time);
            }
            let f = fi.push(cs.last());
            assert(forward(f)) by {
                assert forall|k: int| 0 <= k < f.len() implies #[trigger] f[k].start_time
                    < f[k].end_time by {
                    if k < fi.len() {
                        assert(f[k] == fi[k]);
                    } else {
                        assert(cs[cs.len() - 1].start_time < cs[cs.len() - 1].end_time);
                    }
                }
            }
            assert(contiguous(f)) by {
                assert forall|k: int| 0 <= k < f.len() - 1 implies #[trigger] f[k + 1].start_time
                    == f[k].end_time by {
                    if k + 1 < fi.len() {
                        assert(f[k + 1] == fi[k + 1]);
                        assert(f[k] == fi[k]);
                    }
                }
            }
        } else {
            if fi.len() > 0 {
                // The last kept candle would end after `t`, yet it ends where the last
                // candle starts, before that one's end, which is not after `t`.
                assert(fi.last() == init.last());
                let j = cs.len() - 2;
                assert(cs[j + 1].start_time == cs[j].end_time);
                assert(cs[j + 1].start_time < cs[j + 1].end_time);
                init.lemma_filter_pred(pred, fi.len() - 1);
                assert(pred(fi[fi.len() - 1]));
                assert(false);
            }
        }
    }
}

/// Trimming a contiguous series keeps it contiguous, and keeps candles within bounds.
pub proof fn lemma_trim_keeps_series(cs: Seq<Candle>, t: i64)
    requires
        contiguous(cs),
        forward(cs),
    ensures
        contiguous(cs.filter(ends_after(t))),
        (forall|k: int| 0 <= k < cs.len() ==> candle_bounded(#[trigger] cs[k])) ==> (forall|k: int|
            0 <= k < cs.filter(ends_after(t)).len() ==> candle_bounded(
                #[trigger] cs.filter(ends_after(t))[k],
            )),
        (forall|k: int| 0 <= k < cs.len() ==> #[trigger] cs[k].volume >= 0) ==> (forall|k: int|
            0 <= k < cs.filter(ends_after(t)).len() ==> #[trigger] cs.filter(ends_after(t))[k].volume
                >= 0),
{
    lemma_filter_ends_after(cs, t);
    let f = cs.filter(ends_after(t));
    assert forall|k: int| 0 <= k < f.len() implies exists|m: int|
        0 <= m < cs.len() && cs[m] == #[trigger] f[k] by {
        assert(f.contains(f[k]));
        cs.lemma_filter_contains_rev(ends_after(t), f[k]);
        assert(cs.contains(f[k]));
    }
}


/// Highest high of a window of constituents, seeded with `init`.
pub open spec fn window_high(w: Seq<Candle>, init: i64) -> i64
    decreases w.len(),
{
    if w.len() == 0 { init } else { max_i64(window_high(w.drop_last(), init), w.last().high) }
}

/// Lowest low of a window of constituents, seeded with `init`.
pub open spec fn window_low(w: Seq<Candle>, init: i64) -> i64
    decreases w.len(),
{
    if w.len() == 0 { init } else { min_i64(window_low(w.drop_last(), init), w.last().low) }
}

/// Total volume of a window of constituents.
pub open spec fn window_volume(w: Seq<Candle>) -> int
    decreases w.len(),
{
    if w.len() == 0 { 0 } else { window_volume(w.drop_last()) + w.last().volume }
}

/// The constituents that bucket `i` of the roll-up consumes.
pub open spec fn bucket_window(cs: Seq<Candle>, target: Resolution, st: int, i: nat) -> Seq<Candle> {
    let d = target.spec_seconds();
    cs.subrange(candle_cursor(cs, st, d, i), candle_cursor(cs, st, d, i + 1))
}

proof fn lemma_window_folds(cs: Seq<Candle>, a: int, b: int, init: i64)
    requires
        0 <= a <= b <= cs.len(),
    ensures
        candles_high(cs, a, b, init) == window_high(cs.subrange(a, b), init),
        candles_low(cs, a, b, init) == window_low(cs.subrange(a, b), init),
        candles_volume(cs, a, b) == window_volume(cs.subrange(a, b)),
    decreases b - a,
{
    if b > a {
        lemma_window_folds(cs, a, b - 1, init);
        assert(cs.subrange(a, b).drop_last() == cs.subrange(a, b - 1));
    }
}

proof fn lemma_advance_consumes_ending(cs: Seq<Candle>, j: int, end: int, k: int)
    requires
        0 <= j <= k < candle_advance(cs, j, end),
    ensures
        cs[k].end_time <= end,
    decreases cs.len() - j,
{
    if k > j {
        lemma_advance_consumes_ending(cs, j + 1, end, k);
    }
}

/// Roll-up consistency: bucket `i` of the roll-up of `cs` into `target` takes the last
/// close before its window as open (the first close for the first window); over a
/// non-empty window its high is the highest of that open and the constituents' highs,
/// its low likewise, its volume their total, its close and completeness those of the
/// last constituent; and every constituent of the window ends by the bucket's end.
pub proof fn lemma_rollup_consistency(cs: Seq<Candle>, target: Resolution, st: int, i: nat)
    requires
        cs.len() > 0,
    ensures
        ({
            let h = bucket_candle(cs, target, st, i);
            let w = bucket_window(cs, target, st, i);
            let a = candle_cursor(cs, st, target.spec_seconds(), i);
            &&& h.open == (if a > 0 { cs[a - 1].close } else { cs[0].close })
            &&& w.len() > 0 ==> {
                &&& h.high == window_high(w, h.open)
                &&& h.low == window_low(w, h.open)
                &&& h.volume == window_volume(w) as i128
                &&& h.close == w.last().close
                &&& h.complete == w.last().complete
            }
            &&& forall|k: int|
                0 <= k < w.len() ==> #[trigger] w[k].end_time <= st + target.spec_seconds() * (i
                    + 1)
        }),
{
    let d = target.spec_seconds();
    let a = candle_cursor(cs, st, d, i);
    let b = candle_cursor(cs, st, d, i + 1);
    lemma_candle_cursor_bounds(cs, st, d, i);
    assert(b == candle_advance(cs, a, st + d * (i + 1)));
    lemma_candle_advance_bounds(cs, a, st + d * (i + 1));
    lemma_window_folds(cs, a, b, candle_carry(cs, a));
    let w = cs.subrange(a, b);
    assert forall|k: int| 0 <= k < w.len() implies #[trigger] w[k].end_time <= st + d * (i + 1) by {
        lemma_advance_consumes_ending(cs, a, st + d * (i + 1), a + k);
    }
}

} // verus!
