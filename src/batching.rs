use vstd::prelude::*;

use crate::candle::{
    candle_bounded, combine_fills_into_1m_candles, combine_into_higher_order_candles, contiguous,
    ends_after, lemma_trim_keeps_series, minute_series, rollup_series, trim_candles, volumes_fit,
    Candle, MAX_TIMESTAMP,
};
use crate::openbook_v2::{OpenBookFill, OpenBookMarketMetadata};
use crate::resolution::{Resolution, DAY_SECONDS};

verus! {

pub open spec fn spec_floor_to_minute(t: int) -> int {
    t - t % 60
}

pub open spec fn spec_floor_to_day(t: int) -> int {
    t - t % (DAY_SECONDS as int)
}

pub fn floor_to_minute(t: i64) -> (r: i64)
    requires
        t >= 0,
    ensures
        r == spec_floor_to_minute(t as int),
{
    t - t % 60
}

pub fn floor_to_day(t: i64) -> (r: i64)
    requires
        t >= 0,
    ensures
        r == spec_floor_to_day(t as int),
{
    t - t % DAY_SECONDS
}

/// The window `[t0, t1)` of the next one-minute pass: it resumes at the end of the
/// latest completed candle, else at the minute of the earliest fill, and spans at most
/// a day, up to the minute after `now`. With neither, there is nothing to do.
pub open spec fn spec_minute_window(
    latest_completed_end: Option<int>,
    earliest_fill_time: Option<int>,
    now: int,
) -> Option<(int, int)> {
    let start = match latest_completed_end {
        Some(e) => Some(e),
        None => match earliest_fill_time {
            Some(t) => Some(spec_floor_to_minute(t)),
            None => None,
        },
    };
    match start {
        Some(t0) => {
            let cap = spec_floor_to_minute(now + 60);
            let t1 = if t0 + DAY_SECONDS < cap { t0 + DAY_SECONDS } else { cap };
            Some((t0, if t1 < t0 { t0 } else { t1 }))
        },
        None => None,
    }
}

pub fn minute_batch_window(
    latest_completed: &Option<Candle>,
    earliest_fill: &Option<OpenBookFill>,
    now: i64,
) -> (r: Option<(i64, i64)>)
    requires
        0 <= now <= MAX_TIMESTAMP,
        latest_completed matches Some(c) ==> 0 <= c.end_time <= MAX_TIMESTAMP,
        earliest_fill matches Some(f) ==> 0 <= f.block_datetime <= MAX_TIMESTAMP,
    ensures
        r matches Some(w) ==> 0 <= w.0 <= w.1 <= MAX_TIMESTAMP + DAY_SECONDS,
        (match r {
            Some(w) => Some((w.0 as int, w.1 as int)),
            None => None,
        }) == spec_minute_window(
            match latest_completed {
                Some(c) => Some(c.end_time as int),
                None => None,
            },
            match earliest_fill {
                Some(f) => Some(f.block_datetime as int),
                None => None,
            },
            now as int,
        ),
{
    let start: i64 = match latest_completed {
        Some(c) => c.end_time,
        None => match earliest_fill {
            Some(f) => floor_to_minute(f.block_datetime),
            None => {
                return None;
            },
        },
    };
    let cap: i64 = floor_to_minute(now + 60);
    let t1: i64 = if start + DAY_SECONDS < cap { start + DAY_SECONDS } else { cap };
    Some((start, if t1 < start { start } else { t1 }))
}

/// One pass of the one-minute batcher over the fills of `[st, et)`: the series is
/// seeded with the close of the latest completed candle, else with the first fill;
/// with neither there are no candles.
pub fn batch_1m_candles(
    fills: &Vec<OpenBookFill>,
    market: &OpenBookMarketMetadata,
    latest_completed: &Option<Candle>,
    st: i64,
    et: i64,
    now: i64,
) -> (candles: Vec<Candle>)
    requires
        0 <= st <= et <= MAX_TIMESTAMP,
        0 <= now <= MAX_TIMESTAMP,
        fills@.len() <= i64::MAX,
    ensures
        candles@ == match latest_completed {
            Some(c) => minute_series(
                fills@,
                market.market_name,
                st as int,
                c.close,
                now as int,
                (et - st) / 60,
            ),
            None => if fills@.len() == 0 {
                Seq::empty()
            } else {
                minute_series(
                    fills@,
                    market.market_name,
                    st as int,
                    fills@[0].price,
                    now as int,
                    (et - st) / 60,
                )
            },
        },
        contiguous(candles@),
        forall|i: int| 0 <= i < candles@.len() ==> candle_bounded(#[trigger] candles@[i]),
        (forall|k: int| 0 <= k < fills@.len() ==> #[trigger] fills@[k].quantity >= 0) ==> (
        forall|i: int| 0 <= i < candles@.len() ==> #[trigger] candles@[i].volume >= 0),
{
    match latest_completed {
        Some(c) => combine_fills_into_1m_candles(fills, market, st, et, Some(c.close), now),
        None => {
            if fills.len() == 0 {
                Vec::new()
            } else {
                combine_fills_into_1m_candles(fills, market, st, et, None, now)
            }
        },
    }
}

/// Where the constituents of the next roll-up are read: the day after the latest
/// completed candle, or, with none, the earliest constituents of the market.
pub fn higher_order_fetch_window(latest_completed: &Option<Candle>) -> (r: Option<(i64, i64)>)
    requires
        latest_completed matches Some(c) ==> 0 <= c.end_time <= MAX_TIMESTAMP,
    ensures
        r == match latest_completed {
            Some(c) => Some((c.end_time, (c.end_time + DAY_SECONDS) as i64)),
            None => None,
        },
{
    match latest_completed {
        Some(c) => Some((c.end_time, c.end_time + DAY_SECONDS)),
        None => None,
    }
}

/// The roll-up that one pass of the higher-order batcher produces from the constituents
/// it read. Resuming after a completed candle, buckets start at its end. Starting
/// afresh, buckets start at the day of the first constituent, and buckets that end
/// before that constituent starts are dropped.
pub open spec fn spec_higher_order_pass(
    latest_completed: Option<Candle>,
    cs: Seq<Candle>,
    resolution: Resolution,
    now: int,
) -> Seq<Candle> {
    if cs.len() == 0 {
        Seq::empty()
    } else {
        match latest_completed {
            Some(c) => rollup_series(cs, resolution, c.end_time as int, now),
            None => rollup_series(
                cs,
                resolution,
                spec_floor_to_day(cs[0].start_time as int),
                now,
            ).filter(ends_after(cs[0].start_time)),
        }
    }
}

pub fn batch_higher_order_candles(
    latest_completed: &Option<Candle>,
    constituent_candles: &Vec<Candle>,
    resolution: Resolution,
    now: i64,
) -> (candles: Vec<Candle>)
    requires
        volumes_fit(constituent_candles@),
        0 <= now <= MAX_TIMESTAMP,
        latest_completed matches Some(c) ==> 0 <= c.end_time <= MAX_TIMESTAMP,
        constituent_candles@.len() > 0 ==> 0 <= constituent_candles@[0].start_time
            <= MAX_TIMESTAMP,
    ensures
        candles@ == spec_higher_order_pass(
            *latest_completed,
            constituent_candles@,
            resolution,
            now as int,
        ),
        contiguous(candles@),
        (forall|k: int|
            0 <= k < constituent_candles@.len() ==> candle_bounded(
                #[trigger] constituent_candles@[k],
            )) ==> (forall|i: int|
            0 <= i < candles@.len() ==> candle_bounded(#[trigger] candles@[i])),
        (forall|k: int|
            0 <= k < constituent_candles@.len() ==> #[trigger] constituent_candles@[k].volume
                >= 0) ==> (forall|i: int|
            0 <= i < candles@.len() ==> #[trigger] candles@[i].volume >= 0),
{
    if constituent_candles.len() == 0 {
        return Vec::new();
    }
    match latest_completed {
        Some(c) => combine_into_higher_order_candles(constituent_candles, resolution, c.end_time, now),
        None => {
            let first_start: i64 = constituent_candles[0].start_time;
            let st: i64 = floor_to_day(first_start);
            let combined = combine_into_higher_order_candles(
                constituent_candles,
                resolution,
                st,
                now,
            );
            proof {
                lemma_trim_keeps_series(combined@, first_start);
            }
            trim_candles(combined, first_start)
        },
    }
}


/// Roll-ups of `cs` from `st` into each resolution of `rs` but the base one, in the order of `rs`.
pub open spec fn backfill_series(cs: Seq<Candle>, st: int, now: int, rs: Seq<Resolution>) -> Seq<
    Candle,
>
    decreases rs.len(),
{
    if rs.len() == 0 {
        Seq::empty()
    } else {
        let prev = backfill_series(cs, st, now, rs.drop_last());
        if rs.last() == Resolution::R1m {
            prev
        } else {
            prev + rollup_series(cs, rs.last(), st, now)
        }
    }
}

/// One day of a backfill: the one-minute candles of the day starting at `start_time`
/// rolled up into every higher resolution. A day without candles yields none.
pub fn backfill_day_candles(constituent_candles: &Vec<Candle>, start_time: i64, now: i64) -> (candles:
    Vec<Candle>)
    requires
        volumes_fit(constituent_candles@),
        0 <= start_time <= MAX_TIMESTAMP,
        0 <= now <= MAX_TIMESTAMP,
    ensures
        candles@ == if constituent_candles@.len() == 0 {
            Seq::empty()
        } else {
            backfill_series(
                constituent_candles@,
                start_time as int,
                now as int,
                seq![
                    Resolution::R1m,
                    Resolution::R5m,
                    Resolution::R15m,
                    Resolution::R1h,
                    Resolution::R4h,
                    Resolution::R1d,
                    Resolution::R1w,
                    Resolution::R1M,
                ],
            )
        },
{
    let mut candles: Vec<Candle> = Vec::new();
    if constituent_candles.len() == 0 {
        return candles;
    }
    let all = Resolution::all();
    let mut k: usize = 0;
    while k < all.len()
        invariant
            volumes_fit(constituent_candles@),
            constituent_candles@.len() > 0,
            0 <= start_time <= MAX_TIMESTAMP,
            0 <= now <= MAX_TIMESTAMP,
            k <= all@.len(),
            candles@ == backfill_series(
                constituent_candles@,
                start_time as int,
                now as int,
                all@.subrange(0, k as int),
            ),
        decreases all@.len() - k,
    {
        let resolution = all[k];
        proof {
            assert(all@.subrange(0, k + 1).drop_last() == all@.subrange(0, k as int));
        }
        if resolution != Resolution::R1m {
            let mut combined = combine_into_higher_order_candles(
                constituent_candles,
                resolution,
                start_time,
                now,
            );
            candles.append(&mut combined);
        }
        k = k + 1;
    }
    proof {
        assert(all@.subrange(0, all@.len() as int) == all@);
    }
    candles
}


/// Completed candles stay as they are: a one-minute pass resumes at the end of the latest
/// completed candle, and every candle it upserts starts at or after that end, so that
/// candle and every earlier one keep their values. The candles of a pass are a function
/// of its inputs, so running it twice upserts the same candles.
pub proof fn lemma_minute_pass_keeps_completed(
    latest_end: int,
    earliest_fill_time: Option<int>,
    now: int,
    fills: Seq<OpenBookFill>,
    market_name: String,
    seed: i64,
)
    requires
        0 <= latest_end <= MAX_TIMESTAMP,
        0 <= now <= MAX_TIMESTAMP,
    ensures
        ({
            let w = spec_minute_window(Some(latest_end), earliest_fill_time, now).unwrap();
            let cs = minute_series(fills, market_name, w.0, seed, now, (w.1 - w.0) / 60);
            &&& w.0 == latest_end
            &&& forall|i: int| 0 <= i < cs.len() ==> #[trigger] cs[i].start_time >= latest_end
        }),
{
    let w = spec_minute_window(Some(latest_end), earliest_fill_time, now).unwrap();
    let cs = minute_series(fills, market_name, w.0, seed, now, (w.1 - w.0) / 60);
    assert forall|i: int| 0 <= i < cs.len() implies #[trigger] cs[i].start_time >= latest_end by {
        assert(60 * i <= w.1 - w.0);
        assert(cs[i].start_time == (w.0 + 60 * i) as i64);
    }
}

} // verus!
