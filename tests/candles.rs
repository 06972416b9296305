use openbook_offchain_services::batching::{
    backfill_day_candles, batch_1m_candles, batch_higher_order_candles, floor_to_day,
    floor_to_minute, higher_order_fetch_window, minute_batch_window,
};
use openbook_offchain_services::candle::{
    combine_fills_into_1m_candles, combine_into_higher_order_candles, trim_candles, Candle,
};
use openbook_offchain_services::openbook_v2::{OpenBookFill, OpenBookMarketMetadata};
use openbook_offchain_services::resolution::Resolution;

const JAN_1_2024: i64 = 1704067200;

fn market() -> OpenBookMarketMetadata {
    OpenBookMarketMetadata {
        creation_datetime: 0,
        program_pk: String::from("program"),
        market_pk: String::from("market"),
        market_name: String::from("SOL-USDC"),
        base_mint: String::from("base"),
        quote_mint: String::from("quote"),
        base_decimals: 6,
        quote_decimals: 6,
        base_lot_size: 100,
        quote_lot_size: 10,
        scraper_active: true,
    }
}

fn fill(time: i64, price: i64, quantity: i64, seq_num: u64) -> OpenBookFill {
    OpenBookFill {
        block_datetime: time,
        slot: 1,
        market_pk: String::from("market"),
        seq_num,
        maker: String::from("maker"),
        maker_client_order_id: 0,
        maker_fee: 0,
        maker_datetime: 0,
        taker: String::from("taker"),
        taker_client_order_id: 0,
        taker_fee: 0,
        taker_side: 0,
        maker_slot: 0,
        maker_out: false,
        price,
        quantity,
    }
}

fn minute_candle(start: i64, close: i64, volume: i128) -> Candle {
    Candle {
        market_name: String::from("SOL-USDC"),
        start_time: start,
        end_time: start + 60,
        resolution: Resolution::R1m,
        open: close,
        close,
        high: close,
        low: close,
        volume,
        complete: true,
    }
}

fn ohlcv(c: &Candle) -> (i64, i64, i64, i64, i128) {
    (c.open, c.high, c.low, c.close, c.volume)
}

#[test]
fn single_fill_makes_single_candle() {
    let fills = vec![fill(JAN_1_2024 + 30, 5000, 200, 1)];
    let candles = combine_fills_into_1m_candles(
        &fills,
        &market(),
        JAN_1_2024,
        JAN_1_2024 + 60,
        None,
        JAN_1_2024 + 3600,
    );
    assert_eq!(candles.len(), 1);
    let c = &candles[0];
    assert_eq!(ohlcv(c), (5000, 5000, 5000, 5000, 200));
    assert_eq!(c.start_time, JAN_1_2024);
    assert_eq!(c.end_time, JAN_1_2024 + 60);
    assert!(c.complete);
    assert_eq!(c.market_name, "SOL-USDC");
    // In UI units: price 5000 * 10 * 10^6 / (100 * 10^6) = 500, quantity 200 * 100 / 10^6 = 0.02.
    let m = market();
    let ui_price = (c.open as f64) * (m.quote_lot_size as f64) * 1e6 / ((m.base_lot_size as f64) * 1e6);
    let ui_volume = (c.volume as f64) * (m.base_lot_size as f64) / 1e6;
    assert!((ui_price - 500.0).abs() < 1e-9);
    assert!((ui_volume - 0.02).abs() < 1e-12);
}

#[test]
fn empty_minutes_carry_last_close() {
    let fills = vec![fill(JAN_1_2024 + 30, 5000, 200, 1)];
    let candles = combine_fills_into_1m_candles(
        &fills,
        &market(),
        JAN_1_2024,
        JAN_1_2024 + 600,
        None,
        JAN_1_2024 + 3600,
    );
    assert_eq!(candles.len(), 10);
    for (i, c) in candles.iter().enumerate().skip(1) {
        assert_eq!(ohlcv(c), (5000, 5000, 5000, 5000, 0));
        assert_eq!(c.start_time, JAN_1_2024 + 60 * i as i64);
        assert!(c.complete);
    }
    for i in 0..candles.len() - 1 {
        assert_eq!(candles[i + 1].start_time, candles[i].end_time);
    }
}

#[test]
fn minute_candle_tracks_high_low_and_volume() {
    let fills = vec![
        fill(JAN_1_2024 + 5, 100, 1, 1),
        fill(JAN_1_2024 + 10, 120, 2, 2),
        fill(JAN_1_2024 + 20, 90, 3, 3),
        fill(JAN_1_2024 + 50, 95, 4, 4),
        fill(JAN_1_2024 + 70, 97, 5, 5),
    ];
    let candles = combine_fills_into_1m_candles(
        &fills,
        &market(),
        JAN_1_2024,
        JAN_1_2024 + 120,
        Some(110),
        JAN_1_2024 + 130,
    );
    assert_eq!(candles.len(), 2);
    assert_eq!(ohlcv(&candles[0]), (110, 120, 90, 95, 10));
    assert_eq!(ohlcv(&candles[1]), (95, 97, 95, 97, 5));
    // A later fill exists, so the first minute is final; the second is within the margin.
    assert!(candles[0].complete);
    assert!(!candles[1].complete);
}

#[test]
fn rollup_five_minute_candle() {
    let closes = [100, 110, 90, 95, 105];
    let volumes = [1, 2, 1, 1, 2];
    let cs: Vec<Candle> = (0..5)
        .map(|i| minute_candle(JAN_1_2024 + 60 * i as i64, closes[i], volumes[i]))
        .collect();
    let out = combine_into_higher_order_candles(&cs, Resolution::R5m, JAN_1_2024, JAN_1_2024 + 300);
    assert_eq!(out.len(), 2);
    assert_eq!(ohlcv(&out[0]), (100, 110, 90, 105, 7));
    assert_eq!(out[0].start_time, JAN_1_2024);
    assert_eq!(out[0].end_time, JAN_1_2024 + 300);
    assert_eq!(out[0].resolution, Resolution::R5m);
    assert!(out[0].complete);
    // The trailing bucket is not yet due: it carries the close and is not complete.
    assert_eq!(ohlcv(&out[1]), (105, 105, 105, 105, 0));
    assert!(!out[1].complete);
    assert_eq!(out[1].start_time, out[0].end_time);
}

#[test]
fn rollup_bucket_count_is_capped_at_a_day() {
    let cs = vec![minute_candle(JAN_1_2024, 10, 1)];
    let out = combine_into_higher_order_candles(&cs, Resolution::R1h, JAN_1_2024, JAN_1_2024 + 10 * 86400);
    assert_eq!(out.len(), 25);
    let before = combine_into_higher_order_candles(&cs, Resolution::R1h, JAN_1_2024, JAN_1_2024 - 3600);
    assert_eq!(before.len(), 1);
}

#[test]
fn trim_drops_buckets_before_history() {
    let cs: Vec<Candle> = (0..4).map(|i| minute_candle(JAN_1_2024 + 60 * i, 1, 0)).collect();
    let out = trim_candles(cs, JAN_1_2024 + 120);
    assert_eq!(out.len(), 2);
    assert_eq!(out[0].start_time, JAN_1_2024 + 120);
    assert_eq!(out[1].start_time, JAN_1_2024 + 180);
}

#[test]
fn higher_order_pass_starting_afresh_trims_to_history() {
    let cs: Vec<Candle> = (0..3)
        .map(|i| minute_candle(JAN_1_2024 + 3600 + 60 * i, 7, 1))
        .collect();
    let out = batch_higher_order_candles(&None, &cs, Resolution::R15m, JAN_1_2024 + 3600 + 900);
    // Buckets start at the day, those ending by the first constituent are dropped.
    assert_eq!(out.len(), 2);
    assert_eq!(out[0].start_time, JAN_1_2024 + 3600);
    assert_eq!(ohlcv(&out[0]), (7, 7, 7, 7, 3));
    let none = batch_higher_order_candles(&None, &Vec::new(), Resolution::R15m, JAN_1_2024);
    assert!(none.is_empty());
}

#[test]
fn higher_order_pass_resumes_after_latest() {
    let latest = minute_candle(JAN_1_2024, 1, 0);
    let cs = vec![minute_candle(JAN_1_2024 + 300, 4, 2)];
    let out = batch_higher_order_candles(&Some(latest), &cs, Resolution::R5m, JAN_1_2024 + 60);
    assert_eq!(out.len(), 1);
    assert_eq!(out[0].start_time, JAN_1_2024 + 60);
    assert_eq!(higher_order_fetch_window(&None), None);
    let latest = minute_candle(JAN_1_2024, 1, 0);
    assert_eq!(
        higher_order_fetch_window(&Some(latest)),
        Some((JAN_1_2024 + 60, JAN_1_2024 + 60 + 86400))
    );
}

#[test]
fn minute_window_rules() {
    assert_eq!(minute_batch_window(&None, &None, JAN_1_2024), None);
    let f = fill(JAN_1_2024 + 30, 1, 1, 1);
    assert_eq!(
        minute_batch_window(&None, &Some(f), JAN_1_2024 + 125),
        Some((JAN_1_2024, JAN_1_2024 + 180))
    );
    let latest = minute_candle(JAN_1_2024, 1, 0);
    assert_eq!(
        minute_batch_window(&Some(latest), &None, JAN_1_2024 + 10 * 86400),
        Some((JAN_1_2024 + 60, JAN_1_2024 + 60 + 86400))
    );
    assert_eq!(floor_to_minute(JAN_1_2024 + 59), JAN_1_2024);
    assert_eq!(floor_to_day(JAN_1_2024 + 86399), JAN_1_2024);
}

#[test]
fn minute_pass_needs_a_seed() {
    let m = market();
    let empty = batch_1m_candles(&Vec::new(), &m, &None, JAN_1_2024, JAN_1_2024 + 120, JAN_1_2024);
    assert!(empty.is_empty());
    let latest = minute_candle(JAN_1_2024 - 60, 42, 0);
    let carried = batch_1m_candles(&Vec::new(), &m, &Some(latest), JAN_1_2024, JAN_1_2024 + 120, JAN_1_2024);
    assert_eq!(carried.len(), 2);
    assert_eq!(ohlcv(&carried[1]), (42, 42, 42, 42, 0));
}

#[test]
fn repeated_minute_pass_is_identical() {
    let fills = vec![fill(JAN_1_2024 + 30, 5000, 200, 1), fill(JAN_1_2024 + 90, 5100, 100, 2)];
    let a = combine_fills_into_1m_candles(&fills, &market(), JAN_1_2024, JAN_1_2024 + 180, None, JAN_1_2024 + 3600);
    let b = combine_fills_into_1m_candles(&fills, &market(), JAN_1_2024, JAN_1_2024 + 180, None, JAN_1_2024 + 3600);
    assert_eq!(a.len(), b.len());
    for (x, y) in a.iter().zip(b.iter()) {
        assert_eq!(ohlcv(x), ohlcv(y));
        assert_eq!((x.start_time, x.end_time, x.complete), (y.start_time, y.end_time, y.complete));
    }
}

#[test]
fn backfill_day_covers_every_higher_resolution() {
    let cs: Vec<Candle> = (0..5).map(|i| minute_candle(JAN_1_2024 + 60 * i, 3, 1)).collect();
    let out = backfill_day_candles(&cs, JAN_1_2024, JAN_1_2024 + 300);
    let resolutions: Vec<Resolution> = out.iter().map(|c| c.resolution).collect();
    assert!(!resolutions.contains(&Resolution::R1m));
    assert!(resolutions.contains(&Resolution::R5m));
    assert!(resolutions.contains(&Resolution::R1M));
    assert_eq!(out[0].volume, 5);
    assert!(backfill_day_candles(&Vec::new(), JAN_1_2024, JAN_1_2024).is_empty());
}

#[test]
fn resolution_names_and_constituents() {
    assert_eq!(Resolution::R1m.name(), "1m");
    assert_eq!(Resolution::R1M.name(), "1M");
    assert_eq!(Resolution::R5m.get_constituent_resolution(), Resolution::R1m);
    assert_eq!(Resolution::R1M.get_constituent_resolution(), Resolution::R1w);
    assert_eq!(Resolution::R1M.get_duration_seconds(), 30 * 86400);
    assert_eq!(Resolution::all().len(), 8);
}
