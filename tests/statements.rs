use openbook_offchain_services::candle::Candle;
use openbook_offchain_services::insert::{
    build_candles_upsert_statement, build_fills_upsert_statement,
    build_markets_insert_statement, build_transactions_insert_statement,
    build_transactions_processed_update_statement, decimal,
};
use openbook_offchain_services::resolution::Resolution;
use openbook_offchain_services::scraper::{
    build_signature_rows, partition, take_new_signatures, SignatureInfo,
};
use openbook_offchain_services::trader::VolumeType;
use openbook_offchain_services::transaction::PgTransaction;

fn candle() -> Candle {
    Candle {
        market_name: String::from("m"),
        start_time: 0,
        end_time: 60,
        resolution: Resolution::R1m,
        open: 1,
        close: 1,
        high: 1,
        low: 1,
        volume: 0,
        complete: false,
    }
}

#[test]
fn decimal_text() {
    assert_eq!(decimal(0), "0");
    assert_eq!(decimal(7), "7");
    assert_eq!(decimal(1234567890), "1234567890");
    assert_eq!(decimal(u64::MAX), u64::MAX.to_string());
}

#[test]
fn candles_statement_numbers_parameters_per_row() {
    let s = build_candles_upsert_statement(&vec![candle(), candle()]);
    assert_eq!(
        s,
        "INSERT INTO candles (market_name, start_time, end_time, resolution, open, close, high, low, volume, complete) VALUES ($1, $2, $3, $4, $5, $6, $7, $8, $9, $10), ($11, $12, $13, $14, $15, $16, $17, $18, $19, $20) ON CONFLICT (market_name, start_time, resolution) DO UPDATE SET open=excluded.open, close=excluded.close, high=excluded.high, low=excluded.low, volume=excluded.volume, complete=excluded.complete"
    );
}

#[test]
fn transactions_statement_ignores_duplicates() {
    let t = PgTransaction {
        signature: String::from("s"),
        program_pk: String::from("p"),
        block_datetime: 0,
        slot: 0,
        err: false,
        processed: false,
        worker_partition: 0,
    };
    let s = build_transactions_insert_statement(vec![t]);
    assert_eq!(
        s,
        "INSERT INTO transactions (signature, program_pk, block_datetime, slot, err, processed, worker_partition) VALUES ($1, $2, $3, $4, $5, $6, $7) ON CONFLICT DO NOTHING"
    );
}

#[test]
fn processed_update_lists_signatures() {
    let s = build_transactions_processed_update_statement(2, vec![String::from("a"), String::from("b")]);
    assert_eq!(
        s,
        "UPDATE transactions SET processed = true WHERE transactions.signature IN ($1, $2) AND worker_partition = 2"
    );
    let n = build_transactions_processed_update_statement(-1, vec![String::from("a")]);
    assert!(n.ends_with("IN ($1) AND worker_partition = -1"));
}

#[test]
fn fills_and_markets_statements() {
    let f = build_fills_upsert_statement(Vec::new());
    assert!(f.starts_with("INSERT INTO fills (block_datetime,"));
    assert!(f.ends_with("VALUES ON CONFLICT DO NOTHING"));
    let m = build_markets_insert_statement(Vec::new());
    assert!(m.starts_with("INSERT INTO public.market_metadata"));
    assert!(m.ends_with("ON CONFLICT DO NOTHING"));
}

#[test]
fn partitions_are_stable_and_in_range() {
    let sig = "5VERv8NMvzbJMEkV8xnrLkEaWRtSz9CosKDYjCJjBRnbJLgp8uirBgmQpjKhoR4tjF3ZpRzrFmBV6UjKdiSZkQUW";
    let p = partition(sig);
    assert_eq!(p, partition(&String::from(sig)));
    assert!((0..3).contains(&p));
    let mut seen = [false; 3];
    for i in 0..30 {
        seen[partition(&format!("sig{}", i)) as usize] = true;
    }
    assert!(seen.iter().all(|s| *s));
    // The hash of one byte is the byte itself.
    assert_eq!(partition("a"), (97 % 3) as i32);
}

#[test]
fn signature_rows_start_unprocessed() {
    let infos = vec![SignatureInfo { signature: String::from("a"), slot: 5, block_time: 9, err: true }];
    let rows = build_signature_rows(infos, &String::from("p"));
    assert_eq!(rows.len(), 1);
    assert_eq!(rows[0].signature, "a");
    assert!(!rows[0].processed);
    assert!(rows[0].err);
    assert_eq!(rows[0].worker_partition, partition("a"));
}

#[test]
fn volume_type_labels() {
    assert_eq!(VolumeType::Base.name(), "Base");
    assert_eq!(VolumeType::Quote.name(), "Quote");
}

fn info(s: &str) -> SignatureInfo {
    SignatureInfo { signature: String::from(s), slot: 0, block_time: 0, err: false }
}

#[test]
fn new_signatures_stop_at_the_newest_stored() {
    let page = vec![info("c"), info("b"), info("a")];
    let fresh = take_new_signatures(page, &Some(String::from("b")));
    assert_eq!(fresh.len(), 1);
    assert_eq!(fresh[0].signature, "c");
    let all = take_new_signatures(vec![info("c"), info("b")], &Some(String::from("z")));
    assert_eq!(all.len(), 2);
    let none_known = take_new_signatures(vec![info("c")], &None);
    assert_eq!(none_known.len(), 1);
}
