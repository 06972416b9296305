use openbook_offchain_services::codec::{read_i64_le, read_u64_le};
use openbook_offchain_services::openbook_v2::{
    fee_quote_lots, FillLog, MarketMetaDataLog, OpenBookMarketMetadata,
};
use openbook_offchain_services::parsing::{
    parse_market_from_data, parse_openbook_txns, str_contains, strip_program_data,
    try_parse_new_market, try_parse_openbook_fills_from_logs, InstructionData, RpcTransaction,
    TransactionMeta,
};

const MARKET_KEY: [u8; 32] = [7u8; 32];

fn market_text() -> String {
    bs58::encode(MARKET_KEY).into_string()
}

fn registry() -> Vec<OpenBookMarketMetadata> {
    vec![OpenBookMarketMetadata {
        creation_datetime: 0,
        program_pk: String::from("program"),
        market_pk: market_text(),
        market_name: String::from("SOL-USDC"),
        base_mint: String::from("base"),
        quote_mint: String::from("quote"),
        base_decimals: 6,
        quote_decimals: 6,
        base_lot_size: 100,
        quote_lot_size: 10,
        scraper_active: true,
    }]
}

fn fill_record(seq_num: u64, price: i64, quantity: i64, maker_fee: i64) -> Vec<u8> {
    let mut b = Vec::new();
    b.extend_from_slice(&[0u8; 8]);
    b.extend_from_slice(&MARKET_KEY);
    b.push(1); // taker side
    b.push(3); // maker slot
    b.push(1); // maker out
    b.extend_from_slice(&1704067230u64.to_le_bytes());
    b.extend_from_slice(&seq_num.to_le_bytes());
    b.extend_from_slice(&[2u8; 32]);
    b.extend_from_slice(&11u64.to_le_bytes());
    b.extend_from_slice(&maker_fee.to_le_bytes());
    b.extend_from_slice(&1704067000u64.to_le_bytes());
    b.extend_from_slice(&[3u8; 32]);
    b.extend_from_slice(&12u64.to_le_bytes());
    b.extend_from_slice(&0i64.to_le_bytes());
    b.extend_from_slice(&price.to_le_bytes());
    b.extend_from_slice(&quantity.to_le_bytes());
    b
}

fn fill_line(seq_num: u64, price: i64, quantity: i64, maker_fee: i64) -> String {
    format!("Program data: {}", base64::encode(fill_record(seq_num, price, quantity, maker_fee)))
}

fn market_record_base58() -> String {
    let mut b = vec![0u8; 16];
    b.extend_from_slice(&[9u8; 32]);
    let name = b"SOL-USDC";
    b.extend_from_slice(&(name.len() as u32).to_le_bytes());
    b.extend_from_slice(name);
    b.extend_from_slice(&[4u8; 32]);
    b.extend_from_slice(&[5u8; 32]);
    b.push(9);
    b.push(6);
    b.extend_from_slice(&1000i64.to_le_bytes());
    b.extend_from_slice(&10i64.to_le_bytes());
    bs58::encode(b).into_string()
}

fn txn_with_logs(logs: Vec<String>) -> Option<RpcTransaction> {
    Some(RpcTransaction {
        slot: 250,
        block_time: 1704067230,
        meta: Some(TransactionMeta { log_messages: Some(logs), inner_instructions: None }),
    })
}

#[test]
fn little_endian_reads() {
    let b = vec![1u8, 0, 0, 0, 0, 0, 0, 0, 255, 255, 255, 255, 255, 255, 255, 255];
    assert_eq!(read_u64_le(&b, 0), 1);
    assert_eq!(read_i64_le(&b, 8), -1);
    assert_eq!(read_u64_le(&b, 8), u64::MAX);
}

#[test]
fn fill_record_decodes_field_by_field() {
    let bytes = fill_record(42, 5000, 200, 1000);
    let log = FillLog::deserialize(&bytes, 8).unwrap();
    assert_eq!(log.market, MARKET_KEY.to_vec());
    assert_eq!((log.taker_side, log.maker_slot, log.maker_out), (1, 3, true));
    assert_eq!(log.seq_num, 42);
    assert_eq!(log.maker_client_order_id, 11);
    assert_eq!(log.maker_fee, 1000);
    assert_eq!(log.taker_client_order_id, 12);
    assert_eq!((log.price, log.quantity), (5000, 200));
    assert!(FillLog::deserialize(&bytes[..bytes.len() - 1].to_vec(), 8).is_none());
    let mut bad_bool = bytes.clone();
    bad_bool[8 + 34] = 2;
    assert!(FillLog::deserialize(&bad_bool, 8).is_none());
}

#[test]
fn fees_divide_before_scaling() {
    // 10000 / 5000 = 2 lots, times 10 quote lots, times the rate, over a million.
    assert_eq!(fee_quote_lots(10000, 5000, 10, 100000), Some(2));
    assert_eq!(fee_quote_lots(10000, 5000, 10, -100000), Some(-2));
    // The quotient is taken first: 200 / 5000 rounds to zero.
    assert_eq!(fee_quote_lots(200, 5000, 10, 1000), Some(0));
    assert_eq!(fee_quote_lots(1, 0, 10, 1000), None);
    assert_eq!(fee_quote_lots(i64::MAX, 1, i64::MAX, 1), None);
}

#[test]
fn fills_from_program_data_lines() {
    let logs = vec![
        String::from("Program log: Instruction: PlaceOrder"),
        fill_line(1, 5000, 10000, 100000),
        String::from("Program data: not base64!"),
        fill_line(2, 5100, 200, 0),
    ];
    let fills = try_parse_openbook_fills_from_logs(&logs, &registry(), 1704067230, 250).unwrap();
    assert_eq!(fills.len(), 2);
    assert_eq!(fills[0].seq_num, 1);
    assert_eq!(fills[0].market_pk, market_text());
    assert_eq!(fills[0].maker, bs58::encode([2u8; 32]).into_string());
    assert_eq!(fills[0].taker, bs58::encode([3u8; 32]).into_string());
    assert_eq!(fills[0].maker_fee, 2);
    assert_eq!(fills[0].maker_datetime, 1704067000);
    assert_eq!((fills[0].block_datetime, fills[0].slot), (1704067230, 250));
    assert_eq!((fills[1].seq_num, fills[1].price, fills[1].quantity), (2, 5100, 200));
}

#[test]
fn fills_of_unknown_markets_are_skipped() {
    let logs = vec![fill_line(1, 5000, 200, 0)];
    assert!(try_parse_openbook_fills_from_logs(&logs, &Vec::new(), 0, 0).is_none());
    let short = vec![String::from("Program data: AAAA")];
    assert!(try_parse_openbook_fills_from_logs(&short, &registry(), 0, 0).is_none());
}

#[test]
fn prefix_and_substring_checks() {
    assert_eq!(strip_program_data("Program data: abc"), Some("abc"));
    assert_eq!(strip_program_data("Program log: abc"), None);
    assert!(str_contains("Program log: Instruction: CreateMarket", "CreateMarket"));
    assert!(!str_contains("Program log: Instruction: PlaceOrder", "CreateMarket"));
    assert!(str_contains("abc", ""));
}

#[test]
fn market_record_from_base58() {
    let program = String::from("program");
    let m = parse_market_from_data(&market_record_base58(), 1704067230, &program).unwrap();
    assert_eq!(m.market_pk, bs58::encode([9u8; 32]).into_string());
    assert_eq!(m.market_name, m.market_pk);
    assert_eq!(m.base_mint, bs58::encode([4u8; 32]).into_string());
    assert_eq!(m.quote_mint, bs58::encode([5u8; 32]).into_string());
    assert_eq!((m.base_decimals, m.quote_decimals), (9, 6));
    assert_eq!((m.base_lot_size, m.quote_lot_size), (1000, 10));
    assert_eq!(m.creation_datetime, 1704067230);
    assert!(!m.scraper_active);
    assert!(parse_market_from_data("0OIl", 0, &program).is_none());
}

#[test]
fn market_discovery_yields_one_inactive_market() {
    let program = String::from("program");
    let meta = TransactionMeta {
        log_messages: Some(vec![String::from("Program log: Instruction: CreateMarket")]),
        inner_instructions: Some(vec![
            InstructionData::Compiled(market_record_base58()),
            InstructionData::Parsed(None),
            InstructionData::Compiled(String::from("1111")),
        ]),
    };
    let markets = try_parse_new_market(&meta, 1704067230, &program).unwrap();
    assert_eq!(markets.len(), 1);
    assert!(!markets[0].scraper_active);
    let quiet = TransactionMeta {
        log_messages: Some(vec![String::from("Program log: Instruction: PlaceOrder")]),
        inner_instructions: Some(vec![InstructionData::Compiled(market_record_base58())]),
    };
    assert!(try_parse_new_market(&quiet, 0, &program).is_none());
}

#[test]
fn partial_batch_failure_keeps_failed_signatures() {
    let mut txns = Vec::new();
    let mut sigs = Vec::new();
    for i in 0..50u64 {
        sigs.push(format!("sig{}", i));
        if i % 17 == 3 {
            txns.push(None);
        } else {
            txns.push(txn_with_logs(vec![fill_line(i, 5000, 200, 0)]));
        }
    }
    let (fills, markets, processed) =
        parse_openbook_txns(&txns, sigs.clone(), &registry(), &String::from("program"));
    assert_eq!(processed.len(), 47);
    assert!(!processed.contains(&String::from("sig3")));
    assert!(!processed.contains(&String::from("sig20")));
    assert!(!processed.contains(&String::from("sig37")));
    assert_eq!(fills.len(), 47);
    assert!(markets.is_empty());
}

#[test]
fn replaying_a_transaction_yields_the_same_fill() {
    let t = || txn_with_logs(vec![fill_line(9, 5000, 200, 0)]);
    let sigs = vec![String::from("a"), String::from("a")];
    let (fills, _, processed) =
        parse_openbook_txns(&vec![t(), t()], sigs, &registry(), &String::from("program"));
    assert_eq!(fills.len(), 2);
    assert_eq!((fills[0].market_pk.clone(), fills[0].seq_num), (fills[1].market_pk.clone(), fills[1].seq_num));
    assert_eq!(processed, vec![String::from("a"), String::from("a")]);
}

#[test]
fn market_record_rejects_bad_name() {
    let mut b = vec![0u8; 16];
    b.extend_from_slice(&[9u8; 32]);
    b.extend_from_slice(&2u32.to_le_bytes());
    b.extend_from_slice(&[0xff, 0xfe]);
    b.extend_from_slice(&[0u8; 82]);
    assert!(MarketMetaDataLog::deserialize(&b, 16).is_none());
    b[16 + 36] = b'a';
    b[16 + 37] = b'b';
    assert_eq!(MarketMetaDataLog::deserialize(&b, 16).unwrap().name, "ab");
}
