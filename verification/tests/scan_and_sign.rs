use necko3::amount::Amount;
use necko3::model::TokenConfig;
use necko3::scan::{
    initial_cursor, match_block, plan_scan, BlockData, NativeTx, TokenLog, NATIVE_LOG_INDEX,
};
use necko3::sign::{build_webhook_body, webhook_signature};
use necko3::model::WebhookEvent;
use necko3::retry_delay_secs;

#[test]
fn scanner_respects_the_safety_margin() {
    // Head at or below the lag: nothing is scanned, nothing advances.
    assert_eq!(plan_scan(0, 2, 3), None);
    assert_eq!(plan_scan(0, 3, 3), None);
    // Target at or below the cursor: nothing to do either.
    assert_eq!(plan_scan(10, 12, 3), None);
    assert_eq!(plan_scan(9, 12, 3), None);
    // Otherwise the tick covers everything from the cursor to the margin.
    assert_eq!(plan_scan(5, 20, 3), Some((6, 17)));
    assert_eq!(plan_scan(0, 4, 3), Some((1, 1)));
}

#[test]
fn scanner_initial_cursor() {
    assert_eq!(initial_cursor(1_234, 9_999, 3), 1_234);
    assert_eq!(initial_cursor(0, 100, 3), 96);
    assert_eq!(initial_cursor(0, 2, 3), 0);
}

#[test]
fn match_block_emits_watched_transfers() {
    let watch = vec!["0xaaa".to_string(), "0xbbb".to_string()];
    let tokens = vec![TokenConfig {
        symbol: "USDC".to_string(),
        contract: "0xc0ffee".to_string(),
        decimals: 6,
    }];
    let block = BlockData {
        number: 77,
        txs: vec![
            NativeTx {
                tx_hash: "0xt1".to_string(),
                from: "0xf1".to_string(),
                to: "0xaaa".to_string(),
                value: Amount::from_u128(1_500_000_000_000_000_000),
            },
            NativeTx {
                tx_hash: "0xt2".to_string(),
                from: "0xf2".to_string(),
                to: "0xelsewhere".to_string(),
                value: Amount::from_u64(1),
            },
        ],
        logs: vec![
            TokenLog {
                contract: "0xc0ffee".to_string(),
                tx_hash: "0xt3".to_string(),
                from: "0xf3".to_string(),
                to: "0xbbb".to_string(),
                value: Amount::from_u64(25_370_000),
                log_index: 4,
            },
            TokenLog {
                contract: "0xdecaf".to_string(),
                tx_hash: "0xt4".to_string(),
                from: "0xf4".to_string(),
                to: "0xbbb".to_string(),
                value: Amount::from_u64(1),
                log_index: 5,
            },
        ],
    };
    let events = match_block(
        &"Polygon".to_string(),
        &block,
        &watch,
        &"POL".to_string(),
        18,
        &tokens,
    );
    assert_eq!(events.len(), 2);
    // The native transfer comes first, under the sentinel log index.
    assert_eq!(events[0].log_index, NATIVE_LOG_INDEX);
    assert_eq!(events[0].token, "POL");
    assert_eq!(events[0].amount, "1.500000000000000000");
    assert_eq!(events[0].block_number, 77);
    assert_eq!(events[0].to, "0xaaa");
    // The configured token log follows; the unknown contract is dropped.
    assert_eq!(events[1].log_index, 4);
    assert_eq!(events[1].token, "USDC");
    assert_eq!(events[1].decimals, 6);
    assert_eq!(events[1].amount, "25.370000");
    assert_eq!(events[1].tx_hash, "0xt3");
}

#[test]
fn webhook_signature_matches_reference_vector() {
    // HMAC-SHA256 test vector: key "Jefe", message
    // "what do ya want for nothing?".
    let sig = webhook_signature("Jefe", "what do ya want for nothing?");
    assert_eq!(
        sig,
        "sha256=5bdcc146bf60754e6a042426089575c75a003f089d2739839dec58b964ec3843"
    );
}

#[test]
fn webhook_body_renders_the_envelope() {
    let payload = WebhookEvent::TxDetected {
        invoice_id: "inv-1".to_string(),
        tx_hash: "0xabc".to_string(),
        amount: "25.37".to_string(),
        currency: "USDC".to_string(),
    };
    let body = build_webhook_body(&payload, &"inv-1".to_string(), 1700000000);
    assert_eq!(
        body,
        "{\"event_type\":\"tx_detected\",\"data\":{\"invoice_id\":\"inv-1\",\"tx_hash\":\"0xabc\",\"amount\":\"25.37\",\"currency\":\"USDC\"},\"invoice_id\":\"inv-1\",\"timestamp\":1700000000}"
    );
}

#[test]
fn webhook_body_escapes_strings() {
    let payload = WebhookEvent::InvoicePaid {
        invoice_id: "a\"b\\c".to_string(),
        paid_amount: "1\n2".to_string(),
    };
    let body = build_webhook_body(&payload, &"a\"b\\c".to_string(), 5);
    assert_eq!(
        body,
        "{\"event_type\":\"invoice_paid\",\"data\":{\"invoice_id\":\"a\\\"b\\\\c\",\"paid_amount\":\"1\\n2\"},\"invoice_id\":\"a\\\"b\\\\c\",\"timestamp\":5}"
    );
}

#[test]
fn retry_delays_double_up_to_the_cap() {
    assert_eq!(retry_delay_secs(1), 30);
    assert_eq!(retry_delay_secs(2), 60);
    assert_eq!(retry_delay_secs(3), 120);
    assert_eq!(retry_delay_secs(7), 1920);
    assert_eq!(retry_delay_secs(8), 3600);
    assert_eq!(retry_delay_secs(100), 3600);
}
