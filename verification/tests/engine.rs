use necko3::amount::Amount;
use necko3::engine::IngestOutcome;
use necko3::model::{
    ChainConfig, ChainType, CreateInvoiceReq, InvoiceStatus, PaymentEvent, PaymentStatus,
    TokenConfig, WebhookEvent, WebhookStatus,
};
use necko3::store::{Store, StoreError};

const XPUB: &str = "xpub661MyMwAqRbcFtXgS5sYJABqqG9YLmC4Q1Rdap9gSE8NqtwybGhePY2gZ29ESFjqJoCu1Rupje8YtGqsefD265TMg7usUDFdp6W1EGMcet8";

fn polygon() -> ChainConfig {
    ChainConfig {
        name: "Polygon".to_string(),
        rpc_urls: vec!["http://localhost:8545".to_string()],
        chain_type: ChainType::EVM,
        xpub: XPUB.to_string(),
        native_symbol: "POL".to_string(),
        decimals: 18,
        last_processed_block: 0,
        block_lag: 3,
        required_confirmations: 2,
    }
}

fn usdc() -> TokenConfig {
    TokenConfig {
        symbol: "USDC".to_string(),
        contract: "0x2791bca1f2de4661ed88a30c99a7a9449aa84174".to_string(),
        decimals: 6,
    }
}

fn setup() -> Store {
    let mut store = Store::new();
    store.add_chain(polygon()).unwrap();
    store.add_token(&"Polygon".to_string(), usdc()).unwrap();
    store
}

fn create(store: &mut Store, amount: &str, now: u64, expire_after: Option<u64>) -> usize {
    let req = CreateInvoiceReq {
        amount: amount.to_string(),
        token: "USDC".to_string(),
        network: "Polygon".to_string(),
        webhook_url: Some("https://merchant.example/hook".to_string()),
        webhook_secret: Some("SECRET-REDACTED".to_string()),
        expire_after,
    };
    store.create_invoice(&req, now).unwrap()
}

fn event_to(store: &Store, idx: usize, raw: u64, block: u64, log_index: u64) -> PaymentEvent {
    PaymentEvent {
        network: "Polygon".to_string(),
        tx_hash: format!("0xhash{}-{}", block, log_index),
        from: "0xsender".to_string(),
        to: store.invoices[idx].address.clone(),
        token: "USDC".to_string(),
        amount: necko3::units::format_units(&Amount::from_u64(raw), 6),
        amount_raw: Amount::from_u64(raw),
        decimals: 6,
        block_number: block,
        log_index,
    }
}

#[test]
fn invoice_paid_end_to_end() {
    let mut store = setup();
    let idx = create(&mut store, "25.37", 1_000, None);
    let inv = &store.invoices[idx];
    assert_eq!(inv.id.len(), 36);
    assert_eq!(inv.amount_raw, Amount::from_u64(25_370_000));
    assert_eq!(inv.address_index, 0);
    assert!(inv.address.starts_with("0x"));
    assert_eq!(inv.address.len(), 42);
    assert_eq!(inv.status, InvoiceStatus::Pending);
    let addr = inv.address.clone();
    assert!(store.find_watch(&"Polygon".to_string(), &addr).is_some());

    // A single transfer covering the full amount arrives at block 100.
    let e = event_to(&store, idx, 25_370_000, 100, 7);
    assert_eq!(store.apply_event(&e, 1_010), IngestOutcome::Recorded);
    assert_eq!(store.invoices[idx].status, InvoiceStatus::Pending);
    assert_eq!(store.invoices[idx].paid_raw, Amount::from_u64(25_370_000));
    assert_eq!(store.invoices[idx].paid, "25.370000");
    assert_eq!(store.payments.len(), 1);
    assert_eq!(store.payments[0].status, PaymentStatus::Confirming);

    // The head reaches the required depth: the payment confirms and the
    // invoice is paid on that very tick.
    store.reconcile_chain(&"Polygon".to_string(), 102, 1_020);
    assert_eq!(store.payments[0].status, PaymentStatus::Confirmed);
    assert_eq!(store.invoices[idx].status, InvoiceStatus::Paid);
    assert!(store.find_watch(&"Polygon".to_string(), &addr).is_none());

    let kinds: Vec<&WebhookEvent> = store.webhooks.iter().map(|h| &h.payload).collect();
    assert_eq!(kinds.len(), 3);
    assert!(matches!(kinds[0], WebhookEvent::TxDetected { .. }));
    assert!(matches!(
        kinds[1],
        WebhookEvent::TxConfirmed { confirmations: 2, .. }
    ));
    assert!(matches!(kinds[2], WebhookEvent::InvoicePaid { .. }));
}

#[test]
fn two_partial_payments() {
    let mut store = setup();
    let idx = create(&mut store, "25.37", 1_000, None);
    let e1 = event_to(&store, idx, 10_000_000, 100, 1);
    let e2 = event_to(&store, idx, 15_370_000, 102, 4);
    assert_eq!(store.apply_event(&e1, 1_001), IngestOutcome::Recorded);
    assert_eq!(store.apply_event(&e2, 1_002), IngestOutcome::Recorded);
    assert_eq!(store.invoices[idx].paid_raw, Amount::from_u64(25_370_000));
    assert_eq!(store.invoices[idx].status, InvoiceStatus::Pending);
    store.reconcile_chain(&"Polygon".to_string(), 104, 1_030);
    assert_eq!(store.payments[0].status, PaymentStatus::Confirmed);
    assert_eq!(store.payments[1].status, PaymentStatus::Confirmed);
    assert_eq!(store.invoices[idx].status, InvoiceStatus::Paid);
    assert_eq!(store.invoices[idx].paid_raw, Amount::from_u64(25_370_000));
}

#[test]
fn overpayment_is_kept() {
    let mut store = setup();
    let idx = create(&mut store, "25.37", 1_000, None);
    let e = event_to(&store, idx, 30_000_000, 100, 0);
    assert_eq!(store.apply_event(&e, 1_001), IngestOutcome::Recorded);
    store.reconcile_chain(&"Polygon".to_string(), 200, 2_000);
    assert_eq!(store.invoices[idx].status, InvoiceStatus::Paid);
    assert!(store.invoices[idx].amount_raw.lt(&store.invoices[idx].paid_raw));
    assert_eq!(store.invoices[idx].paid_raw, Amount::from_u64(30_000_000));
}

#[test]
fn wrong_token_is_dropped() {
    let mut store = setup();
    let idx = create(&mut store, "25.37", 1_000, None);
    let mut e = event_to(&store, idx, 25_370_000, 100, 0);
    e.token = "USDT".to_string();
    let hooks_before = store.webhooks.len();
    assert_eq!(store.apply_event(&e, 1_001), IngestOutcome::WrongToken);
    assert_eq!(store.invoices[idx].paid_raw, Amount::from_u64(0));
    assert_eq!(store.invoices[idx].status, InvoiceStatus::Pending);
    assert_eq!(store.payments.len(), 0);
    assert_eq!(store.webhooks.len(), hooks_before);
}

#[test]
fn repeated_event_changes_nothing() {
    let mut store = setup();
    let idx = create(&mut store, "25.37", 1_000, None);
    let e = event_to(&store, idx, 10_000_000, 100, 3);
    assert_eq!(store.apply_event(&e, 1_001), IngestOutcome::Recorded);
    let paid_after_first = store.invoices[idx].paid_raw;
    let payments_after_first = store.payments.len();
    let hooks_after_first = store.webhooks.len();
    assert_eq!(store.apply_event(&e, 1_002), IngestOutcome::Duplicate);
    assert_eq!(store.invoices[idx].paid_raw, paid_after_first);
    assert_eq!(store.payments.len(), payments_after_first);
    assert_eq!(store.webhooks.len(), hooks_after_first);
}

#[test]
fn janitor_expires_unpaid_invoice() {
    let mut store = setup();
    let idx = create(&mut store, "25.37", 1_000, Some(60));
    assert_eq!(store.invoices[idx].expires_at, 1_060);
    let addr = store.invoices[idx].address.clone();
    // Not yet expired: nothing happens.
    store.expire_invoices(1_050);
    assert_eq!(store.invoices[idx].status, InvoiceStatus::Pending);
    // Past the window with nothing paid: expired, unwatched, notified.
    store.expire_invoices(1_061);
    assert_eq!(store.invoices[idx].status, InvoiceStatus::Expired);
    assert!(store.find_watch(&"Polygon".to_string(), &addr).is_none());
    assert!(store
        .webhooks
        .iter()
        .any(|h| matches!(h.payload, WebhookEvent::InvoiceExpired { .. })));
    // Slot zero is free again.
    assert_eq!(store.get_free_slot(&"Polygon".to_string()), Some(0));
}

#[test]
fn janitor_spares_covered_invoice() {
    let mut store = setup();
    let idx = create(&mut store, "25.37", 1_000, Some(60));
    let e = event_to(&store, idx, 25_370_000, 100, 0);
    assert_eq!(store.apply_event(&e, 1_010), IngestOutcome::Recorded);
    // The window passes between detection and confirmation.
    store.expire_invoices(2_000);
    assert_eq!(store.invoices[idx].status, InvoiceStatus::Pending);
    // Confirmation still pays the invoice after expiry.
    store.reconcile_chain(&"Polygon".to_string(), 200, 2_000);
    assert_eq!(store.invoices[idx].status, InvoiceStatus::Paid);
}

#[test]
fn event_after_expiry_is_dropped() {
    let mut store = setup();
    let idx = create(&mut store, "25.37", 1_000, Some(60));
    let e = event_to(&store, idx, 25_370_000, 100, 0);
    assert_eq!(store.apply_event(&e, 1_100), IngestOutcome::Expired);
    assert_eq!(store.invoices[idx].paid_raw, Amount::from_u64(0));
}

#[test]
fn webhook_retries_with_backoff() {
    let mut store = setup();
    let idx = create(&mut store, "25.37", 1_000, None);
    let e = event_to(&store, idx, 25_370_000, 100, 0);
    assert_eq!(store.apply_event(&e, 1_000), IngestOutcome::Recorded);
    assert_eq!(store.webhooks.len(), 1);
    assert_eq!(store.webhooks[0].max_retries, 5);
    assert_eq!(store.webhooks[0].next_retry, 1_000);

    // Three failing deliveries back off by 30, 60 and 120 seconds.
    let mut now = 1_000u64;
    let expected_delays = [30u64, 60, 120];
    for (n, delay) in expected_delays.iter().enumerate() {
        let claimed = store.claim_due(now, 10);
        assert_eq!(claimed, vec![0usize]);
        assert_eq!(store.webhooks[0].status, WebhookStatus::Processing);
        store.record_attempt(0, false, now);
        assert_eq!(store.webhooks[0].status, WebhookStatus::Pending);
        assert_eq!(store.webhooks[0].attempts, n as u32 + 1);
        assert_eq!(store.webhooks[0].next_retry, now + delay);
        now = store.webhooks[0].next_retry;
    }
    // Not due yet: nothing is claimed before next_retry.
    assert_eq!(store.claim_due(now - 1, 10), Vec::<usize>::new());
    // The fourth attempt succeeds.
    let claimed = store.claim_due(now, 10);
    assert_eq!(claimed, vec![0usize]);
    store.record_attempt(0, true, now);
    assert_eq!(store.webhooks[0].status, WebhookStatus::Sent);
    assert_eq!(store.webhooks[0].attempts, 4);
}

#[test]
fn webhook_fails_after_budget() {
    let mut store = setup();
    let idx = create(&mut store, "25.37", 1_000, None);
    let e = event_to(&store, idx, 25_370_000, 100, 0);
    assert_eq!(store.apply_event(&e, 1_000), IngestOutcome::Recorded);
    let mut now = 1_000u64;
    for _ in 0..4 {
        let claimed = store.claim_due(now, 10);
        assert_eq!(claimed.len(), 1);
        store.record_attempt(0, false, now);
        now = store.webhooks[0].next_retry.max(now + 1);
    }
    // The fifth failure exhausts max_retries = 5.
    let claimed = store.claim_due(now, 10);
    assert_eq!(claimed.len(), 1);
    store.record_attempt(0, false, now);
    assert_eq!(store.webhooks[0].status, WebhookStatus::Failed);
    assert_eq!(store.webhooks[0].attempts, 5);
}

#[test]
fn free_slots_are_distinct_and_reused() {
    let mut store = setup();
    assert_eq!(store.get_free_slot(&"Polygon".to_string()), Some(0));
    let a = create(&mut store, "1", 1_000, None);
    assert_eq!(store.invoices[a].address_index, 0);
    assert_eq!(store.get_free_slot(&"Polygon".to_string()), Some(1));
    let b = create(&mut store, "2", 1_000, None);
    assert_eq!(store.invoices[b].address_index, 1);
    // Distinct pending invoices derive distinct addresses.
    assert_ne!(store.invoices[a].address, store.invoices[b].address);
    // Cancelling the first frees its slot.
    let id = store.invoices[a].id.clone();
    store.cancel_invoice(&id).unwrap();
    assert_eq!(store.get_free_slot(&"Polygon".to_string()), Some(0));
}

#[test]
fn cancel_payment_restores_paid_total() {
    let mut store = setup();
    let idx = create(&mut store, "25.37", 1_000, None);
    let e = event_to(&store, idx, 10_000_000, 100, 0);
    assert_eq!(store.apply_event(&e, 1_001), IngestOutcome::Recorded);
    assert_eq!(store.invoices[idx].paid_raw, Amount::from_u64(10_000_000));
    let pid = store.payments[0].id.clone();
    store.cancel_payment(&pid).unwrap();
    assert_eq!(store.payments[0].status, PaymentStatus::Cancelled);
    assert_eq!(store.invoices[idx].paid_raw, Amount::from_u64(0));
    assert_eq!(store.invoices[idx].paid, "0.000000");
    // A second cancellation is refused.
    assert_eq!(store.cancel_payment(&pid), Err(StoreError::Terminal));
}

#[test]
fn terminal_invoices_are_frozen() {
    let mut store = setup();
    let idx = create(&mut store, "25.37", 1_000, None);
    let e = event_to(&store, idx, 25_370_000, 100, 0);
    assert_eq!(store.apply_event(&e, 1_001), IngestOutcome::Recorded);
    store.reconcile_chain(&"Polygon".to_string(), 200, 2_000);
    assert_eq!(store.invoices[idx].status, InvoiceStatus::Paid);
    let id = store.invoices[idx].id.clone();
    // A paid invoice may not be cancelled.
    assert_eq!(store.cancel_invoice(&id), Err(StoreError::Terminal));
    // Its payment may not be cancelled either.
    let pid = store.payments[0].id.clone();
    assert_eq!(store.cancel_payment(&pid), Err(StoreError::Terminal));
}

#[test]
fn chain_admin_rules() {
    let mut store = setup();
    // A duplicate chain name is refused.
    assert_eq!(store.add_chain(polygon()), Err(StoreError::Duplicate));
    // A chain with a pending invoice may not be removed.
    let _ = create(&mut store, "1", 1_000, None);
    assert_eq!(
        store.remove_chain(&"Polygon".to_string()),
        Err(StoreError::ChainBusy)
    );
    // Duplicate token symbol or contract is refused.
    assert_eq!(
        store.add_token(&"Polygon".to_string(), usdc()),
        Err(StoreError::Duplicate)
    );
    assert_eq!(
        store.get_token_decimals(&"Polygon".to_string(), &"USDC".to_string()),
        Some(6)
    );
    assert_eq!(
        store.get_token_decimals(&"Polygon".to_string(), &"USDT".to_string()),
        None
    );
    // A partial update rewrites only the named fields.
    let req = necko3::model::UpdateChainReq {
        rpc_urls: None,
        last_processed_block: Some(7_777),
        xpub: None,
        block_lag: Some(5),
        required_confirmations: None,
    };
    store
        .update_chain_partial(&"Polygon".to_string(), req)
        .unwrap();
    assert_eq!(store.chains[0].last_processed_block, 7_777);
    assert_eq!(store.chains[0].block_lag, 5);
    assert_eq!(store.chains[0].required_confirmations, 2);
    store
        .set_last_processed_block(&"Polygon".to_string(), 8_000)
        .unwrap();
    assert_eq!(store.chains[0].last_processed_block, 8_000);
}

#[test]
fn unknown_inputs_are_rejected() {
    let mut store = setup();
    let mut req = CreateInvoiceReq {
        amount: "25.37".to_string(),
        token: "USDC".to_string(),
        network: "Mainnet".to_string(),
        webhook_url: None,
        webhook_secret: None,
        expire_after: None,
    };
    assert_eq!(
        store.create_invoice(&req, 0),
        Err(necko3::engine::CreateError::UnknownNetwork)
    );
    req.network = "Polygon".to_string();
    req.token = "USDT".to_string();
    assert_eq!(
        store.create_invoice(&req, 0),
        Err(necko3::engine::CreateError::UnknownToken)
    );
    req.token = "USDC".to_string();
    req.amount = "25,37".to_string();
    assert_eq!(
        store.create_invoice(&req, 0),
        Err(necko3::engine::CreateError::BadAmount)
    );
    req.amount = "9".repeat(78);
    assert_eq!(
        store.create_invoice(&req, 0),
        Err(necko3::engine::CreateError::AmountTooLarge)
    );
}

#[test]
fn event_for_unknown_address_is_dropped() {
    let mut store = setup();
    let _ = create(&mut store, "25.37", 1_000, None);
    let e = PaymentEvent {
        network: "Polygon".to_string(),
        tx_hash: "0xother".to_string(),
        from: "0xsender".to_string(),
        to: "0xunknown".to_string(),
        token: "USDC".to_string(),
        amount: "1".to_string(),
        amount_raw: Amount::from_u64(1),
        decimals: 6,
        block_number: 1,
        log_index: 0,
    };
    assert_eq!(store.apply_event(&e, 1_001), IngestOutcome::NoInvoice);
    assert_eq!(store.payments.len(), 0);
}

#[test]
fn lookups_report_not_found() {
    let mut store = setup();
    let missing = "no-such-id".to_string();
    assert_eq!(store.cancel_invoice(&missing), Err(StoreError::NotFound));
    assert_eq!(store.cancel_payment(&missing), Err(StoreError::NotFound));
    assert_eq!(store.cancel_webhook(&missing), Err(StoreError::NotFound));
    assert_eq!(
        store.remove_chain(&"Mainnet".to_string()),
        Err(StoreError::NotFound)
    );
    assert_eq!(
        store.remove_token(&"Polygon".to_string(), &"USDT".to_string()),
        Err(StoreError::NotFound)
    );
    assert!(store.get_invoice_by_id(&missing).is_none());
    assert!(store.get_payment(&missing).is_none());
    assert!(store.get_webhook(&missing).is_none());
}

#[test]
fn derive_failure_surfaces() {
    let mut store = Store::new();
    let mut cfg = polygon();
    cfg.xpub = "garbage".to_string();
    store.add_chain(cfg).unwrap();
    store.add_token(&"Polygon".to_string(), usdc()).unwrap();
    let req = CreateInvoiceReq {
        amount: "1".to_string(),
        token: "USDC".to_string(),
        network: "Polygon".to_string(),
        webhook_url: None,
        webhook_secret: None,
        expire_after: None,
    };
    assert_eq!(
        store.create_invoice(&req, 0),
        Err(necko3::engine::CreateError::DeriveFailed)
    );
}

#[test]
fn crediting_beyond_the_range_is_dropped() {
    let mut store = setup();
    let idx = create(&mut store, "1", 1_000, None);
    let max = Amount { l0: u64::MAX, l1: u64::MAX, l2: u64::MAX, l3: u64::MAX };
    let mut e1 = event_to(&store, idx, 0, 100, 0);
    e1.amount_raw = max;
    assert_eq!(store.apply_event(&e1, 1_001), IngestOutcome::Recorded);
    assert_eq!(store.invoices[idx].paid_raw, max);
    // One more unit would leave the 256-bit range: the event is dropped.
    let e2 = event_to(&store, idx, 1, 101, 0);
    assert_eq!(store.apply_event(&e2, 1_002), IngestOutcome::Overflow);
    assert_eq!(store.invoices[idx].paid_raw, max);
    assert_eq!(store.payments.len(), 1);
}

#[test]
fn pending_webhook_can_be_cancelled() {
    let mut store = setup();
    let idx = create(&mut store, "25.37", 1_000, None);
    let e = event_to(&store, idx, 1_000_000, 100, 0);
    assert_eq!(store.apply_event(&e, 1_000), IngestOutcome::Recorded);
    let hid = store.webhooks[0].id.clone();
    store.cancel_webhook(&hid).unwrap();
    assert_eq!(store.webhooks[0].status, WebhookStatus::Cancelled);
    // A cancelled job is frozen and never claimed.
    assert_eq!(store.cancel_webhook(&hid), Err(StoreError::Terminal));
    assert_eq!(store.claim_due(10_000, 10), Vec::<usize>::new());
}

#[test]
fn payment_amounts_render_with_token_decimals() {
    let mut store = setup();
    let idx = create(&mut store, "25.37", 1_000, None);
    let e = event_to(&store, idx, 10_000_000, 100, 0);
    assert_eq!(store.apply_event(&e, 1_001), IngestOutcome::Recorded);
    assert_eq!(
        store.payment_display_amount(0),
        Some("10.000000".to_string())
    );
    // Dropping the token leaves the raw value but no rendering.
    store
        .remove_token(&"Polygon".to_string(), &"USDC".to_string())
        .unwrap();
    assert_eq!(store.payment_display_amount(0), None);
}

#[test]
fn removing_a_chain_drops_its_tokens() {
    let mut store = Store::new();
    store.add_chain(polygon()).unwrap();
    let mut other = polygon();
    other.name = "Base".to_string();
    store.add_chain(other).unwrap();
    store.add_token(&"Polygon".to_string(), usdc()).unwrap();
    let mut t2 = usdc();
    t2.contract = "0xother".to_string();
    store.add_token(&"Base".to_string(), t2).unwrap();

    store.remove_chain(&"Polygon".to_string()).unwrap();
    assert!(store.get_chain(&"Polygon".to_string()).is_none());
    assert!(store.get_tokens(&"Polygon".to_string()).is_empty());
    assert_eq!(store.get_tokens(&"Base".to_string()).len(), 1);
    assert_eq!(
        store.get_token_decimals(&"Base".to_string(), &"USDC".to_string()),
        Some(6)
    );
}

#[test]
fn webhooks_filter_by_event_type() {
    let mut store = setup();
    let idx = create(&mut store, "25.37", 1_000, Some(60));
    let e = event_to(&store, idx, 25_370_000, 100, 0);
    assert_eq!(store.apply_event(&e, 1_001), IngestOutcome::Recorded);
    store.reconcile_chain(&"Polygon".to_string(), 200, 1_010);
    // Detected, confirmed and paid notices are queued by now.
    let base = necko3::api::WebhookFilterSchema {
        invoice_id: None,
        event_type: Some("tx_detected".to_string()),
        url: None,
        status: None,
        pagination: necko3::api::PaginationParams { page_size: 20, page: 1 },
    };
    assert_eq!(store.query_webhooks(&base), vec![0]);
    let paid = necko3::api::WebhookFilterSchema {
        event_type: Some("invoice_paid".to_string()),
        ..base
    };
    assert_eq!(store.query_webhooks(&paid), vec![2]);
    let none = necko3::api::WebhookFilterSchema {
        event_type: Some("invoice_expired".to_string()),
        ..paid
    };
    assert_eq!(store.query_webhooks(&none), Vec::<usize>::new());
}
