use vstd::prelude::*;

use crate::amount::Amount;

verus! {

/// The family a chain belongs to; dispatch is over this closed sum.
#[derive(Clone, Copy, Debug, PartialEq, Eq, Structural)]
pub enum ChainType {
    EVM,
}

/// A token configured on a chain.
#[derive(Clone, Debug, PartialEq, Eq)]
pub struct TokenConfig {
    pub symbol: String,
    pub contract: String,
    pub decimals: u8,
}

/// Full configuration of a supported chain.
#[derive(Clone, Debug)]
pub struct ChainConfig {
    pub name: String,
    pub rpc_urls: Vec<String>,
    pub chain_type: ChainType,
    pub xpub: String,
    pub native_symbol: String,
    pub decimals: u8,
    /// Last block the scanner fully processed; 0 means start at the head.
    pub last_processed_block: u64,
    /// Blocks behind the head that are never processed yet.
    pub block_lag: u8,
    pub required_confirmations: u64,
}

/// The fields of a chain visible in listings.
#[derive(Clone, Debug)]
pub struct MinChainConfig {
    pub name: String,
    pub rpc_url: String,
    pub chain_type: ChainType,
    pub xpub: String,
    pub native_symbol: String,
    pub decimals: u8,
}

/// A partial update of a chain's configuration.
#[derive(Clone, Debug)]
pub struct UpdateChainReq {
    pub rpc_urls: Option<Vec<String>>,
    pub last_processed_block: Option<u64>,
    pub xpub: Option<String>,
    pub block_lag: Option<u8>,
    pub required_confirmations: Option<u64>,
}

/// Lifecycle of an invoice; Paid, Expired and Cancelled are terminal.
#[derive(Clone, Copy, Debug, PartialEq, Eq, Structural)]
pub enum InvoiceStatus {
    Pending,
    Paid,
    Expired,
    Cancelled,
}

/// Whether `s` is terminal: no later write may touch the invoice.
pub open spec fn invoice_terminal(s: InvoiceStatus) -> bool {
    s != InvoiceStatus::Pending
}

/// An invoice asking for `amount_raw` of `token` on `network`, paid through
/// the receive address derived at `address_index`.
#[derive(Clone, Debug)]
pub struct Invoice {
    pub id: String,
    pub address_index: u32,
    pub address: String,
    pub amount: String,
    pub amount_raw: Amount,
    pub paid: String,
    pub paid_raw: Amount,
    pub token: String,
    pub network: String,
    pub decimals: u8,
    pub webhook_url: Option<String>,
    pub webhook_secret: Option<String>,
    pub created_at: u64,
    pub expires_at: u64,
    pub status: InvoiceStatus,
}

impl Invoice {
    /// Whether this invoice is in a terminal state.
    pub fn is_terminal(&self) -> (r: bool)
        ensures
            r == invoice_terminal(self.status),
    {
        !(self.status == InvoiceStatus::Pending)
    }
}

/// Lifecycle of a detected payment.
#[derive(Clone, Copy, Debug, PartialEq, Eq, Structural)]
pub enum PaymentStatus {
    Confirming,
    Confirmed,
    Cancelled,
}

/// One on-chain transfer credited to an invoice. The key
/// `(network, tx_hash, log_index)` is unique across all payments.
#[derive(Clone, Debug)]
pub struct Payment {
    pub id: String,
    pub invoice_id: String,
    pub from: String,
    pub to: String,
    pub network: String,
    pub token: String,
    pub tx_hash: String,
    pub amount_raw: Amount,
    pub block_number: u64,
    pub log_index: u64,
    pub status: PaymentStatus,
    pub created_at: u64,
}

/// Whether two payments share the uniqueness key.
pub open spec fn same_payment_key(a: Payment, b: Payment) -> bool {
    a.network@ == b.network@ && a.tx_hash@ == b.tx_hash@ && a.log_index == b.log_index
}

/// Lifecycle of a webhook job.
#[derive(Clone, Copy, Debug, PartialEq, Eq, Structural)]
pub enum WebhookStatus {
    Pending,
    Processing,
    Sent,
    Failed,
    Cancelled,
}

/// The payload of a webhook, one variant per event kind.
#[derive(Clone, Debug)]
pub enum WebhookEvent {
    TxDetected { invoice_id: String, tx_hash: String, amount: String, currency: String },
    TxConfirmed { invoice_id: String, tx_hash: String, confirmations: u64 },
    InvoicePaid { invoice_id: String, paid_amount: String },
    InvoiceExpired { invoice_id: String },
}

/// Whether `p` is an expiry notice for invoice `id`.
pub open spec fn payload_is_invoice_expired(p: WebhookEvent, id: Seq<char>) -> bool {
    match p {
        WebhookEvent::InvoiceExpired { invoice_id } => invoice_id@ == id,
        _ => false,
    }
}

/// Whether `p` is a confirmation notice for `tx` on invoice `id` with
/// `conf` confirmations.
pub open spec fn payload_is_tx_confirmed(
    p: WebhookEvent,
    id: Seq<char>,
    tx: Seq<char>,
    conf: u64,
) -> bool {
    match p {
        WebhookEvent::TxConfirmed { invoice_id, tx_hash, confirmations } => invoice_id@ == id
            && tx_hash@ == tx && confirmations == conf,
        _ => false,
    }
}

/// Whether `p` announces that invoice `id` is fully paid with `paid` as the
/// rendered total.
pub open spec fn payload_is_invoice_paid(p: WebhookEvent, id: Seq<char>, paid: Seq<char>) -> bool {
    match p {
        WebhookEvent::InvoicePaid { invoice_id, paid_amount } => invoice_id@ == id && paid_amount@
            == paid,
        _ => false,
    }
}

/// A queued webhook delivery with retry bookkeeping.
#[derive(Clone, Debug)]
pub struct Webhook {
    pub id: String,
    pub invoice_id: String,
    pub url: String,
    pub payload: WebhookEvent,
    pub status: WebhookStatus,
    pub attempts: u32,
    pub max_retries: u32,
    pub next_retry: u64,
    pub created_at: u64,
}

/// A transfer the scanner decoded from a block, aimed at a watched address.
#[derive(Clone, Debug)]
pub struct PaymentEvent {
    pub network: String,
    pub tx_hash: String,
    pub from: String,
    pub to: String,
    pub token: String,
    pub amount: String,
    pub amount_raw: Amount,
    pub decimals: u8,
    pub block_number: u64,
    pub log_index: u64,
}

/// A request to create an invoice.
#[derive(Clone, Debug)]
pub struct CreateInvoiceReq {
    pub amount: String,
    pub token: String,
    pub network: String,
    pub webhook_url: Option<String>,
    pub webhook_secret: Option<String>,
    /// Validity window in seconds; a default applies when absent.
    pub expire_after: Option<u64>,
}

} // verus!
