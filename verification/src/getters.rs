use vstd::prelude::*;

use crate::model::{
    ChainConfig, Invoice, MinChainConfig, Payment, TokenConfig, Webhook, WebhookEvent,
};
use crate::store::{Store, clone_opt_string, clone_string};

verus! {

/// Whether `a` carries the same configuration as `b`, field by field.
pub open spec fn chain_like(a: ChainConfig, b: ChainConfig) -> bool {
    &&& a.name@ == b.name@
    &&& a.rpc_urls@.len() == b.rpc_urls@.len()
    &&& (forall|i: int| 0 <= i < a.rpc_urls@.len() ==> a.rpc_urls@[i]@ == b.rpc_urls@[i]@)
    &&& a.chain_type == b.chain_type
    &&& a.xpub@ == b.xpub@
    &&& a.native_symbol@ == b.native_symbol@
    &&& a.decimals == b.decimals
    &&& a.last_processed_block == b.last_processed_block
    &&& a.block_lag == b.block_lag
    &&& a.required_confirmations == b.required_confirmations
}

/// Whether `a` is the same token configuration as `b`.
pub open spec fn token_like(a: TokenConfig, b: TokenConfig) -> bool {
    a.symbol@ == b.symbol@ && a.contract@ == b.contract@ && a.decimals == b.decimals
}

/// The configurations of the tokens of `chain`, in table order.
pub open spec fn configs_of_chain(
    ts: Seq<crate::store::TokenEntry>,
    chain: Seq<char>,
) -> Seq<TokenConfig>
    decreases ts.len(),
{
    if ts.len() == 0 {
        Seq::empty()
    } else {
        configs_of_chain(ts.drop_last(), chain) + (if ts.last().chain@ == chain {
            seq![ts.last().config]
        } else {
            Seq::<TokenConfig>::empty()
        })
    }
}

/// Whether `a` carries the same invoice record as `b`, field by field.
pub open spec fn invoice_like(a: Invoice, b: Invoice) -> bool {
    &&& a.id@ == b.id@
    &&& a.address_index == b.address_index
    &&& a.address@ == b.address@
    &&& a.amount@ == b.amount@
    &&& a.amount_raw == b.amount_raw
    &&& a.paid@ == b.paid@
    &&& a.paid_raw == b.paid_raw
    &&& a.token@ == b.token@
    &&& a.network@ == b.network@
    &&& a.decimals == b.decimals
    &&& a.webhook_url == b.webhook_url
    &&& a.webhook_secret == b.webhook_secret
    &&& a.created_at == b.created_at
    &&& a.expires_at == b.expires_at
    &&& a.status == b.status
}

/// Whether `a` carries the same payment record as `b`, field by field.
pub open spec fn payment_like(a: Payment, b: Payment) -> bool {
    &&& a.id@ == b.id@
    &&& a.invoice_id@ == b.invoice_id@
    &&& a.from@ == b.from@
    &&& a.to@ == b.to@
    &&& a.network@ == b.network@
    &&& a.token@ == b.token@
    &&& a.tx_hash@ == b.tx_hash@
    &&& a.amount_raw == b.amount_raw
    &&& a.block_number == b.block_number
    &&& a.log_index == b.log_index
    &&& a.status == b.status
    &&& a.created_at == b.created_at
}

/// Whether the payloads carry the same fields.
pub open spec fn event_like(a: WebhookEvent, b: WebhookEvent) -> bool {
    match (a, b) {
        (
            WebhookEvent::TxDetected { invoice_id: i1, tx_hash: t1, amount: a1, currency: c1 },
            WebhookEvent::TxDetected { invoice_id: i2, tx_hash: t2, amount: a2, currency: c2 },
        ) => i1@ == i2@ && t1@ == t2@ && a1@ == a2@ && c1@ == c2@,
        (
            WebhookEvent::TxConfirmed { invoice_id: i1, tx_hash: t1, confirmations: c1 },
            WebhookEvent::TxConfirmed { invoice_id: i2, tx_hash: t2, confirmations: c2 },
        ) => i1@ == i2@ && t1@ == t2@ && c1 == c2,
        (
            WebhookEvent::InvoicePaid { invoice_id: i1, paid_amount: p1 },
            WebhookEvent::InvoicePaid { invoice_id: i2, paid_amount: p2 },
        ) => i1@ == i2@ && p1@ == p2@,
        (
            WebhookEvent::InvoiceExpired { invoice_id: i1 },
            WebhookEvent::InvoiceExpired { invoice_id: i2 },
        ) => i1@ == i2@,
        _ => false,
    }
}

/// Whether `a` carries the same webhook record as `b`, field by field.
pub open spec fn webhook_like(a: Webhook, b: Webhook) -> bool {
    &&& a.id@ == b.id@
    &&& a.invoice_id@ == b.invoice_id@
    &&& a.url@ == b.url@
    &&& event_like(a.payload, b.payload)
    &&& a.status == b.status
    &&& a.attempts == b.attempts
    &&& a.max_retries == b.max_retries
    &&& a.next_retry == b.next_retry
    &&& a.created_at == b.created_at
}

/// A copy of a list of strings.
pub fn clone_string_vec(v: &Vec<String>) -> (r: Vec<String>)
    ensures
        r@.len() == v@.len(),
        forall|i: int| 0 <= i < v@.len() ==> r@[i]@ == v@[i]@,
{
    let n = v.len();
    let mut out: Vec<String> = Vec::new();
    let mut i: usize = 0;
    while i < n
        invariant
            0 <= i <= n,
            n == v@.len(),
            out@.len() == i,
            forall|j: int| 0 <= j < i ==> out@[j]@ == v@[j]@,
        decreases n - i,
    {
        out.push(clone_string(&v[i]));
        i += 1;
    }
    out
}

/// A copy of a chain configuration.
pub fn clone_chain(c: &ChainConfig) -> (r: ChainConfig)
    ensures
        chain_like(r, *c),
{
    ChainConfig {
        name: clone_string(&c.name),
        rpc_urls: clone_string_vec(&c.rpc_urls),
        chain_type: c.chain_type,
        xpub: clone_string(&c.xpub),
        native_symbol: clone_string(&c.native_symbol),
        decimals: c.decimals,
        last_processed_block: c.last_processed_block,
        block_lag: c.block_lag,
        required_confirmations: c.required_confirmations,
    }
}

/// A copy of a token configuration.
pub fn clone_token(t: &TokenConfig) -> (r: TokenConfig)
    ensures
        token_like(r, *t),
{
    TokenConfig {
        symbol: clone_string(&t.symbol),
        contract: clone_string(&t.contract),
        decimals: t.decimals,
    }
}

/// A copy of an invoice record.
pub fn clone_invoice(inv: &Invoice) -> (r: Invoice)
    ensures
        invoice_like(r, *inv),
{
    Invoice {
        id: clone_string(&inv.id),
        address_index: inv.address_index,
        address: clone_string(&inv.address),
        amount: clone_string(&inv.amount),
        amount_raw: inv.amount_raw,
        paid: clone_string(&inv.paid),
        paid_raw: inv.paid_raw,
        token: clone_string(&inv.token),
        network: clone_string(&inv.network),
        decimals: inv.decimals,
        webhook_url: clone_opt_string(&inv.webhook_url),
        webhook_secret: clone_opt_string(&inv.webhook_secret),
        created_at: inv.created_at,
        expires_at: inv.expires_at,
        status: inv.status,
    }
}

/// A copy of a payment record.
pub fn clone_payment(p: &Payment) -> (r: Payment)
    ensures
        payment_like(r, *p),
{
    Payment {
        id: clone_string(&p.id),
        invoice_id: clone_string(&p.invoice_id),
        from: clone_string(&p.from),
        to: clone_string(&p.to),
        network: clone_string(&p.network),
        token: clone_string(&p.token),
        tx_hash: clone_string(&p.tx_hash),
        amount_raw: p.amount_raw,
        block_number: p.block_number,
        log_index: p.log_index,
        status: p.status,
        created_at: p.created_at,
    }
}

/// A copy of a webhook record.
pub fn clone_webhook(h: &Webhook) -> (r: Webhook)
    ensures
        webhook_like(r, *h),
{
    let payload: WebhookEvent = match &h.payload {
        WebhookEvent::TxDetected { invoice_id, tx_hash, amount, currency } => {
            WebhookEvent::TxDetected {
                invoice_id: clone_string(invoice_id),
                tx_hash: clone_string(tx_hash),
                amount: clone_string(amount),
                currency: clone_string(currency),
            }
        },
        WebhookEvent::TxConfirmed { invoice_id, tx_hash, confirmations } => {
            WebhookEvent::TxConfirmed {
                invoice_id: clone_string(invoice_id),
                tx_hash: clone_string(tx_hash),
                confirmations: *confirmations,
            }
        },
        WebhookEvent::InvoicePaid { invoice_id, paid_amount } => {
            WebhookEvent::InvoicePaid {
                invoice_id: clone_string(invoice_id),
                paid_amount: clone_string(paid_amount),
            }
        },
        WebhookEvent::InvoiceExpired { invoice_id } => {
            WebhookEvent::InvoiceExpired { invoice_id: clone_string(invoice_id) }
        },
    };
    Webhook {
        id: clone_string(&h.id),
        invoice_id: clone_string(&h.invoice_id),
        url: clone_string(&h.url),
        payload,
        status: h.status,
        attempts: h.attempts,
        max_retries: h.max_retries,
        next_retry: h.next_retry,
        created_at: h.created_at,
    }
}

impl Store {
    /// The configuration of the chain called `name`.
    pub fn get_chain(&self, name: &String) -> (r: Option<ChainConfig>)
        ensures
            r is Some <==> exists|c: int|
                0 <= c < self.chains@.len() && self.chains@[c].name@ == name@,
            r is Some ==> exists|c: int|
                0 <= c < self.chains@.len() && #[trigger] self.chains@[c].name@ == name@
                    && chain_like(r.unwrap(), self.chains@[c]),
    {
        match self.find_chain(name) {
            Some(c) => Some(clone_chain(&self.chains[c])),
            None => None,
        }
    }

    /// All chain configurations, in insertion order.
    pub fn get_chains(&self) -> (r: Vec<ChainConfig>)
        ensures
            r@.len() == self.chains@.len(),
            forall|c: int| 0 <= c < r@.len() ==> chain_like(r@[c], self.chains@[c]),
    {
        let n = self.chains.len();
        let mut out: Vec<ChainConfig> = Vec::new();
        let mut i: usize = 0;
        while i < n
            invariant
                0 <= i <= n,
                n == self.chains@.len(),
                out@.len() == i,
                forall|c: int| 0 <= c < i ==> chain_like(out@[c], self.chains@[c]),
            decreases n - i,
        {
            out.push(clone_chain(&self.chains[i]));
            i += 1;
        }
        out
    }

    /// The listing form of the chain called `name`: its first fallback
    /// endpoint stands in for the endpoint list.
    pub fn get_min_chain(&self, name: &String) -> (r: Option<MinChainConfig>)
        ensures
            r is Some <==> exists|c: int|
                0 <= c < self.chains@.len() && self.chains@[c].name@ == name@,
            r is Some ==> exists|c: int|
                0 <= c < self.chains@.len() && #[trigger] self.chains@[c].name@ == name@ && {
                    let m = r.unwrap();
                    &&& m.name@ == self.chains@[c].name@
                    &&& m.chain_type == self.chains@[c].chain_type
                    &&& m.xpub@ == self.chains@[c].xpub@
                    &&& m.native_symbol@ == self.chains@[c].native_symbol@
                    &&& m.decimals == self.chains@[c].decimals
                    &&& (self.chains@[c].rpc_urls@.len() > 0 ==> m.rpc_url@ == self.chains@[
                        c
                    ].rpc_urls@[0]@)
                    &&& (self.chains@[c].rpc_urls@.len() == 0 ==> m.rpc_url@.len() == 0)
                },
    {
        let ci = match self.find_chain(name) {
            Some(c) => c,
            None => {
                return None;
            },
        };
        let c = &self.chains[ci];
        let rpc_url: String = if c.rpc_urls.len() > 0 {
            clone_string(&c.rpc_urls[0])
        } else {
            String::new()
        };
        Some(
            MinChainConfig {
                name: clone_string(&c.name),
                rpc_url,
                chain_type: c.chain_type,
                xpub: clone_string(&c.xpub),
                native_symbol: clone_string(&c.native_symbol),
                decimals: c.decimals,
            },
        )
    }

    /// The configuration of token `symbol` on `chain`. In a well-formed
    /// store every token's chain is registered, so a hit also names a
    /// registered chain.
    pub fn get_token(&self, chain: &String, symbol: &String) -> (r: Option<TokenConfig>)
        requires
            self.wf(),
        ensures
            r is Some <==> exists|t: int|
                0 <= t < self.tokens@.len() && self.tokens@[t].chain@ == chain@ && self.tokens@[
                    t
                ].config.symbol@ == symbol@,
            r is Some ==> exists|c: int|
                0 <= c < self.chains@.len() && self.chains@[c].name@ == chain@,
            r is Some ==> exists|t: int|
                0 <= t < self.tokens@.len() && #[trigger] self.tokens@[t].chain@ == chain@
                    && self.tokens@[t].config.symbol@ == symbol@ && token_like(
                    r.unwrap(),
                    self.tokens@[t].config,
                ),
    {
        match self.find_token(chain, symbol) {
            Some(t) => {
                proof {
                    assert(crate::store::token_chain_known(self.tokens@[t as int], self.chains@));
                }
                Some(clone_token(&self.tokens[t].config))
            },
            None => None,
        }
    }

    /// All tokens configured on `chain`: one copy per entry, in table
    /// order, none missing and none repeated.
    pub fn get_tokens(&self, chain: &String) -> (r: Vec<TokenConfig>)
        ensures
            r@.len() == configs_of_chain(self.tokens@, chain@).len(),
            forall|x: int|
                0 <= x < r@.len() ==> token_like(
                    #[trigger] r@[x],
                    configs_of_chain(self.tokens@, chain@)[x],
                ),
    {
        let n = self.tokens.len();
        let mut out: Vec<TokenConfig> = Vec::new();
        let mut i: usize = 0;
        while i < n
            invariant
                0 <= i <= n,
                n == self.tokens@.len(),
                out@.len() == configs_of_chain(self.tokens@.subrange(0, i as int), chain@).len(),
                forall|x: int|
                    0 <= x < out@.len() ==> token_like(
                        #[trigger] out@[x],
                        configs_of_chain(self.tokens@.subrange(0, i as int), chain@)[x],
                    ),
            decreases n - i,
        {
            let ghost pre = self.tokens@.subrange(0, i as int);
            let ghost cur = self.tokens@.subrange(0, i + 1);
            proof {
                assert(cur.drop_last() =~= pre);
                assert(cur.last() == self.tokens@[i as int]);
            }
            if self.tokens[i].chain == *chain {
                let copied = clone_token(&self.tokens[i].config);
                out.push(copied);
                proof {
                    assert(configs_of_chain(cur, chain@) =~= configs_of_chain(pre, chain@) + seq![
                        self.tokens@[i as int].config,
                    ]);
                }
            } else {
                proof {
                    assert(configs_of_chain(cur, chain@) =~= configs_of_chain(pre, chain@));
                }
            }
            i += 1;
        }
        proof {
            assert(self.tokens@.subrange(0, n as int) =~= self.tokens@);
        }
        out
    }

    /// The invoice with id `id`.
    pub fn get_invoice_by_id(&self, id: &String) -> (r: Option<Invoice>)
        ensures
            r is Some <==> exists|i: int|
                0 <= i < self.invoices@.len() && self.invoices@[i].id@ == id@,
            r is Some ==> exists|i: int|
                0 <= i < self.invoices@.len() && #[trigger] self.invoices@[i].id@ == id@
                    && invoice_like(r.unwrap(), self.invoices@[i]),
    {
        match self.find_invoice(id) {
            Some(i) => Some(clone_invoice(&self.invoices[i])),
            None => None,
        }
    }

    /// The payment with id `id`.
    pub fn get_payment(&self, id: &String) -> (r: Option<Payment>)
        ensures
            r is Some <==> exists|k: int|
                0 <= k < self.payments@.len() && self.payments@[k].id@ == id@,
            r is Some ==> exists|k: int|
                0 <= k < self.payments@.len() && #[trigger] self.payments@[k].id@ == id@
                    && payment_like(r.unwrap(), self.payments@[k]),
    {
        match self.find_payment(id) {
            Some(k) => Some(clone_payment(&self.payments[k])),
            None => None,
        }
    }

    /// The human-readable amount of payment `k`, rendered with its
    /// token's fractional digits as the listings show it, or nothing when
    /// that token is no longer configured on the payment's network.
    pub fn payment_display_amount(&self, k: usize) -> (r: Option<String>)
        requires
            self.wf(),
            k < self.payments@.len(),
        ensures
            r is Some <==> exists|t: int|
                0 <= t < self.tokens@.len() && self.tokens@[t].chain@ == self.payments@[
                    k as int
                ].network@ && self.tokens@[t].config.symbol@ == self.payments@[k as int].token@,
            r is Some ==> forall|t: int|
                0 <= t < self.tokens@.len() && #[trigger] self.tokens@[t].chain@
                    == self.payments@[k as int].network@ && self.tokens@[t].config.symbol@
                    == self.payments@[k as int].token@ ==> crate::units::units_formatted(
                    self.payments@[k as int].amount_raw.val(),
                    self.tokens@[t].config.decimals as nat,
                    r.unwrap()@,
                ),
    {
        let d = match self.get_token_decimals(&self.payments[k].network, &self.payments[k].token) {
            Some(d) => d,
            None => {
                return None;
            },
        };
        proof {
            let pk = self.payments@[k as int];
            let t0 = choose|t: int|
                0 <= t < self.tokens@.len() && self.tokens@[t].chain@ == pk.network@
                    && self.tokens@[t].config.symbol@ == pk.token@ && self.tokens@[
                    t
                ].config.decimals == d;
            assert forall|t: int|
                0 <= t < self.tokens@.len() && #[trigger] self.tokens@[t].chain@ == pk.network@
                    && self.tokens@[t].config.symbol@ == pk.token@ implies self.tokens@[
                t
            ].config.decimals == d by {
                if t != t0 {
                    assert(self.tokens@[t].chain@ == self.tokens@[t0].chain@);
                }
            };
        }
        Some(crate::units::format_units(&self.payments[k].amount_raw, d))
    }

    /// The webhook job with id `id`.
    pub fn get_webhook(&self, id: &String) -> (r: Option<Webhook>)
        ensures
            r is Some <==> exists|k: int|
                0 <= k < self.webhooks@.len() && self.webhooks@[k].id@ == id@,
            r is Some ==> exists|k: int|
                0 <= k < self.webhooks@.len() && #[trigger] self.webhooks@[k].id@ == id@
                    && webhook_like(r.unwrap(), self.webhooks@[k]),
    {
        match self.find_webhook(id) {
            Some(k) => Some(clone_webhook(&self.webhooks[k])),
            None => None,
        }
    }
}

} // verus!
