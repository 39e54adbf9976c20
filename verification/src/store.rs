use vstd::prelude::*;

use crate::amount::Amount;
use crate::model::{
    ChainConfig, Invoice, InvoiceStatus, Payment, PaymentStatus, TokenConfig, Webhook,
    WebhookStatus, invoice_terminal, same_payment_key,
};

verus! {

/// One watched receive address on a chain.
#[derive(Clone, Debug)]
pub struct WatchEntry {
    pub network: String,
    pub address: String,
}

/// A token registered for a chain.
#[derive(Clone, Debug)]
pub struct TokenEntry {
    pub chain: String,
    pub config: TokenConfig,
}

/// The contribution of one payment to an invoice's paid total: its amount
/// when it is linked to the invoice and not cancelled, else nothing.
pub open spec fn payment_contrib(p: Payment, id: Seq<char>) -> nat {
    if p.invoice_id@ == id && p.status != PaymentStatus::Cancelled {
        p.amount_raw.val()
    } else {
        0
    }
}

/// The sum of all non-cancelled payments linked to invoice `id`.
pub open spec fn sum_payments_for(ps: Seq<Payment>, id: Seq<char>) -> nat
    decreases ps.len(),
{
    if ps.len() == 0 {
        0
    } else {
        sum_payments_for(ps.drop_last(), id) + payment_contrib(ps.last(), id)
    }
}

pub proof fn lemma_sum_push(ps: Seq<Payment>, p: Payment, id: Seq<char>)
    ensures
        sum_payments_for(ps.push(p), id) == sum_payments_for(ps, id) + payment_contrib(p, id),
{
    assert(ps.push(p).drop_last() =~= ps);
    assert(ps.push(p).last() == p);
}

pub proof fn lemma_sum_update(ps: Seq<Payment>, k: int, p2: Payment, id: Seq<char>)
    requires
        0 <= k < ps.len(),
    ensures
        sum_payments_for(ps.update(k, p2), id) == sum_payments_for(ps, id) - payment_contrib(
            ps[k],
            id,
        ) + payment_contrib(p2, id),
    decreases ps.len(),
{
    let u = ps.update(k, p2);
    if k == ps.len() - 1 {
        assert(u.drop_last() =~= ps.drop_last());
        assert(u.last() == p2);
        assert(ps.last() == ps[k]);
    } else {
        assert(u.drop_last() =~= ps.drop_last().update(k, p2));
        assert(u.last() == ps.last());
        lemma_sum_update(ps.drop_last(), k, p2, id);
        assert(ps.drop_last()[k] == ps[k]);
    }
}

/// Whether the watch set holds an entry for `(network, address)`.
pub open spec fn watch_has(ws: Seq<WatchEntry>, network: Seq<char>, address: Seq<char>) -> bool {
    exists|k: int|
        0 <= k < ws.len() && ws[k].network@ == network && ws[k].address@ == address
}

/// Whether some payment already carries the key `(network, tx_hash,
/// log_index)`.
pub open spec fn key_present(
    ps: Seq<Payment>,
    network: Seq<char>,
    tx_hash: Seq<char>,
    log_index: u64,
) -> bool {
    exists|k: int|
        0 <= k < ps.len() && ps[k].network@ == network && ps[k].tx_hash@ == tx_hash && ps[
            k
        ].log_index == log_index
}

/// Whether invoice `i` is the pending invoice expecting funds on
/// `(network, address)`.
pub open spec fn pending_match(
    invs: Seq<Invoice>,
    i: int,
    network: Seq<char>,
    address: Seq<char>,
) -> bool {
    0 <= i < invs.len() && invs[i].network@ == network && invs[i].address@ == address && invs[
        i
    ].status == InvoiceStatus::Pending
}

/// The in-memory store backing the gateway: chains, tokens, the watch set,
/// and the invoice, payment and webhook ledgers.
pub struct Store {
    pub chains: Vec<ChainConfig>,
    pub tokens: Vec<TokenEntry>,
    pub watch: Vec<WatchEntry>,
    pub invoices: Vec<Invoice>,
    pub payments: Vec<Payment>,
    pub webhooks: Vec<Webhook>,
}

/// Chain names are unique.
pub open spec fn chains_ok(cs: Seq<ChainConfig>) -> bool {
    forall|i: int, j: int| 0 <= i < j < cs.len() ==> cs[i].name@ != cs[j].name@
}

/// Tokens are unique per `(chain, symbol)` and per `(chain, contract)`.
pub open spec fn tokens_ok(ts: Seq<TokenEntry>) -> bool {
    forall|i: int, j: int|
        0 <= i < j < ts.len() && ts[i].chain@ == ts[j].chain@ ==> ts[i].config.symbol@
            != ts[j].config.symbol@ && ts[i].config.contract@ != ts[j].config.contract@
}

/// The token table without the entries of `chain`, in table order.
pub open spec fn tokens_without_chain(ts: Seq<TokenEntry>, chain: Seq<char>) -> Seq<TokenEntry>
    decreases ts.len(),
{
    if ts.len() == 0 {
        Seq::empty()
    } else {
        tokens_without_chain(ts.drop_last(), chain) + (if ts.last().chain@ == chain {
            Seq::<TokenEntry>::empty()
        } else {
            seq![ts.last()]
        })
    }
}

/// Whether the chain of entry `e` is registered.
pub open spec fn token_chain_known(e: TokenEntry, cs: Seq<ChainConfig>) -> bool {
    exists|c: int| 0 <= c < cs.len() && cs[c].name@ == e.chain@
}

/// Every token belongs to a registered chain.
pub open spec fn tokens_linked_ok(cs: Seq<ChainConfig>, ts: Seq<TokenEntry>) -> bool {
    forall|k: int| 0 <= k < ts.len() ==> token_chain_known(#[trigger] ts[k], cs)
}

/// No entry of the filtered token table belongs to `chain`.
pub proof fn lemma_twc_no_chain(ts: Seq<TokenEntry>, chain: Seq<char>)
    ensures
        forall|x: int|
            0 <= x < tokens_without_chain(ts, chain).len() ==> (#[trigger] tokens_without_chain(
                ts,
                chain,
            )[x]).chain@ != chain,
    decreases ts.len(),
{
    if ts.len() > 0 {
        lemma_twc_no_chain(ts.drop_last(), chain);
        let prev = tokens_without_chain(ts.drop_last(), chain);
        let cur = tokens_without_chain(ts, chain);
        assert forall|x: int| 0 <= x < cur.len() implies (#[trigger] cur[x]).chain@ != chain by {
            if x < prev.len() {
                assert(cur[x] == prev[x]);
            } else {
                assert(cur[x] == ts.last());
            }
        };
    }
}

/// Invoice ids are unique.
pub open spec fn invoice_ids_ok(invs: Seq<Invoice>) -> bool {
    forall|i: int, j: int| 0 <= i < j < invs.len() ==> invs[i].id@ != invs[j].id@
}

/// An address index is held by at most one non-terminal invoice per network.
pub open spec fn slots_ok(invs: Seq<Invoice>) -> bool {
    forall|i: int, j: int|
        0 <= i < j < invs.len() && !invoice_terminal(invs[i].status) && !invoice_terminal(
            invs[j].status,
        ) && invs[i].network@ == invs[j].network@ ==> invs[i].address_index
            != invs[j].address_index
}

/// No two payments share the key `(network, tx_hash, log_index)`.
pub open spec fn payments_key_ok(ps: Seq<Payment>) -> bool {
    forall|i: int, j: int| 0 <= i < j < ps.len() ==> !same_payment_key(ps[i], ps[j])
}

/// Every invoice's paid total equals the sum of its non-cancelled payments.
pub open spec fn paid_ok(invs: Seq<Invoice>, ps: Seq<Payment>) -> bool {
    forall|i: int|
        0 <= i < invs.len() ==> invs[i].paid_raw.val() == sum_payments_for(
            ps,
            #[trigger] invs[i].id@,
        )
}

/// Whether `p` is linked to some invoice of `invs`.
pub open spec fn payment_linked(p: Payment, invs: Seq<Invoice>) -> bool {
    exists|i: int| 0 <= i < invs.len() && invs[i].id@ == p.invoice_id@
}

/// Every payment is linked to an existing invoice.
pub open spec fn payments_linked_ok(invs: Seq<Invoice>, ps: Seq<Payment>) -> bool {
    forall|k: int| 0 <= k < ps.len() ==> payment_linked(#[trigger] ps[k], invs)
}

/// Once an invoice is terminal, no later state may change it: `b` keeps
/// every terminal invoice of `a` exactly as it was.
pub open spec fn terminal_preserved(a: Seq<Invoice>, b: Seq<Invoice>) -> bool {
    a.len() <= b.len() && forall|i: int|
        0 <= i < a.len() && invoice_terminal(#[trigger] a[i].status) ==> b[i] == a[i]
}

/// A payment id that no payment carries contributes nothing to any sum.
pub proof fn lemma_sum_zero_when_unlinked(ps: Seq<Payment>, id: Seq<char>)
    requires
        forall|k: int| 0 <= k < ps.len() ==> ps[k].invoice_id@ != id,
    ensures
        sum_payments_for(ps, id) == 0,
    decreases ps.len(),
{
    if ps.len() > 0 {
        lemma_sum_zero_when_unlinked(ps.drop_last(), id);
        assert(ps.last() == ps[ps.len() - 1]);
    }
}

/// Watch entries are unique.
pub open spec fn watch_unique_ok(ws: Seq<WatchEntry>) -> bool {
    forall|k: int, l: int|
        0 <= k < l < ws.len() ==> !(ws[k].network@ == ws[l].network@ && ws[k].address@
            == ws[l].address@)
}

/// Whether some non-terminal invoice of `invs` uses the watched pair `e`.
pub open spec fn entry_covered(e: WatchEntry, invs: Seq<Invoice>) -> bool {
    exists|i: int|
        0 <= i < invs.len() && !invoice_terminal(invs[i].status) && invs[i].network@ == e.network@
            && invs[i].address@ == e.address@
}

/// Every watch entry belongs to some non-terminal invoice.
pub open spec fn watch_covered_ok(ws: Seq<WatchEntry>, invs: Seq<Invoice>) -> bool {
    forall|k: int| 0 <= k < ws.len() ==> entry_covered(#[trigger] ws[k], invs)
}

/// Every non-terminal invoice's address is watched on its network.
pub open spec fn watch_complete_ok(ws: Seq<WatchEntry>, invs: Seq<Invoice>) -> bool {
    forall|i: int|
        0 <= i < invs.len() && !invoice_terminal(#[trigger] invs[i].status) ==> watch_has(
            ws,
            invs[i].network@,
            invs[i].address@,
        )
}

/// The watch-set law: in a well-formed store, the watch set holds
/// `(network, address)` exactly when some non-terminal invoice awaits
/// funds on that address of that network.
pub proof fn lemma_watch_iff_open_invoice(s: Store, network: Seq<char>, address: Seq<char>)
    requires
        s.wf(),
    ensures
        watch_has(s.watch@, network, address) <==> exists|i: int|
            0 <= i < s.invoices@.len() && !invoice_terminal(s.invoices@[i].status)
                && s.invoices@[i].network@ == network && s.invoices@[i].address@ == address,
{
    if watch_has(s.watch@, network, address) {
        let k = choose|k: int|
            0 <= k < s.watch@.len() && s.watch@[k].network@ == network && s.watch@[k].address@
                == address;
        assert(entry_covered(s.watch@[k], s.invoices@));
        let i = choose|i: int|
            0 <= i < s.invoices@.len() && !invoice_terminal(s.invoices@[i].status)
                && s.invoices@[i].network@ == s.watch@[k].network@ && s.invoices@[i].address@
                == s.watch@[k].address@;
        assert(0 <= i < s.invoices@.len() && !invoice_terminal(s.invoices@[i].status)
            && s.invoices@[i].network@ == network && s.invoices@[i].address@ == address);
    }
}

impl Store {
    /// The full well-formedness invariant of the store.
    pub open spec fn wf(self) -> bool {
        &&& chains_ok(self.chains@)
        &&& tokens_ok(self.tokens@)
        &&& tokens_linked_ok(self.chains@, self.tokens@)
        &&& invoice_ids_ok(self.invoices@)
        &&& slots_ok(self.invoices@)
        &&& payments_key_ok(self.payments@)
        &&& paid_ok(self.invoices@, self.payments@)
        &&& payments_linked_ok(self.invoices@, self.payments@)
        &&& watch_unique_ok(self.watch@)
        &&& watch_covered_ok(self.watch@, self.invoices@)
        &&& watch_complete_ok(self.watch@, self.invoices@)
    }

    /// An empty store.
    pub fn new() -> (r: Store)
        ensures
            r.wf(),
            r.chains@.len() == 0,
            r.tokens@.len() == 0,
            r.watch@.len() == 0,
            r.invoices@.len() == 0,
            r.payments@.len() == 0,
            r.webhooks@.len() == 0,
    {
        Store {
            chains: Vec::new(),
            tokens: Vec::new(),
            watch: Vec::new(),
            invoices: Vec::new(),
            payments: Vec::new(),
            webhooks: Vec::new(),
        }
    }

    /// The index of the chain called `name`.
    pub fn find_chain(&self, name: &String) -> (r: Option<usize>)
        ensures
            r is Some ==> r.unwrap() < self.chains@.len() && self.chains@[
                r.unwrap() as int
            ].name@ == name@,
            r is None ==> forall|i: int|
                0 <= i < self.chains@.len() ==> self.chains@[i].name@ != name@,
    {
        let n = self.chains.len();
        let mut i: usize = 0;
        while i < n
            invariant
                0 <= i <= n,
                n == self.chains@.len(),
                forall|j: int| 0 <= j < i ==> self.chains@[j].name@ != name@,
            decreases n - i,
        {
            if self.chains[i].name == *name {
                return Some(i);
            }
            i += 1;
        }
        None
    }

    /// The index of the token entry for `(chain, symbol)`.
    pub fn find_token(&self, chain: &String, symbol: &String) -> (r: Option<usize>)
        ensures
            r is Some ==> r.unwrap() < self.tokens@.len() && self.tokens@[
                r.unwrap() as int
            ].chain@ == chain@ && self.tokens@[r.unwrap() as int].config.symbol@ == symbol@,
            r is None ==> forall|i: int|
                0 <= i < self.tokens@.len() ==> !(self.tokens@[i].chain@ == chain@
                    && self.tokens@[i].config.symbol@ == symbol@),
    {
        let n = self.tokens.len();
        let mut i: usize = 0;
        while i < n
            invariant
                0 <= i <= n,
                n == self.tokens@.len(),
                forall|j: int|
                    0 <= j < i ==> !(self.tokens@[j].chain@ == chain@ && self.tokens@[
                        j
                    ].config.symbol@ == symbol@),
            decreases n - i,
        {
            if self.tokens[i].chain == *chain && self.tokens[i].config.symbol == *symbol {
                return Some(i);
            }
            i += 1;
        }
        None
    }

    /// The index of the token entry for `(chain, contract)`.
    pub fn find_token_by_contract(&self, chain: &String, contract: &String) -> (r: Option<usize>)
        ensures
            r is Some ==> r.unwrap() < self.tokens@.len() && self.tokens@[
                r.unwrap() as int
            ].chain@ == chain@ && self.tokens@[r.unwrap() as int].config.contract@ == contract@,
            r is None ==> forall|i: int|
                0 <= i < self.tokens@.len() ==> !(self.tokens@[i].chain@ == chain@
                    && self.tokens@[i].config.contract@ == contract@),
    {
        let n = self.tokens.len();
        let mut i: usize = 0;
        while i < n
            invariant
                0 <= i <= n,
                n == self.tokens@.len(),
                forall|j: int|
                    0 <= j < i ==> !(self.tokens@[j].chain@ == chain@ && self.tokens@[
                        j
                    ].config.contract@ == contract@),
            decreases n - i,
        {
            if self.tokens[i].chain == *chain && self.tokens[i].config.contract == *contract {
                return Some(i);
            }
            i += 1;
        }
        None
    }

    /// The index of the watch entry for `(network, address)`.
    pub fn find_watch(&self, network: &String, address: &String) -> (r: Option<usize>)
        ensures
            r is Some ==> r.unwrap() < self.watch@.len() && self.watch@[
                r.unwrap() as int
            ].network@ == network@ && self.watch@[r.unwrap() as int].address@ == address@,
            r is Some ==> watch_has(self.watch@, network@, address@),
            r is None ==> !watch_has(self.watch@, network@, address@),
    {
        let n = self.watch.len();
        let mut i: usize = 0;
        while i < n
            invariant
                0 <= i <= n,
                n == self.watch@.len(),
                forall|j: int|
                    0 <= j < i ==> !(self.watch@[j].network@ == network@ && self.watch@[
                        j
                    ].address@ == address@),
            decreases n - i,
        {
            if self.watch[i].network == *network && self.watch[i].address == *address {
                return Some(i);
            }
            i += 1;
        }
        None
    }

    /// The index of the invoice with id `id`.
    pub fn find_invoice(&self, id: &String) -> (r: Option<usize>)
        ensures
            r is Some ==> r.unwrap() < self.invoices@.len() && self.invoices@[
                r.unwrap() as int
            ].id@ == id@,
            r is None ==> forall|i: int|
                0 <= i < self.invoices@.len() ==> self.invoices@[i].id@ != id@,
    {
        let n = self.invoices.len();
        let mut i: usize = 0;
        while i < n
            invariant
                0 <= i <= n,
                n == self.invoices@.len(),
                forall|j: int| 0 <= j < i ==> self.invoices@[j].id@ != id@,
            decreases n - i,
        {
            if self.invoices[i].id == *id {
                return Some(i);
            }
            i += 1;
        }
        None
    }

    /// The index of the pending invoice on `network` whose receive address
    /// is `address`.
    pub fn find_pending_invoice_by_address(&self, network: &String, address: &String) -> (r: Option<
        usize,
    >)
        ensures
            r is Some ==> r.unwrap() < self.invoices@.len() && self.invoices@[
                r.unwrap() as int
            ].network@ == network@ && self.invoices@[r.unwrap() as int].address@ == address@
                && self.invoices@[r.unwrap() as int].status == InvoiceStatus::Pending,
            r is Some ==> forall|j: int|
                0 <= j < r.unwrap() ==> !(self.invoices@[j].network@ == network@
                    && self.invoices@[j].address@ == address@ && self.invoices@[j].status
                    == InvoiceStatus::Pending),
            r is None ==> forall|i: int|
                0 <= i < self.invoices@.len() ==> !(self.invoices@[i].network@ == network@
                    && self.invoices@[i].address@ == address@ && self.invoices@[i].status
                    == InvoiceStatus::Pending),
    {
        let n = self.invoices.len();
        let mut i: usize = 0;
        while i < n
            invariant
                0 <= i <= n,
                n == self.invoices@.len(),
                forall|j: int|
                    0 <= j < i ==> !(self.invoices@[j].network@ == network@ && self.invoices@[
                        j
                    ].address@ == address@ && self.invoices@[j].status == InvoiceStatus::Pending),
            decreases n - i,
        {
            if self.invoices[i].network == *network && self.invoices[i].address == *address
                && self.invoices[i].status == InvoiceStatus::Pending {
                return Some(i);
            }
            i += 1;
        }
        None
    }

    /// The index of the payment with key `(network, tx_hash, log_index)`.
    pub fn find_payment_by_key(&self, network: &String, tx_hash: &String, log_index: u64) -> (r:
        Option<usize>)
        ensures
            r is Some ==> r.unwrap() < self.payments@.len() && self.payments@[
                r.unwrap() as int
            ].network@ == network@ && self.payments@[r.unwrap() as int].tx_hash@ == tx_hash@
                && self.payments@[r.unwrap() as int].log_index == log_index,
            r is None ==> forall|i: int|
                0 <= i < self.payments@.len() ==> !(self.payments@[i].network@ == network@
                    && self.payments@[i].tx_hash@ == tx_hash@ && self.payments@[i].log_index
                    == log_index),
            r is Some <==> key_present(self.payments@, network@, tx_hash@, log_index),
    {
        let n = self.payments.len();
        let mut i: usize = 0;
        while i < n
            invariant
                0 <= i <= n,
                n == self.payments@.len(),
                forall|j: int|
                    0 <= j < i ==> !(self.payments@[j].network@ == network@ && self.payments@[
                        j
                    ].tx_hash@ == tx_hash@ && self.payments@[j].log_index == log_index),
            decreases n - i,
        {
            if self.payments[i].network == *network && self.payments[i].tx_hash == *tx_hash
                && self.payments[i].log_index == log_index {
                return Some(i);
            }
            i += 1;
        }
        None
    }

    /// The index of the payment with id `id`.
    pub fn find_payment(&self, id: &String) -> (r: Option<usize>)
        ensures
            r is Some ==> r.unwrap() < self.payments@.len() && self.payments@[
                r.unwrap() as int
            ].id@ == id@,
            r is Some ==> forall|i: int| 0 <= i < r.unwrap() ==> self.payments@[i].id@ != id@,
            r is None ==> forall|i: int|
                0 <= i < self.payments@.len() ==> self.payments@[i].id@ != id@,
    {
        let n = self.payments.len();
        let mut i: usize = 0;
        while i < n
            invariant
                0 <= i <= n,
                n == self.payments@.len(),
                forall|j: int| 0 <= j < i ==> self.payments@[j].id@ != id@,
            decreases n - i,
        {
            if self.payments[i].id == *id {
                return Some(i);
            }
            i += 1;
        }
        None
    }

    /// The index of the webhook with id `id`.
    pub fn find_webhook(&self, id: &String) -> (r: Option<usize>)
        ensures
            r is Some ==> r.unwrap() < self.webhooks@.len() && self.webhooks@[
                r.unwrap() as int
            ].id@ == id@,
            r is Some ==> forall|i: int| 0 <= i < r.unwrap() ==> self.webhooks@[i].id@ != id@,
            r is None ==> forall|i: int|
                0 <= i < self.webhooks@.len() ==> self.webhooks@[i].id@ != id@,
    {
        let n = self.webhooks.len();
        let mut i: usize = 0;
        while i < n
            invariant
                0 <= i <= n,
                n == self.webhooks@.len(),
                forall|j: int| 0 <= j < i ==> self.webhooks@[j].id@ != id@,
            decreases n - i,
        {
            if self.webhooks[i].id == *id {
                return Some(i);
            }
            i += 1;
        }
        None
    }
}

/// Errors of the store's mutating operations.
#[derive(Clone, Copy, Debug, PartialEq, Eq, Structural)]
pub enum StoreError {
    /// A chain, token, invoice, payment or webhook with this key already
    /// exists.
    Duplicate,
    /// The named chain, token, invoice, payment or webhook does not exist.
    NotFound,
    /// The entity is in a terminal state and may not change any more.
    Terminal,
    /// The chain still has non-terminal invoices.
    ChainBusy,
}

impl Store {
    /// Adds a chain; refused when one of that name exists.
    pub fn add_chain(&mut self, cfg: ChainConfig) -> (r: Result<(), StoreError>)
        requires
            old(self).wf(),
        ensures
            final(self).wf(),
            r is Ok <==> (forall|i: int|
                0 <= i < old(self).chains@.len() ==> old(self).chains@[i].name@ != cfg.name@),
            r is Ok ==> final(self).chains@ == old(self).chains@.push(cfg),
            r is Err ==> final(self).chains@ == old(self).chains@,
            r is Err ==> r == Err::<(), StoreError>(StoreError::Duplicate),
            final(self).tokens@ == old(self).tokens@,
            final(self).watch@ == old(self).watch@,
            final(self).invoices@ == old(self).invoices@,
            final(self).payments@ == old(self).payments@,
            final(self).webhooks@ == old(self).webhooks@,
    {
        if self.find_chain(&cfg.name).is_some() {
            return Err(StoreError::Duplicate);
        }
        self.chains.push(cfg);
        proof {
            assert(tokens_linked_ok(self.chains@, self.tokens@)) by {
                assert forall|k: int|
                    0 <= k < self.tokens@.len() implies token_chain_known(
                    #[trigger] self.tokens@[k],
                    self.chains@,
                ) by {
                    let c = choose|c: int|
                        0 <= c < old(self).chains@.len() && old(self).chains@[c].name@
                            == self.tokens@[k].chain@;
                    assert(self.chains@[c].name@ == self.tokens@[k].chain@);
                };
            }
        }
        Ok(())
    }

    /// Removes the chain called `name` together with its tokens; refused
    /// when it has non-terminal invoices or does not exist.
    pub fn remove_chain(&mut self, name: &String) -> (r: Result<(), StoreError>)
        requires
            old(self).wf(),
        ensures
            final(self).wf(),
            r is Ok ==> exists|c: int|
                0 <= c < old(self).chains@.len() && #[trigger] old(self).chains@[c].name@ == name@
                    && final(self).chains@ == old(self).chains@.remove(c),
            r is Ok ==> forall|i: int|
                0 <= i < final(self).chains@.len() ==> final(self).chains@[i].name@ != name@,
            r is Ok ==> final(self).tokens@ == tokens_without_chain(old(self).tokens@, name@),
            r is Ok ==> forall|i: int|
                0 <= i < old(self).invoices@.len() ==> !(!invoice_terminal(
                    #[trigger] old(self).invoices@[i].status,
                ) && old(self).invoices@[i].network@ == name@),
            r == Err::<(), StoreError>(StoreError::NotFound) ==> forall|i: int|
                0 <= i < old(self).chains@.len() ==> old(self).chains@[i].name@ != name@,
            r == Err::<(), StoreError>(StoreError::ChainBusy) ==> exists|i: int|
                0 <= i < old(self).invoices@.len() && !invoice_terminal(
                    old(self).invoices@[i].status,
                ) && old(self).invoices@[i].network@ == name@,
            r is Err ==> final(self).chains@ == old(self).chains@ && final(self).tokens@ == old(
                self,
            ).tokens@,
            final(self).watch@ == old(self).watch@,
            final(self).invoices@ == old(self).invoices@,
            final(self).payments@ == old(self).payments@,
            final(self).webhooks@ == old(self).webhooks@,
    {
        let idx = match self.find_chain(name) {
            Some(i) => i,
            None => {
                return Err(StoreError::NotFound);
            },
        };
        let n = self.invoices.len();
        let mut i: usize = 0;
        while i < n
            invariant
                0 <= i <= n,
                *self == *old(self),
                self.wf(),
                n == self.invoices@.len(),
                forall|j: int|
                    0 <= j < i ==> !(!invoice_terminal(self.invoices@[j].status)
                        && self.invoices@[j].network@ == name@),
            decreases n - i,
        {
            if !self.invoices[i].is_terminal() && self.invoices[i].network == *name {
                return Err(StoreError::ChainBusy);
            }
            i += 1;
        }
        // The chain's tokens go first, while their chain is still
        // registered, so the store stays well-formed throughout.
        let ghost pre_t = self.tokens@;
        let ghost nt = pre_t.len() as int;
        let ghost mut j: int = 0;
        let mut k: usize = 0;
        proof {
            assert(pre_t.subrange(0, 0).len() == 0);
            assert(self.tokens@ =~= tokens_without_chain(pre_t.subrange(0, 0), name@)
                + pre_t.subrange(0, nt));
        }
        while k < self.tokens.len()
            invariant
                0 <= j <= nt,
                nt == pre_t.len(),
                self.wf(),
                k == tokens_without_chain(pre_t.subrange(0, j), name@).len(),
                self.tokens@ == tokens_without_chain(pre_t.subrange(0, j), name@)
                    + pre_t.subrange(j, nt),
                self.chains@ == old(self).chains@,
                self.watch@ == old(self).watch@,
                self.invoices@ == old(self).invoices@,
                self.payments@ == old(self).payments@,
                self.webhooks@ == old(self).webhooks@,
            decreases nt - j,
        {
            let ghost kept = tokens_without_chain(pre_t.subrange(0, j), name@);
            proof {
                assert(j < nt);
                assert(pre_t.subrange(0, j + 1).drop_last() =~= pre_t.subrange(0, j));
                assert(pre_t.subrange(0, j + 1).last() == pre_t[j]);
                assert(self.tokens@[k as int] == pre_t.subrange(j, nt)[0]);
            }
            if self.tokens[k].chain == *name {
                let ghost step_pre = self.tokens@;
                self.tokens.remove(k);
                proof {
                    assert(self.tokens@ =~= step_pre.remove(k as int));
                    assert(forall|m: int|
                        0 <= m < self.tokens@.len() ==> self.tokens@[m] == (if m < k as int {
                            step_pre[m]
                        } else {
                            step_pre[m + 1]
                        }));
                    assert(tokens_without_chain(pre_t.subrange(0, j + 1), name@) =~= kept);
                    assert(self.tokens@ =~= kept + pre_t.subrange(j + 1, nt));
                    j = j + 1;
                }
            } else {
                proof {
                    assert(tokens_without_chain(pre_t.subrange(0, j + 1), name@) =~= kept
                        + seq![pre_t[j]]);
                    assert(self.tokens@ =~= tokens_without_chain(
                        pre_t.subrange(0, j + 1),
                        name@,
                    ) + pre_t.subrange(j + 1, nt));
                    j = j + 1;
                }
                k += 1;
            }
        }
        proof {
            assert(pre_t.subrange(0, nt) =~= pre_t);
            assert(pre_t.subrange(nt, nt).len() == 0);
            assert(self.tokens@ =~= tokens_without_chain(pre_t, name@));
        }
        let ghost pre = self.chains@;
        let ghost mid_tokens = self.tokens@;
        self.chains.remove(idx);
        proof {
            assert(self.chains@ =~= pre.remove(idx as int));
            assert(forall|k2: int|
                0 <= k2 < self.chains@.len() ==> self.chains@[k2] == (if k2 < idx as int {
                    pre[k2]
                } else {
                    pre[k2 + 1]
                }));
            // The surviving tokens belong to other chains, whose entries
            // merely shifted.
            lemma_twc_no_chain(pre_t, name@);
            assert(tokens_linked_ok(self.chains@, self.tokens@)) by {
                assert forall|m: int|
                    0 <= m < self.tokens@.len() implies token_chain_known(
                    #[trigger] self.tokens@[m],
                    self.chains@,
                ) by {
                    assert(token_chain_known(mid_tokens[m], pre));
                    let c = choose|c: int|
                        0 <= c < pre.len() && pre[c].name@ == mid_tokens[m].chain@;
                    assert(self.tokens@[m].chain@ != name@);
                    assert(c != idx as int);
                    if c < idx as int {
                        assert(self.chains@[c].name@ == self.tokens@[m].chain@);
                    } else {
                        assert(self.chains@[c - 1].name@ == self.tokens@[m].chain@);
                    }
                };
            }
        }
        Ok(())
    }

    /// Overwrites the stored configuration of chain `idx`.
    pub fn set_chain_at(&mut self, idx: usize, cfg: ChainConfig)
        requires
            old(self).wf(),
            idx < old(self).chains@.len(),
            cfg.name@ == old(self).chains@[idx as int].name@,
        ensures
            final(self).wf(),
            final(self).chains@ == old(self).chains@.update(idx as int, cfg),
            final(self).tokens@ == old(self).tokens@,
            final(self).watch@ == old(self).watch@,
            final(self).invoices@ == old(self).invoices@,
            final(self).payments@ == old(self).payments@,
            final(self).webhooks@ == old(self).webhooks@,
    {
        self.chains.set(idx, cfg);
        proof {
            assert(tokens_linked_ok(self.chains@, self.tokens@)) by {
                assert forall|k: int|
                    0 <= k < self.tokens@.len() implies token_chain_known(
                    #[trigger] self.tokens@[k],
                    self.chains@,
                ) by {
                    let c = choose|c: int|
                        0 <= c < old(self).chains@.len() && old(self).chains@[c].name@
                            == self.tokens@[k].chain@;
                    assert(self.chains@[c].name@ == self.tokens@[k].chain@);
                };
            }
        }
    }

    /// Adds a token to a chain; refused when the chain does not exist or the
    /// symbol or contract is already taken on it.
    pub fn add_token(&mut self, chain: &String, config: TokenConfig) -> (r: Result<
        (),
        StoreError,
    >)
        requires
            old(self).wf(),
        ensures
            final(self).wf(),
            r is Ok <==> (exists|i: int|
                0 <= i < old(self).chains@.len() && old(self).chains@[i].name@ == chain@) && (
            forall|i: int|
                0 <= i < old(self).tokens@.len() ==> !(old(self).tokens@[i].chain@ == chain@ && (
                old(self).tokens@[i].config.symbol@ == config.symbol@
                    || old(self).tokens@[i].config.contract@ == config.contract@))),
            r is Ok ==> final(self).tokens@.len() == old(self).tokens@.len() + 1
                && final(self).tokens@.last().chain@ == chain@
                && final(self).tokens@.last().config == config && (forall|i: int|
                0 <= i < old(self).tokens@.len() ==> final(self).tokens@[i] == old(self).tokens@[i]),
            r is Err ==> final(self).tokens@ == old(self).tokens@,
            final(self).chains@ == old(self).chains@,
            final(self).watch@ == old(self).watch@,
            final(self).invoices@ == old(self).invoices@,
            final(self).payments@ == old(self).payments@,
            final(self).webhooks@ == old(self).webhooks@,
    {
        if self.find_chain(chain).is_none() {
            return Err(StoreError::NotFound);
        }
        if self.find_token(chain, &config.symbol).is_some() {
            return Err(StoreError::Duplicate);
        }
        if self.find_token_by_contract(chain, &config.contract).is_some() {
            return Err(StoreError::Duplicate);
        }
        let entry = TokenEntry { chain: clone_string(chain), config };
        let ghost pre = self.tokens@;
        self.tokens.push(entry);
        Ok(())
    }

    /// Removes the token `(chain, symbol)`; refused when absent.
    pub fn remove_token(&mut self, chain: &String, symbol: &String) -> (r: Result<(), StoreError>)
        requires
            old(self).wf(),
        ensures
            final(self).wf(),
            r is Ok <==> exists|i: int|
                0 <= i < old(self).tokens@.len() && old(self).tokens@[i].chain@ == chain@ && old(self).tokens@[i].config.symbol@ == symbol@,
            r is Ok ==> forall|i: int|
                0 <= i < final(self).tokens@.len() ==> !(final(self).tokens@[i].chain@ == chain@
                    && final(self).tokens@[i].config.symbol@ == symbol@),
            r is Ok ==> exists|i: int|
                0 <= i < old(self).tokens@.len() && #[trigger] old(self).tokens@[i].chain@
                    == chain@ && old(self).tokens@[i].config.symbol@ == symbol@
                    && final(self).tokens@ == old(self).tokens@.remove(i),
            r is Err ==> final(self).tokens@ == old(self).tokens@,
            final(self).chains@ == old(self).chains@,
            final(self).watch@ == old(self).watch@,
            final(self).invoices@ == old(self).invoices@,
            final(self).payments@ == old(self).payments@,
            final(self).webhooks@ == old(self).webhooks@,
    {
        let idx = match self.find_token(chain, symbol) {
            Some(i) => i,
            None => {
                return Err(StoreError::NotFound);
            },
        };
        let ghost pre = self.tokens@;
        self.tokens.remove(idx);
        proof {
            assert(self.tokens@ =~= pre.remove(idx as int));
            assert(forall|k: int|
                0 <= k < self.tokens@.len() ==> self.tokens@[k] == (if k < idx as int {
                    pre[k]
                } else {
                    pre[k + 1]
                }));
        }
        Ok(())
    }

    /// The number of fractional digits of token `symbol` on `chain`.
    pub fn get_token_decimals(&self, chain: &String, symbol: &String) -> (r: Option<u8>)
        ensures
            r is Some <==> exists|i: int|
                0 <= i < self.tokens@.len() && self.tokens@[i].chain@ == chain@ && self.tokens@[
                    i
                ].config.symbol@ == symbol@,
            r is Some ==> exists|i: int|
                0 <= i < self.tokens@.len() && self.tokens@[i].chain@ == chain@ && self.tokens@[
                    i
                ].config.symbol@ == symbol@ && self.tokens@[i].config.decimals == r.unwrap(),
    {
        match self.find_token(chain, symbol) {
            Some(i) => Some(self.tokens[i].config.decimals),
            None => None,
        }
    }
}

/// A copy of `s` with the same characters.
pub fn clone_string(s: &String) -> (r: String)
    ensures
        r == *s,
{
    s.clone()
}

/// A copy of an optional string.
pub fn clone_opt_string(o: &Option<String>) -> (r: Option<String>)
    ensures
        r == *o,
{
    match o {
        Option::None => Option::None,
        Option::Some(s) => Option::Some(s.clone()),
    }
}

} // verus!
