use vstd::prelude::*;

use crate::model::{Invoice, InvoiceStatus, Webhook, invoice_terminal};
use crate::store::{
    Store, StoreError, WatchEntry, clone_string, invoice_ids_ok, slots_ok, tokens_linked_ok,
    payments_key_ok, paid_ok, payments_linked_ok, payment_linked, entry_covered, watch_unique_ok, watch_covered_ok,
    watch_complete_ok, watch_has, sum_payments_for, lemma_sum_push, lemma_sum_zero_when_unlinked,
    terminal_preserved,
};

verus! {

/// `inv` with its status replaced.
pub open spec fn with_status(inv: Invoice, st: InvoiceStatus) -> Invoice {
    Invoice { status: st, ..inv }
}

/// `watch_has` survives removing an entry for a different pair.
pub proof fn lemma_watch_has_after_remove(
    ws: Seq<WatchEntry>,
    k: int,
    n: Seq<char>,
    a: Seq<char>,
)
    requires
        0 <= k < ws.len(),
        watch_has(ws, n, a),
        !(ws[k].network@ == n && ws[k].address@ == a),
    ensures
        watch_has(ws.remove(k), n, a),
{
    let l = choose|l: int| 0 <= l < ws.len() && ws[l].network@ == n && ws[l].address@ == a;
    if l < k {
        assert(ws.remove(k)[l].network@ == n && ws.remove(k)[l].address@ == a);
    } else {
        assert(ws.remove(k)[l - 1].network@ == n && ws.remove(k)[l - 1].address@ == a);
    }
}

/// Marking one invoice terminal preserves the ledger invariants that do not
/// involve the watch set.
pub proof fn lemma_ledger_after_status_update(
    old_invs: Seq<Invoice>,
    ps: Seq<crate::model::Payment>,
    i: int,
    st: InvoiceStatus,
)
    requires
        0 <= i < old_invs.len(),
        !invoice_terminal(old_invs[i].status),
        invoice_terminal(st),
        invoice_ids_ok(old_invs),
        slots_ok(old_invs),
        paid_ok(old_invs, ps),
        payments_linked_ok(old_invs, ps),
    ensures
        invoice_ids_ok(old_invs.update(i, with_status(old_invs[i], st))),
        slots_ok(old_invs.update(i, with_status(old_invs[i], st))),
        paid_ok(old_invs.update(i, with_status(old_invs[i], st)), ps),
        payments_linked_ok(old_invs.update(i, with_status(old_invs[i], st)), ps),
        terminal_preserved(old_invs, old_invs.update(i, with_status(old_invs[i], st))),
{
    let invs = old_invs.update(i, with_status(old_invs[i], st));
    assert(forall|w: int|
        0 <= w < invs.len() ==> invs[w].id@ == old_invs[w].id@ && invs[w].paid_raw == old_invs[
            w
        ].paid_raw && invs[w].network@ == old_invs[w].network@ && invs[w].address_index
            == old_invs[w].address_index);
    assert(paid_ok(invs, ps)) by {
        assert forall|w: int| 0 <= w < invs.len() implies invs[w].paid_raw.val()
            == sum_payments_for(ps, #[trigger] invs[w].id@) by {
            assert(old_invs[w].paid_raw.val() == sum_payments_for(ps, old_invs[w].id@));
        };
    }
    assert(payments_linked_ok(invs, ps)) by {
        assert forall|p: int| 0 <= p < ps.len() implies payment_linked(#[trigger] ps[p], invs) by {
            assert(payment_linked(ps[p], old_invs));
            let w = choose|w: int| 0 <= w < old_invs.len() && old_invs[w].id@ == ps[p].invoice_id@;
            assert(invs[w].id@ == ps[p].invoice_id@);
        };
    }
    assert(slots_ok(invs)) by {
        assert forall|x: int, y: int|
            0 <= x < y < invs.len() && !invoice_terminal(invs[x].status) && !invoice_terminal(
                invs[y].status,
            ) && invs[x].network@ == invs[y].network@ implies invs[x].address_index
            != invs[y].address_index by {
            assert(!invoice_terminal(old_invs[x].status) && !invoice_terminal(old_invs[y].status));
        };
    }
}

/// Keeping the watch set as it is preserves its invariants when invoice `i`
/// turns terminal while another non-terminal invoice still uses its address,
/// or while no watch entry carries that address at all.
pub proof fn lemma_watch_after_terminal_keep(
    ws: Seq<crate::store::WatchEntry>,
    old_invs: Seq<Invoice>,
    i: int,
    st: InvoiceStatus,
)
    requires
        0 <= i < old_invs.len(),
        invoice_terminal(st),
        watch_covered_ok(ws, old_invs),
        watch_complete_ok(ws, old_invs),
        (exists|j: int|
            0 <= j < old_invs.len() && j != i && !invoice_terminal(old_invs[j].status)
                && old_invs[j].network@ == old_invs[i].network@ && old_invs[j].address@
                == old_invs[i].address@) || !watch_has(ws, old_invs[i].network@, old_invs[i].address@),
    ensures
        watch_covered_ok(ws, old_invs.update(i, with_status(old_invs[i], st))),
        watch_complete_ok(ws, old_invs.update(i, with_status(old_invs[i], st))),
{
    let invs = old_invs.update(i, with_status(old_invs[i], st));
    assert(watch_covered_ok(ws, invs)) by {
        assert forall|m: int| 0 <= m < ws.len() implies entry_covered(#[trigger] ws[m], invs) by {
            assert(entry_covered(ws[m], old_invs));
            let w = choose|w: int|
                0 <= w < old_invs.len() && !invoice_terminal(old_invs[w].status) && old_invs[
                    w
                ].network@ == ws[m].network@ && old_invs[w].address@ == ws[m].address@;
            if w == i {
                assert(ws[m].network@ == old_invs[i].network@ && ws[m].address@ == old_invs[
                    i
                ].address@);
                assert(watch_has(ws, old_invs[i].network@, old_invs[i].address@));
                let j = choose|j: int|
                    0 <= j < old_invs.len() && j != i && !invoice_terminal(old_invs[j].status)
                        && old_invs[j].network@ == old_invs[i].network@ && old_invs[j].address@
                        == old_invs[i].address@;
                assert(0 <= j < invs.len() && !invoice_terminal(invs[j].status) && invs[
                    j
                ].network@ == ws[m].network@ && invs[j].address@ == ws[m].address@);
            } else {
                assert(0 <= w < invs.len() && !invoice_terminal(invs[w].status) && invs[
                    w
                ].network@ == ws[m].network@ && invs[w].address@ == ws[m].address@);
            }
        };
    }
    assert(watch_complete_ok(ws, invs)) by {
        assert forall|w: int|
            0 <= w < invs.len() && !invoice_terminal(#[trigger] invs[w].status) implies watch_has(
            ws,
            invs[w].network@,
            invs[w].address@,
        ) by {
            assert(w != i);
            assert(invs[w] == old_invs[w]);
        };
    }
}

/// Removing invoice `i`'s watch entry preserves the watch invariants when
/// no other non-terminal invoice uses the same address on that network.
pub proof fn lemma_watch_after_terminal_remove(
    ws: Seq<crate::store::WatchEntry>,
    k: int,
    old_invs: Seq<Invoice>,
    i: int,
    st: InvoiceStatus,
)
    requires
        0 <= i < old_invs.len(),
        0 <= k < ws.len(),
        invoice_terminal(st),
        watch_unique_ok(ws),
        watch_covered_ok(ws, old_invs),
        watch_complete_ok(ws, old_invs),
        ws[k].network@ == old_invs[i].network@ && ws[k].address@ == old_invs[i].address@,
        !(exists|j: int|
            0 <= j < old_invs.len() && j != i && !invoice_terminal(old_invs[j].status)
                && old_invs[j].network@ == old_invs[i].network@ && old_invs[j].address@
                == old_invs[i].address@),
    ensures
        watch_unique_ok(ws.remove(k)),
        watch_covered_ok(ws.remove(k), old_invs.update(i, with_status(old_invs[i], st))),
        watch_complete_ok(ws.remove(k), old_invs.update(i, with_status(old_invs[i], st))),
        !watch_has(ws.remove(k), old_invs[i].network@, old_invs[i].address@),
{
    let invs = old_invs.update(i, with_status(old_invs[i], st));
    let ws2 = ws.remove(k);
    let netv = old_invs[i].network@;
    let addrv = old_invs[i].address@;
    assert(watch_unique_ok(ws2)) by {
        assert forall|x: int, y: int| 0 <= x < y < ws2.len() implies !(ws2[x].network@
            == ws2[y].network@ && ws2[x].address@ == ws2[y].address@) by {
            let xo: int = if x < k {
                x
            } else {
                x + 1
            };
            let yo: int = if y < k {
                y
            } else {
                y + 1
            };
            assert(ws2[x] == ws[xo] && ws2[y] == ws[yo]);
        };
    }
    assert(!watch_has(ws2, netv, addrv)) by {
        if watch_has(ws2, netv, addrv) {
            let l = choose|l: int|
                0 <= l < ws2.len() && ws2[l].network@ == netv && ws2[l].address@ == addrv;
            let lo: int = if l < k {
                l
            } else {
                l + 1
            };
            assert(ws[lo].network@ == netv && ws[lo].address@ == addrv);
            assert(lo != k);
            assert(false);
        }
    }
    assert(watch_covered_ok(ws2, invs)) by {
        assert forall|m: int| 0 <= m < ws2.len() implies entry_covered(#[trigger] ws2[m], invs) by {
            let mo: int = if m < k {
                m
            } else {
                m + 1
            };
            assert(ws2[m] == ws[mo]);
            assert(entry_covered(ws[mo], old_invs));
            let w = choose|w: int|
                0 <= w < old_invs.len() && !invoice_terminal(old_invs[w].status) && old_invs[
                    w
                ].network@ == ws[mo].network@ && old_invs[w].address@ == ws[mo].address@;
            assert(w != i) by {
                if w == i {
                    assert(ws[mo].network@ == netv && ws[mo].address@ == addrv);
                    assert(mo != k);
                    assert(false);
                }
            };
            assert(0 <= w < invs.len() && !invoice_terminal(invs[w].status) && invs[w].network@
                == ws2[m].network@ && invs[w].address@ == ws2[m].address@);
        };
    }
    assert(watch_complete_ok(ws2, invs)) by {
        assert forall|w: int|
            0 <= w < invs.len() && !invoice_terminal(#[trigger] invs[w].status) implies watch_has(
            ws2,
            invs[w].network@,
            invs[w].address@,
        ) by {
            assert(w != i);
            assert(invs[w] == old_invs[w]);
            assert(watch_has(ws, invs[w].network@, invs[w].address@));
            assert(!(invs[w].network@ == netv && invs[w].address@ == addrv));
            lemma_watch_has_after_remove(ws, k, invs[w].network@, invs[w].address@);
        };
    }
}

/// Relies on uuid's Uuid::new_v4 and its hyphenated Display form: a fresh
/// random identifier rendered as 36 characters.
#[verifier::external_body]
fn fresh_id() -> (r: String)
    ensures
        r@.len() == 36,
{
    uuid::Uuid::new_v4().to_string()
}

/// Whether some non-terminal invoice of `network` holds slot `idx`.
pub open spec fn slot_held(invs: Seq<Invoice>, network: Seq<char>, idx: u32) -> bool {
    exists|i: int|
        0 <= i < invs.len() && !invoice_terminal(invs[i].status) && invs[i].network@ == network
            && invs[i].address_index == idx
}

/// Whether `s` is the smallest address index on `network` not held by any
/// non-terminal invoice.
pub open spec fn first_free_slot_is(invs: Seq<Invoice>, network: Seq<char>, s: u32) -> bool {
    !slot_held(invs, network, s) && forall|t: u32| t < s ==> slot_held(invs, network, t)
}

/// One distinct invoice index per held slot below `k`: the pigeonhole
/// half of the free-slot search. Each slot value pins a different invoice,
/// since one invoice holds one index.
proof fn lemma_held_slot_witnesses(invs: Seq<Invoice>, network: Seq<char>, k: nat) -> (s: Set<
    int,
>)
    requires
        forall|t: u32| t < k ==> slot_held(invs, network, t),
        k <= 0x1_0000_0000,
    ensures
        s.finite(),
        s.len() == k,
        forall|i: int| s.contains(i) ==> 0 <= i < invs.len() && invs[i].address_index < k,
    decreases k,
{
    broadcast use vstd::set::axiom_set_insert_len;

    if k == 0 {
        Set::empty()
    } else {
        let s0 = lemma_held_slot_witnesses(invs, network, (k - 1) as nat);
        let t: u32 = (k - 1) as u32;
        assert(slot_held(invs, network, t));
        let w = choose|i: int|
            0 <= i < invs.len() && !invoice_terminal(invs[i].status) && invs[i].network@ == network
                && invs[i].address_index == t;
        assert(!s0.contains(w));
        s0.insert(w)
    }
}

impl Store {
    /// Whether slot `idx` on `network` is held by a non-terminal invoice.
    pub fn slot_taken(&self, network: &String, idx: u32) -> (r: bool)
        ensures
            r == slot_held(self.invoices@, network@, idx),
    {
        let n = self.invoices.len();
        let mut i: usize = 0;
        while i < n
            invariant
                0 <= i <= n,
                n == self.invoices@.len(),
                forall|j: int|
                    0 <= j < i ==> !(!invoice_terminal(self.invoices@[j].status)
                        && self.invoices@[j].network@ == network@ && self.invoices@[
                        j
                    ].address_index == idx),
            decreases n - i,
        {
            if !self.invoices[i].is_terminal() && self.invoices[i].network == *network
                && self.invoices[i].address_index == idx {
                return true;
            }
            i += 1;
        }
        false
    }

    /// The smallest address index on `network` not held by any non-terminal
    /// invoice. At most `invoices.len()` distinct slots can be held (each
    /// held slot pins a different invoice), so the scan over
    /// `0 ..= invoices.len()` always finds one.
    pub fn get_free_slot(&self, network: &String) -> (r: Option<u32>)
        requires
            self.invoices@.len() < 0xFFFF_FFFF,
        ensures
            r is Some,
            first_free_slot_is(self.invoices@, network@, r.unwrap()),
    {
        let n = self.invoices.len();
        let mut cand: u32 = 0;
        while cand <= n as u32
            invariant
                self.invoices@.len() < 0xFFFF_FFFF,
                n == self.invoices@.len(),
                cand <= n + 1,
                forall|t: u32| t < cand ==> slot_held(self.invoices@, network@, t),
            decreases n + 1 - cand,
        {
            if !self.slot_taken(network, cand) {
                return Some(cand);
            }
            cand += 1;
        }
        proof {
            // Every slot in 0 ..= n is held, which would take n + 1
            // distinct invoices among the n present.
            let ws = lemma_held_slot_witnesses(self.invoices@, network@, (n + 1) as nat);
            vstd::set_lib::lemma_int_range(0, n as int);
            assert(ws.subset_of(vstd::set_lib::set_int_range(0, n as int))) by {
                assert forall|i: int|
                    ws.contains(i) implies vstd::set_lib::set_int_range(0, n as int).contains(
                    i,
                ) by {
                    assert(0 <= i < self.invoices@.len());
                };
            };
            vstd::set_lib::lemma_len_subset(ws, vstd::set_lib::set_int_range(0, n as int));
            assert(false);
        }
        None
    }

    /// Inserts a freshly created pending invoice and watches its address.
    /// Refused when its id or its slot is already taken.
    pub fn add_invoice(&mut self, inv: Invoice) -> (r: Result<(), StoreError>)
        requires
            old(self).wf(),
            inv.paid_raw.val() == 0,
            inv.status == InvoiceStatus::Pending,
        ensures
            final(self).wf(),
            r is Ok <==> (forall|i: int|
                0 <= i < old(self).invoices@.len() ==> old(self).invoices@[i].id@ != inv.id@)
                && !slot_held(old(self).invoices@, inv.network@, inv.address_index),
            r is Ok ==> final(self).invoices@ == old(self).invoices@.push(inv),
            r is Ok ==> watch_has(final(self).watch@, inv.network@, inv.address@),
            r is Err ==> final(self).invoices@ == old(self).invoices@ && final(self).watch@ == old(self).watch@,
            terminal_preserved(old(self).invoices@, final(self).invoices@),
            final(self).chains@ == old(self).chains@,
            final(self).tokens@ == old(self).tokens@,
            final(self).payments@ == old(self).payments@,
            final(self).webhooks@ == old(self).webhooks@,
    {
        if self.find_invoice(&inv.id).is_some() {
            return Err(StoreError::Duplicate);
        }
        if self.slot_taken(&inv.network, inv.address_index) {
            return Err(StoreError::Duplicate);
        }
        let ghost old_invs = self.invoices@;
        let ghost old_watch = self.watch@;
        let watched = self.find_watch(&inv.network, &inv.address).is_some();
        let entry = WatchEntry {
            network: clone_string(&inv.network),
            address: clone_string(&inv.address),
        };
        let ghost invid = inv.id@;
        self.invoices.push(inv);
        if !watched {
            self.watch.push(entry);
        }
        proof {
            let invs = self.invoices@;
            let ni = invs.len() - 1;
            // The fresh invoice's paid total is the empty sum.
            assert forall|k: int|
                0 <= k < self.payments@.len() implies self.payments@[k].invoice_id@
                != invid by {
                assert(payment_linked(self.payments@[k], old_invs));
                let w = choose|w: int|
                    0 <= w < old_invs.len() && old_invs[w].id@ == self.payments@[k].invoice_id@;
            };
            lemma_sum_zero_when_unlinked(self.payments@, invid);
            assert(paid_ok(invs, self.payments@));
            assert(payments_linked_ok(invs, self.payments@)) by {
                assert forall|k: int|
                    0 <= k < self.payments@.len() implies payment_linked(
                    #[trigger] self.payments@[k],
                    invs,
                ) by {
                    assert(payment_linked(self.payments@[k], old_invs));
                    let w = choose|w: int|
                        0 <= w < old_invs.len() && old_invs[w].id@ == self.payments@[
                            k
                        ].invoice_id@;
                    assert(invs[w].id@ == self.payments@[k].invoice_id@);
                };
            }
            assert(watch_covered_ok(self.watch@, invs)) by {
                assert forall|k: int|
                    0 <= k < self.watch@.len() implies entry_covered(
                    #[trigger] self.watch@[k],
                    invs,
                ) by {
                    if k < old_watch.len() {
                        assert(self.watch@[k] == old_watch[k]);
                        assert(entry_covered(old_watch[k], old_invs));
                        let w = choose|w: int|
                            0 <= w < old_invs.len() && !invoice_terminal(old_invs[w].status)
                                && old_invs[w].network@ == old_watch[k].network@ && old_invs[
                                w
                            ].address@ == old_watch[k].address@;
                        assert(0 <= w < invs.len() && !invoice_terminal(invs[w].status) && invs[
                            w
                        ].network@ == self.watch@[k].network@ && invs[w].address@ == self.watch@[
                            k
                        ].address@);
                    } else {
                        assert(0 <= ni < invs.len() && !invoice_terminal(invs[ni].status) && invs[
                            ni
                        ].network@ == self.watch@[k].network@ && invs[ni].address@ == self.watch@[
                            k
                        ].address@);
                    }
                };
            }
            assert(watch_complete_ok(self.watch@, invs)) by {
                assert forall|i: int|
                    0 <= i < invs.len() && !invoice_terminal(
                        #[trigger] invs[i].status,
                    ) implies watch_has(self.watch@, invs[i].network@, invs[i].address@) by {
                    if i < old_invs.len() {
                        let l = choose|l: int|
                            0 <= l < old_watch.len() && old_watch[l].network@ == old_invs[
                                i
                            ].network@ && old_watch[l].address@ == old_invs[i].address@;
                        assert(self.watch@[l].network@ == invs[i].network@ && self.watch@[
                            l
                        ].address@ == invs[i].address@);
                    } else {
                        if watched {
                            let l = choose|l: int|
                                0 <= l < old_watch.len() && old_watch[l].network@ == invs[
                                    i
                                ].network@ && old_watch[l].address@ == invs[i].address@;
                            assert(self.watch@[l].network@ == invs[i].network@ && self.watch@[
                                l
                            ].address@ == invs[i].address@);
                        } else {
                            let l = self.watch@.len() - 1;
                            assert(self.watch@[l].network@ == invs[i].network@ && self.watch@[
                                l
                            ].address@ == invs[i].address@);
                        }
                    }
                };
            }
            assert(watch_has(self.watch@, invs[ni].network@, invs[ni].address@));
        }
        Ok(())
    }

    /// Whether a non-terminal invoice other than `excl` uses `(network,
    /// address)`.
    pub fn other_slot_user(&self, excl: usize, network: &String, address: &String) -> (r: bool)
        ensures
            r == exists|j: int|
                0 <= j < self.invoices@.len() && j != excl && !invoice_terminal(
                    self.invoices@[j].status,
                ) && self.invoices@[j].network@ == network@ && self.invoices@[j].address@
                == address@,
    {
        let n = self.invoices.len();
        let mut i: usize = 0;
        while i < n
            invariant
                0 <= i <= n,
                n == self.invoices@.len(),
                forall|j: int|
                    0 <= j < i ==> !(j != excl && !invoice_terminal(self.invoices@[j].status)
                        && self.invoices@[j].network@ == network@ && self.invoices@[j].address@
                        == address@),
            decreases n - i,
        {
            if i != excl && !self.invoices[i].is_terminal() && self.invoices[i].network == *network
                && self.invoices[i].address == *address {
                return true;
            }
            i += 1;
        }
        false
    }

    /// Appends a webhook job; the ledgers are untouched.
    pub fn enqueue_webhook(&mut self, w: Webhook)
        requires
            old(self).wf(),
        ensures
            final(self).wf(),
            final(self).webhooks@ == old(self).webhooks@.push(w),
            final(self).chains@ == old(self).chains@,
            final(self).tokens@ == old(self).tokens@,
            final(self).watch@ == old(self).watch@,
            final(self).invoices@ == old(self).invoices@,
            final(self).payments@ == old(self).payments@,
    {
        self.webhooks.push(w);
    }

    /// Moves the pending invoice `i` to the terminal status `st`, and
    /// retires its watch entry when no other non-terminal invoice still
    /// uses the same address on that network.
    pub fn set_invoice_terminal(&mut self, i: usize, st: InvoiceStatus)
        requires
            old(self).wf(),
            i < old(self).invoices@.len(),
            old(self).invoices@[i as int].status == InvoiceStatus::Pending,
            invoice_terminal(st),
        ensures
            final(self).wf(),
            final(self).invoices@ == old(self).invoices@.update(
                i as int,
                with_status(old(self).invoices@[i as int], st),
            ),
            terminal_preserved(old(self).invoices@, final(self).invoices@),
            !(exists|j: int|
                0 <= j < old(self).invoices@.len() && j != i && !invoice_terminal(
                    old(self).invoices@[j].status,
                ) && old(self).invoices@[j].network@ == old(self).invoices@[i as int].network@
                    && old(self).invoices@[j].address@ == old(self).invoices@[i as int].address@)
                ==> !watch_has(
                final(self).watch@,
                old(self).invoices@[i as int].network@,
                old(self).invoices@[i as int].address@,
            ),
            final(self).chains@ == old(self).chains@,
            final(self).tokens@ == old(self).tokens@,
            final(self).payments@ == old(self).payments@,
            final(self).webhooks@ == old(self).webhooks@,
    {
        let ghost old_invs = self.invoices@;
        let ghost old_watch = self.watch@;
        let mut inv = self.invoices.remove(i);
        let net = clone_string(&inv.network);
        let addr = clone_string(&inv.address);
        let ghost netv = old_invs[i as int].network@;
        let ghost addrv = old_invs[i as int].address@;
        inv.status = st;
        self.invoices.insert(i, inv);
        proof {
            assert(self.invoices@ =~= old_invs.update(
                i as int,
                with_status(old_invs[i as int], st),
            ));
            lemma_ledger_after_status_update(old_invs, self.payments@, i as int, st);
        }
        let other = self.other_slot_user(i, &net, &addr);
        proof {
            let cur = self.invoices@;
            assert(other == (exists|j: int|
                0 <= j < old_invs.len() && j != i && !invoice_terminal(old_invs[j].status)
                    && old_invs[j].network@ == netv && old_invs[j].address@ == addrv)) by {
                if other {
                    let j = choose|j: int|
                        0 <= j < cur.len() && j != i && !invoice_terminal(cur[j].status) && cur[
                            j
                        ].network@ == net@ && cur[j].address@ == addr@;
                    assert(cur[j] == old_invs[j]);
                } else {
                    if exists|j: int|
                        0 <= j < old_invs.len() && j != i && !invoice_terminal(old_invs[j].status)
                            && old_invs[j].network@ == netv && old_invs[j].address@ == addrv {
                        let j = choose|j: int|
                            0 <= j < old_invs.len() && j != i && !invoice_terminal(
                                old_invs[j].status,
                            ) && old_invs[j].network@ == netv && old_invs[j].address@ == addrv;
                        assert(cur[j] == old_invs[j]);
                    }
                }
            };
        }
        if !other {
            match self.find_watch(&net, &addr) {
                Some(k) => {
                    let ghost watch_pre = self.watch@;
                    self.watch.remove(k);
                    proof {
                        assert(self.watch@ =~= watch_pre.remove(k as int));
                        lemma_watch_after_terminal_remove(
                            old_watch,
                            k as int,
                            old_invs,
                            i as int,
                            st,
                        );
                    }
                },
                None => {
                    proof {
                        lemma_watch_after_terminal_keep(old_watch, old_invs, i as int, st);
                    }
                },
            }
        } else {
            proof {
                lemma_watch_after_terminal_keep(old_watch, old_invs, i as int, st);
            }
        }
    }


    /// Cancels a pending invoice; terminal invoices may not change (their
    /// records are frozen), so cancelling one is refused.
    pub fn cancel_invoice(&mut self, id: &String) -> (r: Result<(), StoreError>)
        requires
            old(self).wf(),
        ensures
            final(self).wf(),
            r is Ok <==> exists|i: int|
                0 <= i < old(self).invoices@.len() && old(self).invoices@[i].id@ == id@ && old(self).invoices@[i].status == InvoiceStatus::Pending,
            r is Ok ==> exists|i: int|
                0 <= i < old(self).invoices@.len() && old(self).invoices@[i].id@ == id@ && final(self).invoices@ == old(self).invoices@.update(
                    i,
                    with_status(old(self).invoices@[i], InvoiceStatus::Cancelled),
                ),
            r == Err::<(), StoreError>(StoreError::NotFound) <==> forall|i: int|
                0 <= i < old(self).invoices@.len() ==> old(self).invoices@[i].id@ != id@,
            r == Err::<(), StoreError>(StoreError::Terminal) <==> exists|i: int|
                0 <= i < old(self).invoices@.len() && old(self).invoices@[i].id@ == id@
                    && invoice_terminal(old(self).invoices@[i].status),
            r is Err ==> final(self).invoices@ == old(self).invoices@ && final(self).watch@ == old(self).watch@,
            terminal_preserved(old(self).invoices@, final(self).invoices@),
            final(self).chains@ == old(self).chains@,
            final(self).tokens@ == old(self).tokens@,
            final(self).payments@ == old(self).payments@,
            final(self).webhooks@ == old(self).webhooks@,
    {
        let i = match self.find_invoice(id) {
            Some(i) => i,
            None => {
                return Err(StoreError::NotFound);
            },
        };
        if self.invoices[i].is_terminal() {
            return Err(StoreError::Terminal);
        }
        self.set_invoice_terminal(i, InvoiceStatus::Cancelled);
        Ok(())
    }
}

} // verus!

verus! {

/// Default number of delivery attempts granted to a webhook job.
pub const DEFAULT_MAX_RETRIES: u32 = 5;

/// The outcome of feeding one payment event into the ledger.
#[derive(Clone, Copy, Debug, PartialEq, Eq, Structural)]
pub enum IngestOutcome {
    /// No pending invoice expects funds on this address: the event is dropped.
    NoInvoice,
    /// The transfer carries a token other than the invoice's: dropped.
    WrongToken,
    /// The invoice's validity window has passed: dropped.
    Expired,
    /// The same transfer was already recorded: dropped, nothing changes.
    Duplicate,
    /// Crediting the amount would leave the 256-bit range: dropped.
    Overflow,
    /// The payment was recorded and credited to the invoice.
    Recorded,
}

/// Replacing an invoice by one that keeps its identity, address, slot and
/// status preserves every invariant that does not involve the paid sums.
pub proof fn lemma_invariants_after_invoice_replace(
    ws: Seq<WatchEntry>,
    old_invs: Seq<Invoice>,
    ps: Seq<crate::model::Payment>,
    i: int,
    inv2: Invoice,
)
    requires
        0 <= i < old_invs.len(),
        inv2.id@ == old_invs[i].id@,
        inv2.network@ == old_invs[i].network@,
        inv2.address@ == old_invs[i].address@,
        inv2.address_index == old_invs[i].address_index,
        inv2.status == old_invs[i].status,
        invoice_ids_ok(old_invs),
        slots_ok(old_invs),
        payments_linked_ok(old_invs, ps),
        watch_covered_ok(ws, old_invs),
        watch_complete_ok(ws, old_invs),
    ensures
        invoice_ids_ok(old_invs.update(i, inv2)),
        slots_ok(old_invs.update(i, inv2)),
        payments_linked_ok(old_invs.update(i, inv2), ps),
        watch_covered_ok(ws, old_invs.update(i, inv2)),
        watch_complete_ok(ws, old_invs.update(i, inv2)),
{
    let invs = old_invs.update(i, inv2);
    assert(forall|w: int|
        0 <= w < invs.len() ==> invs[w].id@ == old_invs[w].id@ && invs[w].network@ == old_invs[
            w
        ].network@ && invs[w].address@ == old_invs[w].address@ && invs[w].address_index
            == old_invs[w].address_index && invs[w].status == old_invs[w].status);
    assert(payments_linked_ok(invs, ps)) by {
        assert forall|p: int| 0 <= p < ps.len() implies payment_linked(#[trigger] ps[p], invs) by {
            assert(payment_linked(ps[p], old_invs));
            let w = choose|w: int| 0 <= w < old_invs.len() && old_invs[w].id@ == ps[p].invoice_id@;
            assert(invs[w].id@ == ps[p].invoice_id@);
        };
    }
    assert(watch_covered_ok(ws, invs)) by {
        assert forall|m: int| 0 <= m < ws.len() implies entry_covered(#[trigger] ws[m], invs) by {
            assert(entry_covered(ws[m], old_invs));
            let w = choose|w: int|
                0 <= w < old_invs.len() && !invoice_terminal(old_invs[w].status) && old_invs[
                    w
                ].network@ == ws[m].network@ && old_invs[w].address@ == ws[m].address@;
            assert(0 <= w < invs.len() && !invoice_terminal(invs[w].status) && invs[w].network@
                == ws[m].network@ && invs[w].address@ == ws[m].address@);
        };
    }
    assert(watch_complete_ok(ws, invs)) by {
        assert forall|w: int|
            0 <= w < invs.len() && !invoice_terminal(#[trigger] invs[w].status) implies watch_has(
            ws,
            invs[w].network@,
            invs[w].address@,
        ) by {
            assert(!invoice_terminal(old_invs[w].status));
            assert(watch_has(ws, old_invs[w].network@, old_invs[w].address@));
        };
    }
}

impl Store {
    /// Consumes one payment event, as the ingestion pipeline does: resolves
    /// the pending invoice by `(network, to)`, validates the token and the
    /// validity window, records the payment once (the transfer key makes
    /// re-delivery harmless), credits the amount, and queues a detection
    /// webhook when the invoice asks for one. The invoice stays pending:
    /// promotion to paid belongs to the confirmation pass.
    pub fn apply_event(&mut self, e: &crate::model::PaymentEvent, now: u64) -> (r: IngestOutcome)
        requires
            old(self).wf(),
        ensures
            final(self).wf(),
            final(self).chains@ == old(self).chains@,
            final(self).tokens@ == old(self).tokens@,
            final(self).watch@ == old(self).watch@,
            terminal_preserved(old(self).invoices@, final(self).invoices@),
            r != IngestOutcome::Recorded ==> final(self).invoices@ == old(self).invoices@
                && final(self).payments@ == old(self).payments@ && final(self).webhooks@ == old(
                self,
            ).webhooks@,
            r == IngestOutcome::NoInvoice <==> (forall|i: int|
                !crate::store::pending_match(old(self).invoices@, i, e.network@, e.to@)),
            forall|i: int|
                #[trigger] crate::store::pending_match(old(self).invoices@, i, e.network@, e.to@)
                    && (forall|j: int|
                    0 <= j < i ==> !crate::store::pending_match(
                        old(self).invoices@,
                        j,
                        e.network@,
                        e.to@,
                    )) ==> apply_event_outcome_ok(*old(self), *final(self), *e, now, i, r),
    {
        let ghost pre = *self;
        let i = match self.find_pending_invoice_by_address(&e.network, &e.to) {
            Some(i) => i,
            None => {
                return IngestOutcome::NoInvoice;
            },
        };
        proof {
            assert(crate::store::pending_match(pre.invoices@, i as int, e.network@, e.to@));
            assert(forall|j: int|
                0 <= j < i ==> !crate::store::pending_match(pre.invoices@, j, e.network@, e.to@));
        }
        if !(self.invoices[i].token == e.token) {
            proof {
                assert(apply_event_outcome_ok(
                    pre,
                    *self,
                    *e,
                    now,
                    i as int,
                    IngestOutcome::WrongToken,
                ));
            }
            return IngestOutcome::WrongToken;
        }
        if now >= self.invoices[i].expires_at {
            proof {
                assert(apply_event_outcome_ok(
                    pre,
                    *self,
                    *e,
                    now,
                    i as int,
                    IngestOutcome::Expired,
                ));
            }
            return IngestOutcome::Expired;
        }
        if self.find_payment_by_key(&e.network, &e.tx_hash, e.log_index).is_some() {
            proof {
                assert(apply_event_outcome_ok(
                    pre,
                    *self,
                    *e,
                    now,
                    i as int,
                    IngestOutcome::Duplicate,
                ));
            }
            return IngestOutcome::Duplicate;
        }
        let new_paid = match self.invoices[i].paid_raw.checked_add(&e.amount_raw) {
            Some(v) => v,
            None => {
                proof {
                    assert(apply_event_outcome_ok(
                        pre,
                        *self,
                        *e,
                        now,
                        i as int,
                        IngestOutcome::Overflow,
                    ));
                }
                return IngestOutcome::Overflow;
            },
        };
        let pay = crate::model::Payment {
            id: fresh_id(),
            invoice_id: clone_string(&self.invoices[i].id),
            from: clone_string(&e.from),
            to: clone_string(&e.to),
            network: clone_string(&e.network),
            token: clone_string(&e.token),
            tx_hash: clone_string(&e.tx_hash),
            amount_raw: e.amount_raw,
            block_number: e.block_number,
            log_index: e.log_index,
            status: crate::model::PaymentStatus::Confirming,
            created_at: now,
        };
        let ghost old_ps = self.payments@;
        let ghost old_invs = self.invoices@;
        let ghost invid = old_invs[i as int].id@;
        self.payments.push(pay);
        let mut inv = self.invoices.remove(i);
        inv.paid_raw = new_paid;
        inv.paid = crate::units::format_units(&new_paid, inv.decimals);
        let maybe_hook: Option<Webhook> = match &inv.webhook_url {
            Some(u) => Some(
                Webhook {
                    id: fresh_id(),
                    invoice_id: clone_string(&inv.id),
                    url: clone_string(u),
                    payload: crate::model::WebhookEvent::TxDetected {
                        invoice_id: clone_string(&inv.id),
                        tx_hash: clone_string(&e.tx_hash),
                        amount: clone_string(&e.amount),
                        currency: clone_string(&e.token),
                    },
                    status: crate::model::WebhookStatus::Pending,
                    attempts: 0,
                    max_retries: DEFAULT_MAX_RETRIES,
                    next_retry: now,
                    created_at: now,
                },
            ),
            None => None,
        };
        self.invoices.insert(i, inv);
        match maybe_hook {
            Some(h) => {
                self.webhooks.push(h);
            },
            None => {},
        }
        proof {
            let invs = self.invoices@;
            let inv2 = invs[i as int];
            assert(invs =~= old_invs.update(i as int, inv2));
            lemma_invariants_after_invoice_replace(
                self.watch@,
                old_invs,
                old_ps,
                i as int,
                inv2,
            );
            let p = self.payments@.last();
            // The new payment's key is fresh, so key uniqueness survives.
            assert(payments_key_ok(self.payments@)) by {
                assert forall|x: int, y: int|
                    0 <= x < y < self.payments@.len() implies !crate::model::same_payment_key(
                    self.payments@[x],
                    self.payments@[y],
                ) by {
                    if y == self.payments@.len() - 1 {
                        assert(self.payments@[x] == old_ps[x]);
                    } else {
                        assert(self.payments@[x] == old_ps[x] && self.payments@[y] == old_ps[y]);
                    }
                };
            }
            // Only this invoice's sum changes, and by exactly the amount.
            assert(paid_ok(invs, self.payments@)) by {
                assert forall|w: int| 0 <= w < invs.len() implies invs[w].paid_raw.val()
                    == sum_payments_for(self.payments@, #[trigger] invs[w].id@) by {
                    lemma_sum_push(old_ps, p, invs[w].id@);
                    if w == i as int {
                        assert(crate::store::payment_contrib(p, invs[w].id@)
                            == e.amount_raw.val());
                    } else {
                        assert(invs[w].id@ != invid);
                        assert(crate::store::payment_contrib(p, invs[w].id@) == 0);
                        assert(invs[w].paid_raw == old_invs[w].paid_raw);
                    }
                };
            }
            assert(payments_linked_ok(invs, self.payments@)) by {
                assert forall|k: int|
                    0 <= k < self.payments@.len() implies payment_linked(
                    #[trigger] self.payments@[k],
                    invs,
                ) by {
                    if k < old_ps.len() {
                        assert(self.payments@[k] == old_ps[k]);
                        assert(payment_linked(old_ps[k], old_invs.update(i as int, inv2)));
                    } else {
                        assert(invs[i as int].id@ == p.invoice_id@);
                    }
                };
            }
            assert(apply_event_outcome_ok(pre, *self, *e, now, i as int, IngestOutcome::Recorded));
        }
        IngestOutcome::Recorded
    }
}

/// What `apply_event` promises about the pending invoice `i` that resolves
/// the event: which outcome comes for which input, and exactly how the
/// ledgers change when the payment is recorded.
pub open spec fn apply_event_outcome_ok(
    pre: Store,
    post: Store,
    e: crate::model::PaymentEvent,
    now: u64,
    i: int,
    r: IngestOutcome,
) -> bool {
    let inv = pre.invoices@[i];
    let token_ok = inv.token@ == e.token@;
    let time_ok = now < inv.expires_at;
    let dup = crate::store::key_present(pre.payments@, e.network@, e.tx_hash@, e.log_index);
    let fits = inv.paid_raw.val() + e.amount_raw.val() < crate::amount::amount_bound();
    &&& (r == IngestOutcome::WrongToken <==> !token_ok)
    &&& (r == IngestOutcome::Expired <==> token_ok && !time_ok)
    &&& (r == IngestOutcome::Duplicate <==> token_ok && time_ok && dup)
    &&& (r == IngestOutcome::Overflow <==> token_ok && time_ok && !dup && !fits)
    &&& (r == IngestOutcome::Recorded <==> token_ok && time_ok && !dup && fits)
    &&& (r == IngestOutcome::Recorded ==> {
        let p = post.payments@.last();
        let inv2 = post.invoices@[i];
        &&& post.payments@.len() == pre.payments@.len() + 1
        &&& (forall|k: int| 0 <= k < pre.payments@.len() ==> post.payments@[k] == pre.payments@[k])
        &&& p.invoice_id@ == inv.id@
        &&& p.network@ == e.network@
        &&& p.from@ == e.from@
        &&& p.to@ == e.to@
        &&& p.token@ == e.token@
        &&& p.tx_hash@ == e.tx_hash@
        &&& p.amount_raw == e.amount_raw
        &&& p.block_number == e.block_number
        &&& p.log_index == e.log_index
        &&& p.status == crate::model::PaymentStatus::Confirming
        &&& p.created_at == now
        &&& post.invoices@.len() == pre.invoices@.len()
        &&& (forall|j: int|
            0 <= j < pre.invoices@.len() && j != i ==> post.invoices@[j] == pre.invoices@[j])
        &&& inv2 == (Invoice { paid: inv2.paid, paid_raw: inv2.paid_raw, ..inv })
        &&& inv2.paid_raw.val() == inv.paid_raw.val() + e.amount_raw.val()
        &&& crate::units::units_formatted(
            inv.paid_raw.val() + e.amount_raw.val(),
            inv.decimals as nat,
            inv2.paid@,
        )
        &&& (inv.webhook_url is Some ==> {
            let h = post.webhooks@.last();
            &&& post.webhooks@.len() == pre.webhooks@.len() + 1
            &&& (forall|k: int|
                0 <= k < pre.webhooks@.len() ==> post.webhooks@[k] == pre.webhooks@[k])
            &&& h.invoice_id@ == inv.id@
            &&& h.url@ == inv.webhook_url.unwrap()@
            &&& h.status == crate::model::WebhookStatus::Pending
            &&& h.attempts == 0
            &&& h.max_retries == DEFAULT_MAX_RETRIES
            &&& h.next_retry == now
            &&& h.created_at == now
            &&& (h.payload matches crate::model::WebhookEvent::TxDetected {
                invoice_id: wi,
                tx_hash: wt,
                amount: wa,
                currency: wc,
            } && wi@ == inv.id@ && wt@ == e.tx_hash@ && wa@ == e.amount@ && wc@ == e.token@)
        })
        &&& (inv.webhook_url is None ==> post.webhooks@ == pre.webhooks@)
    })
}

/// The idempotence law: once an event is recorded, its transfer key stands
/// in the payment ledger, so re-delivering the same event hits the
/// Duplicate case of `apply_event` and changes nothing.
pub proof fn lemma_recorded_event_key_present(
    pre: Store,
    post: Store,
    e: crate::model::PaymentEvent,
    now: u64,
    i: int,
)
    requires
        crate::store::pending_match(pre.invoices@, i, e.network@, e.to@),
        apply_event_outcome_ok(pre, post, e, now, i, IngestOutcome::Recorded),
    ensures
        crate::store::key_present(post.payments@, e.network@, e.tx_hash@, e.log_index),
{
    let k = post.payments@.len() - 1;
    assert(post.payments@[k].network@ == e.network@ && post.payments@[k].tx_hash@ == e.tx_hash@
        && post.payments@[k].log_index == e.log_index);
}

} // verus!

verus! {

/// Whether the janitor retires `inv` at time `now`: still pending, past its
/// validity window, and not yet covered by its payments. An invoice whose
/// paid total already covers the requested amount is left to the
/// confirmation pass, which alone may mark invoices paid.
pub open spec fn janitor_expires(inv: Invoice, now: u64) -> bool {
    inv.status == InvoiceStatus::Pending && inv.expires_at < now && inv.paid_raw.val()
        < inv.amount_raw.val()
}

/// Whether `h` is a pending expiry webhook for `inv`, due at once.
pub open spec fn is_expiry_hook(h: Webhook, inv: Invoice) -> bool {
    h.invoice_id@ == inv.id@ && h.url@ == inv.webhook_url.unwrap()@ && h.status
        == crate::model::WebhookStatus::Pending && h.next_retry == h.created_at
        && crate::model::payload_is_invoice_expired(h.payload, inv.id@)
}

/// Whether an expiry webhook for `inv` stands in `hooks` at index `lo` or
/// later.
pub open spec fn expiry_hook_queued(hooks: Seq<Webhook>, lo: int, inv: Invoice) -> bool {
    exists|k: int| lo <= k < hooks.len() && is_expiry_hook(#[trigger] hooks[k], inv)
}

/// A queued webhook stays queued as the queue grows at the end.
pub proof fn lemma_expiry_hook_monotone(
    hooks: Seq<Webhook>,
    hooks2: Seq<Webhook>,
    lo: int,
    inv: Invoice,
)
    requires
        0 <= lo,
        hooks.len() <= hooks2.len(),
        forall|j: int| #![trigger hooks2[j]] 0 <= j < hooks.len() ==> hooks2[j] == hooks[j],
        expiry_hook_queued(hooks, lo, inv),
    ensures
        expiry_hook_queued(hooks2, lo, inv),
{
    assert(expiry_hook_queued(hooks, lo, inv));
    let k = choose|k: int| lo <= k < hooks.len() && is_expiry_hook(#[trigger] hooks[k], inv);
    assert(lo <= k < hooks.len() && is_expiry_hook(hooks[k], inv));
    assert(hooks2[k] == hooks[k]);
    assert(is_expiry_hook(hooks2[k], inv));
}

impl Store {
    /// One janitor pass at time `now`: every invoice still pending past its
    /// validity window and not covered by its payments becomes Expired, its
    /// address is retired from the watch set when no other open invoice
    /// shares it, and an expiry webhook is queued when the invoice names a
    /// webhook endpoint.
    pub fn expire_invoices(&mut self, now: u64)
        requires
            old(self).wf(),
        ensures
            final(self).wf(),
            final(self).invoices@.len() == old(self).invoices@.len(),
            forall|i: int|
                0 <= i < old(self).invoices@.len() ==> final(self).invoices@[i] == (
                if janitor_expires(#[trigger] old(self).invoices@[i], now) {
                    with_status(old(self).invoices@[i], InvoiceStatus::Expired)
                } else {
                    old(self).invoices@[i]
                }),
            terminal_preserved(old(self).invoices@, final(self).invoices@),
            old(self).webhooks@.is_prefix_of(final(self).webhooks@),
            forall|i: int|
                0 <= i < old(self).invoices@.len() && janitor_expires(
                    #[trigger] old(self).invoices@[i],
                    now,
                ) && old(self).invoices@[i].webhook_url is Some ==> expiry_hook_queued(
                    final(self).webhooks@,
                    old(self).webhooks@.len() as int,
                    old(self).invoices@[i],
                ),
            final(self).chains@ == old(self).chains@,
            final(self).tokens@ == old(self).tokens@,
            final(self).payments@ == old(self).payments@,
    {
        let n = self.invoices.len();
        let ghost old_invs = self.invoices@;
        let ghost old_hooks = self.webhooks@;
        let mut i: usize = 0;
        while i < n
            invariant
                0 <= i <= n,
                self.wf(),
                n == old(self).invoices@.len(),
                old_invs == old(self).invoices@,
                old_hooks == old(self).webhooks@,
                self.invoices@.len() == n,
                self.chains@ == old(self).chains@,
                self.tokens@ == old(self).tokens@,
                self.payments@ == old(self).payments@,
                old_hooks.len() <= self.webhooks@.len(),
                forall|j: int| 0 <= j < old_hooks.len() ==> self.webhooks@[j] == old_hooks[j],
                forall|j: int| i <= j < n ==> self.invoices@[j] == old_invs[j],
                forall|j: int|
                    0 <= j < i ==> self.invoices@[j] == (if janitor_expires(
                        #[trigger] old_invs[j],
                        now,
                    ) {
                        with_status(old_invs[j], InvoiceStatus::Expired)
                    } else {
                        old_invs[j]
                    }),
                forall|j: int|
                    0 <= j < i && janitor_expires(#[trigger] old_invs[j], now) && old_invs[
                        j
                    ].webhook_url is Some ==> expiry_hook_queued(
                        self.webhooks@,
                        old_hooks.len() as int,
                        old_invs[j],
                    ),
            decreases n - i,
        {
            let expires = self.invoices[i].status == InvoiceStatus::Pending
                && self.invoices[i].expires_at < now && self.invoices[i].paid_raw.lt(
                &self.invoices[i].amount_raw,
            );
            if expires {
                let maybe_hook: Option<Webhook> = match &self.invoices[i].webhook_url {
                    Some(u) => Some(
                        Webhook {
                            id: fresh_id(),
                            invoice_id: clone_string(&self.invoices[i].id),
                            url: clone_string(u),
                            payload: crate::model::WebhookEvent::InvoiceExpired {
                                invoice_id: clone_string(&self.invoices[i].id),
                            },
                            status: crate::model::WebhookStatus::Pending,
                            attempts: 0,
                            max_retries: DEFAULT_MAX_RETRIES,
                            next_retry: now,
                            created_at: now,
                        },
                    ),
                    None => None,
                };
                let ghost hooks_pre = self.webhooks@;
                self.set_invoice_terminal(i, InvoiceStatus::Expired);
                match maybe_hook {
                    Some(h) => {
                        self.enqueue_webhook(h);
                        proof {
                            assert(expiry_hook_queued(
                                self.webhooks@,
                                old_hooks.len() as int,
                                old_invs[i as int],
                            )) by {
                                let k = self.webhooks@.len() - 1;
                                assert(is_expiry_hook(self.webhooks@[k], old_invs[i as int]));
                            };
                        }
                    },
                    None => {},
                }
                proof {
                    assert forall|j: int|
                        0 <= j < i + 1 && janitor_expires(#[trigger] old_invs[j], now) && old_invs[
                            j
                        ].webhook_url is Some implies expiry_hook_queued(
                        self.webhooks@,
                        old_hooks.len() as int,
                        old_invs[j],
                    ) by {
                        if j < i as int {
                            lemma_expiry_hook_monotone(
                                hooks_pre,
                                self.webhooks@,
                                old_hooks.len() as int,
                                old_invs[j],
                            );
                        }
                    };
                }
            }
            i += 1;
        }
        proof {
            assert(old_hooks =~= self.webhooks@.subrange(0, old_hooks.len() as int));
        }
    }
}

} // verus!

verus! {

/// `p` with its status replaced.
pub open spec fn with_payment_status(
    p: crate::model::Payment,
    st: crate::model::PaymentStatus,
) -> crate::model::Payment {
    crate::model::Payment { status: st, ..p }
}

/// Whether the reconciler promotes `p` on `network` at head `head` with
/// `rc` required confirmations: still confirming, and deep enough.
pub open spec fn promoted(
    p: crate::model::Payment,
    network: Seq<char>,
    head: u64,
    rc: u64,
) -> bool {
    p.status == crate::model::PaymentStatus::Confirming && p.network@ == network
        && p.block_number + rc <= head
}

/// Whether `p` is a confirmed payment credited to invoice `id`.
pub open spec fn is_confirmed_for(p: crate::model::Payment, id: Seq<char>) -> bool {
    p.invoice_id@ == id && p.status == crate::model::PaymentStatus::Confirmed
}

/// Whether some confirmed payment is credited to invoice `id`.
pub open spec fn has_confirmed(ps: Seq<crate::model::Payment>, id: Seq<char>) -> bool {
    exists|k: int| 0 <= k < ps.len() && is_confirmed_for(#[trigger] ps[k], id)
}

/// Whether the reconciler marks `inv` paid, given the payment ledger `ps`:
/// still pending, the paid total covers the request, and at least one of
/// its payments is confirmed. The validity window is not consulted: a
/// payment that confirms after expiry still pays the invoice.
pub open spec fn finalizes(inv: Invoice, ps: Seq<crate::model::Payment>) -> bool {
    inv.status == InvoiceStatus::Pending && inv.paid_raw.val() >= inv.amount_raw.val()
        && has_confirmed(ps, inv.id@)
}

/// Whether the payload is a confirmation notice, of any content.
pub open spec fn is_confirm_kind(p: crate::model::WebhookEvent) -> bool {
    p matches crate::model::WebhookEvent::TxConfirmed { .. }
}

/// Whether the payload is a fully-paid notice, of any content.
pub open spec fn is_paid_kind(p: crate::model::WebhookEvent) -> bool {
    p matches crate::model::WebhookEvent::InvoicePaid { .. }
}

/// Whether `h` is a pending confirmation webhook for payment `p` of `inv`.
pub open spec fn is_confirm_hook(
    h: Webhook,
    inv: Invoice,
    p: crate::model::Payment,
    head: u64,
) -> bool {
    h.invoice_id@ == inv.id@ && h.url@ == inv.webhook_url.unwrap()@ && h.status
        == crate::model::WebhookStatus::Pending && h.next_retry == h.created_at
        && crate::model::payload_is_tx_confirmed(
        h.payload,
        inv.id@,
        p.tx_hash@,
        (head - p.block_number) as u64,
    )
}

/// Whether a confirmation webhook for `(inv, p)` stands at index `lo` or
/// later.
pub open spec fn confirm_hook_queued(
    hooks: Seq<Webhook>,
    lo: int,
    inv: Invoice,
    p: crate::model::Payment,
    head: u64,
) -> bool {
    exists|k: int| lo <= k < hooks.len() && is_confirm_hook(#[trigger] hooks[k], inv, p, head)
}

/// Whether `h` is a pending fully-paid webhook for `inv`.
pub open spec fn is_paid_hook(h: Webhook, inv: Invoice) -> bool {
    h.invoice_id@ == inv.id@ && h.url@ == inv.webhook_url.unwrap()@ && h.status
        == crate::model::WebhookStatus::Pending && h.next_retry == h.created_at
        && crate::model::payload_is_invoice_paid(h.payload, inv.id@, inv.paid@)
}

/// Whether a fully-paid webhook for `inv` stands at index `lo` or later.
pub open spec fn paid_hook_queued(hooks: Seq<Webhook>, lo: int, inv: Invoice) -> bool {
    exists|k: int| lo <= k < hooks.len() && is_paid_hook(#[trigger] hooks[k], inv)
}

/// A queued confirmation webhook stays queued as the queue grows.
pub proof fn lemma_confirm_hook_monotone(
    hooks: Seq<Webhook>,
    hooks2: Seq<Webhook>,
    lo: int,
    inv: Invoice,
    p: crate::model::Payment,
    head: u64,
)
    requires
        0 <= lo,
        hooks.len() <= hooks2.len(),
        forall|j: int| #![trigger hooks2[j]] 0 <= j < hooks.len() ==> hooks2[j] == hooks[j],
        confirm_hook_queued(hooks, lo, inv, p, head),
    ensures
        confirm_hook_queued(hooks2, lo, inv, p, head),
{
    let k = choose|k: int| lo <= k < hooks.len() && is_confirm_hook(#[trigger] hooks[k], inv, p, head);
    assert(hooks2[k] == hooks[k]);
    assert(is_confirm_hook(hooks2[k], inv, p, head));
}

/// A queued fully-paid webhook stays queued as the queue grows.
pub proof fn lemma_paid_hook_monotone(
    hooks: Seq<Webhook>,
    hooks2: Seq<Webhook>,
    lo: int,
    inv: Invoice,
)
    requires
        0 <= lo,
        hooks.len() <= hooks2.len(),
        forall|j: int| #![trigger hooks2[j]] 0 <= j < hooks.len() ==> hooks2[j] == hooks[j],
        paid_hook_queued(hooks, lo, inv),
    ensures
        paid_hook_queued(hooks2, lo, inv),
{
    let k = choose|k: int| lo <= k < hooks.len() && is_paid_hook(#[trigger] hooks[k], inv);
    assert(hooks2[k] == hooks[k]);
    assert(is_paid_hook(hooks2[k], inv));
}

/// Promoting one payment from Confirming to Confirmed leaves every
/// invoice's paid sum as it was.
pub proof fn lemma_sums_after_promote(ps: Seq<crate::model::Payment>, k: int, id: Seq<char>)
    requires
        0 <= k < ps.len(),
        ps[k].status == crate::model::PaymentStatus::Confirming,
    ensures
        sum_payments_for(
            ps.update(k, with_payment_status(ps[k], crate::model::PaymentStatus::Confirmed)),
            id,
        ) == sum_payments_for(ps, id),
{
    let p2 = with_payment_status(ps[k], crate::model::PaymentStatus::Confirmed);
    crate::store::lemma_sum_update(ps, k, p2, id);
    assert(crate::store::payment_contrib(p2, id) == crate::store::payment_contrib(ps[k], id));
}

impl Store {
    /// Whether some confirmed payment is credited to invoice `id`.
    pub fn has_confirmed_payment(&self, id: &String) -> (r: bool)
        ensures
            r == has_confirmed(self.payments@, id@),
    {
        let n = self.payments.len();
        let mut k: usize = 0;
        while k < n
            invariant
                0 <= k <= n,
                n == self.payments@.len(),
                forall|j: int| 0 <= j < k ==> !is_confirmed_for(#[trigger] self.payments@[j], id@),
            decreases n - k,
        {
            if self.payments[k].invoice_id == *id && self.payments[k].status
                == crate::model::PaymentStatus::Confirmed {
                proof {
                    assert(is_confirmed_for(self.payments@[k as int], id@));
                }
                return true;
            }
            k += 1;
        }
        false
    }

    /// First reconciliation pass on one chain: every payment of `network`
    /// still Confirming whose block lies at least `rc` blocks behind `head`
    /// becomes Confirmed, and a confirmation webhook is queued when its
    /// invoice names an endpoint. A payment exactly `rc` blocks deep is
    /// promoted on this very pass.
    fn promote_deep_payments(&mut self, network: &String, head: u64, rc: u64, now: u64)
        requires
            old(self).wf(),
        ensures
            final(self).wf(),
            final(self).chains@ == old(self).chains@,
            final(self).tokens@ == old(self).tokens@,
            final(self).watch@ == old(self).watch@,
            final(self).invoices@ == old(self).invoices@,
            final(self).payments@.len() == old(self).payments@.len(),
            forall|k: int|
                0 <= k < old(self).payments@.len() ==> final(self).payments@[k] == (if promoted(
                    #[trigger] old(self).payments@[k],
                    network@,
                    head,
                    rc,
                ) {
                    with_payment_status(
                        old(self).payments@[k],
                        crate::model::PaymentStatus::Confirmed,
                    )
                } else {
                    old(self).payments@[k]
                }),
            old(self).webhooks@.len() <= final(self).webhooks@.len(),
            forall|j: int|
                #![trigger final(self).webhooks@[j]]
                0 <= j < old(self).webhooks@.len() ==> final(self).webhooks@[j] == old(
                    self,
                ).webhooks@[j],
            forall|j: int|
                old(self).webhooks@.len() <= j < final(self).webhooks@.len() ==> is_confirm_kind(
                    #[trigger] final(self).webhooks@[j].payload,
                ),
            forall|k: int, i: int|
                0 <= k < old(self).payments@.len() && promoted(
                    #[trigger] old(self).payments@[k],
                    network@,
                    head,
                    rc,
                ) && 0 <= i < old(self).invoices@.len() && #[trigger] old(self).invoices@[i].id@
                    == old(self).payments@[k].invoice_id@ && old(self).invoices@[i].webhook_url
                    is Some ==> confirm_hook_queued(
                    final(self).webhooks@,
                    old(self).webhooks@.len() as int,
                    old(self).invoices@[i],
                    old(self).payments@[k],
                    head,
                ),
    {
        let np = self.payments.len();
        let ghost old_ps = self.payments@;
        let ghost old_invs = self.invoices@;
        let ghost old_hooks = self.webhooks@;
        let mut k: usize = 0;
        while k < np
            invariant
                0 <= k <= np,
                self.wf(),
                np == old_ps.len(),
                old_ps == old(self).payments@,
                old_invs == old(self).invoices@,
                old_hooks == old(self).webhooks@,
                self.chains@ == old(self).chains@,
                self.tokens@ == old(self).tokens@,
                self.watch@ == old(self).watch@,
                self.invoices@ == old_invs,
                self.payments@.len() == np,
                forall|x: int| k <= x < np ==> self.payments@[x] == old_ps[x],
                forall|x: int|
                    0 <= x < k ==> self.payments@[x] == (if promoted(
                        #[trigger] old_ps[x],
                        network@,
                        head,
                        rc,
                    ) {
                        with_payment_status(old_ps[x], crate::model::PaymentStatus::Confirmed)
                    } else {
                        old_ps[x]
                    }),
                old_hooks.len() <= self.webhooks@.len(),
                forall|j: int|
                    #![trigger self.webhooks@[j]]
                    0 <= j < old_hooks.len() ==> self.webhooks@[j] == old_hooks[j],
                forall|j: int|
                    old_hooks.len() <= j < self.webhooks@.len() ==> is_confirm_kind(
                        #[trigger] self.webhooks@[j].payload,
                    ),
                forall|x: int, i: int|
                    0 <= x < k && promoted(#[trigger] old_ps[x], network@, head, rc) && 0 <= i
                        < old_invs.len() && #[trigger] old_invs[i].id@ == old_ps[x].invoice_id@
                        && old_invs[i].webhook_url is Some ==> confirm_hook_queued(
                        self.webhooks@,
                        old_hooks.len() as int,
                        old_invs[i],
                        old_ps[x],
                        head,
                    ),
            decreases np - k,
        {
            let deep = self.payments[k].status == crate::model::PaymentStatus::Confirming
                && self.payments[k].network == *network && head >= rc && self.payments[
                k
            ].block_number <= head - rc;
            if deep {
                let conf: u64 = head - self.payments[k].block_number;
                let maybe_hook: Option<Webhook> = match self.find_invoice(
                    &self.payments[k].invoice_id,
                ) {
                    Some(ii) => {
                        match &self.invoices[ii].webhook_url {
                            Some(u) => Some(
                                Webhook {
                                    id: fresh_id(),
                                    invoice_id: clone_string(&self.invoices[ii].id),
                                    url: clone_string(u),
                                    payload: crate::model::WebhookEvent::TxConfirmed {
                                        invoice_id: clone_string(&self.invoices[ii].id),
                                        tx_hash: clone_string(&self.payments[k].tx_hash),
                                        confirmations: conf,
                                    },
                                    status: crate::model::WebhookStatus::Pending,
                                    attempts: 0,
                                    max_retries: DEFAULT_MAX_RETRIES,
                                    next_retry: now,
                                    created_at: now,
                                },
                            ),
                            None => None,
                        }
                    },
                    None => None,
                };
                let ghost ps_pre = self.payments@;
                let mut p = self.payments.remove(k);
                p.status = crate::model::PaymentStatus::Confirmed;
                self.payments.insert(k, p);
                proof {
                    assert(self.payments@ =~= ps_pre.update(
                        k as int,
                        with_payment_status(ps_pre[k as int], crate::model::PaymentStatus::Confirmed),
                    ));
                    assert(paid_ok(self.invoices@, self.payments@)) by {
                        assert forall|w: int|
                            0 <= w < self.invoices@.len() implies self.invoices@[w].paid_raw.val()
                            == sum_payments_for(
                            self.payments@,
                            #[trigger] self.invoices@[w].id@,
                        ) by {
                            lemma_sums_after_promote(ps_pre, k as int, self.invoices@[w].id@);
                        };
                    }
                    assert(payments_key_ok(self.payments@)) by {
                        assert forall|x: int, y: int|
                            0 <= x < y < self.payments@.len() implies !crate::model::same_payment_key(
                            self.payments@[x],
                            self.payments@[y],
                        ) by {
                            assert(!crate::model::same_payment_key(ps_pre[x], ps_pre[y]));
                        };
                    }
                    assert(payments_linked_ok(self.invoices@, self.payments@)) by {
                        assert forall|x: int|
                            0 <= x < self.payments@.len() implies payment_linked(
                            #[trigger] self.payments@[x],
                            self.invoices@,
                        ) by {
                            assert(payment_linked(ps_pre[x], self.invoices@));
                            assert(self.payments@[x].invoice_id@ == ps_pre[x].invoice_id@);
                        };
                    }
                }
                let ghost hooks_pre = self.webhooks@;
                match maybe_hook {
                    Some(h) => {
                        self.enqueue_webhook(h);
                    },
                    None => {},
                }
                proof {
                    // The freshly queued hook serves this payment's invoice.
                    let pk = old_ps[k as int];
                    assert forall|x: int, i: int|
                        0 <= x < k + 1 && promoted(#[trigger] old_ps[x], network@, head, rc) && 0
                            <= i < old_invs.len() && #[trigger] old_invs[i].id@ == old_ps[
                        x
                    ].invoice_id@ && old_invs[i].webhook_url is Some implies confirm_hook_queued(
                        self.webhooks@,
                        old_hooks.len() as int,
                        old_invs[i],
                        old_ps[x],
                        head,
                    ) by {
                        if x < k as int {
                            lemma_confirm_hook_monotone(
                                hooks_pre,
                                self.webhooks@,
                                old_hooks.len() as int,
                                old_invs[i],
                                old_ps[x],
                                head,
                            );
                        } else {
                            assert(payment_linked(old_ps[x], old_invs));
                            let kk = self.webhooks@.len() - 1;
                            assert(is_confirm_hook(self.webhooks@[kk], old_invs[i], old_ps[x], head));
                        }
                    };
                }
            }
            k += 1;
        }
    }

    /// Second reconciliation pass: every invoice still pending whose paid
    /// total covers the requested amount and which owns at least one
    /// confirmed payment becomes Paid; its address is retired from the
    /// watch set when no other open invoice shares it, and a fully-paid
    /// webhook is queued when the invoice names an endpoint.
    fn finalize_paid_invoices(&mut self, now: u64)
        requires
            old(self).wf(),
        ensures
            final(self).wf(),
            final(self).chains@ == old(self).chains@,
            final(self).tokens@ == old(self).tokens@,
            final(self).payments@ == old(self).payments@,
            final(self).invoices@.len() == old(self).invoices@.len(),
            terminal_preserved(old(self).invoices@, final(self).invoices@),
            forall|i: int|
                0 <= i < old(self).invoices@.len() ==> final(self).invoices@[i] == (if finalizes(
                    #[trigger] old(self).invoices@[i],
                    old(self).payments@,
                ) {
                    with_status(old(self).invoices@[i], InvoiceStatus::Paid)
                } else {
                    old(self).invoices@[i]
                }),
            old(self).webhooks@.len() <= final(self).webhooks@.len(),
            forall|j: int|
                #![trigger final(self).webhooks@[j]]
                0 <= j < old(self).webhooks@.len() ==> final(self).webhooks@[j] == old(
                    self,
                ).webhooks@[j],
            forall|j: int|
                old(self).webhooks@.len() <= j < final(self).webhooks@.len() ==> is_paid_kind(
                    #[trigger] final(self).webhooks@[j].payload,
                ),
            forall|i: int|
                0 <= i < old(self).invoices@.len() && finalizes(
                    #[trigger] old(self).invoices@[i],
                    old(self).payments@,
                ) && old(self).invoices@[i].webhook_url is Some ==> paid_hook_queued(
                    final(self).webhooks@,
                    old(self).webhooks@.len() as int,
                    old(self).invoices@[i],
                ),
    {
        let n = self.invoices.len();
        let ghost old_invs = self.invoices@;
        let ghost old_hooks = self.webhooks@;
        let ghost ps = self.payments@;
        let mut i: usize = 0;
        while i < n
            invariant
                0 <= i <= n,
                self.wf(),
                n == old_invs.len(),
                old_invs == old(self).invoices@,
                old_hooks == old(self).webhooks@,
                ps == old(self).payments@,
                self.chains@ == old(self).chains@,
                self.tokens@ == old(self).tokens@,
                self.payments@ == ps,
                self.invoices@.len() == n,
                forall|j: int| i <= j < n ==> self.invoices@[j] == old_invs[j],
                forall|j: int|
                    0 <= j < i ==> self.invoices@[j] == (if finalizes(
                        #[trigger] old_invs[j],
                        ps,
                    ) {
                        with_status(old_invs[j], InvoiceStatus::Paid)
                    } else {
                        old_invs[j]
                    }),
                old_hooks.len() <= self.webhooks@.len(),
                forall|j: int|
                    #![trigger self.webhooks@[j]]
                    0 <= j < old_hooks.len() ==> self.webhooks@[j] == old_hooks[j],
                forall|j: int|
                    old_hooks.len() <= j < self.webhooks@.len() ==> is_paid_kind(
                        #[trigger] self.webhooks@[j].payload,
                    ),
                forall|j: int|
                    0 <= j < i && finalizes(#[trigger] old_invs[j], ps) && old_invs[
                        j
                    ].webhook_url is Some ==> paid_hook_queued(
                        self.webhooks@,
                        old_hooks.len() as int,
                        old_invs[j],
                    ),
            decreases n - i,
        {
            let fin = self.invoices[i].status == InvoiceStatus::Pending && self.invoices[
                i
            ].paid_raw.ge(&self.invoices[i].amount_raw) && self.has_confirmed_payment(
                &self.invoices[i].id,
            );
            if fin {
                let maybe_hook: Option<Webhook> = match &self.invoices[i].webhook_url {
                    Some(u) => Some(
                        Webhook {
                            id: fresh_id(),
                            invoice_id: clone_string(&self.invoices[i].id),
                            url: clone_string(u),
                            payload: crate::model::WebhookEvent::InvoicePaid {
                                invoice_id: clone_string(&self.invoices[i].id),
                                paid_amount: clone_string(&self.invoices[i].paid),
                            },
                            status: crate::model::WebhookStatus::Pending,
                            attempts: 0,
                            max_retries: DEFAULT_MAX_RETRIES,
                            next_retry: now,
                            created_at: now,
                        },
                    ),
                    None => None,
                };
                let ghost hooks_pre = self.webhooks@;
                self.set_invoice_terminal(i, InvoiceStatus::Paid);
                match maybe_hook {
                    Some(h) => {
                        self.enqueue_webhook(h);
                        proof {
                            assert(paid_hook_queued(
                                self.webhooks@,
                                old_hooks.len() as int,
                                old_invs[i as int],
                            )) by {
                                let kk = self.webhooks@.len() - 1;
                                assert(is_paid_hook(self.webhooks@[kk], old_invs[i as int]));
                            };
                        }
                    },
                    None => {},
                }
                proof {
                    assert forall|j: int|
                        0 <= j < i + 1 && finalizes(#[trigger] old_invs[j], ps) && old_invs[
                            j
                        ].webhook_url is Some implies paid_hook_queued(
                        self.webhooks@,
                        old_hooks.len() as int,
                        old_invs[j],
                    ) by {
                        if j < i as int {
                            lemma_paid_hook_monotone(
                                hooks_pre,
                                self.webhooks@,
                                old_hooks.len() as int,
                                old_invs[j],
                            );
                        }
                    };
                }
            }
            i += 1;
        }
    }

    /// One reconciliation tick for `network` at chain head `head`: deep
    /// payments are confirmed, then invoices covered by their payments are
    /// marked paid. Nothing happens for an unknown network.
    pub fn reconcile_chain(&mut self, network: &String, head: u64, now: u64)
        requires
            old(self).wf(),
        ensures
            final(self).wf(),
            final(self).chains@ == old(self).chains@,
            final(self).tokens@ == old(self).tokens@,
            terminal_preserved(old(self).invoices@, final(self).invoices@),
            final(self).payments@.len() == old(self).payments@.len(),
            final(self).invoices@.len() == old(self).invoices@.len(),
            old(self).webhooks@.len() <= final(self).webhooks@.len(),
            forall|j: int|
                #![trigger final(self).webhooks@[j]]
                0 <= j < old(self).webhooks@.len() ==> final(self).webhooks@[j] == old(
                    self,
                ).webhooks@[j],
            (forall|c: int|
                0 <= c < old(self).chains@.len() ==> old(self).chains@[c].name@ != network@)
                ==> final(self).invoices@ == old(self).invoices@ && final(self).payments@ == old(
                self,
            ).payments@ && final(self).webhooks@ == old(self).webhooks@,
            forall|c: int|
                0 <= c < old(self).chains@.len() && #[trigger] old(self).chains@[c].name@
                    == network@ ==> reconcile_ok(
                    *old(self),
                    *final(self),
                    network@,
                    head,
                    old(self).chains@[c].required_confirmations,
                ),
    {
        let ci = match self.find_chain(network) {
            Some(c) => c,
            None => {
                return;
            },
        };
        let rc = self.chains[ci].required_confirmations;
        let ghost mid0 = *self;
        self.promote_deep_payments(network, head, rc, now);
        let ghost mid = *self;
        self.finalize_paid_invoices(now);
        proof {
            let pre = mid0;
            let post = *self;
            assert forall|c: int|
                0 <= c < pre.chains@.len() && #[trigger] pre.chains@[c].name@
                    == network@ implies reconcile_ok(
                pre,
                post,
                network@,
                head,
                pre.chains@[c].required_confirmations,
            ) by {
                assert(c == ci as int);
                assert(pre.chains@[c].required_confirmations == rc);
                assert forall|k: int, i: int|
                    0 <= k < pre.payments@.len() && promoted(
                        #[trigger] pre.payments@[k],
                        network@,
                        head,
                        rc,
                    ) && 0 <= i < pre.invoices@.len() && #[trigger] pre.invoices@[i].id@
                        == pre.payments@[k].invoice_id@ && pre.invoices@[i].webhook_url
                        is Some implies confirm_hook_queued(
                    post.webhooks@,
                    pre.webhooks@.len() as int,
                    pre.invoices@[i],
                    pre.payments@[k],
                    head,
                ) by {
                    lemma_confirm_hook_monotone(
                        mid.webhooks@,
                        post.webhooks@,
                        pre.webhooks@.len() as int,
                        pre.invoices@[i],
                        pre.payments@[k],
                        head,
                    );
                };
                // The promotion pass queues only confirmation notices and
                // the finalization pass only fully-paid ones, so every
                // appended confirmation precedes every appended paid notice.
                assert forall|x: int, y: int|
                    pre.webhooks@.len() <= x < post.webhooks@.len() && pre.webhooks@.len() <= y
                        < post.webhooks@.len() && is_confirm_kind(
                        #[trigger] post.webhooks@[x].payload,
                    ) && is_paid_kind(#[trigger] post.webhooks@[y].payload) implies x < y by {
                    if x >= mid.webhooks@.len() {
                        assert(is_paid_kind(post.webhooks@[x].payload));
                    }
                    if y < mid.webhooks@.len() {
                        assert(post.webhooks@[y] == mid.webhooks@[y]);
                        assert(is_confirm_kind(mid.webhooks@[y].payload));
                    }
                };
            };
        }
    }
}

/// What one reconciliation tick guarantees for a chain with `rc` required
/// confirmations: exactly the deep confirming payments are promoted,
/// exactly the covered pending invoices with a confirmed payment are paid,
/// and the matching webhooks are queued behind the pre-existing ones.
pub open spec fn reconcile_ok(
    pre: Store,
    post: Store,
    network: Seq<char>,
    head: u64,
    rc: u64,
) -> bool {
    &&& (forall|k: int|
        0 <= k < pre.payments@.len() ==> post.payments@[k] == (if promoted(
            #[trigger] pre.payments@[k],
            network,
            head,
            rc,
        ) {
            with_payment_status(pre.payments@[k], crate::model::PaymentStatus::Confirmed)
        } else {
            pre.payments@[k]
        }))
    &&& (forall|i: int|
        0 <= i < pre.invoices@.len() ==> post.invoices@[i] == (if finalizes(
            #[trigger] pre.invoices@[i],
            post.payments@,
        ) {
            with_status(pre.invoices@[i], InvoiceStatus::Paid)
        } else {
            pre.invoices@[i]
        }))
    &&& (forall|k: int, i: int|
        0 <= k < pre.payments@.len() && promoted(#[trigger] pre.payments@[k], network, head, rc)
            && 0 <= i < pre.invoices@.len() && #[trigger] pre.invoices@[i].id@ == pre.payments@[
            k
        ].invoice_id@ && pre.invoices@[i].webhook_url is Some ==> confirm_hook_queued(
            post.webhooks@,
            pre.webhooks@.len() as int,
            pre.invoices@[i],
            pre.payments@[k],
            head,
        ))
    &&& (forall|i: int|
        0 <= i < pre.invoices@.len() && finalizes(#[trigger] pre.invoices@[i], post.payments@)
            && pre.invoices@[i].webhook_url is Some ==> paid_hook_queued(
            post.webhooks@,
            pre.webhooks@.len() as int,
            pre.invoices@[i],
        ))
    &&& (forall|x: int, y: int|
        #![trigger is_confirm_kind(post.webhooks@[x].payload), is_paid_kind(post.webhooks@[y].payload)]
        pre.webhooks@.len() <= x < post.webhooks@.len() && pre.webhooks@.len() <= y
            < post.webhooks@.len() && is_confirm_kind(post.webhooks@[x].payload) && is_paid_kind(
            post.webhooks@[y].payload,
        ) ==> x < y)
}

} // verus!

verus! {

/// `h` with its status replaced.
pub open spec fn with_hook_status(h: Webhook, st: crate::model::WebhookStatus) -> Webhook {
    Webhook { status: st, ..h }
}

/// The sum over an invoice includes each of its live payments.
pub proof fn lemma_sum_at_least_contrib(ps: Seq<crate::model::Payment>, k: int, id: Seq<char>)
    requires
        0 <= k < ps.len(),
        ps[k].invoice_id@ == id,
        ps[k].status != crate::model::PaymentStatus::Cancelled,
    ensures
        sum_payments_for(ps, id) >= ps[k].amount_raw.val(),
    decreases ps.len(),
{
    if k == ps.len() - 1 {
        assert(ps.last() == ps[k]);
    } else {
        lemma_sum_at_least_contrib(ps.drop_last(), k, id);
        assert(ps.drop_last()[k] == ps[k]);
    }
}

impl Store {
    /// Cancels a payment: its amount leaves the invoice's paid total, so
    /// the sum invariant holds with the payment no longer counted. Refused
    /// when the payment is already cancelled or its invoice is terminal
    /// (frozen records may not change).
    #[verifier::rlimit(100)]
    #[verifier::spinoff_prover]
    pub fn cancel_payment(&mut self, id: &String) -> (r: Result<(), StoreError>)
        requires
            old(self).wf(),
        ensures
            final(self).wf(),
            terminal_preserved(old(self).invoices@, final(self).invoices@),
            final(self).chains@ == old(self).chains@,
            final(self).tokens@ == old(self).tokens@,
            final(self).watch@ == old(self).watch@,
            final(self).webhooks@ == old(self).webhooks@,
            r == Err::<(), StoreError>(StoreError::NotFound) <==> (forall|k: int|
                0 <= k < old(self).payments@.len() ==> old(self).payments@[k].id@ != id@),
            r is Err ==> final(self).payments@ == old(self).payments@ && final(self).invoices@
                == old(self).invoices@,
            forall|k: int|
                0 <= k < old(self).payments@.len() && #[trigger] old(self).payments@[k].id@ == id@
                    && (forall|x: int| 0 <= x < k ==> old(self).payments@[x].id@ != id@)
                    ==> cancel_payment_ok(*old(self), *final(self), k, r),
    {
        let ghost pre = *self;
        let k = match self.find_payment(id) {
            Some(k) => k,
            None => {
                return Err(StoreError::NotFound);
            },
        };
        proof {
            assert(pre.payments@[k as int].id@ == id@);
            assert(forall|x: int| 0 <= x < k ==> pre.payments@[x].id@ != id@);
        }
        if self.payments[k].status == crate::model::PaymentStatus::Cancelled {
            proof {
                assert(cancel_payment_ok(
                    pre,
                    *self,
                    k as int,
                    Err::<(), StoreError>(StoreError::Terminal),
                ));
            }
            return Err(StoreError::Terminal);
        }
        proof {
            assert(payment_linked(self.payments@[k as int], self.invoices@));
        }
        let i = match self.find_invoice(&self.payments[k].invoice_id) {
            Some(i) => i,
            None => {
                // Unreachable: every payment is linked to an invoice.
                proof {
                    assert(false);
                }
                return Err(StoreError::NotFound);
            },
        };
        if self.invoices[i].is_terminal() {
            proof {
                assert(cancel_payment_ok(
                    pre,
                    *self,
                    k as int,
                    Err::<(), StoreError>(StoreError::Terminal),
                ));
            }
            return Err(StoreError::Terminal);
        }
        proof {
            assert forall|w: int|
                0 <= w < pre.invoices@.len() && #[trigger] pre.invoices@[w].id@
                    == pre.payments@[k as int].invoice_id@ implies w == i as int by {
                if w != i as int {
                    assert(pre.invoices@[w].id@ != pre.invoices@[i as int].id@);
                }
            };
        }
        let ghost old_ps = self.payments@;
        let ghost old_invs = self.invoices@;
        proof {
            lemma_sum_at_least_contrib(old_ps, k as int, old_invs[i as int].id@);
        }
        let amount = self.payments[k].amount_raw;
        let new_paid = match self.invoices[i].paid_raw.checked_sub(&amount) {
            Some(v) => v,
            None => {
                // Unreachable: the paid total includes this live payment.
                proof {
                    assert(false);
                }
                return Err(StoreError::NotFound);
            },
        };
        let mut p = self.payments.remove(k);
        p.status = crate::model::PaymentStatus::Cancelled;
        self.payments.insert(k, p);
        let mut inv = self.invoices.remove(i);
        inv.paid_raw = new_paid;
        inv.paid = crate::units::format_units(&new_paid, inv.decimals);
        self.invoices.insert(i, inv);
        proof {
            let invs = self.invoices@;
            let inv2 = invs[i as int];
            let p2 = self.payments@[k as int];
            assert(self.payments@ =~= old_ps.update(
                k as int,
                with_payment_status(old_ps[k as int], crate::model::PaymentStatus::Cancelled),
            ));
            assert(invs =~= old_invs.update(i as int, inv2));
            lemma_invariants_after_invoice_replace(
                self.watch@,
                old_invs,
                old_ps,
                i as int,
                inv2,
            );
            assert(payments_key_ok(self.payments@)) by {
                assert forall|x: int, y: int|
                    0 <= x < y < self.payments@.len() implies !crate::model::same_payment_key(
                    self.payments@[x],
                    self.payments@[y],
                ) by {
                    assert(!crate::model::same_payment_key(old_ps[x], old_ps[y]));
                };
            }
            assert(payments_linked_ok(invs, self.payments@)) by {
                assert forall|x: int|
                    0 <= x < self.payments@.len() implies payment_linked(
                    #[trigger] self.payments@[x],
                    invs,
                ) by {
                    assert(payment_linked(old_ps[x], invs));
                    assert(self.payments@[x].invoice_id@ == old_ps[x].invoice_id@);
                };
            }
            assert(paid_ok(invs, self.payments@)) by {
                assert forall|w: int| 0 <= w < invs.len() implies invs[w].paid_raw.val()
                    == sum_payments_for(self.payments@, #[trigger] invs[w].id@) by {
                    crate::store::lemma_sum_update(
                        old_ps,
                        k as int,
                        with_payment_status(
                            old_ps[k as int],
                            crate::model::PaymentStatus::Cancelled,
                        ),
                        invs[w].id@,
                    );
                    if w != i as int {
                        assert(invs[w].id@ != old_invs[i as int].id@);
                        assert(crate::store::payment_contrib(old_ps[k as int], invs[w].id@) == 0);
                    }
                };
            }
            assert(cancel_payment_ok(pre, *self, k as int, Ok::<(), StoreError>(()))) by {
                assert(pre.payments@[k as int].status != crate::model::PaymentStatus::Cancelled);
                assert(!invoice_terminal(pre.invoices@[i as int].status));
                assert forall|w: int|
                    0 <= w < pre.invoices@.len() && #[trigger] pre.invoices@[w].id@
                        == pre.payments@[k as int].invoice_id@ implies {
                    let inv = pre.invoices@[w];
                    let inv2 = self.invoices@[w];
                    &&& inv2 == (Invoice { paid: inv2.paid, paid_raw: inv2.paid_raw, ..inv })
                    &&& inv2.paid_raw.val() == inv.paid_raw.val() - pre.payments@[
                        k as int
                    ].amount_raw.val()
                    &&& crate::units::units_formatted(
                        (inv.paid_raw.val() - pre.payments@[k as int].amount_raw.val()) as nat,
                        inv.decimals as nat,
                        inv2.paid@,
                    )
                } by {
                    assert(w == i as int);
                };
            };
        }
        Ok(())
    }
}

/// What `cancel_payment` promises about the first payment `k` whose id
/// matched: refusal exactly when the payment or its invoice is frozen, and
/// otherwise the payment is cancelled and its amount leaves the paid total.
pub open spec fn cancel_payment_ok(pre: Store, post: Store, k: int, r: Result<(), StoreError>) -> bool {
    let p = pre.payments@[k];
    &&& (r == Err::<(), StoreError>(StoreError::Terminal) <==> (p.status
        == crate::model::PaymentStatus::Cancelled || (exists|i: int|
        0 <= i < pre.invoices@.len() && #[trigger] pre.invoices@[i].id@ == p.invoice_id@
            && invoice_terminal(pre.invoices@[i].status))))
    &&& (r is Ok ==> {
        &&& post.payments@ == pre.payments@.update(
            k,
            with_payment_status(p, crate::model::PaymentStatus::Cancelled),
        )
        &&& (forall|i: int|
            0 <= i < pre.invoices@.len() && #[trigger] pre.invoices@[i].id@ == p.invoice_id@ ==> {
                let inv = pre.invoices@[i];
                let inv2 = post.invoices@[i];
                &&& inv2 == (Invoice { paid: inv2.paid, paid_raw: inv2.paid_raw, ..inv })
                &&& inv2.paid_raw.val() == inv.paid_raw.val() - p.amount_raw.val()
                &&& crate::units::units_formatted(
                    (inv.paid_raw.val() - p.amount_raw.val()) as nat,
                    inv.decimals as nat,
                    inv2.paid@,
                )
            })
        &&& (forall|j: int|
            0 <= j < pre.invoices@.len() && #[trigger] pre.invoices@[j].id@ != p.invoice_id@
                ==> post.invoices@[j] == pre.invoices@[j])
    })
}

} // verus!

verus! {

/// The backoff delay in seconds after `attempts` failed deliveries:
/// `min(3600, 30 * 2^(attempts - 1))`.
pub open spec fn retry_delay_spec(attempts: u32) -> u64 {
    if attempts <= 1 {
        30
    } else if attempts == 2 {
        60
    } else if attempts == 3 {
        120
    } else if attempts == 4 {
        240
    } else if attempts == 5 {
        480
    } else if attempts == 6 {
        960
    } else if attempts == 7 {
        1920
    } else {
        3600
    }
}

impl Store {
    /// Claims up to `limit` due webhook jobs: every job still pending whose
    /// retry time has come is moved to Processing, in queue order, and its
    /// index is returned. A job is never claimed before `next_retry`.
    pub fn claim_due(&mut self, now: u64, limit: usize) -> (r: Vec<usize>)
        requires
            old(self).wf(),
        ensures
            final(self).wf(),
            final(self).chains@ == old(self).chains@,
            final(self).tokens@ == old(self).tokens@,
            final(self).watch@ == old(self).watch@,
            final(self).invoices@ == old(self).invoices@,
            final(self).payments@ == old(self).payments@,
            final(self).webhooks@.len() == old(self).webhooks@.len(),
            r@.len() <= limit,
            forall|x: int, y: int| 0 <= x < y < r@.len() ==> r@[x] < r@[y],
            forall|x: int|
                0 <= x < r@.len() ==> r@[x] < old(self).webhooks@.len() && old(self).webhooks@[
                    r@[x] as int
                ].status == crate::model::WebhookStatus::Pending && old(self).webhooks@[
                    r@[x] as int
                ].next_retry <= now && final(self).webhooks@[r@[x] as int] == with_hook_status(
                    old(self).webhooks@[r@[x] as int],
                    crate::model::WebhookStatus::Processing,
                ),
            forall|j: int|
                0 <= j < old(self).webhooks@.len() && !(exists|x: int|
                    0 <= x < r@.len() && r@[x] == j) ==> final(self).webhooks@[j] == old(
                    self,
                ).webhooks@[j],
            r@.len() < limit ==> forall|j: int|
                0 <= j < final(self).webhooks@.len() ==> !(final(self).webhooks@[j].status
                    == crate::model::WebhookStatus::Pending && final(self).webhooks@[j].next_retry
                    <= now),
    {
        let n = self.webhooks.len();
        let ghost old_hooks = self.webhooks@;
        let mut out: Vec<usize> = Vec::new();
        let mut j: usize = 0;
        while j < n
            invariant
                0 <= j <= n,
                self.wf(),
                n == old_hooks.len(),
                old_hooks == old(self).webhooks@,
                self.chains@ == old(self).chains@,
                self.tokens@ == old(self).tokens@,
                self.watch@ == old(self).watch@,
                self.invoices@ == old(self).invoices@,
                self.payments@ == old(self).payments@,
                self.webhooks@.len() == n,
                out@.len() <= limit,
                forall|x: int, y: int| 0 <= x < y < out@.len() ==> out@[x] < out@[y],
                forall|x: int| 0 <= x < out@.len() ==> out@[x] < j,
                forall|x: int|
                    0 <= x < out@.len() ==> out@[x] < n && old_hooks[out@[x] as int].status
                        == crate::model::WebhookStatus::Pending && old_hooks[
                        out@[x] as int
                    ].next_retry <= now && self.webhooks@[out@[x] as int] == with_hook_status(
                        old_hooks[out@[x] as int],
                        crate::model::WebhookStatus::Processing,
                    ),
                forall|m: int|
                    0 <= m < n && !(exists|x: int| 0 <= x < out@.len() && out@[x] == m)
                        ==> self.webhooks@[m] == old_hooks[m],
                out@.len() < limit ==> forall|m: int|
                    0 <= m < j ==> !(self.webhooks@[m].status
                        == crate::model::WebhookStatus::Pending && self.webhooks@[m].next_retry
                        <= now),
            decreases n - j,
        {
            if out.len() < limit && self.webhooks[j].status == crate::model::WebhookStatus::Pending
                && self.webhooks[j].next_retry <= now {
                let ghost hooks_pre = self.webhooks@;
                let mut h = self.webhooks.remove(j);
                h.status = crate::model::WebhookStatus::Processing;
                self.webhooks.insert(j, h);
                proof {
                    assert(self.webhooks@ =~= hooks_pre.update(
                        j as int,
                        with_hook_status(
                            hooks_pre[j as int],
                            crate::model::WebhookStatus::Processing,
                        ),
                    ));
                }
                let ghost out_pre = out@;
                out.push(j);
                proof {
                    assert forall|m: int|
                        0 <= m < n && !(exists|x: int|
                            0 <= x < out@.len() && out@[x] == m) implies self.webhooks@[m]
                        == old_hooks[m] by {
                        assert(m != j as int) by {
                            if m == j as int {
                                assert(out@[out@.len() - 1] == j as int);
                            }
                        };
                        assert(!(exists|x: int| 0 <= x < out_pre.len() && out_pre[x] == m)) by {
                            if exists|x: int| 0 <= x < out_pre.len() && out_pre[x] == m {
                                let x = choose|x: int| 0 <= x < out_pre.len() && out_pre[x] == m;
                                assert(out@[x] == m);
                            }
                        };
                        assert(hooks_pre[m] == old_hooks[m]);
                    };
                }
            }
            j += 1;
        }
        out
    }

    /// Records the result of one delivery attempt for the claimed job
    /// `idx`. Success marks it Sent. Failure counts the attempt; when the
    /// retry budget is spent the job fails for good, otherwise it returns
    /// to the queue with the next exponential-backoff delay.
    pub fn record_attempt(&mut self, idx: usize, success: bool, now: u64)
        requires
            old(self).wf(),
            idx < old(self).webhooks@.len(),
            old(self).webhooks@[idx as int].status == crate::model::WebhookStatus::Processing,
            old(self).webhooks@[idx as int].attempts < 0xFFFF_FFFFu32,
            now <= 0xFFFF_FFFF_FFFF_FFFFu64 - 3600,
        ensures
            final(self).wf(),
            final(self).chains@ == old(self).chains@,
            final(self).tokens@ == old(self).tokens@,
            final(self).watch@ == old(self).watch@,
            final(self).invoices@ == old(self).invoices@,
            final(self).payments@ == old(self).payments@,
            final(self).webhooks@.len() == old(self).webhooks@.len(),
            forall|j: int|
                0 <= j < old(self).webhooks@.len() && j != idx ==> final(self).webhooks@[j] == old(
                    self,
                ).webhooks@[j],
            success ==> final(self).webhooks@[idx as int] == (Webhook {
                status: crate::model::WebhookStatus::Sent,
                attempts: (old(self).webhooks@[idx as int].attempts + 1) as u32,
                ..old(self).webhooks@[idx as int]
            }),
            !success ==> {
                let h = old(self).webhooks@[idx as int];
                let a2 = (h.attempts + 1) as u32;
                let h2 = final(self).webhooks@[idx as int];
                &&& h2.attempts == a2
                &&& h2 == (Webhook { status: h2.status, attempts: a2, next_retry: h2.next_retry, ..h })
                &&& (a2 >= h.max_retries ==> h2.status == crate::model::WebhookStatus::Failed
                    && h2.next_retry == h.next_retry)
                &&& (a2 < h.max_retries ==> h2.status == crate::model::WebhookStatus::Pending
                    && h2.next_retry == now + retry_delay_spec(a2))
            },
    {
        let mut h = self.webhooks.remove(idx);
        if success {
            h.status = crate::model::WebhookStatus::Sent;
            h.attempts = h.attempts + 1;
        } else {
            let a2: u32 = h.attempts + 1;
            h.attempts = a2;
            if a2 >= h.max_retries {
                h.status = crate::model::WebhookStatus::Failed;
            } else {
                h.status = crate::model::WebhookStatus::Pending;
                let delay: u64 = if a2 <= 1 {
                    30
                } else if a2 == 2 {
                    60
                } else if a2 == 3 {
                    120
                } else if a2 == 4 {
                    240
                } else if a2 == 5 {
                    480
                } else if a2 == 6 {
                    960
                } else if a2 == 7 {
                    1920
                } else {
                    3600
                };
                h.next_retry = now + delay;
            }
        }
        self.webhooks.insert(idx, h);
        proof {
            assert(self.webhooks@ =~= old(self).webhooks@.update(
                idx as int,
                self.webhooks@[idx as int],
            ));
        }
    }

    /// Cancels a webhook job that is still pending; claimed, delivered,
    /// failed or already cancelled jobs are left alone.
    pub fn cancel_webhook(&mut self, id: &String) -> (r: Result<(), StoreError>)
        requires
            old(self).wf(),
        ensures
            final(self).wf(),
            final(self).chains@ == old(self).chains@,
            final(self).tokens@ == old(self).tokens@,
            final(self).watch@ == old(self).watch@,
            final(self).invoices@ == old(self).invoices@,
            final(self).payments@ == old(self).payments@,
            r == Err::<(), StoreError>(StoreError::NotFound) <==> (forall|k: int|
                0 <= k < old(self).webhooks@.len() ==> old(self).webhooks@[k].id@ != id@),
            r is Err ==> final(self).webhooks@ == old(self).webhooks@,
            forall|k: int|
                0 <= k < old(self).webhooks@.len() && #[trigger] old(self).webhooks@[k].id@ == id@
                    && (forall|x: int| 0 <= x < k ==> old(self).webhooks@[x].id@ != id@) ==> {
                    &&& (r == Err::<(), StoreError>(StoreError::Terminal) <==> old(
                        self,
                    ).webhooks@[k].status != crate::model::WebhookStatus::Pending)
                    &&& (r is Ok ==> final(self).webhooks@ == old(self).webhooks@.update(
                        k,
                        with_hook_status(
                            old(self).webhooks@[k],
                            crate::model::WebhookStatus::Cancelled,
                        ),
                    ))
                },
    {
        let ghost pre = *self;
        let k = match self.find_webhook(id) {
            Some(k) => k,
            None => {
                return Err(StoreError::NotFound);
            },
        };
        proof {
            assert(pre.webhooks@[k as int].id@ == id@);
            assert(forall|x: int| 0 <= x < k ==> pre.webhooks@[x].id@ != id@);
        }
        if !(self.webhooks[k].status == crate::model::WebhookStatus::Pending) {
            return Err(StoreError::Terminal);
        }
        let mut h = self.webhooks.remove(k);
        h.status = crate::model::WebhookStatus::Cancelled;
        self.webhooks.insert(k, h);
        proof {
            assert(self.webhooks@ =~= pre.webhooks@.update(
                k as int,
                with_hook_status(pre.webhooks@[k as int], crate::model::WebhookStatus::Cancelled),
            ));
        }
        Ok(())
    }
}

} // verus!

verus! {

use crate::store::clone_opt_string;

/// Why creating an invoice was refused.
#[derive(Clone, Copy, Debug, PartialEq, Eq, Structural)]
pub enum CreateError {
    /// The requested network is not configured.
    UnknownNetwork,
    /// The requested token is not configured on that network.
    UnknownToken,
    /// The amount string is not a well-formed decimal for that token.
    BadAmount,
    /// The amount does not fit in 256 bits.
    AmountTooLarge,
    /// The receive address could not be derived from the chain's extended
    /// public key.
    DeriveFailed,
    /// The freshly drawn invoice id collided with an existing one.
    IdCollision,
}

/// The default validity window of an invoice, in seconds.
pub const DEFAULT_EXPIRE_AFTER_SECS: u64 = 900;

/// Whether token entry `t` serves `(network, symbol)`.
pub open spec fn token_entry_match(
    ts: Seq<crate::store::TokenEntry>,
    t: int,
    network: Seq<char>,
    symbol: Seq<char>,
) -> bool {
    0 <= t < ts.len() && ts[t].chain@ == network && ts[t].config.symbol@ == symbol
}

/// Whether `req` passes every validation of invoice creation: its network
/// and token are configured and its amount parses into range for that
/// token's fractional digits.
pub open spec fn create_request_valid(pre: Store, req: crate::model::CreateInvoiceReq) -> bool {
    &&& (exists|c: int| 0 <= c < pre.chains@.len() && pre.chains@[c].name@ == req.network@)
    &&& (exists|t: int| token_entry_match(pre.tokens@, t, req.network@, req.token@))
    &&& (forall|t: int|
        #[trigger] token_entry_match(pre.tokens@, t, req.network@, req.token@)
            ==> crate::units::units_shape_ok(req.amount@, pre.tokens@[t].config.decimals as nat)
            && crate::units::units_val(req.amount@, pre.tokens@[t].config.decimals as nat)
            < crate::amount::amount_bound())
}

impl Store {
    /// Creates a pending invoice for `req`: the amount is parsed against
    /// the token's fractional digits, the smallest free address slot on
    /// the network is taken (one always exists), the receive address is
    /// derived from the chain's extended public key at that slot, and the
    /// address joins the watch set. The paid total starts at zero,
    /// rendered canonically with the token's fractional digits. Besides
    /// the characterized refusals, only a collision of the freshly drawn
    /// random id can fail the call.
    pub fn create_invoice(&mut self, req: &crate::model::CreateInvoiceReq, now: u64) -> (r: Result<
        usize,
        CreateError,
    >)
        requires
            old(self).wf(),
            old(self).invoices@.len() < 0xFFFF_FFFF,
        ensures
            final(self).wf(),
            final(self).chains@ == old(self).chains@,
            final(self).tokens@ == old(self).tokens@,
            final(self).payments@ == old(self).payments@,
            final(self).webhooks@ == old(self).webhooks@,
            terminal_preserved(old(self).invoices@, final(self).invoices@),
            r is Err ==> final(self).invoices@ == old(self).invoices@ && final(self).watch@ == old(
                self,
            ).watch@,
            r == Err::<usize, CreateError>(CreateError::UnknownNetwork) <==> (forall|c: int|
                0 <= c < old(self).chains@.len() ==> old(self).chains@[c].name@ != req.network@),
            r == Err::<usize, CreateError>(CreateError::UnknownToken) <==> (exists|c: int|
                0 <= c < old(self).chains@.len() && old(self).chains@[c].name@ == req.network@) && (
            forall|t: int| !token_entry_match(old(self).tokens@, t, req.network@, req.token@)),
            (exists|c: int|
                0 <= c < old(self).chains@.len() && old(self).chains@[c].name@ == req.network@)
                ==> forall|t: int|
                #[trigger] token_entry_match(old(self).tokens@, t, req.network@, req.token@) ==> {
                    let d = old(self).tokens@[t].config.decimals as nat;
                    &&& (r == Err::<usize, CreateError>(CreateError::BadAmount)
                        <==> !crate::units::units_shape_ok(req.amount@, d))
                    &&& (r == Err::<usize, CreateError>(CreateError::AmountTooLarge)
                        <==> crate::units::units_shape_ok(req.amount@, d)
                        && crate::units::units_val(req.amount@, d)
                        >= crate::amount::amount_bound())
                },
            create_request_valid(*old(self), *req) ==> forall|c: int, s2: u32|
                #![trigger old(self).chains@[c].name@, first_free_slot_is(old(self).invoices@, req.network@, s2)]
                0 <= c < old(self).chains@.len() && old(self).chains@[c].name@ == req.network@
                    && first_free_slot_is(old(self).invoices@, req.network@, s2) ==> {
                    &&& (r == Err::<usize, CreateError>(CreateError::DeriveFailed)
                        <==> !crate::address::derives(old(self).chains@[c].xpub@, s2))
                    &&& (crate::address::derives(old(self).chains@[c].xpub@, s2) ==> r is Ok || r
                        == Err::<usize, CreateError>(CreateError::IdCollision))
                },
            r is Ok ==> r.unwrap() == old(self).invoices@.len() && final(self).invoices@.len()
                == old(self).invoices@.len() + 1 && (forall|j: int|
                0 <= j < old(self).invoices@.len() ==> final(self).invoices@[j] == old(
                    self,
                ).invoices@[j]),
            r is Ok ==> {
                let inv = final(self).invoices@.last();
                &&& inv.network@ == req.network@
                &&& inv.token@ == req.token@
                &&& inv.amount@ == req.amount@
                &&& inv.paid_raw.val() == 0
                &&& inv.status == InvoiceStatus::Pending
                &&& inv.created_at == now
                &&& inv.id@.len() == 36
                &&& inv.webhook_url == req.webhook_url
                &&& inv.webhook_secret == req.webhook_secret
                &&& (match req.expire_after {
                    Some(e) => inv.expires_at == (if now + e <= 0xFFFF_FFFF_FFFF_FFFFu64 {
                        (now + e) as int
                    } else {
                        0xFFFF_FFFF_FFFF_FFFFu64 as int
                    }),
                    None => inv.expires_at == (if now + DEFAULT_EXPIRE_AFTER_SECS
                        <= 0xFFFF_FFFF_FFFF_FFFFu64 {
                        (now + DEFAULT_EXPIRE_AFTER_SECS) as int
                    } else {
                        0xFFFF_FFFF_FFFF_FFFFu64 as int
                    }),
                })
                &&& first_free_slot_is(old(self).invoices@, req.network@, inv.address_index)
                &&& (forall|t: int|
                    #[trigger] token_entry_match(old(self).tokens@, t, req.network@, req.token@)
                        ==> inv.decimals == old(self).tokens@[t].config.decimals
                        && inv.amount_raw.val() == crate::units::units_val(
                        req.amount@,
                        old(self).tokens@[t].config.decimals as nat,
                    ) && crate::units::units_formatted(0, old(self).tokens@[t].config.decimals as nat, inv.paid@))
                &&& (forall|c: int|
                    0 <= c < old(self).chains@.len() && #[trigger] old(self).chains@[c].name@
                        == req.network@ ==> inv.address@ == crate::address::evm_address_spec(
                        crate::address::child_pubkey(
                            old(self).chains@[c].xpub@,
                            inv.address_index,
                        ),
                    ))
                &&& watch_has(final(self).watch@, inv.network@, inv.address@)
            },
    {
        let ghost pre = *self;
        let ci = match self.find_chain(&req.network) {
            Some(c) => c,
            None => {
                return Err(CreateError::UnknownNetwork);
            },
        };
        let dec = match self.get_token_decimals(&req.network, &req.token) {
            Some(d) => d,
            None => {
                return Err(CreateError::UnknownToken);
            },
        };
        proof {
            let t = choose|t: int|
                0 <= t < pre.tokens@.len() && pre.tokens@[t].chain@ == req.network@
                    && pre.tokens@[t].config.symbol@ == req.token@ && pre.tokens@[
                    t
                ].config.decimals == dec;
            assert(token_entry_match(pre.tokens@, t, req.network@, req.token@));
            assert forall|t2: int|
                #[trigger] token_entry_match(
                    pre.tokens@,
                    t2,
                    req.network@,
                    req.token@,
                ) implies pre.tokens@[t2].config.decimals == dec by {
                if t2 != t {
                    assert(pre.tokens@[t2].chain@ == pre.tokens@[t].chain@);
                }
            };
        }
        let amount_raw = match crate::units::parse_units(req.amount.as_str(), dec) {
            Ok(v) => v,
            Err(crate::units::UnitsError::Malformed) => {
                return Err(CreateError::BadAmount);
            },
            Err(crate::units::UnitsError::Overflow) => {
                return Err(CreateError::AmountTooLarge);
            },
        };
        let slot = match self.get_free_slot(&req.network) {
            Some(s2) => s2,
            None => {
                // Unreachable: a slot below `invoices.len() + 1` is free.
                proof {
                    assert(false);
                }
                return Err(CreateError::IdCollision);
            },
        };
        proof {
            assert(create_request_valid(pre, *req));
            assert(first_free_slot_is(pre.invoices@, req.network@, slot));
            assert forall|s2: u32|
                first_free_slot_is(pre.invoices@, req.network@, s2) implies s2 == slot by {
                if s2 < slot {
                    assert(slot_held(pre.invoices@, req.network@, s2));
                }
                if slot < s2 {
                    assert(slot_held(pre.invoices@, req.network@, slot));
                }
            };
            assert forall|c: int|
                0 <= c < pre.chains@.len() && #[trigger] pre.chains@[c].name@
                    == req.network@ implies c == ci as int by {
                if c != ci as int {
                    assert(pre.chains@[c].name@ != pre.chains@[ci as int].name@);
                }
            };
        }
        let address = match crate::address::derive_address(self.chains[ci].xpub.as_str(), slot) {
            Some(a) => a,
            None => {
                return Err(CreateError::DeriveFailed);
            },
        };
        let id = fresh_id();
        let zero = crate::amount::Amount::zero();
        let paid = crate::units::format_units(&zero, dec);
        let expires_at: u64 = match &req.expire_after {
            Some(e) => {
                if *e <= 0xFFFF_FFFF_FFFF_FFFFu64 - now {
                    now + *e
                } else {
                    0xFFFF_FFFF_FFFF_FFFFu64
                }
            },
            None => {
                if DEFAULT_EXPIRE_AFTER_SECS <= 0xFFFF_FFFF_FFFF_FFFFu64 - now {
                    now + DEFAULT_EXPIRE_AFTER_SECS
                } else {
                    0xFFFF_FFFF_FFFF_FFFFu64
                }
            },
        };
        let inv = Invoice {
            id,
            address_index: slot,
            address,
            amount: clone_string(&req.amount),
            amount_raw,
            paid,
            paid_raw: zero,
            token: clone_string(&req.token),
            network: clone_string(&req.network),
            decimals: dec,
            webhook_url: clone_opt_string(&req.webhook_url),
            webhook_secret: clone_opt_string(&req.webhook_secret),
            created_at: now,
            expires_at,
            status: InvoiceStatus::Pending,
        };
        let n = self.invoices.len();
        match self.add_invoice(inv) {
            Ok(()) => Ok(n),
            Err(_) => Err(CreateError::IdCollision),
        }
    }
}

} // verus!

verus! {

/// How `UpdateChainReq` rewrites a chain's configuration: named fields are
/// replaced, the rest stays.
pub open spec fn chain_patched(
    old_cfg: crate::model::ChainConfig,
    new_cfg: crate::model::ChainConfig,
    req: crate::model::UpdateChainReq,
) -> bool {
    &&& new_cfg.name@ == old_cfg.name@
    &&& new_cfg.chain_type == old_cfg.chain_type
    &&& new_cfg.native_symbol@ == old_cfg.native_symbol@
    &&& new_cfg.decimals == old_cfg.decimals
    &&& (match req.rpc_urls {
        Some(u) => new_cfg.rpc_urls@ == u@,
        None => new_cfg.rpc_urls@ == old_cfg.rpc_urls@,
    })
    &&& (match req.last_processed_block {
        Some(b) => new_cfg.last_processed_block == b,
        None => new_cfg.last_processed_block == old_cfg.last_processed_block,
    })
    &&& (match req.xpub {
        Some(x) => new_cfg.xpub@ == x@,
        None => new_cfg.xpub@ == old_cfg.xpub@,
    })
    &&& (match req.block_lag {
        Some(l) => new_cfg.block_lag == l,
        None => new_cfg.block_lag == old_cfg.block_lag,
    })
    &&& (match req.required_confirmations {
        Some(rc) => new_cfg.required_confirmations == rc,
        None => new_cfg.required_confirmations == old_cfg.required_confirmations,
    })
}

impl Store {
    /// Applies a partial configuration update to the chain called `name`.
    pub fn update_chain_partial(&mut self, name: &String, req: crate::model::UpdateChainReq) -> (r:
        Result<(), StoreError>)
        requires
            old(self).wf(),
        ensures
            final(self).wf(),
            r is Ok <==> exists|c: int|
                0 <= c < old(self).chains@.len() && old(self).chains@[c].name@ == name@,
            r is Err ==> final(self).chains@ == old(self).chains@ && r == Err::<(), StoreError>(
                StoreError::NotFound,
            ),
            r is Ok ==> exists|c: int|
                0 <= c < old(self).chains@.len() && #[trigger] old(self).chains@[c].name@ == name@
                    && final(self).chains@.len() == old(self).chains@.len() && (forall|j: int|
                    0 <= j < old(self).chains@.len() && j != c ==> final(self).chains@[j] == old(
                        self,
                    ).chains@[j]) && chain_patched(
                    old(self).chains@[c],
                    final(self).chains@[c],
                    req,
                ),
            final(self).tokens@ == old(self).tokens@,
            final(self).watch@ == old(self).watch@,
            final(self).invoices@ == old(self).invoices@,
            final(self).payments@ == old(self).payments@,
            final(self).webhooks@ == old(self).webhooks@,
    {
        let ci = match self.find_chain(name) {
            Some(c) => c,
            None => {
                return Err(StoreError::NotFound);
            },
        };
        let mut cfg = self.chains.remove(ci);
        match req.rpc_urls {
            Some(u) => {
                cfg.rpc_urls = u;
            },
            None => {},
        }
        match req.last_processed_block {
            Some(b) => {
                cfg.last_processed_block = b;
            },
            None => {},
        }
        match req.xpub {
            Some(x) => {
                cfg.xpub = x;
            },
            None => {},
        }
        match req.block_lag {
            Some(l) => {
                cfg.block_lag = l;
            },
            None => {},
        }
        match req.required_confirmations {
            Some(rc) => {
                cfg.required_confirmations = rc;
            },
            None => {},
        }
        self.chains.insert(ci, cfg);
        proof {
            assert(self.chains@ =~= old(self).chains@.update(
                ci as int,
                self.chains@[ci as int],
            ));
            assert(tokens_linked_ok(self.chains@, self.tokens@)) by {
                assert forall|k: int|
                    0 <= k < self.tokens@.len() implies crate::store::token_chain_known(
                    #[trigger] self.tokens@[k],
                    self.chains@,
                ) by {
                    let c = choose|c: int|
                        0 <= c < old(self).chains@.len() && old(self).chains@[c].name@
                            == self.tokens@[k].chain@;
                    assert(self.chains@[c].name@ == self.tokens@[k].chain@);
                };
            }
        }
        Ok(())
    }

    /// Writes back the scanner's high-water mark for `network` after a
    /// block was fully processed and its events delivered.
    pub fn set_last_processed_block(&mut self, network: &String, block: u64) -> (r: Result<
        (),
        StoreError,
    >)
        requires
            old(self).wf(),
        ensures
            final(self).wf(),
            r is Ok <==> exists|c: int|
                0 <= c < old(self).chains@.len() && old(self).chains@[c].name@ == network@,
            r is Err ==> final(self).chains@ == old(self).chains@,
            r is Ok ==> exists|c: int|
                0 <= c < old(self).chains@.len() && #[trigger] old(self).chains@[c].name@
                    == network@ && final(self).chains@ == old(self).chains@.update(
                    c,
                    crate::model::ChainConfig {
                        last_processed_block: block,
                        ..old(self).chains@[c]
                    },
                ),
            final(self).tokens@ == old(self).tokens@,
            final(self).watch@ == old(self).watch@,
            final(self).invoices@ == old(self).invoices@,
            final(self).payments@ == old(self).payments@,
            final(self).webhooks@ == old(self).webhooks@,
    {
        let ci = match self.find_chain(network) {
            Some(c) => c,
            None => {
                return Err(StoreError::NotFound);
            },
        };
        let mut cfg = self.chains.remove(ci);
        cfg.last_processed_block = block;
        self.chains.insert(ci, cfg);
        proof {
            assert(self.chains@ =~= old(self).chains@.update(
                ci as int,
                crate::model::ChainConfig {
                    last_processed_block: block,
                    ..old(self).chains@[ci as int]
                },
            ));
            assert(tokens_linked_ok(self.chains@, self.tokens@)) by {
                assert forall|k: int|
                    0 <= k < self.tokens@.len() implies crate::store::token_chain_known(
                    #[trigger] self.tokens@[k],
                    self.chains@,
                ) by {
                    let c = choose|c: int|
                        0 <= c < old(self).chains@.len() && old(self).chains@[c].name@
                            == self.tokens@[k].chain@;
                    assert(self.chains@[c].name@ == self.tokens@[k].chain@);
                };
            }
        }
        Ok(())
    }
}

/// Two slot allocations around one invoice creation give distinct indices:
/// a slot returned while it is free differs from any slot returned once an
/// open invoice holds the first one.
pub proof fn lemma_free_slot_distinct(
    invs1: Seq<Invoice>,
    invs2: Seq<Invoice>,
    network: Seq<char>,
    s1: u32,
    s2: u32,
)
    requires
        !slot_held(invs1, network, s1),
        slot_held(invs2, network, s1),
        !slot_held(invs2, network, s2),
    ensures
        s1 != s2,
{
}

} // verus!
