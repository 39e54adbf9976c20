use vstd::prelude::*;

use crate::amount::Amount;
use crate::model::{PaymentEvent, TokenConfig};
use crate::store::clone_string;
use crate::units::{format_units, units_formatted};

verus! {

/// The sentinel log index that marks a native-coin transfer; decoded token
/// logs always carry their real, smaller index.
pub const NATIVE_LOG_INDEX: u64 = 0xFFFF_FFFF_FFFF_FFFF;

/// One transaction of a fetched block, reduced to what the scanner reads.
#[derive(Clone, Debug)]
pub struct NativeTx {
    pub tx_hash: String,
    pub from: String,
    pub to: String,
    pub value: Amount,
}

/// One decoded token-transfer log of a fetched block.
#[derive(Clone, Debug)]
pub struct TokenLog {
    pub contract: String,
    pub tx_hash: String,
    pub from: String,
    pub to: String,
    pub value: Amount,
    pub log_index: u64,
}

/// A fetched block with full transaction bodies and its transfer logs.
#[derive(Clone, Debug)]
pub struct BlockData {
    pub number: u64,
    pub txs: Vec<NativeTx>,
    pub logs: Vec<TokenLog>,
}

/// Whether the watch-set snapshot holds address `a`.
pub open spec fn watch_snapshot_has(ws: Seq<String>, a: Seq<char>) -> bool {
    exists|i: int| 0 <= i < ws.len() && ws[i]@ == a
}

/// Whether some configured token uses contract `c`.
pub open spec fn token_contract_known(ts: Seq<TokenConfig>, c: Seq<char>) -> bool {
    exists|i: int| 0 <= i < ts.len() && ts[i].contract@ == c
}

/// The cursor a scanner starts from: the stored high-water mark, or, when
/// none was stored yet, one block before the first it may process, so that
/// scanning begins at the safety margin below the current head.
pub fn initial_cursor(last_processed_block: u64, head: u64, block_lag: u64) -> (r: u64)
    ensures
        last_processed_block != 0 ==> r == last_processed_block,
        last_processed_block == 0 && head > block_lag ==> r == head - block_lag - 1,
        last_processed_block == 0 && head <= block_lag ==> r == 0,
{
    if last_processed_block != 0 {
        last_processed_block
    } else if head > block_lag {
        head - block_lag - 1
    } else {
        0
    }
}

/// The inclusive block range one scanner tick processes: everything above
/// the cursor up to `head - block_lag`. A head at or below the safety
/// margin, or a target at or below the cursor, yields nothing — the
/// scanner emits no event and does not advance.
pub fn plan_scan(cursor: u64, head: u64, block_lag: u64) -> (r: Option<(u64, u64)>)
    ensures
        r is None <==> head <= block_lag || head - block_lag <= cursor,
        r is Some ==> r.unwrap().0 == cursor + 1 && r.unwrap().1 == head - block_lag && cursor
            < head - block_lag,
{
    if head <= block_lag {
        return None;
    }
    let target = head - block_lag;
    if target <= cursor {
        return None;
    }
    Some((cursor + 1, target))
}

/// What every event produced from `block` satisfies: it targets a watched
/// address on this network, within this block, and its amounts and token
/// come from the transfer it was decoded from.
pub open spec fn event_from_block(
    e: PaymentEvent,
    network: Seq<char>,
    block: BlockData,
    watch: Seq<String>,
    native_symbol: Seq<char>,
    native_decimals: u8,
    tokens: Seq<TokenConfig>,
) -> bool {
    &&& e.network@ == network
    &&& e.block_number == block.number
    &&& watch_snapshot_has(watch, e.to@)
    &&& units_formatted(e.amount_raw.val(), e.decimals as nat, e.amount@)
    &&& (e.log_index == NATIVE_LOG_INDEX ==> e.token@ == native_symbol && e.decimals
        == native_decimals && (exists|t: int|
        0 <= t < block.txs@.len() && block.txs@[t].tx_hash@ == e.tx_hash@ && block.txs@[t].from@
            == e.from@ && block.txs@[t].to@ == e.to@ && block.txs@[t].value == e.amount_raw))
    &&& (e.log_index != NATIVE_LOG_INDEX ==> (exists|l: int|
        0 <= l < block.logs@.len() && block.logs@[l].tx_hash@ == e.tx_hash@ && block.logs@[l].from@
            == e.from@ && block.logs@[l].to@ == e.to@ && block.logs@[l].value == e.amount_raw
            && block.logs@[l].log_index == e.log_index && (exists|t: int|
            0 <= t < tokens.len() && tokens[t].contract@ == block.logs@[l].contract@ && tokens[
                t
            ].symbol@ == e.token@ && tokens[t].decimals == e.decimals)))
}

/// Whether the scanner emits token-log `lg`: a watched recipient, a
/// configured contract, and a log index distinct from the native sentinel.
pub open spec fn log_matches(lg: TokenLog, watch: Seq<String>, tokens: Seq<TokenConfig>) -> bool {
    watch_snapshot_has(watch, lg.to@) && token_contract_known(tokens, lg.contract@)
        && lg.log_index != NATIVE_LOG_INDEX
}

/// The positions of the transactions that target a watched address, in
/// block order.
pub open spec fn tx_match_indices(txs: Seq<NativeTx>, watch: Seq<String>) -> Seq<int>
    decreases txs.len(),
{
    if txs.len() == 0 {
        Seq::empty()
    } else {
        tx_match_indices(txs.drop_last(), watch) + (if watch_snapshot_has(
            watch,
            txs.last().to@,
        ) {
            seq![txs.len() - 1]
        } else {
            Seq::<int>::empty()
        })
    }
}

/// The positions of the logs the scanner emits, in block order.
pub open spec fn log_match_indices(
    logs: Seq<TokenLog>,
    watch: Seq<String>,
    tokens: Seq<TokenConfig>,
) -> Seq<int>
    decreases logs.len(),
{
    if logs.len() == 0 {
        Seq::empty()
    } else {
        log_match_indices(logs.drop_last(), watch, tokens) + (if log_matches(
            logs.last(),
            watch,
            tokens,
        ) {
            seq![logs.len() - 1]
        } else {
            Seq::<int>::empty()
        })
    }
}

/// Whether event `e` reports the native transfer `tx`.
pub open spec fn event_reports_tx(e: PaymentEvent, tx: NativeTx) -> bool {
    e.log_index == NATIVE_LOG_INDEX && e.tx_hash@ == tx.tx_hash@ && e.from@ == tx.from@ && e.to@
        == tx.to@ && e.amount_raw == tx.value
}

/// Whether event `e` reports the token-transfer log `lg`.
pub open spec fn event_reports_log(e: PaymentEvent, lg: TokenLog) -> bool {
    e.log_index == lg.log_index && e.tx_hash@ == lg.tx_hash@ && e.from@ == lg.from@ && e.to@
        == lg.to@ && e.amount_raw == lg.value
}

/// Match positions are in range and strictly increasing.
proof fn lemma_tx_match_indices_props(txs: Seq<NativeTx>, watch: Seq<String>)
    ensures
        forall|x: int|
            0 <= x < tx_match_indices(txs, watch).len() ==> 0 <= #[trigger] tx_match_indices(
                txs,
                watch,
            )[x] < txs.len(),
        forall|x: int, y: int|
            0 <= x < y < tx_match_indices(txs, watch).len() ==> tx_match_indices(txs, watch)[x]
                < tx_match_indices(txs, watch)[y],
    decreases txs.len(),
{
    if txs.len() > 0 {
        lemma_tx_match_indices_props(txs.drop_last(), watch);
        let prev = tx_match_indices(txs.drop_last(), watch);
        let curi = tx_match_indices(txs, watch);
        assert forall|x: int| 0 <= x < curi.len() implies 0 <= #[trigger] curi[x] < txs.len() by {
            if x < prev.len() {
                assert(curi[x] == prev[x]);
                assert(prev[x] < txs.drop_last().len());
            } else {
                assert(curi[x] == txs.len() - 1);
            }
        };
        assert forall|x: int, y: int| 0 <= x < y < curi.len() implies curi[x] < curi[y] by {
            if y < prev.len() {
                assert(curi[x] == prev[x] && curi[y] == prev[y]);
            } else {
                assert(curi[y] == txs.len() - 1);
                assert(curi[x] == prev[x]);
                assert(prev[x] < txs.drop_last().len());
            }
        };
    }
}

/// Match positions are in range and strictly increasing.
proof fn lemma_log_match_indices_props(
    logs: Seq<TokenLog>,
    watch: Seq<String>,
    tokens: Seq<TokenConfig>,
)
    ensures
        forall|x: int|
            0 <= x < log_match_indices(logs, watch, tokens).len() ==> 0
                <= #[trigger] log_match_indices(logs, watch, tokens)[x] < logs.len(),
        forall|x: int, y: int|
            0 <= x < y < log_match_indices(logs, watch, tokens).len() ==> log_match_indices(
                logs,
                watch,
                tokens,
            )[x] < log_match_indices(logs, watch, tokens)[y],
    decreases logs.len(),
{
    if logs.len() > 0 {
        lemma_log_match_indices_props(logs.drop_last(), watch, tokens);
        let prev = log_match_indices(logs.drop_last(), watch, tokens);
        let curi = log_match_indices(logs, watch, tokens);
        assert forall|x: int| 0 <= x < curi.len() implies 0 <= #[trigger] curi[x] < logs.len() by {
            if x < prev.len() {
                assert(curi[x] == prev[x]);
                assert(prev[x] < logs.drop_last().len());
            } else {
                assert(curi[x] == logs.len() - 1);
            }
        };
        assert forall|x: int, y: int| 0 <= x < y < curi.len() implies curi[x] < curi[y] by {
            if y < prev.len() {
                assert(curi[x] == prev[x] && curi[y] == prev[y]);
            } else {
                assert(curi[y] == logs.len() - 1);
                assert(curi[x] == prev[x]);
                assert(prev[x] < logs.drop_last().len());
            }
        };
    }
}

/// Whether the watch-set snapshot holds address `a`.
fn watch_contains(watch: &Vec<String>, a: &String) -> (r: bool)
    ensures
        r == watch_snapshot_has(watch@, a@),
{
    let n = watch.len();
    let mut i: usize = 0;
    while i < n
        invariant
            0 <= i <= n,
            n == watch@.len(),
            forall|j: int| 0 <= j < i ==> watch@[j]@ != a@,
        decreases n - i,
    {
        if watch[i] == *a {
            return true;
        }
        i += 1;
    }
    false
}

/// The first configured token whose contract is `c`.
fn find_token_config(tokens: &Vec<TokenConfig>, c: &String) -> (r: Option<usize>)
    ensures
        r is Some ==> r.unwrap() < tokens@.len() && tokens@[r.unwrap() as int].contract@ == c@,
        r is None ==> !token_contract_known(tokens@, c@),
{
    let n = tokens.len();
    let mut i: usize = 0;
    while i < n
        invariant
            0 <= i <= n,
            n == tokens@.len(),
            forall|j: int| 0 <= j < i ==> tokens@[j].contract@ != c@,
        decreases n - i,
    {
        if tokens[i].contract == *c {
            return Some(i);
        }
        i += 1;
    }
    None
}

/// Decodes one block against the watch-set and token snapshots: exactly
/// one event per native transfer to a watched address, in block order and
/// under the sentinel log index, then exactly one event per
/// token-transfer log whose recipient is watched and whose contract is
/// configured, in log order.
pub fn match_block(
    network: &String,
    block: &BlockData,
    watch: &Vec<String>,
    native_symbol: &String,
    native_decimals: u8,
    tokens: &Vec<TokenConfig>,
) -> (out: Vec<PaymentEvent>)
    ensures
        forall|x: int|
            0 <= x < out@.len() ==> event_from_block(
                #[trigger] out@[x],
                network@,
                *block,
                watch@,
                native_symbol@,
                native_decimals,
                tokens@,
            ),
        out@.len() == tx_match_indices(block.txs@, watch@).len() + log_match_indices(
            block.logs@,
            watch@,
            tokens@,
        ).len(),
        forall|x: int|
            0 <= x < tx_match_indices(block.txs@, watch@).len() ==> 0
                <= #[trigger] tx_match_indices(block.txs@, watch@)[x] < block.txs@.len()
                && event_reports_tx(out@[x], block.txs@[tx_match_indices(block.txs@, watch@)[x]]),
        forall|x: int|
            0 <= x < log_match_indices(block.logs@, watch@, tokens@).len() ==> 0
                <= #[trigger] log_match_indices(block.logs@, watch@, tokens@)[x]
                < block.logs@.len() && event_reports_log(
                out@[tx_match_indices(block.txs@, watch@).len() + x],
                block.logs@[log_match_indices(block.logs@, watch@, tokens@)[x]],
            ),
{
    let mut out: Vec<PaymentEvent> = Vec::new();
    let nt = block.txs.len();
    let mut t: usize = 0;
    while t < nt
        invariant
            0 <= t <= nt,
            nt == block.txs@.len(),
            forall|x: int|
                0 <= x < out@.len() ==> event_from_block(
                    #[trigger] out@[x],
                    network@,
                    *block,
                    watch@,
                    native_symbol@,
                    native_decimals,
                    tokens@,
                ),
            out@.len() == tx_match_indices(block.txs@.subrange(0, t as int), watch@).len(),
            forall|x: int|
                0 <= x < out@.len() ==> 0 <= #[trigger] tx_match_indices(
                    block.txs@.subrange(0, t as int),
                    watch@,
                )[x] < block.txs@.len() && event_reports_tx(
                    out@[x],
                    block.txs@[tx_match_indices(block.txs@.subrange(0, t as int), watch@)[x]],
                ),
        decreases nt - t,
    {
        let ghost pre = block.txs@.subrange(0, t as int);
        let ghost cur = block.txs@.subrange(0, t + 1);
        proof {
            assert(cur.drop_last() =~= pre);
            assert(cur.last() == block.txs@[t as int]);
            lemma_tx_match_indices_props(pre, watch@);
        }
        if watch_contains(watch, &block.txs[t].to) {
            let amount = format_units(&block.txs[t].value, native_decimals);
            let e = PaymentEvent {
                network: clone_string(network),
                tx_hash: clone_string(&block.txs[t].tx_hash),
                from: clone_string(&block.txs[t].from),
                to: clone_string(&block.txs[t].to),
                token: clone_string(native_symbol),
                amount,
                amount_raw: block.txs[t].value,
                decimals: native_decimals,
                block_number: block.number,
                log_index: NATIVE_LOG_INDEX,
            };
            out.push(e);
            proof {
                assert(tx_match_indices(cur, watch@) =~= tx_match_indices(pre, watch@) + seq![
                    t as int,
                ]);
                assert(event_reports_tx(out@.last(), block.txs@[t as int]));
            }
        } else {
            proof {
                assert(tx_match_indices(cur, watch@) =~= tx_match_indices(pre, watch@));
            }
        }
        t += 1;
    }
    let ghost nat_out = out@;
    let ghost tmi = tx_match_indices(block.txs@, watch@);
    proof {
        assert(block.txs@.subrange(0, nt as int) =~= block.txs@);
        assert(nat_out.len() == tmi.len());
    }
    let nl = block.logs.len();
    let mut l: usize = 0;
    while l < nl
        invariant
            0 <= l <= nl,
            nl == block.logs@.len(),
            tmi == tx_match_indices(block.txs@, watch@),
            nat_out.len() == tmi.len(),
            nat_out.len() <= out@.len(),
            forall|x: int| #![trigger out@[x]] 0 <= x < nat_out.len() ==> out@[x] == nat_out[x],
            forall|x: int|
                0 <= x < nat_out.len() ==> 0 <= #[trigger] tmi[x] < block.txs@.len()
                    && event_reports_tx(nat_out[x], block.txs@[tmi[x]]),
            forall|x: int|
                0 <= x < out@.len() ==> event_from_block(
                    #[trigger] out@[x],
                    network@,
                    *block,
                    watch@,
                    native_symbol@,
                    native_decimals,
                    tokens@,
                ),
            out@.len() == nat_out.len() + log_match_indices(
                block.logs@.subrange(0, l as int),
                watch@,
                tokens@,
            ).len(),
            forall|x: int|
                0 <= x < log_match_indices(
                    block.logs@.subrange(0, l as int),
                    watch@,
                    tokens@,
                ).len() ==> 0 <= #[trigger] log_match_indices(
                    block.logs@.subrange(0, l as int),
                    watch@,
                    tokens@,
                )[x] < block.logs@.len() && event_reports_log(
                    out@[nat_out.len() + x],
                    block.logs@[log_match_indices(
                        block.logs@.subrange(0, l as int),
                        watch@,
                        tokens@,
                    )[x]],
                ),
        decreases nl - l,
    {
        let ghost pre = block.logs@.subrange(0, l as int);
        let ghost cur = block.logs@.subrange(0, l + 1);
        proof {
            assert(cur.drop_last() =~= pre);
            assert(cur.last() == block.logs@[l as int]);
            lemma_log_match_indices_props(pre, watch@, tokens@);
        }
        let mut emitted = false;
        if watch_contains(watch, &block.logs[l].to) {
            match find_token_config(tokens, &block.logs[l].contract) {
                Some(ti) => {
                    if block.logs[l].log_index != NATIVE_LOG_INDEX {
                        let amount = format_units(&block.logs[l].value, tokens[ti].decimals);
                        let e = PaymentEvent {
                            network: clone_string(network),
                            tx_hash: clone_string(&block.logs[l].tx_hash),
                            from: clone_string(&block.logs[l].from),
                            to: clone_string(&block.logs[l].to),
                            token: clone_string(&tokens[ti].symbol),
                            amount,
                            amount_raw: block.logs[l].value,
                            decimals: tokens[ti].decimals,
                            block_number: block.number,
                            log_index: block.logs[l].log_index,
                        };
                        out.push(e);
                        emitted = true;
                        proof {
                            assert(log_matches(block.logs@[l as int], watch@, tokens@));
                            assert(log_match_indices(cur, watch@, tokens@) =~= log_match_indices(
                                pre,
                                watch@,
                                tokens@,
                            ) + seq![l as int]);
                            assert(event_reports_log(out@.last(), block.logs@[l as int]));
                        }
                    }
                },
                None => {},
            }
        }
        if !emitted {
            proof {
                assert(!log_matches(block.logs@[l as int], watch@, tokens@));
                assert(log_match_indices(cur, watch@, tokens@) =~= log_match_indices(
                    pre,
                    watch@,
                    tokens@,
                ));
            }
        }
        l += 1;
    }
    proof {
        assert(block.logs@.subrange(0, nl as int) =~= block.logs@);
    }
    out
}

} // verus!
