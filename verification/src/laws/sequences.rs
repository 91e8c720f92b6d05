//! Laws of what single sequences of a batch come to.
use vstd::prelude::*;

use crate::executor::logits::{
    assignment_order, batch_checked_in, batch_checked_out, lemma_waits_before_total, waits_before,
    CheckInView, CheckOutView,
};
use crate::executor::{CancelCall, ExecutorView, Model};
use crate::laws::batches::countable;
use crate::laws::requests::{same_client, same_setup, same_target_id};
use crate::llg::{flushed, pending_logs};
use crate::pending::{LogitsEntryView, PendingSeqView};
use crate::request::{ConstraintInfo, ReqDataView};
use crate::types::{ClientReqId, EngineFinishReason, ReqId, StepResultsView};

verus! {

/// The slot of a sequence is the first that has its request id. A slot has a constraint if it is
/// one of the request's, and not empty. A sequence without a slot gets the next one.
pub proof fn law_slot(rd: ReqDataView, req_id: ReqId, slot: int)
    ensures
        rd.slot_of(req_id) == Some(slot) <==> {
            &&& 0 <= slot < rd.llg_infos.len()
            &&& rd.llg_infos[slot].req_id == req_id
            &&& forall|i: int| 0 <= i < slot ==> (#[trigger] rd.llg_infos[i]).req_id != req_id
        },
        rd.slot_of(req_id) is None <==> forall|i: int|
            0 <= i < rd.llg_infos.len() ==> (#[trigger] rd.llg_infos[i]).req_id != req_id,
        rd.has_llg(slot) <==> 0 <= slot < rd.llgs.len() && rd.llgs[slot] is Some,
        rd.with_info(req_id).llg_infos.len() == rd.llg_infos.len() + 1,
        rd.with_info(req_id).llg_infos.last().req_id == req_id,
        forall|i: int|
            0 <= i < rd.llg_infos.len() ==> #[trigger] rd.with_info(req_id).llg_infos[i]
                == rd.llg_infos[i],
        rd.with_info(req_id) == (ReqDataView {
            llg_infos: rd.with_info(req_id).llg_infos,
            ..rd
        }),
{
    let info = ConstraintInfo { req_id };
    rd.llg_infos.index_of_first_ensures(info);
    assert forall|i: int| 0 <= i < rd.llg_infos.len() && (
    #[trigger] rd.llg_infos[i]).req_id == req_id implies rd.llg_infos.contains(info) by {
        assert(rd.llg_infos[i] == info);
    }
    if let Some(first) = rd.slot_of(req_id) {
        if 0 <= slot < rd.llg_infos.len() && rd.llg_infos[slot].req_id == req_id && forall|i: int|
            0 <= i < slot ==> (#[trigger] rd.llg_infos[i]).req_id != req_id {
            assert(rd.llg_infos[slot] == info);
            assert(rd.llg_infos[first].req_id == req_id);
            assert(first == slot);
        }
    }
}

/// A request id is in a slot table.
pub open spec fn has_slot(rd: ReqDataView, req_id: ReqId) -> bool {
    exists|i: int| 0 <= i < rd.llg_infos.len() && (#[trigger] rd.llg_infos[i]).req_id == req_id
}

/// A sequence had a slot before its batch was checked out.
pub open spec fn was_known(
    before: Map<ClientReqId, ReqDataView>,
    ps: PendingSeqView,
) -> bool {
    has_slot(before[ps.entry.client_req_id], ps.entry.req_id)
}

/// Of two entries, one comes first: that with the smaller request id, or with the same one and the
/// smaller position.
pub open spec fn comes_first(a: PendingSeqView, b: PendingSeqView) -> bool {
    a.entry.req_id < b.entry.req_id || (a.entry.req_id == b.entry.req_id && a.entry_idx
        < b.entry_idx)
}

proof fn lemma_look_up_order(
    before: Map<ClientReqId, ReqDataView>,
    entries: Seq<LogitsEntryView>,
    n: int,
)
    requires
        0 <= n <= entries.len() <= usize::MAX,
        CheckOutView::start(before).look_up_all(entries, n).failed is None,
    ensures
        ({
            let st = CheckOutView::start(before).look_up_all(entries, n);
            &&& forall|c: ClientReqId| #[trigger]
                st.data.contains_key(c) <==> before.contains_key(c)
            &&& forall|c: ClientReqId| #[trigger]
                before.contains_key(c) ==> st.data[c].llg_infos == before[c].llg_infos
            &&& forall|k: int|
                0 <= k < st.seqs.len() ==> was_known(before, #[trigger] st.seqs[k])
                    && st.seqs[k].entry_idx < n
            &&& forall|k: int, l: int|
                0 <= k < l < st.seqs.len() ==> (#[trigger] st.seqs[k]).entry_idx < (
                #[trigger] st.seqs[l]).entry_idx
            &&& forall|k: int|
                0 <= k < st.waiting.len() ==> {
                    let w = #[trigger] st.waiting[k];
                    &&& w.1 < n
                    &&& w.0 == entries[w.1 as int].req_id
                    &&& before.contains_key(entries[w.1 as int].client_req_id)
                    &&& !has_slot(before[entries[w.1 as int].client_req_id], w.0)
                }
            &&& forall|k: int, l: int|
                0 <= k < l < st.waiting.len() ==> (#[trigger] st.waiting[k]).1 < (
                #[trigger] st.waiting[l]).1
        }),
    decreases n,
{
    if n > 0 {
        lemma_look_up_order(before, entries, n - 1);
        let st = CheckOutView::start(before).look_up_all(entries, n - 1);
        let post = CheckOutView::start(before).look_up_all(entries, n);
        let entry = entries[n - 1];
        if before.contains_key(entry.client_req_id) {
            let rd = st.data[entry.client_req_id];
            law_slot(rd, entry.req_id, 0);
            if let Some(slot) = rd.slot_of(entry.req_id) {
                law_slot(rd, entry.req_id, slot);
                assert(before[entry.client_req_id].llg_infos[slot].req_id == entry.req_id);
                assert(post.seqs.last().entry == entry);
                assert(was_known(before, post.seqs.last()));
                assert forall|k: int| 0 <= k < post.seqs.len() implies was_known(
                    before,
                    #[trigger] post.seqs[k],
                ) && post.seqs[k].entry_idx < n by {
                    if k < st.seqs.len() {
                        assert(post.seqs[k] == st.seqs[k]);
                    }
                }
            }
        }
    }
}

proof fn lemma_assign_order(
    found: CheckOutView,
    before: Map<ClientReqId, ReqDataView>,
    entries: Seq<LogitsEntryView>,
    order: Seq<(ReqId, usize)>,
    m: int,
)
    requires
        countable(before),
        forall|c: ClientReqId| #[trigger]
            found.data.contains_key(c) <==> before.contains_key(c),
        forall|c: ClientReqId| #[trigger]
            before.contains_key(c) ==> found.data[c].llg_infos == before[c].llg_infos,
        forall|c: ClientReqId| #[trigger]
            before.contains_key(c) ==> found.data[c].llgs.len() == before[c].llgs.len(),
        forall|k: int|
            0 <= k < order.len() ==> before.contains_key(
                entries[(#[trigger] order[k]).1 as int].client_req_id,
            ),
        0 <= m <= order.len(),
        found.assign_all(entries, order, m).failed is None,
    ensures
        ({
            let st = found.assign_all(entries, order, m);
            let n = found.seqs.len() as int;
            &&& st.seqs.len() == n + m
            &&& forall|k: int| 0 <= k < n ==> #[trigger] st.seqs[k] == found.seqs[k]
            &&& forall|k: int|
                n <= k < n + m ==> {
                    let ps = #[trigger] st.seqs[k];
                    let idx = order[k - n].1;
                    &&& ps.entry_idx == idx
                    &&& ps.entry == entries[idx as int]
                    &&& before[ps.entry.client_req_id].llg_infos.len() <= ps.llg_idx
                    &&& ps.llg_idx < st.data[ps.entry.client_req_id].llg_infos.len()
                }
            &&& forall|k: int, l: int|
                n <= k < l < n + m && (#[trigger] st.seqs[k]).entry.client_req_id == (
                #[trigger] st.seqs[l]).entry.client_req_id ==> st.seqs[k].llg_idx
                    < st.seqs[l].llg_idx
            &&& forall|c: ClientReqId| #[trigger]
                st.data.contains_key(c) <==> before.contains_key(c)
            &&& forall|c: ClientReqId| #[trigger]
                before.contains_key(c) ==> before[c].llg_infos.len() <= st.data[c].llg_infos.len()
                    && st.data[c].llgs.len() == before[c].llgs.len()
        }),
    decreases m,
{
    if m > 0 {
        lemma_assign_order(found, before, entries, order, m - 1);
        let st = found.assign_all(entries, order, m - 1);
        let post = found.assign_all(entries, order, m);
        let n = found.seqs.len() as int;
        let idx = order[m - 1].1;
        let entry = entries[idx as int];
        assert(before.contains_key(entry.client_req_id));
        assert(post == st.assign(entry, idx));
        let slot = st.data[entry.client_req_id].llg_infos.len();
        assert(slot < before[entry.client_req_id].llgs.len());
        assert(post.seqs =~= st.seqs.push(post.seqs.last()));
        assert(post.seqs[n + m - 1].llg_idx == slot);
        assert forall|k: int| n <= k < n + m implies {
            let ps = #[trigger] post.seqs[k];
            let i = order[k - n].1;
            &&& ps.entry_idx == i
            &&& ps.entry == entries[i as int]
            &&& before[ps.entry.client_req_id].llg_infos.len() <= ps.llg_idx
            &&& ps.llg_idx < post.data[ps.entry.client_req_id].llg_infos.len()
        } by {
            if k < n + m - 1 {
                assert(post.seqs[k] == st.seqs[k]);
            }
        }
        assert forall|k: int, l: int|
            n <= k < l < n + m && (#[trigger] post.seqs[k]).entry.client_req_id == (
            #[trigger] post.seqs[l]).entry.client_req_id implies post.seqs[k].llg_idx
            < post.seqs[l].llg_idx by {
            assert(post.seqs[k] == st.seqs[k]);
            if l < n + m - 1 {
                assert(post.seqs[l] == st.seqs[l]);
            }
        }
    }
}

proof fn lemma_look_up_slots(
    before: Map<ClientReqId, ReqDataView>,
    entries: Seq<LogitsEntryView>,
    n: int,
    client: ClientReqId,
)
    requires
        before.contains_key(client),
    ensures
        CheckOutView::start(before).look_up_all(entries, n).data[client].llgs.len()
            == before[client].llgs.len(),
    decreases n,
{
    if n > 0 {
        lemma_look_up_slots(before, entries, n - 1, client);
    }
}

/// The order of a batch. Sequences that had a slot come first, in the order of their entries. Those
/// that had none follow, in the order of their request ids, and of their entries where these are
/// the same; of one client, each gets a later slot than the one before it.
pub proof fn law_batch_order(
    before: Map<ClientReqId, ReqDataView>,
    entries: Seq<LogitsEntryView>,
    k: int,
    l: int,
)
    requires
        countable(before),
        entries.len() <= usize::MAX,
        batch_checked_out(before, entries).failed is None,
        0 <= k < l < batch_checked_out(before, entries).seqs.len(),
    ensures
        ({
            let a = batch_checked_out(before, entries).seqs[k];
            let b = batch_checked_out(before, entries).seqs[l];
            &&& was_known(before, b) ==> was_known(before, a)
            &&& was_known(before, a) && was_known(before, b) ==> a.entry_idx < b.entry_idx
            &&& !was_known(before, a) && !was_known(before, b) ==> comes_first(a, b)
            &&& !was_known(before, a) && !was_known(before, b) && a.entry.client_req_id
                == b.entry.client_req_id ==> a.llg_idx < b.llg_idx
        }),
{
    let n = entries.len() as int;
    let found = CheckOutView::start(before).look_up_all(entries, n);
    let order = assignment_order(found.waiting);
    let m = order.len() as int;
    let out = batch_checked_out(before, entries);
    if found.failed is Some {
        lemma_failed_stays(found, entries, order, m);
    }
    lemma_look_up_order(before, entries, n);
    assert forall|c: ClientReqId| #[trigger] before.contains_key(c) implies found.data[c].llgs.len()
        == before[c].llgs.len() by {
        lemma_look_up_slots(before, entries, n, c);
    }
    let leq = |a: (ReqId, usize), b: (ReqId, usize)| waits_before(a, b);
    lemma_waits_before_total();
    found.waiting.lemma_sort_by_ensures(leq);
    assert(found.waiting.no_duplicates());
    found.waiting.lemma_multiset_has_no_duplicates();
    order.lemma_multiset_has_no_duplicates_conv();
    assert forall|i: int| 0 <= i < m implies {
        let w = #[trigger] order[i];
        &&& (w.1 as int) < n
        &&& w.0 == entries[w.1 as int].req_id
        &&& before.contains_key(entries[w.1 as int].client_req_id)
        &&& !has_slot(before[entries[w.1 as int].client_req_id], w.0)
    } by {
        assert(order.contains(order[i]));
        assert(found.waiting.contains(order[i]));
        let v = choose|v: int| 0 <= v < found.waiting.len() && found.waiting[v] == order[i];
        assert(found.waiting[v] == order[i]);
    }
    lemma_assign_order(found, before, entries, order, m);
    let f = found.seqs.len() as int;
    let a = out.seqs[k];
    let b = out.seqs[l];
    if k < f {
        assert(a == found.seqs[k]);
        assert(was_known(before, a));
    } else {
        assert(order[k - f].1 == a.entry_idx);
        assert(!was_known(before, a));
    }
    if l < f {
        assert(b == found.seqs[l]);
    } else {
        assert(order[l - f].1 == b.entry_idx);
        assert(!was_known(before, b));
    }
    if k >= f {
        assert(leq(order[k - f], order[l - f]));
        assert(order[k - f] != order[l - f]);
    }
}

proof fn lemma_failed_stays(
    found: CheckOutView,
    entries: Seq<LogitsEntryView>,
    order: Seq<(ReqId, usize)>,
    m: int,
)
    requires
        found.failed is Some,
    ensures
        found.assign_all(entries, order, m).failed is Some,
    decreases m,
{
    if m > 0 {
        lemma_failed_stays(found, entries, order, m - 1);
    }
}

/// The report of a failure: no output, the error, and all logs of the request and of the sequence
/// with the error behind them.
pub open spec fn is_report(
    report: StepResultsView,
    rd: ReqDataView,
    req_id: ReqId,
    ps: PendingSeqView,
    error: Seq<char>,
) -> bool {
    &&& report.response.req_id == req_id
    &&& report.response.sequence_idx == ps.llg_idx as u32
    &&& report.response.finish_reason == Some(EngineFinishReason::Unknown)
    &&& report.response.error == Some(error)
    &&& report.response.is_req_final
    &&& report.response.logprobs is None
    &&& report.response.tokens.len() == 0
    &&& report.response.generation_logits is None
    &&& report.logs == rd.logs + pending_logs(*ps.llg) + ("\nWarning: "@ + error + "\n"@)
    &&& report.final_llg is None
}

/// A sequence without an error that comes back to a running request: its constraint, with its logs
/// handed over, is in its slot again, and nothing else of the request changes.
pub open spec fn is_back(rd: ReqDataView, post: ReqDataView, ps: PendingSeqView) -> bool {
    &&& post.llgs.len() == rd.llgs.len()
    &&& post.llgs[ps.llg_idx as int] == Some(Box::new(flushed(*ps.llg)))
    &&& forall|i: int|
        0 <= i < rd.llgs.len() && i != ps.llg_idx ==> #[trigger] post.llgs[i] == rd.llgs[i]
    &&& post.logs == rd.logs + pending_logs(*ps.llg)
    &&& post.req_id == rd.req_id
    &&& post.client_req_id == rd.client_req_id
    &&& post.channel == rd.channel
    &&& post.offered == rd.offered
    &&& post.sent == rd.sent
    &&& post.llg_infos == rd.llg_infos
    &&& post.min_p == rd.min_p
    &&& post.prompt_len == rd.prompt_len
    &&& post.is_run == rd.is_run
}

/// How a sequence comes back to its request. If the request is gone, nothing happens. Without an
/// error its constraint is put back. With one, its client is to get a report that takes all logs
/// along. No other client, and no id, changes.
pub proof fn law_sequence_comes_back<S>(
    state: ExecutorView<S>,
    entry: LogitsEntryView,
    ps: PendingSeqView,
    other: ClientReqId,
)
    requires
        other != entry.client_req_id,
        state.can_take_back(entry.client_req_id, ps),
    ensures
        ({
            let client = entry.client_req_id;
            let rd = state.req_data[client];
            let post = state.taken_back(client, ps);
            let report = state.back_report(entry, ps);
            &&& !state.req_data.contains_key(client) ==> post == state && report is None
            &&& state.req_data.contains_key(client) && ps.error is None ==> {
                &&& post.req_data.contains_key(client)
                &&& is_back(rd, post.req_data[client], ps)
                &&& report is None
            }
            &&& state.req_data.contains_key(client) && ps.error is Some ==> {
                &&& post.req_data.contains_key(client)
                &&& post.req_data[client].logs.len() == 0
                &&& post.req_data[client] == ReqDataView { logs: post.req_data[client].logs, ..rd }
                &&& report matches Some(message)
                &&& is_report(message, rd, entry.req_id, ps, ps.error->0)
            }
            &&& same_client(state, post, other)
            &&& post.req_to_client == state.req_to_client
            &&& post.draft_req_to_client == state.draft_req_to_client
            &&& post.draft_req_data == state.draft_req_data
            &&& post.client_to_init == state.client_to_init
            &&& post.closed == state.closed
            &&& same_setup(state, post)
        }),
{
}

/// A sequence cannot come back only if its request still runs, it has no error, and the request
/// has no such slot.
pub proof fn law_when_sequences_come_back<S>(
    state: ExecutorView<S>,
    client: ClientReqId,
    ps: PendingSeqView,
)
    ensures
        !state.can_take_back(client, ps) <==> {
            &&& state.req_data.contains_key(client)
            &&& ps.error is None
            &&& ps.llg_idx >= state.req_data[client].llgs.len()
        },
{
}

/// Checking in one sequence of a batch. Its entry, and no other, gets its answer, and keeps its ids
/// and tokens. Then it comes back; if that ends with a report, its client is handed the report, the
/// request that the engine knows under the sequence's id is forgotten, and the target model is to
/// cancel that id.
pub proof fn law_one_sequence_checked_in<S>(
    st: CheckInView<S>,
    ps: PendingSeqView,
    i: usize,
    sent: bool,
    other: ClientReqId,
    other_id: ReqId,
)
    requires
        st.failed is None,
        ps.entry_idx < st.entries.len(),
        other_id != st.entries[ps.entry_idx as int].req_id,
        other != st.entries[ps.entry_idx as int].client_req_id,
        st.state.req_to_client.contains_key(st.entries[ps.entry_idx as int].req_id) ==> other
            != st.state.req_to_client[st.entries[ps.entry_idx as int].req_id],
    ensures
        ({
            let post = st.check_in(ps, i, sent);
            let entry = st.entries[ps.entry_idx as int];
            let client = entry.client_req_id;
            let rd = st.state.req_data[client];
            let now = post.entries[ps.entry_idx as int];
            let misfit = st.state.req_data.contains_key(client) && ps.error is None && ps.llg_idx
                >= rd.llgs.len();
            &&& post.entries.len() == st.entries.len()
            &&& now.out_mask == ps.entry.out_mask
            &&& now.req_id == entry.req_id
            &&& now.client_req_id == entry.client_req_id
            &&& now.tokens == entry.tokens
            &&& forall|j: int|
                0 <= j < st.entries.len() && j != ps.entry_idx ==> #[trigger] post.entries[j]
                    == st.entries[j]
            &&& misfit ==> post.failed == Some(i) && post.state == st.state && post.cancels
                == st.cancels && post.told == st.told
            &&& !misfit ==> post.failed is None
            &&& !st.state.req_data.contains_key(client) ==> post.state == st.state && post.cancels
                == st.cancels && post.told == st.told
            &&& st.state.req_data.contains_key(client) && ps.error is None && !misfit ==> {
                &&& post.state.req_data.contains_key(client)
                &&& is_back(rd, post.state.req_data[client], ps)
                &&& post.state.req_to_client == st.state.req_to_client
                &&& post.state.client_to_init == st.state.client_to_init
                &&& post.state.closed == st.state.closed
                &&& post.cancels == st.cancels
                &&& post.told == st.told
            }
            &&& st.state.req_data.contains_key(client) && ps.error is Some ==> {
                let told = post.told.last();
                &&& post.cancels == st.cancels.push(
                    CancelCall { model: Model::Target, req_id: entry.req_id },
                )
                &&& post.told.len() == st.told.len() + 1
                &&& forall|j: int|
                    0 <= j < st.told.len() ==> #[trigger] post.told[j] == st.told[j]
                &&& told.channel == rd.channel
                &&& told.offered.len() == rd.offered.len() + 1
                &&& told.offered.drop_last() =~= rd.offered
                &&& is_report(told.offered.last(), rd, entry.req_id, ps, ps.error->0)
                &&& sent ==> told.sent == rd.sent.push(told.offered.last())
                &&& !sent ==> told.sent == rd.sent
                &&& told.logs.len() == 0
                &&& !post.state.req_to_client.contains_key(entry.req_id)
                &&& !st.state.req_to_client.contains_key(entry.req_id) ==> {
                    &&& post.state.req_data.contains_key(client)
                    &&& post.state.req_data[client] == told
                    &&& post.state.closed == st.state.closed
                }
                &&& st.state.req_to_client.contains_key(entry.req_id)
                    && st.state.req_to_client[entry.req_id] == client ==> {
                    &&& !post.state.req_data.contains_key(client)
                    &&& !post.state.client_to_init.contains_key(client)
                    &&& post.state.closed.len() == st.state.closed.len() + 1
                    &&& post.state.closed.last().channel == told.channel
                    &&& post.state.closed.last().offered == told.offered
                    &&& post.state.closed.last().sent == told.sent
                }
            }
            &&& same_client(st.state, post.state, other)
            &&& same_target_id(st.state, post.state, other_id)
            &&& post.state.draft_req_to_client == st.state.draft_req_to_client
            &&& same_setup(st.state, post.state)
        }),
{
}

/// A batch is checked in sequence by sequence, in its order, from the entries and requests as they
/// are, until one cannot go back: then nothing more happens.
pub proof fn law_batch_checked_in_order<S>(
    state: ExecutorView<S>,
    entries: Seq<LogitsEntryView>,
    seqs: Seq<PendingSeqView>,
    sent: Seq<bool>,
    n: int,
    st: CheckInView<S>,
    ps: PendingSeqView,
    told: bool,
)
    requires
        0 <= n < seqs.len() <= usize::MAX,
    ensures
        ({
            let start = CheckInView::start(state, entries);
            &&& start.state == state
            &&& start.entries == entries
            &&& start.cancels.len() == 0
            &&& start.told.len() == 0
            &&& start.failed is None
            &&& start.check_in_all(seqs, sent, 0) == start
            &&& start.check_in_all(seqs, sent, n + 1) == start.check_in_all(
                seqs,
                sent,
                n,
            ).check_in(seqs[n], n as usize, sent[n])
            &&& batch_checked_in(state, entries, seqs, sent) == start.check_in_all(
                seqs,
                sent,
                seqs.len() as int,
            )
        }),
        st.failed is Some ==> st.check_in(ps, n as usize, told) == st,
        st.failed is None && ps.entry_idx >= st.entries.len() ==> st.check_in(ps, n as usize, told)
            == (CheckInView { failed: Some(n as usize), ..st }),
{
}

/// What checking a batch in gives: the requests and entries, the ids to cancel or the sequence that
/// could not go back; and whoever was told is on record.
pub proof fn law_check_in_gives<S>(
    end: CheckInView<S>,
    state: ExecutorView<S>,
    entries: Seq<LogitsEntryView>,
    res: Result<Vec<CancelCall>, usize>,
)
    requires
        end.gives(state, entries, res),
    ensures
        state == end.state,
        entries == end.entries,
        res matches Ok(cancels) ==> end.failed is None && cancels@ == end.cancels,
        res matches Err(i) ==> end.failed == Some(i),
        forall|k: int| 0 <= k < end.told.len() ==> (#[trigger] end.told[k]).on_record(),
{
}

} // verus!
