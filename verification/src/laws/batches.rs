//! Laws of checking batches of sequences out and in.
use vstd::prelude::*;
use vstd::relations::sorted_by;

use crate::executor::logits::{
    assignment_order, batch_checked_in, batch_checked_out, lemma_waits_before_total, waits_before,
    CheckInView, CheckOutView,
};
use crate::executor::rounds::{AcceptanceSample, TargetActionView};
use crate::executor::{CancelCall, ExecutorView, PendingRequestView};
use crate::llg::{flushed, pending_logs};
use crate::pending::{LogitsEntryView, PendingSeqView};
use crate::request::{ConstraintInfo, ReqDataView};
use crate::types::{ClientReqId, ReqId, ResponseChunkView};

verus! {

impl ReqDataView {
    /// Between `before` and now, constraints have left their slots or come back, and sequences
    /// have been given slots. Nothing else has changed.
    pub open spec fn grown_from(self, before: ReqDataView) -> bool {
        &&& self == ReqDataView { llgs: self.llgs, llg_infos: self.llg_infos, ..before }
        &&& self.llgs.len() == before.llgs.len()
        &&& before.llg_infos.is_prefix_of(self.llg_infos)
    }
}

/// One of the sequences is that in a slot of a client.
pub open spec fn is_out(seqs: Seq<PendingSeqView>, client: ClientReqId, slot: int) -> bool {
    exists|k: int|
        0 <= k < seqs.len() && (#[trigger] seqs[k]).entry.client_req_id == client
            && seqs[k].llg_idx == slot
}

/// A checked-out sequence belongs to its entry, and to the slot that its request id has.
pub open spec fn out_properly(
    ps: PendingSeqView,
    before: Map<ClientReqId, ReqDataView>,
    now: Map<ClientReqId, ReqDataView>,
    entries: Seq<LogitsEntryView>,
) -> bool {
    let client = ps.entry.client_req_id;
    let slot = ps.llg_idx as int;
    &&& ps.entry_idx < entries.len()
    &&& ps.entry == entries[ps.entry_idx as int]
    &&& before.contains_key(client)
    &&& before[client].has_llg(slot)
    &&& ps.llg == before[client].llgs[slot]->0
    &&& ps.prompt_len == before[client].prompt_len
    &&& ps.is_run == before[client].is_run
    &&& ps.min_p == before[client].min_p
    &&& !ps.stop
    &&& ps.error is None
    &&& !now[client].has_llg(slot)
    &&& slot < now[client].llg_infos.len()
    &&& now[client].llg_infos[slot].req_id == ps.entry.req_id
}

impl CheckOutView {
    /// What holds all the time while a batch is being checked out.
    pub open spec fn inv(
        self,
        before: Map<ClientReqId, ReqDataView>,
        entries: Seq<LogitsEntryView>,
    ) -> bool {
        &&& self.data.dom() == before.dom()
        &&& forall|c: ClientReqId| #[trigger]
            before.contains_key(c) ==> self.data[c].grown_from(before[c])
        &&& forall|k: int|
            0 <= k < self.seqs.len() ==> out_properly(
                #[trigger] self.seqs[k],
                before,
                self.data,
                entries,
            )
        &&& forall|c: ClientReqId, slot: int|
            before.contains_key(c) && 0 <= slot < before[c].llgs.len() ==> #[trigger]
                self.data[c].llgs[slot] == before[c].llgs[slot] || is_out(self.seqs, c, slot)
        &&& forall|k: int, l: int|
            0 <= k < l < self.seqs.len() ==> !same_slot(
                #[trigger] self.seqs[k],
                #[trigger] self.seqs[l],
            )
        &&& forall|k: int|
            0 <= k < self.waiting.len() ==> (#[trigger] self.waiting[k]).1 < entries.len()
                && self.waiting[k].0 == entries[self.waiting[k].1 as int].req_id
                && before.contains_key(entries[self.waiting[k].1 as int].client_req_id)
    }
}

/// Two sequences come from one slot.
pub open spec fn same_slot(a: PendingSeqView, b: PendingSeqView) -> bool {
    a.entry.client_req_id == b.entry.client_req_id && a.llg_idx == b.llg_idx
}

proof fn lemma_take_slot_inv(
    st: CheckOutView,
    before: Map<ClientReqId, ReqDataView>,
    entries: Seq<LogitsEntryView>,
    idx: usize,
    slot: int,
)
    requires
        st.inv(before, entries),
        idx < entries.len(),
        before.contains_key(entries[idx as int].client_req_id),
        before[entries[idx as int].client_req_id].llgs.len() <= usize::MAX,
        0 <= slot < st.data[entries[idx as int].client_req_id].llg_infos.len(),
        st.data[entries[idx as int].client_req_id].llg_infos[slot].req_id
            == entries[idx as int].req_id,
        st.take_slot(entries[idx as int], idx, slot).failed is None,
    ensures
        st.take_slot(entries[idx as int], idx, slot).inv(before, entries),
{
    let entry = entries[idx as int];
    let client = entry.client_req_id;
    let post = st.take_slot(entry, idx, slot);
    if st.data[client].has_llg(slot) {
        let n = st.seqs.len() as int;
        assert(post.data.dom() =~= before.dom());
        assert forall|k: int| 0 <= k < post.seqs.len() implies out_properly(
            #[trigger] post.seqs[k],
            before,
            post.data,
            entries,
        ) by {
            if k < n {
                assert(post.seqs[k] == st.seqs[k]);
            } else {
                assert(st.data[client].llgs[slot] == before[client].llgs[slot] || is_out(
                    st.seqs,
                    client,
                    slot,
                ));
            }
        }
        assert forall|c: ClientReqId, s: int|
            before.contains_key(c) && 0 <= s < before[c].llgs.len() implies #[trigger]
                post.data[c].llgs[s] == before[c].llgs[s] || is_out(post.seqs, c, s) by {
            if is_out(st.seqs, c, s) {
                let k = choose|k: int|
                    0 <= k < st.seqs.len() && (#[trigger] st.seqs[k]).entry.client_req_id == c
                        && st.seqs[k].llg_idx == s;
                assert(post.seqs[k] == st.seqs[k]);
            } else if c == client && s == slot {
                assert(post.seqs[n].llg_idx == s);
            } else {
                assert(st.data[c].llgs[s] == before[c].llgs[s] || is_out(st.seqs, c, s));
            }
        }
        assert forall|k: int, l: int| 0 <= k < l < post.seqs.len() implies !same_slot(
            #[trigger] post.seqs[k],
            #[trigger] post.seqs[l],
        ) by {
            assert(post.seqs[k] == st.seqs[k]);
            if l < n {
                assert(post.seqs[l] == st.seqs[l]);
            } else {
                assert(out_properly(st.seqs[k], before, st.data, entries));
            }
        }
    }
}

/// The slots of the requests can be counted.
pub open spec fn countable(data: Map<ClientReqId, ReqDataView>) -> bool {
    forall|c: ClientReqId| #[trigger] data.contains_key(c) ==> data[c].llgs.len() <= usize::MAX
}

/// One of the sequences is that of an entry.
pub open spec fn has_entry(seqs: Seq<PendingSeqView>, idx: int) -> bool {
    exists|k: int| 0 <= k < seqs.len() && (#[trigger] seqs[k]).entry_idx == idx
}

/// From position `from` on, an entry waits for a slot.
pub open spec fn waits(waiting: Seq<(ReqId, usize)>, from: int, idx: int) -> bool {
    exists|k: int| from <= k < waiting.len() && (#[trigger] waiting[k]).1 == idx
}

/// Each of the first `n` entries that belong to a known client is either checked out or, from
/// position `from` on, still waiting, and that once.
pub open spec fn covers(
    seqs: Seq<PendingSeqView>,
    waiting: Seq<(ReqId, usize)>,
    from: int,
    before: Map<ClientReqId, ReqDataView>,
    entries: Seq<LogitsEntryView>,
    n: int,
) -> bool {
    &&& forall|k: int| 0 <= k < seqs.len() ==> (#[trigger] seqs[k]).entry_idx < n
    &&& forall|k: int| from <= k < waiting.len() ==> (#[trigger] waiting[k]).1 < n
    &&& forall|k: int, l: int|
        0 <= k < l < seqs.len() ==> (#[trigger] seqs[k]).entry_idx != (
        #[trigger] seqs[l]).entry_idx
    &&& forall|k: int, l: int|
        from <= k < l < waiting.len() ==> (#[trigger] waiting[k]).1 != (#[trigger] waiting[l]).1
    &&& forall|k: int, l: int|
        0 <= k < seqs.len() && from <= l < waiting.len() ==> (#[trigger] seqs[k]).entry_idx != (
        #[trigger] waiting[l]).1
    &&& forall|idx: int|
        0 <= idx < n && before.contains_key((#[trigger] entries[idx]).client_req_id) ==> has_entry(
            seqs,
            idx,
        ) || waits(waiting, from, idx)
}

/// What holds after the first `n` entries have been looked up.
proof fn lemma_look_up_inv(
    before: Map<ClientReqId, ReqDataView>,
    entries: Seq<LogitsEntryView>,
    n: int,
)
    requires
        countable(before),
        0 <= n <= entries.len() <= usize::MAX,
        CheckOutView::start(before).look_up_all(entries, n).failed is None,
    ensures
        CheckOutView::start(before).look_up_all(entries, n).inv(before, entries),
        ({
            let st = CheckOutView::start(before).look_up_all(entries, n);
            covers(st.seqs, st.waiting, 0, before, entries, n)
        }),
        forall|c: ClientReqId| #[trigger]
            before.contains_key(c) ==> CheckOutView::start(before).look_up_all(
                entries,
                n,
            ).data[c].llg_infos == before[c].llg_infos,
    decreases n,
{
    let start = CheckOutView::start(before);
    if n > 0 {
        let st = start.look_up_all(entries, n - 1);
        let post = start.look_up_all(entries, n);
        let idx = (n - 1) as usize;
        let entry = entries[n - 1];
        lemma_look_up_inv(before, entries, n - 1);
        if before.contains_key(entry.client_req_id) {
            let rd = st.data[entry.client_req_id];
            rd.llg_infos.index_of_first_ensures(ConstraintInfo { req_id: entry.req_id });
            match rd.slot_of(entry.req_id) {
                Some(slot) => {
                    lemma_take_slot_inv(st, before, entries, idx, slot);
                    assert(post.seqs.last().entry_idx == idx);
                    assert forall|i: int|
                        0 <= i < n && before.contains_key(
                            (#[trigger] entries[i]).client_req_id,
                        ) implies has_entry(post.seqs, i) || waits(post.waiting, 0, i) by {
                        if i < n - 1 && has_entry(st.seqs, i) {
                            let k = choose|k: int|
                                0 <= k < st.seqs.len() && (#[trigger] st.seqs[k]).entry_idx == i;
                            assert(post.seqs[k].entry_idx == i);
                        }
                    }
                },
                None => {
                    assert(post.waiting.last().1 == idx);
                    assert forall|i: int|
                        0 <= i < n && before.contains_key(
                            (#[trigger] entries[i]).client_req_id,
                        ) implies has_entry(post.seqs, i) || waits(post.waiting, 0, i) by {
                        if i < n - 1 && waits(st.waiting, 0, i) {
                            let k = choose|k: int|
                                0 <= k < st.waiting.len() && (#[trigger] st.waiting[k]).1 == i;
                            assert(post.waiting[k].1 == i);
                        }
                    }
                },
            }
        }
    }
}

/// The slots that a request has gained are in the order of their request ids, and none of these
/// is above `bound`.
pub open spec fn gained_in_order(now: ReqDataView, before: ReqDataView, bound: ReqId) -> bool {
    &&& forall|i: int|
        before.llg_infos.len() <= i < now.llg_infos.len() ==> (#[trigger] now.llg_infos[i]).req_id
            <= bound
    &&& forall|i: int, j: int|
        before.llg_infos.len() <= i < j < now.llg_infos.len() ==> (
        #[trigger] now.llg_infos[i]).req_id <= (#[trigger] now.llg_infos[j]).req_id
}

/// `order` has what `waiting` has, each as often, and in order.
proof fn lemma_assignment_order(
    st: CheckOutView,
    before: Map<ClientReqId, ReqDataView>,
    entries: Seq<LogitsEntryView>,
)
    requires
        st.inv(before, entries),
        covers(st.seqs, st.waiting, 0, before, entries, entries.len() as int),
    ensures
        covers(
            st.seqs,
            assignment_order(st.waiting),
            0,
            before,
            entries,
            entries.len() as int,
        ),
        forall|k: int|
            0 <= k < assignment_order(st.waiting).len() ==> st.waiting.contains(
                #[trigger] assignment_order(st.waiting)[k],
            ),
        forall|k: int, l: int|
            0 <= k < l < assignment_order(st.waiting).len() ==> waits_before(
                #[trigger] assignment_order(st.waiting)[k],
                #[trigger] assignment_order(st.waiting)[l],
            ),
{
    let waiting = st.waiting;
    let order = assignment_order(waiting);
    let n = entries.len() as int;
    let leq = |a: (ReqId, usize), b: (ReqId, usize)| waits_before(a, b);
    lemma_waits_before_total();
    waiting.lemma_sort_by_ensures(leq);
    assert(sorted_by(order, leq));
    assert forall|k: int, l: int| 0 <= k < l < order.len() implies waits_before(
        #[trigger] order[k],
        #[trigger] order[l],
    ) by {
        assert(leq(order[k], order[l]));
    }
    assert forall|k: int| 0 <= k < order.len() implies waiting.contains(#[trigger] order[k]) by {
        assert(order.contains(order[k]));
    }
    assert(waiting.no_duplicates());
    waiting.lemma_multiset_has_no_duplicates();
    order.lemma_multiset_has_no_duplicates_conv();
    assert forall|k: int| 0 <= k < order.len() implies (#[trigger] order[k]).1 < n && order[k].0
        == entries[order[k].1 as int].req_id by {
        let w = choose|w: int| 0 <= w < waiting.len() && waiting[w] == order[k];
        assert(waiting[w] == order[k]);
    }
    assert forall|k: int, l: int| 0 <= k < l < order.len() implies (#[trigger] order[k]).1 != (
    #[trigger] order[l]).1 by {
        if order[k].1 == order[l].1 {
            assert(order[k] == order[l]);
        }
    }
    assert forall|k: int, l: int|
        0 <= k < st.seqs.len() && 0 <= l < order.len() implies (
    #[trigger] st.seqs[k]).entry_idx != (#[trigger] order[l]).1 by {
        let w = choose|w: int| 0 <= w < waiting.len() && waiting[w] == order[l];
        assert(st.seqs[k].entry_idx != waiting[w].1);
    }
    assert forall|idx: int|
        0 <= idx < n && before.contains_key(
            (#[trigger] entries[idx]).client_req_id,
        ) implies has_entry(st.seqs, idx) || waits(order, 0, idx) by {
        if waits(waiting, 0, idx) {
            let w = choose|w: int| 0 <= w < waiting.len() && (#[trigger] waiting[w]).1 == idx;
            vstd::seq_lib::to_multiset_contains(waiting, waiting[w]);
            vstd::seq_lib::to_multiset_contains(order, waiting[w]);
            assert(waiting.contains(waiting[w]));
            let k = choose|k: int| 0 <= k < order.len() && order[k] == waiting[w];
            assert(order[k].1 == idx);
        }
    }
}

/// What holds after the first `m` waiting entries have got their slots.
proof fn lemma_assign_inv(
    found: CheckOutView,
    order: Seq<(ReqId, usize)>,
    before: Map<ClientReqId, ReqDataView>,
    entries: Seq<LogitsEntryView>,
    m: int,
)
    requires
        countable(before),
        found.inv(before, entries),
        found.failed is None,
        forall|c: ClientReqId| #[trigger]
            before.contains_key(c) ==> found.data[c].llg_infos == before[c].llg_infos,
        covers(found.seqs, order, 0, before, entries, entries.len() as int),
        forall|k: int| 0 <= k < order.len() ==> found.waiting.contains(#[trigger] order[k]),
        forall|k: int, l: int|
            0 <= k < l < order.len() ==> waits_before(#[trigger] order[k], #[trigger] order[l]),
        0 <= m <= order.len(),
        found.assign_all(entries, order, m).failed is None,
    ensures
        found.assign_all(entries, order, m).inv(before, entries),
        covers(
            found.assign_all(entries, order, m).seqs,
            order,
            m,
            before,
            entries,
            entries.len() as int,
        ),
        forall|c: ClientReqId| #[trigger]
            before.contains_key(c) ==> gained_in_order(
                found.assign_all(entries, order, m).data[c],
                before[c],
                if m > 0 {
                    order[m - 1].0
                } else {
                    0
                },
            ),
    decreases m,
{
    if m > 0 {
        let st = found.assign_all(entries, order, m - 1);
        let post = found.assign_all(entries, order, m);
        lemma_assign_inv(found, order, before, entries, m - 1);
        let idx = order[m - 1].1;
        let entry = entries[idx as int];
        let client = entry.client_req_id;
        let w = choose|w: int| 0 <= w < found.waiting.len() && found.waiting[w] == order[m - 1];
        assert(found.waiting[w].1 == idx);
        let rd = st.data[client];
        let slot = rd.llg_infos.len() as int;
        let mid = CheckOutView {
            data: st.data.insert(client, rd.with_info(entry.req_id)),
            ..st
        };
        assert(mid.inv(before, entries)) by {
            assert(mid.data.dom() =~= before.dom());
            assert(mid.data[client].grown_from(before[client])) by {
                assert(before[client].llg_infos.is_prefix_of(rd.llg_infos));
                assert(before[client].llg_infos =~= mid.data[client].llg_infos.subrange(
                    0,
                    before[client].llg_infos.len() as int,
                )) by {
                    assert(before[client].llg_infos =~= rd.llg_infos.subrange(
                        0,
                        before[client].llg_infos.len() as int,
                    ));
                }
            }
            assert forall|k: int| 0 <= k < mid.seqs.len() implies out_properly(
                #[trigger] mid.seqs[k],
                before,
                mid.data,
                entries,
            ) by {
                assert(out_properly(st.seqs[k], before, st.data, entries));
            }
            assert forall|c: ClientReqId, s: int|
                before.contains_key(c) && 0 <= s < before[c].llgs.len() implies #[trigger]
                    mid.data[c].llgs[s] == before[c].llgs[s] || is_out(mid.seqs, c, s) by {
                assert(st.data[c].llgs[s] == before[c].llgs[s] || is_out(st.seqs, c, s));
            }
        }
        lemma_take_slot_inv(mid, before, entries, idx, slot);
        assert(post.seqs.last().entry_idx == idx);
        assert forall|i: int|
            0 <= i < entries.len() && before.contains_key(
                (#[trigger] entries[i]).client_req_id,
            ) implies has_entry(post.seqs, i) || waits(order, m, i) by {
            if has_entry(st.seqs, i) {
                let k = choose|k: int|
                    0 <= k < st.seqs.len() && (#[trigger] st.seqs[k]).entry_idx == i;
                assert(post.seqs[k].entry_idx == i);
            } else {
                let k = choose|k: int| m - 1 <= k < order.len() && (#[trigger] order[k]).1 == i;
                assert(order[k].1 == i);
            }
        }
        if m > 1 {
            assert(waits_before(order[m - 2], order[m - 1]));
        }
    }
}

/// A batch that could be checked out is checked out well: each entry of a known client is there
/// once, with the constraint that was in the slot that its request id has; no two sequences share
/// a slot; and the constraints of all other slots have stayed where they were.
pub proof fn law_check_out(
    before: Map<ClientReqId, ReqDataView>,
    entries: Seq<LogitsEntryView>,
)
    requires
        countable(before),
        entries.len() <= usize::MAX,
        batch_checked_out(before, entries).failed is None,
    ensures
        batch_checked_out(before, entries).inv(before, entries),
        forall|k: int, l: int|
            0 <= k < l < batch_checked_out(before, entries).seqs.len() ==> (
            #[trigger] batch_checked_out(before, entries).seqs[k]).entry_idx != (
            #[trigger] batch_checked_out(before, entries).seqs[l]).entry_idx,
        forall|idx: int|
            0 <= idx < entries.len() && before.contains_key(
                (#[trigger] entries[idx]).client_req_id,
            ) ==> has_entry(batch_checked_out(before, entries).seqs, idx),
{
    lemma_batch(before, entries);
}

/// A sequence keeps the slot that it once got, and sequences that get a slot in the same batch
/// get theirs in the order of their request ids.
pub proof fn law_slots(
    before: Map<ClientReqId, ReqDataView>,
    entries: Seq<LogitsEntryView>,
    client: ClientReqId,
    req_id: ReqId,
)
    requires
        countable(before),
        entries.len() <= usize::MAX,
        batch_checked_out(before, entries).failed is None,
        before.contains_key(client),
    ensures
        ({
            let now = batch_checked_out(before, entries).data[client];
            &&& before[client].slot_of(req_id) is Some ==> now.slot_of(req_id)
                == before[client].slot_of(req_id)
            &&& gained_in_order(now, before[client], u64::MAX)
        }),
{
    lemma_batch(before, entries);
    let now = batch_checked_out(before, entries).data[client];
    let info = ConstraintInfo { req_id };
    assert(now.grown_from(before[client]));
    before[client].llg_infos.index_of_first_ensures(info);
    now.llg_infos.index_of_first_ensures(info);
    if let Some(slot) = before[client].slot_of(req_id) {
        assert(now.llg_infos.subrange(0, before[client].llg_infos.len() as int)[slot] == info);
        assert(now.llg_infos[slot] == info);
        assert(now.llg_infos.contains(info));
        let other = now.slot_of(req_id)->0;
        if other < slot {
            assert(now.llg_infos.subrange(0, before[client].llg_infos.len() as int)[other]
                == now.llg_infos[other]);
        }
    }
}

proof fn lemma_batch(before: Map<ClientReqId, ReqDataView>, entries: Seq<LogitsEntryView>)
    requires
        countable(before),
        entries.len() <= usize::MAX,
        batch_checked_out(before, entries).failed is None,
    ensures
        batch_checked_out(before, entries).inv(before, entries),
        ({
            let found = CheckOutView::start(before).look_up_all(entries, entries.len() as int);
            let order = assignment_order(found.waiting);
            covers(
                batch_checked_out(before, entries).seqs,
                order,
                order.len() as int,
                before,
                entries,
                entries.len() as int,
            )
        }),
        forall|c: ClientReqId| #[trigger]
            before.contains_key(c) ==> gained_in_order(
                batch_checked_out(before, entries).data[c],
                before[c],
                u64::MAX,
            ),
{
    let n = entries.len() as int;
    let found = CheckOutView::start(before).look_up_all(entries, n);
    let order = assignment_order(found.waiting);
    if found.failed is Some {
        lemma_assign_keeps_failure(found, entries, order, order.len() as int);
    }
    lemma_look_up_inv(before, entries, n);
    lemma_assignment_order(found, before, entries);
    lemma_assign_inv(found, order, before, entries, order.len() as int);
}

proof fn lemma_assign_keeps_failure(
    found: CheckOutView,
    entries: Seq<LogitsEntryView>,
    order: Seq<(ReqId, usize)>,
    m: int,
)
    requires
        found.failed is Some,
    ensures
        found.assign_all(entries, order, m).failed is Some,
    decreases m,
{
    if m > 0 {
        lemma_assign_keeps_failure(found, entries, order, m - 1);
    }
}

/// The sequences of a batch, after work has been done on them: none has failed.
pub open spec fn worked_on(out: Seq<PendingSeqView>, seqs: Seq<PendingSeqView>) -> bool {
    &&& seqs.len() == out.len()
    &&& forall|k: int|
        0 <= k < out.len() ==> (#[trigger] seqs[k]).entry_idx == out[k].entry_idx && seqs[k].llg_idx
            == out[k].llg_idx && seqs[k].error is None
}

/// What holds after the first `n` sequences of a batch have been checked in. `out` is the batch
/// as it was checked out.
pub open spec fn back_so_far<S>(
    out: CheckOutView,
    state: ExecutorView<S>,
    entries: Seq<LogitsEntryView>,
    seqs: Seq<PendingSeqView>,
    now: CheckInView<S>,
    n: int,
) -> bool {
    &&& now.failed is None
    &&& now.cancels == Seq::<CancelCall>::empty()
    &&& now.state.same_but_data(state)
    &&& now.state.req_data.dom() == out.data.dom()
    &&& forall|c: ClientReqId| #[trigger]
        out.data.contains_key(c) ==> {
            let rd = now.state.req_data[c];
            &&& rd == ReqDataView { llgs: rd.llgs, logs: rd.logs, ..out.data[c] }
            &&& rd.llgs.len() == out.data[c].llgs.len()
            &&& out.data[c].logs.is_prefix_of(rd.logs)
        }
    &&& forall|c: ClientReqId, slot: int|
        out.data.contains_key(c) && 0 <= slot < out.data[c].llgs.len() && !is_out(
            out.seqs.take(n),
            c,
            slot,
        ) ==> #[trigger] now.state.req_data[c].llgs[slot] == out.data[c].llgs[slot]
    &&& forall|k: int|
        0 <= k < n ==> now.state.req_data[out.seqs[k].entry.client_req_id].llgs[(
        #[trigger] seqs[k]).llg_idx as int] == Some(Box::new(flushed(*seqs[k].llg)))
    &&& now.entries.len() == entries.len()
    &&& forall|i: int|
        0 <= i < entries.len() ==> (#[trigger] now.entries[i]).client_req_id
            == entries[i].client_req_id && now.entries[i].req_id == entries[i].req_id
            && now.entries[i].tokens == entries[i].tokens
    &&& forall|i: int|
        0 <= i < entries.len() && !has_entry(out.seqs.take(n), i) ==> #[trigger] now.entries[i]
            == entries[i]
    &&& forall|k: int|
        0 <= k < n ==> now.entries[(#[trigger] seqs[k]).entry_idx as int].out_mask
            == seqs[k].entry.out_mask
}

proof fn lemma_back_so_far<S>(
    out: CheckOutView,
    before: Map<ClientReqId, ReqDataView>,
    state: ExecutorView<S>,
    entries: Seq<LogitsEntryView>,
    seqs: Seq<PendingSeqView>,
    sent: Seq<bool>,
    n: int,
)
    requires
        out.inv(before, entries),
        forall|k: int, l: int|
            0 <= k < l < out.seqs.len() ==> (#[trigger] out.seqs[k]).entry_idx != (
            #[trigger] out.seqs[l]).entry_idx,
        state.req_data == out.data,
        worked_on(out.seqs, seqs),
        0 <= n <= seqs.len(),
    ensures
        back_so_far(
            out,
            state,
            entries,
            seqs,
            CheckInView::start(state, entries).check_in_all(seqs, sent, n),
            n,
        ),
    decreases n,
{
    let start = CheckInView::start(state, entries);
    if n > 0 {
        let st = start.check_in_all(seqs, sent, n - 1);
        let now = start.check_in_all(seqs, sent, n);
        lemma_back_so_far(out, before, state, entries, seqs, sent, n - 1);
        let ps = seqs[n - 1];
        let orig = out.seqs[n - 1];
        let client = orig.entry.client_req_id;
        let slot = ps.llg_idx as int;
        assert(out_properly(orig, before, out.data, entries));
        assert(st.entries[ps.entry_idx as int].client_req_id == client);
        assert(out.seqs.take(n) =~= out.seqs.take(n - 1).push(orig));
        assert(now.state.req_data.dom() =~= out.data.dom());
        assert(now.state.req_data == st.state.req_data.insert(
            client,
            st.state.req_data[client].with_llg(slot, *ps.llg),
        ));
        assert forall|c: ClientReqId, s: int|
            out.data.contains_key(c) && 0 <= s < out.data[c].llgs.len() && !is_out(
                out.seqs.take(n),
                c,
                s,
            ) implies #[trigger] now.state.req_data[c].llgs[s] == out.data[c].llgs[s] by {
            assert(out.seqs.take(n)[n - 1] == orig);
            if is_out(out.seqs.take(n - 1), c, s) {
                let k = choose|k: int|
                    0 <= k < n - 1 && (#[trigger] out.seqs.take(
                        n - 1,
                    )[k]).entry.client_req_id == c && out.seqs.take(n - 1)[k].llg_idx == s;
                assert(out.seqs.take(n)[k] == out.seqs.take(n - 1)[k]);
            }
            assert(st.state.req_data[c].llgs[s] == out.data[c].llgs[s]);
        }
        assert forall|k: int| 0 <= k < n implies now.state.req_data[
        out.seqs[k].entry.client_req_id].llgs[(#[trigger] seqs[k]).llg_idx as int] == Some(
            Box::new(flushed(*seqs[k].llg)),
        ) by {
            if k < n - 1 {
                assert(out_properly(out.seqs[k], before, out.data, entries));
                assert(!same_slot(out.seqs[k], out.seqs[n - 1]));
            }
        }
        assert forall|i: int|
            0 <= i < entries.len() && !has_entry(out.seqs.take(n), i) implies
            #[trigger] now.entries[i] == entries[i] by {
            assert(out.seqs.take(n)[n - 1] == orig);
            if has_entry(out.seqs.take(n - 1), i) {
                let k = choose|k: int|
                    0 <= k < n - 1 && (#[trigger] out.seqs.take(n - 1)[k]).entry_idx == i;
                assert(out.seqs.take(n)[k] == out.seqs.take(n - 1)[k]);
            }
            assert(st.entries[i] == entries[i]);
        }
        assert forall|k: int| 0 <= k < n implies now.entries[(
        #[trigger] seqs[k]).entry_idx as int].out_mask == seqs[k].entry.out_mask by {
            if k < n - 1 {
                assert(out.seqs[k].entry_idx != out.seqs[n - 1].entry_idx);
                assert(out_properly(out.seqs[k], before, out.data, entries));
            }
        }
    }
}

/// Checking in undoes checking out. If no sequence of a batch has failed in between, all
/// constraints are back in the slots that they came from, each as the work has left it, and with
/// its logs handed over; no slot has gained or lost a constraint; no request is cancelled; and
/// each entry that was checked out has its answer, while the others have been left alone.
pub proof fn law_check_in_after_check_out<S>(
    state: ExecutorView<S>,
    entries: Seq<LogitsEntryView>,
    seqs: Seq<PendingSeqView>,
    sent: Seq<bool>,
)
    requires
        countable(state.req_data),
        entries.len() <= usize::MAX,
        batch_checked_out(state.req_data, entries).failed is None,
        worked_on(batch_checked_out(state.req_data, entries).seqs, seqs),
    ensures
        ({
            let out = batch_checked_out(state.req_data, entries);
            let during = ExecutorView { req_data: out.data, ..state };
            let back = batch_checked_in(during, entries, seqs, sent);
            &&& back_so_far(out, during, entries, seqs, back, seqs.len() as int)
            &&& forall|c: ClientReqId, slot: int|
                state.req_data.contains_key(c) ==> (
                #[trigger] back.state.req_data[c].has_llg(slot)) == state.req_data[c].has_llg(slot)
        }),
{
    let before = state.req_data;
    let out = batch_checked_out(before, entries);
    let during = ExecutorView { req_data: out.data, ..state };
    let back = batch_checked_in(during, entries, seqs, sent);
    let n = seqs.len() as int;
    law_check_out(before, entries);
    lemma_back_so_far(out, before, during, entries, seqs, sent, n);
    assert(out.seqs.take(n) =~= out.seqs);
    assert forall|c: ClientReqId, slot: int| before.contains_key(c) implies (
    #[trigger] back.state.req_data[c].has_llg(slot)) == before[c].has_llg(slot) by {
        assert(out.data[c].grown_from(before[c]));
        if 0 <= slot < before[c].llgs.len() {
            if is_out(out.seqs, c, slot) {
                let k = choose|k: int|
                    0 <= k < out.seqs.len() && (#[trigger] out.seqs[k]).entry.client_req_id == c
                        && out.seqs[k].llg_idx == slot;
                assert(out_properly(out.seqs[k], before, out.data, entries));
                assert(seqs[k].llg_idx == slot);
            } else {
                assert(out.data[c].llgs[slot] == before[c].llgs[slot]);
                assert(back.state.req_data[c].llgs[slot] == out.data[c].llgs[slot]);
            }
        }
    }
}

/// The number of the first `n` entries that belong to a client and have no slot yet.
pub open spec fn newcomers(
    before: Map<ClientReqId, ReqDataView>,
    entries: Seq<LogitsEntryView>,
    client: ClientReqId,
    n: int,
) -> nat
    decreases n,
{
    if n <= 0 {
        0
    } else {
        let entry = entries[n - 1];
        newcomers(before, entries, client, n - 1) + if entry.client_req_id == client
            && before[client].slot_of(entry.req_id) is None {
            1nat
        } else {
            0nat
        }
    }
}

/// No two entries of a batch are of one sequence.
pub open spec fn distinct_entries(entries: Seq<LogitsEntryView>) -> bool {
    forall|i: int, j: int|
        0 <= i < j < entries.len() && (#[trigger] entries[i]).client_req_id == (
        #[trigger] entries[j]).client_req_id ==> entries[i].req_id != entries[j].req_id
}

/// A batch as an engine asks for it: no sequence twice, and no more sequences of a request than
/// it has constraints, all of which are in their slots.
pub open spec fn reasonable(
    before: Map<ClientReqId, ReqDataView>,
    entries: Seq<LogitsEntryView>,
) -> bool {
    &&& forall|c: ClientReqId, slot: int|
        before.contains_key(c) && 0 <= slot < before[c].llgs.len() ==> (
        #[trigger] before[c].llgs[slot]) is Some
    &&& forall|c: ClientReqId| #[trigger]
        before.contains_key(c) ==> before[c].llg_infos.len() + newcomers(
            before,
            entries,
            c,
            entries.len() as int,
        ) <= before[c].llgs.len()
    &&& distinct_entries(entries)
}

/// The number of waiting entries that belong to a client.
spec fn waiting_of(
    waiting: Seq<(ReqId, usize)>,
    entries: Seq<LogitsEntryView>,
    client: ClientReqId,
) -> nat
    decreases waiting.len(),
{
    if waiting.len() == 0 {
        0
    } else {
        waiting_of(waiting.drop_last(), entries, client) + is_of(waiting.last(), entries, client)
    }
}

spec fn is_of(w: (ReqId, usize), entries: Seq<LogitsEntryView>, client: ClientReqId) -> nat {
    if entries[w.1 as int].client_req_id == client {
        1
    } else {
        0
    }
}

proof fn lemma_waiting_without(
    waiting: Seq<(ReqId, usize)>,
    entries: Seq<LogitsEntryView>,
    client: ClientReqId,
    i: int,
)
    requires
        0 <= i < waiting.len(),
    ensures
        waiting_of(waiting, entries, client) == waiting_of(waiting.remove(i), entries, client)
            + is_of(waiting[i], entries, client),
    decreases waiting.len(),
{
    if i == waiting.len() - 1 {
        assert(waiting.remove(i) =~= waiting.drop_last());
    } else {
        assert(waiting.remove(i).drop_last() =~= waiting.drop_last().remove(i));
        lemma_waiting_without(waiting.drop_last(), entries, client, i);
    }
}

/// How many entries of a client wait does not depend on their order.
proof fn lemma_waiting_reordered(
    a: Seq<(ReqId, usize)>,
    b: Seq<(ReqId, usize)>,
    entries: Seq<LogitsEntryView>,
    client: ClientReqId,
)
    requires
        a.to_multiset() == b.to_multiset(),
    ensures
        waiting_of(a, entries, client) == waiting_of(b, entries, client),
    decreases a.len(),
{
    broadcast use vstd::seq_lib::group_to_multiset_ensures;

    vstd::seq_lib::to_multiset_len(a);
    vstd::seq_lib::to_multiset_len(b);
    if a.len() > 0 {
        let last = a.len() - 1;
        assert(a.contains(a[last]));
        assert(b.to_multiset().count(a[last]) > 0);
        let i = choose|i: int| 0 <= i < b.len() && b[i] == a[last];
        assert(a.drop_last() =~= a.remove(last));
        lemma_waiting_without(b, entries, client, i);
        lemma_waiting_reordered(a.drop_last(), b.remove(i), entries, client);
    }
}

proof fn lemma_waiting_prefix(
    order: Seq<(ReqId, usize)>,
    entries: Seq<LogitsEntryView>,
    client: ClientReqId,
    m: int,
)
    requires
        0 <= m <= order.len(),
    ensures
        waiting_of(order.take(m), entries, client) <= waiting_of(order, entries, client),
    decreases order.len(),
{
    if m < order.len() {
        assert(order.drop_last().take(m) =~= order.take(m));
        lemma_waiting_prefix(order.drop_last(), entries, client, m);
    } else {
        assert(order.take(m) =~= order);
    }
}

/// Looking up a reasonable batch does not fail.
proof fn lemma_look_up_succeeds(
    before: Map<ClientReqId, ReqDataView>,
    entries: Seq<LogitsEntryView>,
    n: int,
)
    requires
        countable(before),
        reasonable(before, entries),
        0 <= n <= entries.len() <= usize::MAX,
    ensures
        CheckOutView::start(before).look_up_all(entries, n).failed is None,
        forall|c: ClientReqId| #[trigger]
            before.contains_key(c) ==> waiting_of(
                CheckOutView::start(before).look_up_all(entries, n).waiting,
                entries,
                c,
            ) == newcomers(before, entries, c, n),
    decreases n,
{
    let start = CheckOutView::start(before);
    if n > 0 {
        lemma_look_up_succeeds(before, entries, n - 1);
        lemma_look_up_inv(before, entries, n - 1);
        let st = start.look_up_all(entries, n - 1);
        let post = start.look_up_all(entries, n);
        let entry = entries[n - 1];
        let client = entry.client_req_id;
        if before.contains_key(client) {
            let rd = st.data[client];
            rd.llg_infos.index_of_first_ensures(ConstraintInfo { req_id: entry.req_id });
            if let Some(slot) = rd.slot_of(entry.req_id) {
                assert(rd.has_llg(slot)) by {
                    assert(rd.grown_from(before[client]));
                    assert(before[client].llgs[slot] is Some);
                    if is_out(st.seqs, client, slot) {
                        let k = choose|k: int|
                            0 <= k < st.seqs.len() && (
                            #[trigger] st.seqs[k]).entry.client_req_id == client
                                && st.seqs[k].llg_idx == slot;
                        assert(out_properly(st.seqs[k], before, st.data, entries));
                        assert(entries[st.seqs[k].entry_idx as int].req_id != entry.req_id);
                    } else {
                        assert(st.data[client].llgs[slot] == before[client].llgs[slot]);
                    }
                }
            } else {
                assert(post.waiting.drop_last() =~= st.waiting);
            }
        }
    }
}

/// Giving slots to a reasonable batch does not fail.
proof fn lemma_assign_succeeds(
    found: CheckOutView,
    order: Seq<(ReqId, usize)>,
    before: Map<ClientReqId, ReqDataView>,
    entries: Seq<LogitsEntryView>,
    m: int,
)
    requires
        countable(before),
        reasonable(before, entries),
        found.inv(before, entries),
        found.failed is None,
        forall|c: ClientReqId| #[trigger]
            before.contains_key(c) ==> found.data[c].llg_infos == before[c].llg_infos,
        forall|c: ClientReqId| #[trigger]
            before.contains_key(c) ==> waiting_of(order, entries, c) == newcomers(
                before,
                entries,
                c,
                entries.len() as int,
            ),
        covers(found.seqs, order, 0, before, entries, entries.len() as int),
        forall|k: int| 0 <= k < order.len() ==> found.waiting.contains(#[trigger] order[k]),
        forall|k: int, l: int|
            0 <= k < l < order.len() ==> waits_before(#[trigger] order[k], #[trigger] order[l]),
        0 <= m <= order.len(),
    ensures
        found.assign_all(entries, order, m).failed is None,
        forall|c: ClientReqId| #[trigger]
            before.contains_key(c) ==> found.assign_all(entries, order, m).data[c].llg_infos.len()
                == before[c].llg_infos.len() + waiting_of(order.take(m), entries, c),
    decreases m,
{
    if m > 0 {
        lemma_assign_succeeds(found, order, before, entries, m - 1);
        lemma_assign_inv(found, order, before, entries, m - 1);
        let st = found.assign_all(entries, order, m - 1);
        let w = choose|w: int| 0 <= w < found.waiting.len() && found.waiting[w] == order[m - 1];
        let idx = order[m - 1].1;
        assert(found.waiting[w].1 == idx);
        let client = entries[idx as int].client_req_id;
        let slot = st.data[client].llg_infos.len() as int;
        assert(order.take(m).drop_last() =~= order.take(m - 1));
        lemma_waiting_prefix(order, entries, client, m);
        assert(st.data[client].grown_from(before[client]));
        assert(before[client].llgs[slot] is Some);
        if is_out(st.seqs, client, slot) {
            let k = choose|k: int|
                0 <= k < st.seqs.len() && (#[trigger] st.seqs[k]).entry.client_req_id == client
                    && st.seqs[k].llg_idx == slot;
            assert(out_properly(st.seqs[k], before, st.data, entries));
        }
        assert(st.data[client].llgs[slot] == before[client].llgs[slot]);
    }
}

/// A batch as an engine asks for it can always be checked out.
pub proof fn law_check_out_succeeds(
    before: Map<ClientReqId, ReqDataView>,
    entries: Seq<LogitsEntryView>,
)
    requires
        countable(before),
        entries.len() <= usize::MAX,
        reasonable(before, entries),
    ensures
        batch_checked_out(before, entries).failed is None,
{
    let n = entries.len() as int;
    let found = CheckOutView::start(before).look_up_all(entries, n);
    let order = assignment_order(found.waiting);
    lemma_look_up_succeeds(before, entries, n);
    lemma_look_up_inv(before, entries, n);
    lemma_assignment_order(found, before, entries);
    lemma_waits_before_total();
    found.waiting.lemma_sort_by_ensures(
        |a: (ReqId, usize), b: (ReqId, usize)| waits_before(a, b),
    );
    assert forall|c: ClientReqId| #[trigger] before.contains_key(c) implies waiting_of(
        order,
        entries,
        c,
    ) == newcomers(before, entries, c, n) by {
        lemma_waiting_reordered(found.waiting, order, entries, c);
    }
    lemma_assign_succeeds(found, order, before, entries, order.len() as int);
}

impl ReqDataView {
    /// The slot table of a request: no request id is there twice, and there are no more of them
    /// than slots.
    pub open spec fn table_ok(self) -> bool {
        &&& forall|i: int, j: int|
            0 <= i < j < self.llg_infos.len() ==> (#[trigger] self.llg_infos[i]).req_id != (
            #[trigger] self.llg_infos[j]).req_id
        &&& self.llg_infos.len() <= self.llgs.len()
    }
}

/// The slot tables of all running requests are in order.
pub open spec fn tables_ok(data: Map<ClientReqId, ReqDataView>) -> bool {
    forall|c: ClientReqId| #[trigger] data.contains_key(c) ==> data[c].table_ok()
}

/// Only entries without a slot wait for one.
proof fn lemma_waiting_have_no_slot(
    before: Map<ClientReqId, ReqDataView>,
    entries: Seq<LogitsEntryView>,
    n: int,
)
    requires
        countable(before),
        0 <= n <= entries.len() <= usize::MAX,
        CheckOutView::start(before).look_up_all(entries, n).failed is None,
    ensures
        ({
            let waiting = CheckOutView::start(before).look_up_all(entries, n).waiting;
            forall|k: int|
                0 <= k < waiting.len() ==> before[entries[(
                #[trigger] waiting[k]).1 as int].client_req_id].slot_of(waiting[k].0) is None
        }),
    decreases n,
{
    if n > 0 {
        lemma_waiting_have_no_slot(before, entries, n - 1);
        lemma_look_up_inv(before, entries, n - 1);
        let st = CheckOutView::start(before).look_up_all(entries, n - 1);
        if before.contains_key(entries[n - 1].client_req_id) {
            assert(st.data[entries[n - 1].client_req_id].llg_infos
                == before[entries[n - 1].client_req_id].llg_infos);
        }
    }
}

/// The slots that a request has gained are those of the first `m` waiting entries.
spec fn gained_from(
    now: ReqDataView,
    before: ReqDataView,
    client: ClientReqId,
    order: Seq<(ReqId, usize)>,
    entries: Seq<LogitsEntryView>,
    m: int,
) -> bool {
    forall|i: int|
        before.llg_infos.len() <= i < now.llg_infos.len() ==> gained_by(
            (#[trigger] now.llg_infos[i]).req_id,
            client,
            order,
            entries,
            m,
        )
}

spec fn gained_by(
    req_id: ReqId,
    client: ClientReqId,
    order: Seq<(ReqId, usize)>,
    entries: Seq<LogitsEntryView>,
    m: int,
) -> bool {
    exists|k: int|
        0 <= k < m && (#[trigger] order[k]).0 == req_id
            && entries[order[k].1 as int].client_req_id == client
}

proof fn lemma_assign_tables(
    found: CheckOutView,
    order: Seq<(ReqId, usize)>,
    before: Map<ClientReqId, ReqDataView>,
    entries: Seq<LogitsEntryView>,
    m: int,
)
    requires
        countable(before),
        tables_ok(before),
        distinct_entries(entries),
        found.inv(before, entries),
        found.failed is None,
        forall|c: ClientReqId| #[trigger]
            before.contains_key(c) ==> found.data[c].llg_infos == before[c].llg_infos,
        covers(found.seqs, order, 0, before, entries, entries.len() as int),
        forall|k: int| 0 <= k < order.len() ==> found.waiting.contains(#[trigger] order[k]),
        forall|k: int, l: int|
            0 <= k < l < order.len() ==> waits_before(#[trigger] order[k], #[trigger] order[l]),
        forall|k: int|
            0 <= k < found.waiting.len() ==> before[entries[(
            #[trigger] found.waiting[k]).1 as int].client_req_id].slot_of(
                found.waiting[k].0,
            ) is None,
        0 <= m <= order.len(),
        found.assign_all(entries, order, m).failed is None,
    ensures
        tables_ok(found.assign_all(entries, order, m).data),
        forall|c: ClientReqId| #[trigger]
            before.contains_key(c) ==> gained_from(
                found.assign_all(entries, order, m).data[c],
                before[c],
                c,
                order,
                entries,
                m,
            ),
    decreases m,
{
    let post = found.assign_all(entries, order, m);
    lemma_assign_inv(found, order, before, entries, m);
    if m == 0 {
        assert forall|c: ClientReqId| #[trigger]
            post.data.contains_key(c) implies post.data[c].table_ok() by {
            assert(post.data.dom().contains(c));
            assert(before.contains_key(c));
            assert(post.data[c].grown_from(before[c]));
        }
    } else {
        let st = found.assign_all(entries, order, m - 1);
        lemma_assign_tables(found, order, before, entries, m - 1);
        lemma_assign_inv(found, order, before, entries, m - 1);
        let w = choose|w: int| 0 <= w < found.waiting.len() && found.waiting[w] == order[m - 1];
        let idx = order[m - 1].1;
        assert(found.waiting[w].1 == idx);
        let entry = entries[idx as int];
        let client = entry.client_req_id;
        let rd = st.data[client];
        let now = post.data[client];
        let n = rd.llg_infos.len() as int;
        assert(before.contains_key(client));
        assert(before.dom().contains(client));
        assert(st.data.contains_key(client));
        assert(rd.grown_from(before[client]));
        assert(now.llg_infos == rd.llg_infos.push(ConstraintInfo { req_id: entry.req_id }));
        before[client].llg_infos.index_of_first_ensures(ConstraintInfo { req_id: entry.req_id });
        assert forall|i: int| 0 <= i < n implies (#[trigger] now.llg_infos[i]).req_id
            != entry.req_id by {
            assert(now.llg_infos[i] == rd.llg_infos[i]);
            if i < before[client].llg_infos.len() {
                assert(rd.llg_infos.subrange(0, before[client].llg_infos.len() as int)[i]
                    == rd.llg_infos[i]);
                if rd.llg_infos[i].req_id == entry.req_id {
                    assert(before[client].llg_infos[i] == (ConstraintInfo {
                        req_id: entry.req_id,
                    }));
                    assert(before[client].llg_infos.contains(
                        ConstraintInfo { req_id: entry.req_id },
                    ));
                }
            } else {
                assert(gained_by(rd.llg_infos[i].req_id, client, order, entries, m - 1));
                let k = choose|k: int|
                    0 <= k < m - 1 && (#[trigger] order[k]).0 == rd.llg_infos[i].req_id
                        && entries[order[k].1 as int].client_req_id == client;
                let v = choose|v: int| 0 <= v < found.waiting.len() && found.waiting[v] == order[k];
                assert(found.waiting[v] == order[k]);
                assert(order[k].1 != order[m - 1].1);
                let a = order[k].1 as int;
                let b = idx as int;
                assert(entries[a].req_id != entries[b].req_id) by {
                    if a < b {
                        assert(entries[a].client_req_id == entries[b].client_req_id);
                    } else {
                        assert(entries[b].client_req_id == entries[a].client_req_id);
                    }
                }
            }
        }
        assert(now.table_ok()) by {
            assert forall|i: int, j: int| 0 <= i < j < now.llg_infos.len() implies (
            #[trigger] now.llg_infos[i]).req_id != (#[trigger] now.llg_infos[j]).req_id by {
                if j < n {
                    assert(rd.llg_infos[i].req_id != rd.llg_infos[j].req_id);
                }
            }
        }
        assert forall|c: ClientReqId| #[trigger]
            post.data.contains_key(c) implies post.data[c].table_ok() by {
            if c != client {
                assert(st.data.contains_key(c));
            }
        }
        assert forall|c: ClientReqId| #[trigger] before.contains_key(c) implies gained_from(
            post.data[c],
            before[c],
            c,
            order,
            entries,
            m,
        ) by {
            assert forall|i: int|
                before[c].llg_infos.len() <= i < post.data[c].llg_infos.len() implies gained_by(
                (#[trigger] post.data[c].llg_infos[i]).req_id,
                c,
                order,
                entries,
                m,
            ) by {
                if c == client && i == n {
                    assert(order[m - 1].0 == entry.req_id);
                } else {
                    assert(st.data[c].llg_infos[i] == post.data[c].llg_infos[i]);
                    assert(gained_by(st.data[c].llg_infos[i].req_id, c, order, entries, m - 1));
                    let k = choose|k: int|
                        0 <= k < m - 1 && (#[trigger] order[k]).0
                            == st.data[c].llg_infos[i].req_id
                            && entries[order[k].1 as int].client_req_id == c;
                    assert(order[k].0 == post.data[c].llg_infos[i].req_id);
                }
            }
        }
    }
}

/// The slot tables stay in order when a batch without repeated sequences is checked out, and each
/// sequence is checked out of the one slot that its request id has then: so it is the slot that it
/// had before, if it had one.
pub proof fn law_check_out_tables(
    before: Map<ClientReqId, ReqDataView>,
    entries: Seq<LogitsEntryView>,
)
    requires
        countable(before),
        entries.len() <= usize::MAX,
        tables_ok(before),
        distinct_entries(entries),
        batch_checked_out(before, entries).failed is None,
    ensures
        ({
            let out = batch_checked_out(before, entries);
            &&& tables_ok(out.data)
            &&& forall|k: int|
                0 <= k < out.seqs.len() ==> {
                    let ps = #[trigger] out.seqs[k];
                    let client = ps.entry.client_req_id;
                    let slot = Some(ps.llg_idx as int);
                    &&& out.data[client].slot_of(ps.entry.req_id) == slot
                    &&& before[client].slot_of(ps.entry.req_id) is Some
                        ==> before[client].slot_of(ps.entry.req_id) == slot
                }
        }),
{
    let n = entries.len() as int;
    let found = CheckOutView::start(before).look_up_all(entries, n);
    let order = assignment_order(found.waiting);
    let out = batch_checked_out(before, entries);
    if found.failed is Some {
        lemma_assign_keeps_failure(found, entries, order, order.len() as int);
    }
    lemma_look_up_inv(before, entries, n);
    lemma_waiting_have_no_slot(before, entries, n);
    lemma_assignment_order(found, before, entries);
    lemma_assign_tables(found, order, before, entries, order.len() as int);
    law_check_out(before, entries);
    assert forall|k: int| 0 <= k < out.seqs.len() implies {
        let ps = #[trigger] out.seqs[k];
        let client = ps.entry.client_req_id;
        let slot = Some(ps.llg_idx as int);
        &&& out.data[client].slot_of(ps.entry.req_id) == slot
        &&& before[client].slot_of(ps.entry.req_id) is Some ==> before[client].slot_of(
            ps.entry.req_id,
        ) == slot
    } by {
        let ps = out.seqs[k];
        let client = ps.entry.client_req_id;
        let info = ConstraintInfo { req_id: ps.entry.req_id };
        assert(out_properly(ps, before, out.data, entries));
        assert(before.dom().contains(client));
        assert(out.data.contains_key(client));
        let infos = out.data[client].llg_infos;
        infos.index_of_first_ensures(info);
        assert(infos[ps.llg_idx as int] == info);
        assert(infos.contains(info));
        law_slots(before, entries, client, ps.entry.req_id);
    }
}

/// The slot tables stay in order when a request is added, when a batch is checked in, and when a
/// response of the target model is handled.
pub proof fn law_tables_kept<S>(
    state: ExecutorView<S>,
    pending: PendingRequestView<S>,
    engine_req_id: ReqId,
    entries: Seq<LogitsEntryView>,
    seqs: Seq<PendingSeqView>,
    outcomes: Seq<bool>,
    resp: ResponseChunkView,
)
    requires
        tables_ok(state.req_data),
    ensures
        tables_ok(state.request_added(pending, engine_req_id).req_data),
        tables_ok(batch_checked_in(state, entries, seqs, outcomes).state.req_data),
        state.target_response_ok(resp) && state.knows_target(resp.req_id) ==> {
            &&& tables_ok(state.target_passed(resp).req_data)
            &&& forall|
                sent: bool,
                post: ExecutorView<S>,
                action: TargetActionView<S>,
                sample: Option<AcceptanceSample>,
            | #[trigger]
                state.target_handled(resp, sent, post, action, sample) ==> tables_ok(post.req_data)
        },
{
    lemma_check_in_tables(state, entries, seqs, outcomes, seqs.len() as int);
}

proof fn lemma_check_in_tables<S>(
    state: ExecutorView<S>,
    entries: Seq<LogitsEntryView>,
    seqs: Seq<PendingSeqView>,
    sent: Seq<bool>,
    n: int,
)
    requires
        tables_ok(state.req_data),
    ensures
        tables_ok(CheckInView::start(state, entries).check_in_all(seqs, sent, n).state.req_data),
    decreases n,
{
    if n > 0 {
        lemma_check_in_tables(state, entries, seqs, sent, n - 1);
        let st = CheckInView::start(state, entries).check_in_all(seqs, sent, n - 1).state;
        let post = CheckInView::start(state, entries).check_in_all(seqs, sent, n).state;
        assert forall|c: ClientReqId| #[trigger]
            post.req_data.contains_key(c) implies post.req_data[c].table_ok() by {
            assert(st.req_data.contains_key(c));
        }
    }
}

/// The sequences of a batch, after work has been done on them. Some may have failed.
pub open spec fn returned(out: Seq<PendingSeqView>, seqs: Seq<PendingSeqView>) -> bool {
    &&& seqs.len() == out.len()
    &&& forall|k: int|
        0 <= k < out.len() ==> (#[trigger] seqs[k]).entry_idx == out[k].entry_idx && seqs[k].llg_idx
            == out[k].llg_idx
}

/// No failure in a batch is one of a client: none of its sequences has failed, and no sequence of
/// another client that has failed has one of its request ids.
pub open spec fn unharmed<S>(
    state: ExecutorView<S>,
    out: Seq<PendingSeqView>,
    seqs: Seq<PendingSeqView>,
    client: ClientReqId,
) -> bool {
    forall|k: int|
        0 <= k < out.len() && (#[trigger] seqs[k]).error is Some ==> {
            &&& out[k].entry.client_req_id != client
            &&& state.req_to_client.contains_key(out[k].entry.req_id)
                ==> state.req_to_client[out[k].entry.req_id] != client
        }
}

/// The logs that the first `n` sequences of a batch bring back for a client.
pub open spec fn gathered(
    out: Seq<PendingSeqView>,
    seqs: Seq<PendingSeqView>,
    client: ClientReqId,
    n: int,
) -> Seq<char>
    decreases n,
{
    if n <= 0 {
        Seq::empty()
    } else if out[n - 1].entry.client_req_id == client {
        gathered(out, seqs, client, n - 1) + pending_logs(*seqs[n - 1].llg)
    } else {
        gathered(out, seqs, client, n - 1)
    }
}

/// What holds for one client after the first `n` sequences of a batch have been checked in.
pub open spec fn back_for<S>(
    out: CheckOutView,
    seqs: Seq<PendingSeqView>,
    now: CheckInView<S>,
    client: ClientReqId,
    n: int,
) -> bool {
    let rd = now.state.req_data[client];
    &&& now.state.req_data.contains_key(client)
    &&& rd == ReqDataView { llgs: rd.llgs, logs: rd.logs, ..out.data[client] }
    &&& rd.llgs.len() == out.data[client].llgs.len()
    &&& rd.logs == out.data[client].logs + gathered(out.seqs, seqs, client, n)
    &&& forall|slot: int|
        0 <= slot < rd.llgs.len() && !is_out(out.seqs.take(n), client, slot)
            ==> #[trigger] rd.llgs[slot] == out.data[client].llgs[slot]
    &&& forall|k: int|
        0 <= k < n && out.seqs[k].entry.client_req_id == client ==> rd.llgs[(
        #[trigger] seqs[k]).llg_idx as int] == Some(Box::new(flushed(*seqs[k].llg)))
}

/// What holds of all clients after the first `n` sequences of a batch have been checked in: the
/// requests that are still there have their slots, the ids are those of before, and each of those
/// entries has its answer.
pub open spec fn back_at_all<S>(
    out: CheckOutView,
    state: ExecutorView<S>,
    entries: Seq<LogitsEntryView>,
    seqs: Seq<PendingSeqView>,
    now: CheckInView<S>,
    n: int,
) -> bool {
    &&& now.failed is None
    &&& forall|c: ClientReqId| #[trigger]
        now.state.req_data.contains_key(c) ==> out.data.contains_key(c)
            && now.state.req_data[c].llgs.len() == out.data[c].llgs.len()
    &&& forall|id: ReqId| #[trigger]
        now.state.req_to_client.contains_key(id) ==> state.req_to_client.contains_key(id)
            && now.state.req_to_client[id] == state.req_to_client[id]
    &&& now.entries.len() == entries.len()
    &&& forall|i: int|
        0 <= i < entries.len() ==> (#[trigger] now.entries[i]).client_req_id
            == entries[i].client_req_id && now.entries[i].req_id == entries[i].req_id
            && now.entries[i].tokens == entries[i].tokens
    &&& forall|i: int|
        0 <= i < entries.len() && !has_entry(out.seqs.take(n), i) ==> #[trigger] now.entries[i]
            == entries[i]
    &&& forall|k: int|
        0 <= k < n ==> now.entries[(#[trigger] seqs[k]).entry_idx as int].out_mask
            == seqs[k].entry.out_mask
}

proof fn lemma_back_at_all<S>(
    out: CheckOutView,
    before: Map<ClientReqId, ReqDataView>,
    state: ExecutorView<S>,
    entries: Seq<LogitsEntryView>,
    seqs: Seq<PendingSeqView>,
    sent: Seq<bool>,
    n: int,
)
    requires
        out.inv(before, entries),
        forall|k: int, l: int|
            0 <= k < l < out.seqs.len() ==> (#[trigger] out.seqs[k]).entry_idx != (
            #[trigger] out.seqs[l]).entry_idx,
        state.req_data == out.data,
        returned(out.seqs, seqs),
        0 <= n <= seqs.len(),
    ensures
        back_at_all(
            out,
            state,
            entries,
            seqs,
            CheckInView::start(state, entries).check_in_all(seqs, sent, n),
            n,
        ),
    decreases n,
{
    let start = CheckInView::start(state, entries);
    if n > 0 {
        let st = start.check_in_all(seqs, sent, n - 1);
        let now = start.check_in_all(seqs, sent, n);
        lemma_back_at_all(out, before, state, entries, seqs, sent, n - 1);
        let ps = seqs[n - 1];
        let orig = out.seqs[n - 1];
        assert(out_properly(orig, before, out.data, entries));
        assert(st.entries[ps.entry_idx as int].client_req_id == orig.entry.client_req_id);
        assert(out.seqs.take(n) =~= out.seqs.take(n - 1).push(orig));
        assert(out.data[orig.entry.client_req_id].grown_from(before[orig.entry.client_req_id]));
        assert(st.state.can_take_back(orig.entry.client_req_id, ps));
        assert forall|c: ClientReqId| #[trigger] now.state.req_data.contains_key(c) implies
            out.data.contains_key(c) && now.state.req_data[c].llgs.len()
                == out.data[c].llgs.len() by {
            assert(st.state.req_data.contains_key(c));
        }
        assert forall|i: int|
            0 <= i < entries.len() && !has_entry(out.seqs.take(n), i) implies
            #[trigger] now.entries[i] == entries[i] by {
            assert(out.seqs.take(n)[n - 1] == orig);
            if has_entry(out.seqs.take(n - 1), i) {
                let k = choose|k: int|
                    0 <= k < n - 1 && (#[trigger] out.seqs.take(n - 1)[k]).entry_idx == i;
                assert(out.seqs.take(n)[k] == out.seqs.take(n - 1)[k]);
            }
            assert(st.entries[i] == entries[i]);
        }
        assert forall|k: int| 0 <= k < n implies now.entries[(
        #[trigger] seqs[k]).entry_idx as int].out_mask == seqs[k].entry.out_mask by {
            if k < n - 1 {
                assert(out.seqs[k].entry_idx != out.seqs[n - 1].entry_idx);
                assert(out_properly(out.seqs[k], before, out.data, entries));
            }
        }
    }
}

proof fn lemma_back_for<S>(
    out: CheckOutView,
    before: Map<ClientReqId, ReqDataView>,
    state: ExecutorView<S>,
    entries: Seq<LogitsEntryView>,
    seqs: Seq<PendingSeqView>,
    sent: Seq<bool>,
    client: ClientReqId,
    n: int,
)
    requires
        out.inv(before, entries),
        forall|k: int, l: int|
            0 <= k < l < out.seqs.len() ==> (#[trigger] out.seqs[k]).entry_idx != (
            #[trigger] out.seqs[l]).entry_idx,
        state.req_data == out.data,
        returned(out.seqs, seqs),
        unharmed(state, out.seqs, seqs, client),
        out.data.contains_key(client),
        0 <= n <= seqs.len(),
    ensures
        back_for(
            out,
            seqs,
            CheckInView::start(state, entries).check_in_all(seqs, sent, n),
            client,
            n,
        ),
    decreases n,
{
    let start = CheckInView::start(state, entries);
    let now = start.check_in_all(seqs, sent, n);
    if n == 0 {
        assert(now.state.req_data[client].logs =~= out.data[client].logs + gathered(
            out.seqs,
            seqs,
            client,
            0,
        ));
    } else {
        let st = start.check_in_all(seqs, sent, n - 1);
        lemma_back_at_all(out, before, state, entries, seqs, sent, n - 1);
        lemma_back_at_all(out, before, state, entries, seqs, sent, n);
        lemma_back_for(out, before, state, entries, seqs, sent, client, n - 1);
        let ps = seqs[n - 1];
        let orig = out.seqs[n - 1];
        let rd = st.state.req_data[client];
        let rd_now = now.state.req_data[client];
        assert(out_properly(orig, before, out.data, entries));
        let entry = st.entries[ps.entry_idx as int];
        assert(entry.client_req_id == orig.entry.client_req_id);
        assert(entry.req_id == orig.entry.req_id);
        assert(out.seqs.take(n) =~= out.seqs.take(n - 1).push(orig));
        assert(now == st.check_in(ps, (n - 1) as usize, sent[n - 1]));
        assert(st.state.can_take_back(entry.client_req_id, ps));
        if orig.entry.client_req_id == client {
            assert(ps.error is None);
            assert(rd_now == rd.with_llg(ps.llg_idx as int, *ps.llg));
            assert(rd_now.logs =~= out.data[client].logs + gathered(out.seqs, seqs, client, n));
        } else {
            assert(now.state.req_data.contains_key(client) && rd_now == rd);
        }
        assert forall|slot: int|
            0 <= slot < rd_now.llgs.len() && !is_out(out.seqs.take(n), client, slot) implies
            #[trigger] rd_now.llgs[slot] == out.data[client].llgs[slot] by {
            assert(out.seqs.take(n)[n - 1] == orig);
            if is_out(out.seqs.take(n - 1), client, slot) {
                let k = choose|k: int|
                    0 <= k < n - 1 && (#[trigger] out.seqs.take(
                        n - 1,
                    )[k]).entry.client_req_id == client && out.seqs.take(n - 1)[k].llg_idx == slot;
                assert(out.seqs.take(n)[k] == out.seqs.take(n - 1)[k]);
            }
            assert(rd.llgs[slot] == out.data[client].llgs[slot]);
        }
        assert forall|k: int|
            0 <= k < n && out.seqs[k].entry.client_req_id == client implies rd_now.llgs[(
        #[trigger] seqs[k]).llg_idx as int] == Some(Box::new(flushed(*seqs[k].llg))) by {
            if k < n - 1 {
                assert(out_properly(out.seqs[k], before, out.data, entries));
                assert(!same_slot(out.seqs[k], out.seqs[n - 1]));
            }
        }
    }
}

/// Every entry that was checked out gets the answer of its own sequence, and the others are left
/// alone, whichever sequences have failed. The batch can always be checked in; requests that are
/// still there have all their slots.
pub proof fn law_every_entry_answered<S>(
    state: ExecutorView<S>,
    entries: Seq<LogitsEntryView>,
    seqs: Seq<PendingSeqView>,
    sent: Seq<bool>,
)
    requires
        countable(state.req_data),
        entries.len() <= usize::MAX,
        batch_checked_out(state.req_data, entries).failed is None,
        returned(batch_checked_out(state.req_data, entries).seqs, seqs),
    ensures
        ({
            let out = batch_checked_out(state.req_data, entries);
            let during = ExecutorView { req_data: out.data, ..state };
            let back = batch_checked_in(during, entries, seqs, sent);
            back_at_all(out, during, entries, seqs, back, seqs.len() as int)
        }),
{
    let out = batch_checked_out(state.req_data, entries);
    let during = ExecutorView { req_data: out.data, ..state };
    law_check_out(state.req_data, entries);
    lemma_back_at_all(out, state.req_data, during, entries, seqs, sent, seqs.len() as int);
}

/// A failure stays with its client. Whatever becomes of the sequences of other clients, a client
/// none of whose sequences has failed finds all its constraints back in the slots that they came
/// from, each as the work has left it; its logs have grown by those of its own sequences, in their
/// order; and every checked-out entry has its own answer.
pub proof fn law_failures_stay_apart<S>(
    state: ExecutorView<S>,
    entries: Seq<LogitsEntryView>,
    seqs: Seq<PendingSeqView>,
    sent: Seq<bool>,
    client: ClientReqId,
)
    requires
        countable(state.req_data),
        entries.len() <= usize::MAX,
        batch_checked_out(state.req_data, entries).failed is None,
        returned(batch_checked_out(state.req_data, entries).seqs, seqs),
        state.req_data.contains_key(client),
        unharmed(state, batch_checked_out(state.req_data, entries).seqs, seqs, client),
    ensures
        ({
            let out = batch_checked_out(state.req_data, entries);
            let during = ExecutorView { req_data: out.data, ..state };
            let back = batch_checked_in(during, entries, seqs, sent);
            &&& back_at_all(out, during, entries, seqs, back, seqs.len() as int)
            &&& back_for(out, seqs, back, client, seqs.len() as int)
            &&& forall|slot: int| (
                #[trigger] back.state.req_data[client].has_llg(slot))
                    == state.req_data[client].has_llg(slot)
        }),
{
    let before = state.req_data;
    let out = batch_checked_out(before, entries);
    let during = ExecutorView { req_data: out.data, ..state };
    let back = batch_checked_in(during, entries, seqs, sent);
    let n = seqs.len() as int;
    law_check_out(before, entries);
    assert(before.dom().contains(client));
    assert(out.data.contains_key(client));
    lemma_back_at_all(out, before, during, entries, seqs, sent, n);
    lemma_back_for(out, before, during, entries, seqs, sent, client, n);
    assert(out.seqs.take(n) =~= out.seqs);
    assert(out.data[client].grown_from(before[client]));
    assert forall|slot: int| (#[trigger] back.state.req_data[client].has_llg(slot))
        == before[client].has_llg(slot) by {
        if 0 <= slot < before[client].llgs.len() {
            if is_out(out.seqs, client, slot) {
                let k = choose|k: int|
                    0 <= k < out.seqs.len() && (#[trigger] out.seqs[k]).entry.client_req_id
                        == client && out.seqs[k].llg_idx == slot;
                assert(out_properly(out.seqs[k], before, out.data, entries));
                assert(seqs[k].llg_idx == slot);
            } else {
                assert(out.data[client].llgs[slot] == before[client].llgs[slot]);
                assert(back.state.req_data[client].llgs[slot] == out.data[client].llgs[slot]);
            }
        }
    }
}

/// An entry for which there is no constraint: its sequence has a slot, which is empty, or which an
/// earlier entry for the same sequence has emptied; or it has none, and there is an empty or missing
/// slot where it would get one.
pub open spec fn without_constraint(
    before: Map<ClientReqId, ReqDataView>,
    entries: Seq<LogitsEntryView>,
    idx: int,
) -> bool {
    let entry = entries[idx];
    let rd = before[entry.client_req_id];
    &&& before.contains_key(entry.client_req_id)
    &&& match rd.slot_of(entry.req_id) {
        Some(slot) => {
            ||| slot >= rd.llgs.len()
            ||| rd.llgs[slot] is None
            ||| is_repeated(entries, idx)
        },
        None => exists|slot: int|
            {
                &&& rd.llg_infos.len() <= slot
                &&& !#[trigger] rd.has_llg(slot)
            },
    }
}

/// An earlier entry is for the same sequence.
pub open spec fn is_repeated(entries: Seq<LogitsEntryView>, idx: int) -> bool {
    exists|j: int|
        0 <= j < idx && (#[trigger] entries[j]).client_req_id == entries[idx].client_req_id
            && entries[j].req_id == entries[idx].req_id
}

proof fn lemma_look_up_fails(
    before: Map<ClientReqId, ReqDataView>,
    entries: Seq<LogitsEntryView>,
    n: int,
)
    requires
        countable(before),
        0 <= n <= entries.len() <= usize::MAX,
        CheckOutView::start(before).look_up_all(entries, n).failed is Some,
    ensures
        ({
            let idx = CheckOutView::start(before).look_up_all(entries, n).failed->0;
            &&& idx < n
            &&& without_constraint(before, entries, idx as int)
        }),
    decreases n,
{
    let st = CheckOutView::start(before).look_up_all(entries, n - 1);
    if n > 0 {
        if st.failed is Some {
            lemma_look_up_fails(before, entries, n - 1);
        } else {
            lemma_look_up_inv(before, entries, n - 1);
            let entry = entries[n - 1];
            let client = entry.client_req_id;
            let rd = st.data[client];
            rd.llg_infos.index_of_first_ensures(ConstraintInfo { req_id: entry.req_id });
            let slot = rd.slot_of(entry.req_id)->0;
            assert(rd.grown_from(before[client]));
            if is_out(st.seqs, client, slot) {
                let k = choose|k: int|
                    0 <= k < st.seqs.len() && (#[trigger] st.seqs[k]).entry.client_req_id == client
                        && st.seqs[k].llg_idx == slot;
                assert(out_properly(st.seqs[k], before, st.data, entries));
                let j = st.seqs[k].entry_idx as int;
                assert(entries[j].client_req_id == client && entries[j].req_id == entry.req_id);
            } else if 0 <= slot < before[client].llgs.len() {
                assert(st.data[client].llgs[slot] == before[client].llgs[slot]);
            }
        }
    }
}

proof fn lemma_assign_fails(
    found: CheckOutView,
    order: Seq<(ReqId, usize)>,
    before: Map<ClientReqId, ReqDataView>,
    entries: Seq<LogitsEntryView>,
    m: int,
)
    requires
        countable(before),
        found.inv(before, entries),
        found.failed is None,
        forall|c: ClientReqId| #[trigger]
            before.contains_key(c) ==> found.data[c].llg_infos == before[c].llg_infos,
        covers(found.seqs, order, 0, before, entries, entries.len() as int),
        forall|k: int| 0 <= k < order.len() ==> found.waiting.contains(#[trigger] order[k]),
        forall|k: int, l: int|
            0 <= k < l < order.len() ==> waits_before(#[trigger] order[k], #[trigger] order[l]),
        forall|k: int|
            0 <= k < found.waiting.len() ==> before[entries[(
            #[trigger] found.waiting[k]).1 as int].client_req_id].slot_of(
                found.waiting[k].0,
            ) is None,
        0 <= m <= order.len(),
        found.assign_all(entries, order, m).failed is Some,
    ensures
        ({
            let idx = found.assign_all(entries, order, m).failed->0;
            &&& idx < entries.len()
            &&& without_constraint(before, entries, idx as int)
        }),
    decreases m,
{
    if m > 0 {
        let st = found.assign_all(entries, order, m - 1);
        if st.failed is Some {
            lemma_assign_fails(found, order, before, entries, m - 1);
        } else {
            lemma_assign_inv(found, order, before, entries, m - 1);
            let w = choose|w: int| 0 <= w < found.waiting.len() && found.waiting[w] == order[m - 1];
            let idx = order[m - 1].1;
            assert(found.waiting[w].1 == idx);
            let client = entries[idx as int].client_req_id;
            let slot = st.data[client].llg_infos.len() as int;
            assert(st.data[client].grown_from(before[client]));
            if is_out(st.seqs, client, slot) {
                let k = choose|k: int|
                    0 <= k < st.seqs.len() && (#[trigger] st.seqs[k]).entry.client_req_id == client
                        && st.seqs[k].llg_idx == slot;
                assert(out_properly(st.seqs[k], before, st.data, entries));
            }
            if 0 <= slot < before[client].llgs.len() {
                assert(st.data[client].llgs[slot] == before[client].llgs[slot]);
            }
            assert(!before[client].has_llg(slot));
        }
    }
}

/// A batch that cannot be checked out names an entry for which there is no constraint.
pub proof fn law_check_out_fails(
    before: Map<ClientReqId, ReqDataView>,
    entries: Seq<LogitsEntryView>,
)
    requires
        countable(before),
        entries.len() <= usize::MAX,
        batch_checked_out(before, entries).failed is Some,
    ensures
        batch_checked_out(before, entries).failed->0 < entries.len(),
        without_constraint(
            before,
            entries,
            batch_checked_out(before, entries).failed->0 as int,
        ),
{
    let n = entries.len() as int;
    let found = CheckOutView::start(before).look_up_all(entries, n);
    let order = assignment_order(found.waiting);
    if found.failed is Some {
        lemma_look_up_fails(before, entries, n);
        lemma_assign_same_failure(found, entries, order, order.len() as int);
    } else {
        lemma_look_up_inv(before, entries, n);
        lemma_waiting_have_no_slot(before, entries, n);
        lemma_assignment_order(found, before, entries);
        lemma_assign_fails(found, order, before, entries, order.len() as int);
    }
}

proof fn lemma_assign_same_failure(
    found: CheckOutView,
    entries: Seq<LogitsEntryView>,
    order: Seq<(ReqId, usize)>,
    m: int,
)
    requires
        found.failed is Some,
    ensures
        found.assign_all(entries, order, m) == found,
    decreases m,
{
    if m > 0 {
        lemma_assign_same_failure(found, entries, order, m - 1);
    }
}

} // verus!
