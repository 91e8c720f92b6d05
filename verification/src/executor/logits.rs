//! The constraints of a batch of sequences: they are checked out of their requests while the
//! sampling masks are being computed, and then checked in again.
use vstd::prelude::*;
use vstd::relations::{sorted_by, total_ordering};

use llguidance::Constraint;
use vstd::string::*;

use super::{AsyncExecutor, CancelCall, ExecutorView, Model};
use crate::llg::{flush_logs, flushed, pending_logs};
use crate::pending::{checked_out, LogitsEntry, LogitsEntryView, PendingSeq, PendingSeqView};
use crate::request::{ConstraintInfo, ReqData, ReqDataView};
use crate::types::{
    lemma_map_view_insert, lemma_map_view_remove, opt_view, seq_view, take_text, ClientReqId,
    EngineFinishReason, ReqId, ResponseChunk, ResponseChunkView, StepResults, StepResultsView,
};

verus! {

impl ReqDataView {
    /// The slot of the sequence that the engine knows under `req_id`.
    pub open spec fn slot_of(self, req_id: ReqId) -> Option<int> {
        self.llg_infos.index_of_first(ConstraintInfo { req_id })
    }

    /// There is a constraint in a slot.
    pub open spec fn has_llg(self, slot: int) -> bool {
        0 <= slot < self.llgs.len() && self.llgs[slot] is Some
    }

    /// The next free slot is that of the sequence that the engine knows under `req_id`.
    pub open spec fn with_info(self, req_id: ReqId) -> ReqDataView {
        ReqDataView { llg_infos: self.llg_infos.push(ConstraintInfo { req_id }), ..self }
    }
}

/// A batch while its sequences are being checked out.
pub struct CheckOutView {
    pub data: Map<ClientReqId, ReqDataView>,
    /// The sequences that have been checked out.
    pub seqs: Seq<PendingSeqView>,
    /// The entries of sequences that have no slot yet: the request id, and the position.
    pub waiting: Seq<(ReqId, usize)>,
    /// The position of the first entry for which there is no constraint. Nothing happens after.
    pub failed: Option<usize>,
}

impl CheckOutView {
    pub open spec fn start(data: Map<ClientReqId, ReqDataView>) -> CheckOutView {
        CheckOutView { data, seqs: Seq::empty(), waiting: Seq::empty(), failed: None }
    }

    /// The constraint in a slot leaves with the sequence of an entry.
    pub open spec fn take_slot(self, entry: LogitsEntryView, idx: usize, slot: int) -> CheckOutView {
        let rd = self.data[entry.client_req_id];
        if rd.has_llg(slot) {
            CheckOutView {
                data: self.data.insert(entry.client_req_id, rd.without_llg(slot)),
                seqs: self.seqs.push(checked_out(rd, entry, idx, slot as usize)),
                ..self
            }
        } else {
            CheckOutView { failed: Some(idx), ..self }
        }
    }

    /// An entry of a known client is checked out, if its sequence has a slot, and else waits for
    /// one. Others are left alone.
    pub open spec fn look_up(self, entry: LogitsEntryView, idx: usize) -> CheckOutView {
        if self.failed is Some || !self.data.contains_key(entry.client_req_id) {
            self
        } else {
            match self.data[entry.client_req_id].slot_of(entry.req_id) {
                Some(slot) => self.take_slot(entry, idx, slot),
                None => CheckOutView { waiting: self.waiting.push((entry.req_id, idx)), ..self },
            }
        }
    }

    /// The first `n` entries are looked up, in their order.
    pub open spec fn look_up_all(self, entries: Seq<LogitsEntryView>, n: int) -> CheckOutView
        decreases n,
    {
        if n <= 0 {
            self
        } else {
            self.look_up_all(entries, n - 1).look_up(entries[n - 1], (n - 1) as usize)
        }
    }

    /// An entry that waits for a slot gets the next free one of its request, and is checked out.
    pub open spec fn assign(self, entry: LogitsEntryView, idx: usize) -> CheckOutView {
        if self.failed is Some {
            self
        } else {
            let rd = self.data[entry.client_req_id];
            let data = self.data.insert(entry.client_req_id, rd.with_info(entry.req_id));
            CheckOutView { data, ..self }.take_slot(entry, idx, rd.llg_infos.len() as int)
        }
    }

    /// The first `n` entries in `order` get their slots.
    pub open spec fn assign_all(
        self,
        entries: Seq<LogitsEntryView>,
        order: Seq<(ReqId, usize)>,
        n: int,
    ) -> CheckOutView
        decreases n,
    {
        if n <= 0 {
            self
        } else {
            let idx = order[n - 1].1;
            self.assign_all(entries, order, n - 1).assign(entries[idx as int], idx)
        }
    }
}

/// By request id, and by position where the request ids are the same.
pub open spec fn waits_before(a: (ReqId, usize), b: (ReqId, usize)) -> bool {
    a.0 < b.0 || (a.0 == b.0 && a.1 <= b.1)
}

/// The order in which entries without a slot get theirs: the engine makes the request ids of the
/// sequences of a request one by one, so the smallest comes first.
pub open spec fn assignment_order(waiting: Seq<(ReqId, usize)>) -> Seq<(ReqId, usize)> {
    waiting.sort_by(|a: (ReqId, usize), b: (ReqId, usize)| waits_before(a, b))
}

/// Checks out the sequences of a batch: first those that have a slot, in the order of the entries,
/// and then those that have none yet.
pub open spec fn batch_checked_out(
    data: Map<ClientReqId, ReqDataView>,
    entries: Seq<LogitsEntryView>,
) -> CheckOutView {
    let found = CheckOutView::start(data).look_up_all(entries, entries.len() as int);
    let order = assignment_order(found.waiting);
    found.assign_all(entries, order, order.len() as int)
}

pub proof fn lemma_waits_before_total()
    ensures
        total_ordering(|a: (ReqId, usize), b: (ReqId, usize)| waits_before(a, b)),
{
}

/// Sorts the waiting entries.
fn sort_waiting(waiting: &Vec<(ReqId, usize)>) -> (res: Vec<(ReqId, usize)>)
    ensures
        res@ == assignment_order(waiting@),
{
    let ghost leq = |a: (ReqId, usize), b: (ReqId, usize)| waits_before(a, b);
    let mut res: Vec<(ReqId, usize)> = Vec::new();
    assert(res@ =~= waiting@.take(0));
    let mut i: usize = 0;
    while i < waiting.len()
        invariant
            i <= waiting.len(),
            res@.to_multiset() == waiting@.take(i as int).to_multiset(),
            leq == (|a: (ReqId, usize), b: (ReqId, usize)| waits_before(a, b)),
            sorted_by(res@, leq),
        decreases waiting.len() - i,
    {
        let (req_id, idx) = waiting[i];
        let mut at: usize = 0;
        while at < res.len() && (res[at].0 < req_id || (res[at].0 == req_id && res[at].1 <= idx))
            invariant
                at <= res.len(),
                forall|k: int| 0 <= k < at ==> waits_before(#[trigger] res@[k], (req_id, idx)),
            ensures
                at <= res.len(),
                forall|k: int| 0 <= k < at ==> waits_before(#[trigger] res@[k], (req_id, idx)),
                at < res.len() ==> !waits_before(res@[at as int], (req_id, idx)),
            decreases res.len() - at,
        {
            at = at + 1;
        }
        let ghost before = res@;
        res.insert(at, (req_id, idx));
        proof {
            assert(waiting@.take(i + 1) =~= waiting@.take(i as int).push((req_id, idx)));
            vstd::seq_lib::to_multiset_build(waiting@.take(i as int), (req_id, idx));
            vstd::seq_lib::to_multiset_insert(before, at as int, (req_id, idx));
            assert forall|k: int, l: int| 0 <= k < l < res@.len() implies #[trigger] leq(
                res@[k],
                res@[l],
            ) by {
                if k < at && l < at {
                    assert(leq(before[k], before[l]));
                } else if k < at && l > at {
                    assert(leq(before[k], before[l - 1]));
                } else if k > at {
                    assert(leq(before[k - 1], before[l - 1]));
                } else if k == at {
                    if l - 1 > at {
                        assert(leq(before[at as int], before[l - 1]));
                    }
                }
            }
        }
        i = i + 1;
    }
    proof {
        assert(waiting@.take(i as int) =~= waiting@);
        lemma_waits_before_total();
        waiting@.lemma_sort_by_ensures(leq);
        vstd::seq_lib::lemma_sorted_unique(res@, waiting@.sort_by(leq), leq);
    }
    res
}

/// The position of the slot of a sequence.
fn find_slot(rd: &ReqData, req_id: ReqId) -> (res: Option<usize>)
    ensures
        match res {
            Some(slot) => rd@.slot_of(req_id) == Some(slot as int),
            None => rd@.slot_of(req_id) is None,
        },
{
    let ghost info = ConstraintInfo { req_id };
    proof {
        rd@.llg_infos.index_of_first_ensures(info);
    }
    let mut i: usize = 0;
    while i < rd.llg_infos.len()
        invariant
            i <= rd.llg_infos.len(),
            info == (ConstraintInfo { req_id }),
            forall|j: int| 0 <= j < i ==> rd@.llg_infos[j] != info,
            match rd@.slot_of(req_id) {
                Some(index) => {
                    &&& 0 <= index < rd@.llg_infos.len()
                    &&& rd@.llg_infos[index] == info
                    &&& forall|j: int| 0 <= j < index ==> rd@.llg_infos[j] != info
                },
                None => !rd@.llg_infos.contains(info),
            },
        decreases rd.llg_infos.len() - i,
    {
        if rd.llg_infos[i].req_id == req_id {
            assert(rd@.llg_infos[i as int] == info);
            return Some(i);
        }
        i = i + 1;
    }
    None
}

/// Takes the constraint out of a slot, if it is there.
fn take_slot(rd: &mut ReqData, entry: &LogitsEntry, entry_idx: usize, slot: usize) -> (res: Option<
    PendingSeq,
>)
    ensures
        match res {
            Some(ps) => {
                &&& old(rd)@.has_llg(slot as int)
                &&& ps@ == checked_out(old(rd)@, entry@, entry_idx, slot)
                &&& final(rd)@ == old(rd)@.without_llg(slot as int)
            },
            None => {
                &&& !old(rd)@.has_llg(slot as int)
                &&& final(rd)@ == old(rd)@
            },
        },
{
    if slot < rd.llgs.len() && rd.llgs[slot].is_some() {
        Some(PendingSeq::new(rd, entry, entry_idx, slot))
    } else {
        None
    }
}

/// After a failure, nothing changes any more.
proof fn lemma_look_up_failed(
    start: CheckOutView,
    entries: Seq<LogitsEntryView>,
    k: int,
    n: int,
)
    requires
        start.look_up_all(entries, k).failed is Some,
        0 <= k <= n,
    ensures
        start.look_up_all(entries, n) == start.look_up_all(entries, k),
    decreases n,
{
    if k < n {
        lemma_look_up_failed(start, entries, k, n - 1);
    }
}

/// After a failure, nothing changes any more.
proof fn lemma_assign_failed(
    start: CheckOutView,
    entries: Seq<LogitsEntryView>,
    order: Seq<(ReqId, usize)>,
    k: int,
    n: int,
)
    requires
        start.assign_all(entries, order, k).failed is Some,
        0 <= k <= n,
    ensures
        start.assign_all(entries, order, n) == start.assign_all(entries, order, k),
    decreases n,
{
    if k < n {
        lemma_assign_failed(start, entries, order, k, n - 1);
    }
}

impl<S> ExecutorView<S> {
    /// The requests and the sequences of a batch that is being checked out.
    pub open spec fn checking_out(
        self,
        seqs: Seq<PendingSeq>,
        waiting: Seq<(ReqId, usize)>,
        failed: Option<usize>,
    ) -> CheckOutView {
        CheckOutView { data: self.req_data, seqs: seq_view(seqs), waiting, failed }
    }

    /// Only the data of the running requests differ.
    pub open spec fn same_but_data(self, other: ExecutorView<S>) -> bool {
        self == ExecutorView { req_data: self.req_data, ..other }
    }
}

impl<S> AsyncExecutor<S> {
    /// Looks one entry up.
    fn look_up(
        &mut self,
        entry: &LogitsEntry,
        idx: usize,
        seqs: &mut Vec<PendingSeq>,
        waiting: &mut Vec<(ReqId, usize)>,
    ) -> (failed: Option<usize>)
        ensures
            final(self)@.same_but_data(old(self)@),
            failed is Some ==> failed == Some(idx),
            final(self)@.checking_out(
                final(seqs)@,
                final(waiting)@,
                failed,
            ) == old(self)@.checking_out(old(seqs)@, old(waiting)@, None).look_up(entry@, idx),
    {
        let ghost pre = *self;
        let client = entry.client_req_id;
        let mut rd = match self.req_data.remove(&client) {
            None => {
                assert(self.req_data@ =~= pre.req_data@);
                assert(!pre@.req_data.contains_key(client));
                return None;
            },
            Some(rd) => rd,
        };
        let ghost without = self.req_data@;
        let ghost rd0 = rd@;
        assert(pre@.req_data.contains_key(client) && pre@.req_data[client] == rd0);
        let mut failed: Option<usize> = None;
        match find_slot(&rd, entry.req_id) {
            Some(slot) => {
                match take_slot(&mut rd, entry, idx, slot) {
                    Some(ps) => {
                        seqs.push(ps);
                    },
                    None => {
                        failed = Some(idx);
                    },
                }
            },
            None => {
                waiting.push((entry.req_id, idx));
            },
        }
        let _ = self.req_data.insert(client, rd);
        proof {
            lemma_map_view_remove(pre.req_data@, client);
            lemma_map_view_insert(without, client, rd);
            let expected = pre@.checking_out(old(seqs)@, old(waiting)@, None).look_up(entry@, idx);
            assert(self@.req_data =~= expected.data);
            assert(seq_view(seqs@) =~= expected.seqs);
        }
        failed
    }

    /// Gives one entry a slot.
    fn assign(&mut self, entry: &LogitsEntry, idx: usize, seqs: &mut Vec<PendingSeq>) -> (failed:
        Option<usize>)
        requires
            old(self)@.req_data.contains_key(entry@.client_req_id),
        ensures
            failed is Some ==> failed == Some(idx),
            final(self)@.same_but_data(old(self)@),
            forall|waiting: Seq<(ReqId, usize)>|
                (#[trigger] final(self)@.checking_out(
                    final(seqs)@,
                    waiting,
                    failed,
                )) == old(self)@.checking_out(old(seqs)@, waiting, None).assign(entry@, idx),
            final(self)@.req_data.dom() == old(self)@.req_data.dom(),
    {
        let ghost pre = *self;
        let client = entry.client_req_id;
        let mut rd = self.req_data.remove(&client).unwrap();
        let ghost without = self.req_data@;
        let ghost rd0 = rd@;
        assert(pre@.req_data[client] == rd0);
        let slot = rd.llg_infos.len();
        rd.llg_infos.push(ConstraintInfo { req_id: entry.req_id });
        assert(rd@ == rd0.with_info(entry@.req_id));
        let failed = match take_slot(&mut rd, entry, idx, slot) {
            Some(ps) => {
                seqs.push(ps);
                None
            },
            None => Some(idx),
        };
        let _ = self.req_data.insert(client, rd);
        proof {
            lemma_map_view_remove(pre.req_data@, client);
            lemma_map_view_insert(without, client, rd);
            assert forall|waiting: Seq<(ReqId, usize)>|
                (#[trigger] self@.checking_out(
                    seqs@,
                    waiting,
                    failed,
                )) == pre@.checking_out(old(seqs)@, waiting, None).assign(entry@, idx) by {
                let expected = pre@.checking_out(old(seqs)@, waiting, None).assign(entry@, idx);
                assert(self@.req_data =~= expected.data);
                assert(seq_view(seqs@) =~= expected.seqs);
            }
            assert(self@.req_data.dom() =~= pre@.req_data.dom());
        }
        failed
    }

    /// Checks the sequences of a batch out of their requests, together with their constraints.
    /// `Err` gives the position of an entry for which there is no constraint: it has left its
    /// slot, or there are more sequences than slots.
    pub fn check_out(&mut self, entries: &Vec<LogitsEntry>) -> (res: Result<
        Vec<PendingSeq>,
        usize,
    >)
        requires
            old(self)@.wf(),
        ensures
            final(self)@ == (ExecutorView {
                req_data: batch_checked_out(old(self)@.req_data, seq_view(entries@)).data,
                ..old(self)@
            }),
            final(self)@.wf(),
            match res {
                Ok(seqs) => {
                    &&& batch_checked_out(old(self)@.req_data, seq_view(entries@)).failed is None
                    &&& seq_view(seqs@) == batch_checked_out(
                        old(self)@.req_data,
                        seq_view(entries@),
                    ).seqs
                },
                Err(idx) => batch_checked_out(
                    old(self)@.req_data,
                    seq_view(entries@),
                ).failed == Some(idx),
            },
    {
        let ghost pre = self@;
        let ghost start = CheckOutView::start(pre.req_data);
        let ghost views = seq_view(entries@);
        let mut seqs: Vec<PendingSeq> = Vec::new();
        let mut waiting: Vec<(ReqId, usize)> = Vec::new();
        let mut idx: usize = 0;
        assert(seq_view(seqs@) =~= Seq::empty());
        while idx < entries.len()
            invariant
                idx <= entries.len(),
                views == seq_view(entries@),
                start == CheckOutView::start(pre.req_data),
                pre == old(self)@,
                pre.wf(),
                self@.same_but_data(pre),
                start.look_up_all(views, idx as int) == self@.checking_out(seqs@, waiting@, None),
                forall|k: int|
                    0 <= k < waiting@.len() ==> (#[trigger] waiting@[k]).1 < entries.len()
                        && self@.req_data.contains_key(
                        entries@[waiting@[k].1 as int].client_req_id,
                    ),
            decreases entries.len() - idx,
        {
            let failed = self.look_up(&entries[idx], idx, &mut seqs, &mut waiting);
            if failed.is_some() {
                proof {
                    let n = entries@.len() as int;
                    lemma_look_up_failed(start, views, idx + 1, n);
                    let found = start.look_up_all(views, n);
                    let order = assignment_order(found.waiting);
                    lemma_assign_failed(found, views, order, 0, order.len() as int);
                }
                return Err(idx);
            }
            idx = idx + 1;
        }
        let order = sort_waiting(&waiting);
        let ghost found = start.look_up_all(views, views.len() as int);
        proof {
            lemma_waits_before_total();
            waiting@.lemma_sort_by_ensures(
                |a: (ReqId, usize), b: (ReqId, usize)| waits_before(a, b),
            );
            assert forall|k: int| 0 <= k < order@.len() implies (#[trigger] order@[k]).1
                < entries.len() && self@.req_data.contains_key(
                entries@[order@[k].1 as int].client_req_id,
            ) by {
                assert(order@.contains(order@[k]));
                assert(waiting@.contains(order@[k]));
            }
        }
        let mut n: usize = 0;
        while n < order.len()
            invariant
                n <= order.len(),
                views == seq_view(entries@),
                start == CheckOutView::start(pre.req_data),
                found == start.look_up_all(views, views.len() as int),
                found.waiting == waiting@,
                order@ == assignment_order(waiting@),
                pre == old(self)@,
                pre.wf(),
                self@.same_but_data(pre),
                found.assign_all(views, order@, n as int) == self@.checking_out(
                    seqs@,
                    waiting@,
                    None,
                ),
                forall|k: int|
                    0 <= k < order@.len() ==> (#[trigger] order@[k]).1 < entries.len()
                        && self@.req_data.contains_key(entries@[order@[k].1 as int].client_req_id),
            decreases order.len() - n,
        {
            let (_, idx) = order[n];
            assert(order@[n as int].1 < entries.len());
            let ghost dom = self@.req_data.dom();
            let failed = self.assign(&entries[idx], idx, &mut seqs);
            assert(self@.req_data.dom() == dom);
            if failed.is_some() {
                assert(self@.checking_out(seqs@, waiting@, Some(idx)) == found.assign_all(
                    views,
                    order@,
                    n + 1,
                ));
                proof {
                    lemma_assign_failed(found, views, order@, n + 1, order@.len() as int);
                }
                return Err(idx);
            }
            assert(self@.checking_out(seqs@, waiting@, None) == found.assign_all(
                views,
                order@,
                n + 1,
            ));
            n = n + 1;
        }
        Ok(seqs)
    }
}

impl ReqDataView {
    /// A constraint is back in its slot. Its logs have gone to those of the request.
    pub open spec fn with_llg(self, slot: int, llg: Constraint) -> ReqDataView {
        ReqDataView {
            logs: self.logs + pending_logs(llg),
            llgs: self.llgs.update(slot, Some(Box::new(flushed(llg)))),
            ..self
        }
    }

    /// What the client gets when a sequence has failed: the error, and all logs with the error.
    pub open spec fn failure_report(
        self,
        req_id: ReqId,
        ps: PendingSeqView,
        error: Seq<char>,
    ) -> StepResultsView {
        StepResultsView {
            response: ResponseChunkView {
                req_id,
                sequence_idx: ps.llg_idx as u32,
                finish_reason: Some(EngineFinishReason::Unknown),
                error: Some(error),
                is_req_final: true,
                logprobs: None,
                tokens: Seq::empty(),
                generation_logits: None,
            },
            logs: self.logs + pending_logs(*ps.llg) + ("\nWarning: "@ + error + "\n"@),
            final_llg: None,
        }
    }
}

impl<S> ExecutorView<S> {
    /// A sequence without an error can go back: its request, if it still runs, has the slot.
    pub open spec fn can_take_back(self, client: ClientReqId, ps: PendingSeqView) -> bool {
        self.req_data.contains_key(client) && ps.error is None ==> ps.llg_idx
            < self.req_data[client].llgs.len()
    }

    /// The constraint of a sequence goes back into its slot. A sequence with an error loses it,
    /// and takes the logs of its request along. If the request is gone, nothing happens.
    pub open spec fn taken_back(self, client: ClientReqId, ps: PendingSeqView) -> ExecutorView<S> {
        if !self.req_data.contains_key(client) {
            self
        } else {
            let rd = self.req_data[client];
            ExecutorView {
                req_data: self.req_data.insert(
                    client,
                    if ps.error is None {
                        rd.with_llg(ps.llg_idx as int, *ps.llg)
                    } else {
                        ReqDataView { logs: Seq::empty(), ..rd }
                    },
                ),
                ..self
            }
        }
    }

    /// What the client gets when a sequence comes back.
    pub open spec fn back_report(
        self,
        entry: LogitsEntryView,
        ps: PendingSeqView,
    ) -> Option<StepResultsView> {
        if self.req_data.contains_key(entry.client_req_id) {
            match ps.error {
                Some(error) => Some(
                    self.req_data[entry.client_req_id].failure_report(entry.req_id, ps, error),
                ),
                None => None,
            }
        } else {
            None
        }
    }
}

/// A batch while its sequences are being checked in.
pub struct CheckInView<S> {
    pub state: ExecutorView<S>,
    pub entries: Seq<LogitsEntryView>,
    /// The requests that the target model is to cancel.
    pub cancels: Seq<CancelCall>,
    /// The requests whose clients were told of a failure, each as it was just after that.
    pub told: Seq<ReqDataView>,
    /// The position of the first sequence that cannot go back. Nothing happens after.
    pub failed: Option<usize>,
}

impl<S> CheckInView<S> {
    pub open spec fn start(
        state: ExecutorView<S>,
        entries: Seq<LogitsEntryView>,
    ) -> CheckInView<S> {
        CheckInView {
            state,
            entries,
            cancels: Seq::empty(),
            told: Seq::empty(),
            failed: None,
        }
    }

    /// One sequence is checked in: its entry gets its mask, its constraint goes back, and if it
    /// has failed, so has the request.
    /// `sent` tells whether the client could be told.
    pub open spec fn check_in(self, ps: PendingSeqView, i: usize, sent: bool) -> CheckInView<S> {
        if self.failed is Some {
            self
        } else if ps.entry_idx >= self.entries.len() {
            CheckInView { failed: Some(i), ..self }
        } else {
            let entry = self.entries[ps.entry_idx as int];
            let answered = CheckInView {
                entries: self.entries.update(
                    ps.entry_idx as int,
                    LogitsEntryView { out_mask: ps.entry.out_mask, ..entry },
                ),
                ..self
            };
            let state = self.state.taken_back(entry.client_req_id, ps);
            if !self.state.can_take_back(entry.client_req_id, ps) {
                CheckInView { failed: Some(i), ..answered }
            } else if let Some(report) = self.state.back_report(entry, ps) {
                CheckInView {
                    state: state.delivered(entry.client_req_id, report, sent).drop_request(
                        entry.req_id,
                    ),
                    cancels: self.cancels.push(
                        CancelCall { model: Model::Target, req_id: entry.req_id },
                    ),
                    told: self.told.push(
                        state.req_data[entry.client_req_id].delivered(report, sent),
                    ),
                    ..answered
                }
            } else {
                CheckInView { state, ..answered }
            }
        }
    }

    /// The first `n` sequences are checked in, in their order.
    pub open spec fn check_in_all(
        self,
        seqs: Seq<PendingSeqView>,
        sent: Seq<bool>,
        n: int,
    ) -> CheckInView<S>
        decreases n,
    {
        if n <= 0 {
            self
        } else {
            self.check_in_all(seqs, sent, n - 1).check_in(
                seqs[n - 1],
                (n - 1) as usize,
                sent[n - 1],
            )
        }
    }
}

impl<S> CheckInView<S> {
    /// What checking in leaves and returns. All reports have been handed to the clients' channels,
    /// also where the request is forgotten then.
    pub open spec fn gives(
        self,
        state: ExecutorView<S>,
        entries: Seq<LogitsEntryView>,
        res: Result<Vec<CancelCall>, usize>,
    ) -> bool {
        &&& state == self.state
        &&& entries == self.entries
        &&& forall|k: int| 0 <= k < self.told.len() ==> (#[trigger] self.told[k]).on_record()
        &&& match res {
            Ok(cancels) => self.failed is None && cancels@ == self.cancels,
            Err(i) => self.failed == Some(i),
        }
    }
}

/// Checks in the sequences of a batch. `sent` tells of each sequence whether its client could be
/// told, if it had to be.
pub open spec fn batch_checked_in<S>(
    state: ExecutorView<S>,
    entries: Seq<LogitsEntryView>,
    seqs: Seq<PendingSeqView>,
    sent: Seq<bool>,
) -> CheckInView<S> {
    CheckInView::start(state, entries).check_in_all(seqs, sent, seqs.len() as int)
}

/// After a failure, nothing changes any more.
proof fn lemma_check_in_failed<S>(
    start: CheckInView<S>,
    seqs: Seq<PendingSeqView>,
    sent: Seq<bool>,
    k: int,
    n: int,
)
    requires
        start.check_in_all(seqs, sent, k).failed is Some,
        0 <= k <= n,
    ensures
        start.check_in_all(seqs, sent, n) == start.check_in_all(seqs, sent, k),
    decreases n,
{
    if k < n {
        lemma_check_in_failed(start, seqs, sent, k, n - 1);
    }
}

/// A failure with the next sequence ends it, whatever is said of the sequences after.
proof fn lemma_check_in_stops<S>(
    state: ExecutorView<S>,
    entries: Seq<LogitsEntryView>,
    seqs: Seq<PendingSeqView>,
    sent: Seq<bool>,
    n: int,
)
    requires
        0 <= n < seqs.len(),
        sent.len() == n,
        CheckInView::start(state, entries).check_in_all(seqs, sent, n).check_in(
            seqs[n],
            n as usize,
            false,
        ).failed is Some,
    ensures
        exists|all: Seq<bool>|
            all.len() == seqs.len() && #[trigger] batch_checked_in(state, entries, seqs, all)
                == CheckInView::start(state, entries).check_in_all(seqs, sent, n).check_in(
                seqs[n],
                n as usize,
                false,
            ),
{
    let start = CheckInView::start(state, entries);
    let all = Seq::new(
        seqs.len(),
        |k: int|
            if k < n {
                sent[k]
            } else {
                false
            },
    );
    lemma_check_in_prefix(start, seqs, sent, all, n);
    lemma_check_in_failed(start, seqs, all, n + 1, seqs.len() as int);
    assert(batch_checked_in(state, entries, seqs, all) == start.check_in_all(seqs, all, n + 1));
}

/// Only the first `n` of `sent` count for the first `n` sequences.
proof fn lemma_check_in_prefix<S>(
    start: CheckInView<S>,
    seqs: Seq<PendingSeqView>,
    sent: Seq<bool>,
    longer: Seq<bool>,
    n: int,
)
    requires
        n <= sent.len() <= longer.len(),
        forall|k: int| 0 <= k < sent.len() ==> sent[k] == longer[k],
    ensures
        start.check_in_all(seqs, sent, n) == start.check_in_all(seqs, longer, n),
    decreases n,
{
    if n > 0 {
        lemma_check_in_prefix(start, seqs, sent, longer, n - 1);
    }
}

impl<S> AsyncExecutor<S> {
    /// Tells whether `take_back` can be called.
    pub fn can_take_back(&self, client: ClientReqId, ps: &PendingSeq) -> (res: bool)
        ensures
            res == self@.can_take_back(client, ps@),
    {
        match self.req_data.get(&client) {
            None => {
                assert(!self@.req_data.contains_key(client));
                true
            },
            Some(rd) => {
                assert(self@.req_data.contains_key(client) && self@.req_data[client] == rd@);
                ps.error.is_some() || ps.llg_idx < rd.llgs.len()
            },
        }
    }

    /// Takes a sequence back into its request. Returns what is to be sent to the client, if the
    /// sequence has failed.
    pub fn take_back(&mut self, entry: &LogitsEntry, ps: PendingSeq) -> (res: Option<StepResults>)
        requires
            old(self)@.wf(),
            old(self)@.can_take_back(entry@.client_req_id, ps@),
        ensures
            final(self)@ == old(self)@.taken_back(entry@.client_req_id, ps@),
            final(self)@.wf(),
            opt_view(res) == old(self)@.back_report(entry@, ps@),
    {
        let ghost pre = *self;
        let client = entry.client_req_id;
        let mut rd = match self.req_data.remove(&client) {
            None => {
                assert(self.req_data@ =~= pre.req_data@);
                assert(!pre@.req_data.contains_key(client));
                return None;
            },
            Some(rd) => rd,
        };
        let ghost without = self.req_data@;
        let ghost rd0 = rd@;
        assert(pre@.req_data.contains_key(client) && pre@.req_data[client] == rd0);
        let mut llg = ps.llg;
        let logs = flush_logs(&mut llg);
        rd.logs.append(logs.as_str());
        let res = match ps.error {
            Some(error) => {
                rd.logs.append("\nWarning: ");
                rd.logs.append(error.as_str());
                rd.logs.append("\n");
                let results = StepResults {
                    response: ResponseChunk {
                        req_id: entry.req_id,
                        sequence_idx: ps.llg_idx as u32,
                        finish_reason: Some(EngineFinishReason::Unknown),
                        error: Some(error),
                        is_req_final: true,
                        logprobs: None,
                        tokens: Vec::new(),
                        generation_logits: None,
                    },
                    logs: take_text(&mut rd.logs),
                    final_llg: None,
                };
                assert(results@.logs =~= rd0.failure_report(entry@.req_id, ps@, error@).logs);
                assert(results@.response.tokens =~= Seq::empty());
                Some(results)
            },
            None => {
                rd.llgs[ps.llg_idx] = Some(llg);
                None
            },
        };
        let _ = self.req_data.insert(client, rd);
        proof {
            lemma_map_view_remove(pre.req_data@, client);
            lemma_map_view_insert(without, client, rd);
            assert(self@.req_data =~= pre@.taken_back(client, ps@).req_data);
        }
        res
    }

    /// Checks the sequences of a batch in: each entry gets its mask, and each constraint goes
    /// back. The client of a sequence that has failed is told, and its request is forgotten;
    /// returns the requests that the target model is to cancel. `Err` gives the position of a
    /// sequence that has no entry, or no slot to go back to.
    pub fn check_in(&mut self, entries: &mut Vec<LogitsEntry>, seqs: Vec<PendingSeq>) -> (res:
        Result<Vec<CancelCall>, usize>)
        requires
            old(self)@.wf(),
        ensures
            final(self)@.wf(),
            exists|sent: Seq<bool>|
                {
                    &&& sent.len() == seqs@.len()
                    &&& (#[trigger] batch_checked_in(
                        old(self)@,
                        seq_view(old(entries)@),
                        seq_view(seqs@),
                        sent,
                    )).gives(final(self)@, seq_view(final(entries)@), res)
                },
    {
        let ghost start = CheckInView::start(self@, seq_view(entries@));
        let ghost views = seq_view(seqs@);
        let ghost mut outcomes: Seq<bool> = Seq::empty();
        let ghost mut told: Seq<ReqDataView> = Seq::empty();
        let n_entries = entries.len();
        let n_seqs = seqs.len();
        let mut cancels: Vec<CancelCall> = Vec::new();
        let mut i: usize = 0;
        for ps in iter: seqs
            invariant
                iter.seq() == seqs@,
                i == iter.index(),
                views == seq_view(seqs@),
                start == CheckInView::start(old(self)@, seq_view(old(entries)@)),
                entries@.len() == n_entries,
                seqs@.len() == n_seqs,
                self@.wf(),
                outcomes.len() == i,
                start.check_in_all(views, outcomes, i as int) == (CheckInView {
                    state: self@,
                    entries: seq_view(entries@),
                    cancels: cancels@,
                    told,
                    failed: None,
                }),
                forall|k: int| 0 <= k < told.len() ==> (#[trigger] told[k]).on_record(),
        {
            assert(ps@ == views[i as int]);
            let idx = ps.entry_idx;
            if idx >= n_entries {
                proof {
                    lemma_check_in_stops(
                        old(self)@,
                        seq_view(old(entries)@),
                        views,
                        outcomes,
                        i as int,
                    );
                }
                return Err(i);
            }
            let ghost seq = ps@;
            let ghost before = start.check_in_all(views, outcomes, i as int);
            let mut ps = ps;
            entries[idx].out_mask = ps.entry.out_mask.take();
            assert(seq_view(entries@) =~= before.check_in(seq, i, false).entries);
            let client = entries[idx].client_req_id;
            if !self.can_take_back(client, &ps) {
                proof {
                    lemma_check_in_stops(
                        old(self)@,
                        seq_view(old(entries)@),
                        views,
                        outcomes,
                        i as int,
                    );
                }
                return Err(i);
            }
            let mut sent = false;
            if let Some(results) = self.take_back(&entries[idx], ps) {
                let ghost rd = self@.req_data[client];
                sent = self.deliver(client, results);
                proof {
                    told = told.push(rd.delivered(results@, sent));
                }
                cancels.push(self.cancel_request(entries[idx].req_id));
            }
            proof {
                lemma_check_in_prefix(start, views, outcomes, outcomes.push(sent), i as int);
                outcomes = outcomes.push(sent);
                assert(start.check_in_all(views, outcomes, i + 1) == before.check_in(seq, i, sent));
            }
            i = i + 1;
        }
        assert(batch_checked_in(
            old(self)@,
            seq_view(old(entries)@),
            seq_view(seqs@),
            outcomes,
        ).gives(self@, seq_view(entries@), Ok(cancels)));
        Ok(cancels)
    }
}

} // verus!
