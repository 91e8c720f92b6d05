//! Laws of whole runs of calls.
use vstd::prelude::*;

use crate::executor::logits::{batch_checked_in, batch_checked_out, CheckInView};
use crate::executor::rounds::FollowUpView;
use crate::executor::{ExecutorView, PendingRequestView};
use crate::laws::batches::{
    countable, distinct_entries, law_check_out, law_check_out_tables, tables_ok,
};
use crate::pending::{LogitsEntryView, PendingSeqView};
use crate::request::{ClosedView, ConstraintInfo, ReqDataView, SpecDecView};
use crate::types::{ClientReqId, ReqId, ResponseChunkView};

verus! {

/// A call that changes an executor.
pub enum Call<S> {
    CheckOut(Seq<LogitsEntryView>),
    CheckIn(Seq<LogitsEntryView>, Seq<PendingSeqView>, Seq<bool>),
    TakeBack(ClientReqId, PendingSeqView),
    TargetResponse(ResponseChunkView),
    SendTargetResponse(ResponseChunkView, bool),
    TargetSent(FollowUpView<S>, bool),
    HandleTargetResponse(ResponseChunkView, bool),
    CompleteRequest(PendingRequestView<S>, ReqId),
    CancelRequest(ReqId),
    CancelDraftRequest(ReqId),
    TargetTaken(ReqId, ReqId, SpecDecView<S>),
    DraftTaken(ReqId, ReqId, SpecDecView<S>),
}

impl<S> ExecutorView<S> {
    /// A response of the target model for a known request can be passed on.
    pub open spec fn can_pass(self, resp: ResponseChunkView) -> bool {
        self.knows_target(resp.req_id) && self.target_response_ok(resp)
    }

    /// The results of a response of the target model have been sent, or could not be.
    pub open spec fn target_response_sent(
        self,
        resp: ResponseChunkView,
        sent: bool,
    ) -> ExecutorView<S> {
        self.target_passed(resp).delivered(
            self.req_to_client[resp.req_id],
            self.target_results(resp),
            sent,
        )
    }

    /// A call is one that can be made, and leads from here to `post`.
    pub open spec fn leads_to(self, call: Call<S>, post: ExecutorView<S>) -> bool {
        match call {
            Call::CheckOut(entries) => {
                &&& entries.len() <= usize::MAX
                &&& distinct_entries(entries)
                &&& batch_checked_out(self.req_data, entries).failed is None
                &&& post == ExecutorView {
                    req_data: batch_checked_out(self.req_data, entries).data,
                    ..self
                }
            },
            Call::CheckIn(entries, seqs, sent) => post == batch_checked_in(
                self,
                entries,
                seqs,
                sent,
            ).state,
            Call::TakeBack(client, ps) => {
                &&& self.can_take_back(client, ps)
                &&& post == self.taken_back(client, ps)
            },
            Call::TargetResponse(resp) => self.can_pass(resp) && post == self.target_passed(resp),
            Call::SendTargetResponse(resp, sent) => {
                &&& self.can_pass(resp)
                &&& post == self.target_response_sent(resp, sent)
            },
            Call::TargetSent(follow, sent) => post == self.target_followed(follow, sent),
            Call::HandleTargetResponse(resp, sent) => {
                &&& self.can_pass(resp)
                &&& post == self.target_response_sent(resp, sent).target_followed(
                    self.follow_up(resp),
                    sent,
                )
            },
            Call::CompleteRequest(pending, engine_req_id) => {
                &&& pending.llgs.len() <= usize::MAX
                &&& post == self.request_added(pending, engine_req_id)
            },
            Call::CancelRequest(req_id) => post == self.drop_request(req_id),
            Call::CancelDraftRequest(req_id) => post == self.drop_draft_request(req_id),
            Call::TargetTaken(draft_req_id, target_req_id, init) => post == self.target_taken(
                draft_req_id,
                target_req_id,
                init,
            ),
            Call::DraftTaken(target_req_id, draft_req_id, init) => post == self.draft_taken(
                target_req_id,
                draft_req_id,
                init,
            ),
        }
    }
}

/// A call does not replace the request of a client.
pub open spec fn keeps_request<S>(call: Call<S>, client: ClientReqId) -> bool {
    call matches Call::CompleteRequest(pending, _) ==> pending.init.client() != client
}

/// The calls lead from each state to the next.
pub open spec fn is_run<S>(states: Seq<ExecutorView<S>>, calls: Seq<Call<S>>) -> bool {
    &&& states.len() == calls.len() + 1
    &&& forall|k: int|
        0 <= k < calls.len() ==> states[k].leads_to(#[trigger] calls[k], states[k + 1])
}

/// What one call keeps: the order of the slot tables, the table of a client whose request stays,
/// but for what is added at its end, and the record of closed channels, but for the same.
proof fn lemma_call<S>(
    pre: ExecutorView<S>,
    call: Call<S>,
    post: ExecutorView<S>,
    client: ClientReqId,
)
    requires
        pre.leads_to(call, post),
        tables_ok(pre.req_data),
        countable(pre.req_data),
    ensures
        tables_ok(post.req_data),
        countable(post.req_data),
        is_start_of(pre.closed, post.closed),
        keeps_request(call, client) && post.req_data.contains_key(client) ==> {
            &&& pre.req_data.contains_key(client)
            &&& same_table(pre.req_data[client], post.req_data[client])
        },
{
    match call {
        Call::CheckOut(entries) => {
            law_check_out(pre.req_data, entries);
            law_check_out_tables(pre.req_data, entries);
            assert forall|c: ClientReqId| #[trigger] post.req_data.contains_key(c) implies
                pre.req_data.contains_key(c) && post.req_data[c].grown_from(pre.req_data[c]) by {
                assert(post.req_data.dom().contains(c));
            }
            if post.req_data.contains_key(client) {
                let a = pre.req_data[client].llg_infos;
                let b = post.req_data[client].llg_infos;
                assert forall|i: int| 0 <= i < a.len() implies a[i] == b[i] by {
                    assert(b.subrange(0, a.len() as int)[i] == b[i]);
                }
            }
        },
        Call::CheckIn(entries, seqs, sent) => {
            lemma_check_in_call(pre, entries, seqs, sent, seqs.len() as int);
            assert forall|c: ClientReqId| #[trigger]
                post.req_data.contains_key(c) implies post.req_data[c].table_ok()
                && post.req_data[c].llgs.len() <= usize::MAX by {
                assert(pre.req_data.contains_key(c));
            }
        },
        _ => {
            assert forall|c: ClientReqId|
                keeps_request(call, c) && #[trigger] post.req_data.contains_key(c) implies
                pre.req_data.contains_key(c) && post.req_data[c].llg_infos
                == pre.req_data[c].llg_infos && post.req_data[c].llgs.len()
                == pre.req_data[c].llgs.len() by {
            }
        },
    }
}

/// One record is the start of another.
pub open spec fn is_start_of(a: Seq<ClosedView>, b: Seq<ClosedView>) -> bool {
    a.len() <= b.len() && forall|i: int| 0 <= i < a.len() ==> a[i] == #[trigger] b[i]
}

/// The slots are the same in number, and the slot table has at most grown at its end.
pub open spec fn same_table(a: ReqDataView, b: ReqDataView) -> bool {
    &&& a.llgs.len() == b.llgs.len()
    &&& a.llg_infos.len() <= b.llg_infos.len()
    &&& forall|i: int| 0 <= i < a.llg_infos.len() ==> a.llg_infos[i] == #[trigger] b.llg_infos[i]
}

proof fn lemma_check_in_call<S>(
    state: ExecutorView<S>,
    entries: Seq<LogitsEntryView>,
    seqs: Seq<PendingSeqView>,
    sent: Seq<bool>,
    n: int,
)
    ensures
        ({
            let now = CheckInView::start(state, entries).check_in_all(seqs, sent, n).state;
            &&& is_start_of(state.closed, now.closed)
            &&& forall|c: ClientReqId| #[trigger]
                now.req_data.contains_key(c) ==> state.req_data.contains_key(c)
                    && now.req_data[c].llg_infos == state.req_data[c].llg_infos
                    && now.req_data[c].llgs.len() == state.req_data[c].llgs.len()
        }),
    decreases n,
{
    if n > 0 {
        lemma_check_in_call(state, entries, seqs, sent, n - 1);
        let st = CheckInView::start(state, entries).check_in_all(seqs, sent, n - 1).state;
        let now = CheckInView::start(state, entries).check_in_all(seqs, sent, n).state;
        assert forall|c: ClientReqId| #[trigger] now.req_data.contains_key(c) implies
            state.req_data.contains_key(c) && now.req_data[c].llg_infos
            == state.req_data[c].llg_infos && now.req_data[c].llgs.len()
            == state.req_data[c].llgs.len() by {
            assert(st.req_data.contains_key(c));
        }
    }
}

/// Over any run of calls, the slot tables stay in order: no request id is in a table twice, and no
/// table is longer than there are slots. Channels that are closed stay closed, as they were.
pub proof fn law_run_tables<S>(states: Seq<ExecutorView<S>>, calls: Seq<Call<S>>, n: int)
    requires
        is_run(states, calls),
        0 <= n < states.len(),
        tables_ok(states[0].req_data),
        countable(states[0].req_data),
    ensures
        tables_ok(states[n].req_data),
        countable(states[n].req_data),
        is_start_of(states[0].closed, states[n].closed),
    decreases n,
{
    if n > 0 {
        law_run_tables(states, calls, n - 1);
        assert(states[n - 1].leads_to(calls[n - 1], states[n - 1 + 1]));
        lemma_call(states[n - 1], calls[n - 1], states[n], 0);
    }
}

/// Over any run of calls in which a client keeps its request, its slot table only grows at its
/// end; so a sequence that has a slot keeps that slot, and whenever it is checked out, it is with
/// the constraint in that slot.
pub proof fn law_run_keeps_slots<S>(
    states: Seq<ExecutorView<S>>,
    calls: Seq<Call<S>>,
    client: ClientReqId,
    req_id: ReqId,
    n: int,
)
    requires
        is_run(states, calls),
        0 <= n < states.len(),
        tables_ok(states[0].req_data),
        countable(states[0].req_data),
        forall|k: int| 0 <= k <= n ==> (#[trigger] states[k]).req_data.contains_key(client),
        forall|k: int| 0 <= k < n ==> keeps_request(#[trigger] calls[k], client),
    ensures
        ({
            let first = states[0].req_data[client];
            let now = states[n].req_data[client];
            &&& same_table(first, now)
            &&& first.slot_of(req_id) is Some ==> {
                &&& now.slot_of(req_id) == first.slot_of(req_id)
                &&& n < calls.len() ==> checks_out_of(
                    states[n],
                    calls[n],
                    client,
                    req_id,
                    first.slot_of(req_id)->0,
                )
            }
        }),
    decreases n,
{
    let first = states[0].req_data[client];
    let now = states[n].req_data[client];
    law_run_tables(states, calls, n);
    if n > 0 {
        law_run_keeps_slots(states, calls, client, req_id, n - 1);
        law_run_tables(states, calls, n - 1);
        assert(states[n - 1].leads_to(calls[n - 1], states[n - 1 + 1]));
        lemma_call(states[n - 1], calls[n - 1], states[n], client);
        let mid = states[n - 1].req_data[client];
        assert forall|i: int| 0 <= i < first.llg_infos.len() implies first.llg_infos[i]
            == #[trigger] now.llg_infos[i] by {
            assert(mid.llg_infos[i] == first.llg_infos[i]);
        }
    }
    let info = ConstraintInfo { req_id };
    first.llg_infos.index_of_first_ensures(info);
    now.llg_infos.index_of_first_ensures(info);
    if let Some(slot) = first.slot_of(req_id) {
        assert(now.llg_infos[slot] == info);
        assert(now.llg_infos.contains(info));
        assert(now.table_ok());
        if n < calls.len() {
            assert(states[n].leads_to(calls[n], states[n + 1]));
            if let Call::CheckOut(entries) = calls[n] {
                let before = states[n].req_data;
                let out = batch_checked_out(before, entries);
                law_check_out(before, entries);
                law_check_out_tables(before, entries);
                assert forall|k: int|
                    0 <= k < out.seqs.len() && (#[trigger] out.seqs[k]).entry.client_req_id
                        == client && out.seqs[k].entry.req_id == req_id implies
                out.seqs[k].llg_idx == slot && Some(out.seqs[k].llg)
                    == before[client].llgs[slot] by {
                }
            }
        }
    }
}

/// If a call checks out a sequence of a client, it is with the constraint in a slot.
pub open spec fn checks_out_of<S>(
    state: ExecutorView<S>,
    call: Call<S>,
    client: ClientReqId,
    req_id: ReqId,
    slot: int,
) -> bool {
    call matches Call::CheckOut(entries) ==> {
        let seqs = batch_checked_out(state.req_data, entries).seqs;
        forall|k: int|
            0 <= k < seqs.len() && (#[trigger] seqs[k]).entry.client_req_id == client
                && seqs[k].entry.req_id == req_id ==> seqs[k].llg_idx == slot && Some(seqs[k].llg)
                == state.req_data[client].llgs[slot]
    }
}

} // verus!
