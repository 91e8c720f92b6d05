//! The views show what the values hold, field by field.
use tokio::sync::mpsc::UnboundedSender;
use vstd::prelude::*;

use crate::channel::{channel_at, channel_of, offered_through, sent_through, went_out};
use crate::executor::rounds::{
    DraftAction, DraftActionView, FollowUp, TargetAction, TargetActionView,
};
use crate::executor::{ExecutorView, PendingRequest, PendingRequestView};
use crate::llg::{Commit, MaskStep};
use crate::pending::{LogitsEntry, PendingSeq};
use crate::request::{ReqData, ReqDataView, SpecDecReqInit};
use crate::types::{
    map_view, opt_view, seq_view, ClientReqId, DraftParams, RequestInit, ResponseChunk,
    StepResults, StepResultsView, Tensor,
};

verus! {

/// Optional values, maps and sequences are seen value by value.
pub proof fn law_collections_seen<T: View>(opt: Option<T>, m: Map<u64, T>, s: Seq<T>)
    ensures
        opt is None <==> opt_view(opt) is None,
        opt matches Some(x) ==> opt_view(opt) == Some(x@),
        forall|k: u64| #[trigger] map_view(m).contains_key(k) <==> m.contains_key(k),
        forall|k: u64| m.contains_key(k) ==> #[trigger] map_view(m)[k] == m[k]@,
        seq_view(s).len() == s.len(),
        forall|i: int| 0 <= i < s.len() ==> #[trigger] seq_view(s)[i] == s[i]@,
{
}

/// A tensor and the tokens to check are seen whole.
pub proof fn law_draft_params_seen(tensor: Tensor, params: DraftParams)
    ensures
        tensor@.dims == tensor.dims@,
        tensor@.data == tensor.data@,
        params@.draft_tokens == params.draft_tokens@,
        params@.logits_tensor is None <==> params.logits_tensor is None,
        params.logits_tensor matches Some(t) ==> params@.logits_tensor == Some(t@),
        params@.acc_rate == params.acc_rate,
{
}

/// A request is seen whole, with or without its rounds.
pub proof fn law_request_seen<S>(init: RequestInit<S>, rounds: SpecDecReqInit<S>)
    ensures
        init@.tokens == init.tokens@,
        init@.params == init.params,
        init@.client_req_id == init.client_req_id,
        init@.is_run == init.is_run,
        init@.settings == init.settings,
        init@.draft_params is None <==> init.draft_params is None,
        init.draft_params matches Some(params) ==> init@.draft_params == Some(params@),
        rounds@.req_init == rounds.req_init@,
        rounds@.max_num_tokens == rounds.max_num_tokens,
        rounds@.start_prompt_len == rounds.start_prompt_len,
        rounds@.wf() <==> rounds.start_prompt_len <= rounds.req_init.tokens@.len(),
        rounds@.client() == rounds.req_init.client_req_id,
{
}

/// A response, and what a client is sent, are seen whole.
pub proof fn law_results_seen(resp: ResponseChunk, results: StepResults)
    ensures
        resp@.req_id == resp.req_id,
        resp@.sequence_idx == resp.sequence_idx,
        resp@.finish_reason == resp.finish_reason,
        resp@.is_req_final == resp.is_req_final,
        resp@.tokens == resp.tokens@,
        resp@.error is None <==> resp.error is None,
        resp.error matches Some(text) ==> resp@.error == Some(text@),
        resp@.logprobs is None <==> resp.logprobs is None,
        resp.logprobs matches Some(words) ==> resp@.logprobs == Some(words@),
        resp@.generation_logits is None <==> resp.generation_logits is None,
        resp.generation_logits matches Some(tensor) ==> resp@.generation_logits == Some(tensor@),
        results@.response == results.response@,
        results@.logs == results.logs@,
        results@.final_llg == results.final_llg,
{
}

/// A running request is seen whole. Its channel is that of its sending half, with all that went
/// through that.
pub proof fn law_running_request_seen(rd: ReqData)
    ensures
        rd@.req_id == rd.req_id,
        rd@.client_req_id == rd.client_req_id,
        rd@.channel == channel_of(rd.tx),
        rd@.offered == offered_through(rd.tx),
        rd@.sent == sent_through(rd.tx),
        rd@.logs == rd.logs@,
        rd@.llgs == rd.llgs@,
        rd@.llg_infos == rd.llg_infos@,
        rd@.min_p == rd.min_p,
        rd@.prompt_len == rd.prompt_len,
        rd@.is_run == rd.is_run,
{
}

/// A request that is ready for its engine is seen whole. It is in order if its prompt is there and
/// nothing has gone yet through its channel, which is that of the receiver.
pub proof fn law_pending_request_seen<S>(pending: PendingRequest<S>, view: PendingRequestView<S>)
    ensures
        pending@.temp_req_id == pending.temp_req_id,
        pending@.init == pending.init@,
        pending@.llgs == pending.llgs@,
        pending@.tx == pending.tx,
        pending@.rx == pending.rx,
        view.wf() <==> {
            &&& view.init.start_prompt_len <= view.init.req_init.tokens.len()
            &&& channel_of(view.tx) == channel_at(view.rx)
            &&& offered_through(view.tx).len() == 0
            &&& sent_through(view.tx).len() == 0
        },
{
    assert(offered_through(view.tx).len() == 0 ==> offered_through(view.tx) =~= Seq::empty());
    assert(sent_through(view.tx).len() == 0 ==> sent_through(view.tx) =~= Seq::empty());
}

/// An entry of a batch, and a sequence that is checked out, are seen whole.
pub proof fn law_sequence_seen(entry: LogitsEntry, ps: PendingSeq)
    ensures
        entry@.req_id == entry.req_id,
        entry@.client_req_id == entry.client_req_id,
        entry@.tokens == entry.tokens@,
        entry@.out_mask is None <==> entry.out_mask is None,
        entry.out_mask matches Some(words) ==> entry@.out_mask == Some(words@),
        ps@.entry_idx == ps.entry_idx,
        ps@.llg == ps.llg,
        ps@.llg_idx == ps.llg_idx,
        ps@.prompt_len == ps.prompt_len,
        ps@.is_run == ps.is_run,
        ps@.entry == ps.entry@,
        ps@.min_p == ps.min_p,
        ps@.stop == ps.stop,
        ps@.error is None <==> ps.error is None,
        ps.error matches Some(text) ==> ps@.error == Some(text@),
{
}

/// What comes back from a constraint is seen whole.
pub proof fn law_constraint_results_seen(step: MaskStep, commit: Commit)
    ensures
        step@.0 is None <==> step.sample_mask is None,
        step.sample_mask matches Some(words) ==> step@.0 == Some(words@),
        step@.1 == step.stop,
        commit@.stop == commit.stop,
        commit@.backtrack == commit.backtrack,
        commit@.ff_tokens == commit.ff_tokens@,
{
}

/// What is to be done after a response, and what is left to do, are seen whole.
pub proof fn law_actions_seen<S>(
    draft: DraftAction<S>,
    target: TargetAction<S>,
    follow: FollowUp<S>,
)
    ensures
        match draft {
            DraftAction::Wait => draft@ == DraftActionView::<S>::Wait,
            DraftAction::Cancel(id) => draft@ == DraftActionView::<S>::Cancel(id),
            DraftAction::Check(init) => draft@ == DraftActionView::Check(init@),
        },
        match target {
            TargetAction::Wait => target@ == TargetActionView::<S>::Wait,
            TargetAction::Cancel(id) => target@ == TargetActionView::<S>::Cancel(id),
            TargetAction::Redraft(init) => target@ == TargetActionView::Redraft(init@),
        },
        follow@.req_id == follow.req_id,
        follow@.client_req_id == follow.client_req_id,
        follow@.init == follow.init@,
        follow@.tokens == follow.tokens@,
        follow@.is_req_final == follow.is_req_final,
        follow@.verdict == follow.verdict,
{
}

/// A state is in order if every request in rounds is kept under its own client and still has its
/// prompt, and nothing is kept for the draft model alone.
pub proof fn law_state_in_order<S>(state: ExecutorView<S>)
    ensures
        state.wf() <==> {
            &&& forall|c: ClientReqId| #[trigger]
                state.client_to_init.contains_key(c) ==> {
                    let init = state.client_to_init[c];
                    &&& init.req_init.client_req_id == c
                    &&& init.start_prompt_len <= init.req_init.tokens.len()
                }
            &&& forall|c: ClientReqId| !#[trigger] state.draft_req_data.contains_key(c)
        },
{
}

/// What is on record did go through some sending half, and what went through a sending half is on
/// record.
pub proof fn law_record(rd: ReqDataView, tx: UnboundedSender<StepResults>)
    ensures
        rd.on_record() ==> exists|half: UnboundedSender<StepResults>|
            {
                &&& #[trigger] offered_through(half) == rd.offered
                &&& sent_through(half) == rd.sent
                &&& channel_of(half) == rd.channel
            },
        went_out(channel_of(tx), offered_through(tx), sent_through(tx)),
        rd.closing().channel == rd.channel,
        rd.closing().offered == rd.offered,
        rd.closing().sent == rd.sent,
{
    assert(offered_through(tx) == offered_through(tx));
}

/// Handing results to a client adds them, and nothing else, to what was handed to its channel, and
/// if they could be sent, also to what was sent.
pub proof fn law_delivered(rd: ReqDataView, results: StepResultsView, sent: bool)
    ensures
        ({
            let post = rd.delivered(results, sent);
            &&& post.offered == rd.offered.push(results)
            &&& sent ==> post.sent == rd.sent.push(results)
            &&& !sent ==> post.sent == rd.sent
            &&& post == ReqDataView { offered: post.offered, sent: post.sent, ..rd }
        }),
{
}

} // verus!
