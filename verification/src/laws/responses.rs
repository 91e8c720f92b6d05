//! Laws of what responses of the models come to.
use vstd::prelude::*;

use crate::executor::rounds::{
    acceptance, target_action, target_sample, verdict, AcceptanceSample, DraftActionView,
    FollowUpView, TargetActionView, Verdict,
};
use crate::executor::ExecutorView;
use crate::laws::requests::{same_but_round, same_client, same_setup, same_target_id};
use crate::request::{ReqDataView, SpecDecView};
use crate::types::{
    ClientReqId, EngineFinishReason, ReqId, ResponseChunkView, StepResultsView,
};

verus! {

/// A response of the draft model can be handled unless it is for a known request whose client is
/// in no round, or the round it ends cannot be made one token longer.
pub proof fn law_when_drafts_are_handled<S>(state: ExecutorView<S>, resp: ResponseChunkView)
    ensures
        state.draft_response_ok(resp) <==> {
            ||| !state.draft_req_to_client.contains_key(resp.req_id)
            ||| {
                &&& state.client_to_init.contains_key(state.draft_req_to_client[resp.req_id])
                &&& !resp.is_req_final || state.n_draft_tokens < u32::MAX
            }
        },
{
}

/// What a response of the draft model comes to. One of a request that is not known is cancelled.
/// Pieces of a round are waited for. At the end of a round the target model is to check the tokens
/// of the response behind the same prompt and output, and may add one token.
pub proof fn law_draft_outcome<S>(state: ExecutorView<S>, resp: ResponseChunkView)
    requires
        state.n_draft_tokens < u32::MAX,
    ensures
        !state.draft_req_to_client.contains_key(resp.req_id) ==> state.draft_action(resp)
            == DraftActionView::<S>::Cancel(resp.req_id),
        state.draft_req_to_client.contains_key(resp.req_id) && !resp.is_req_final
            ==> state.draft_action(resp) == DraftActionView::<S>::Wait,
        state.draft_req_to_client.contains_key(resp.req_id) && resp.is_req_final ==> {
            let round = state.client_to_init[state.draft_req_to_client[resp.req_id]];
            &&& state.draft_action(resp) matches DraftActionView::Check(next)
            &&& same_but_round(next, round)
            &&& next.req_init.tokens == round.req_init.tokens
            &&& next.req_init.draft_params matches Some(params)
            &&& params.draft_tokens == resp.tokens
            &&& params.logits_tensor is None
            &&& params.acc_rate is None
            &&& next.req_init.params.max_new_tokens == state.n_draft_tokens + 1
            &&& next.req_init.params.min_tokens == 1
            &&& !next.req_init.params.streaming
        },
{
}

/// A response of the target model can be passed on unless it is for a known request whose client is
/// in no round, or has no running request, or has constraints but none for the finished sequence.
pub proof fn law_when_target_responses_are_passed_on<S>(
    state: ExecutorView<S>,
    resp: ResponseChunkView,
)
    ensures
        state.target_response_ok(resp) <==> {
            let client = state.req_to_client[resp.req_id];
            ||| !state.req_to_client.contains_key(resp.req_id)
            ||| {
                &&& state.client_to_init.contains_key(client)
                &&& state.req_data.contains_key(client)
                &&& {
                    ||| state.req_data[client].llgs.len() == 0
                    ||| resp.finish_reason is None
                    ||| resp.sequence_idx < state.req_data[client].llgs.len()
                }
            }
        },
{
}

/// The number of tokens after the prompt, with `more` new ones.
pub open spec fn produced<S>(init: SpecDecView<S>, more: nat) -> int {
    init.req_init.tokens.len() - init.start_prompt_len + more
}

/// When a request is over: at the end of a round without tokens, or once the tokens after the
/// prompt, with the new ones counted once more, are as many as the client asked for.
pub proof fn law_verdict<S>(before: SpecDecView<S>, resp: ResponseChunkView)
    ensures
        ({
            let n = resp.tokens.len();
            let left = produced(before, n) + n < before.max_num_tokens;
            let v = verdict(before.extended(resp.tokens), n, resp.is_req_final);
            &&& v == Verdict::Ended <==> n == 0 && resp.is_req_final
            &&& v == Verdict::Unfinished <==> !(n == 0 && resp.is_req_final) && left
            &&& v == Verdict::Full <==> !(n == 0 && resp.is_req_final) && !left
        }),
{
}

/// What the client is to get for a response: the response itself, but for why it finished and
/// whether it is final; the logs; and, if the engine has finished the sequence, the constraint in
/// the slot of that sequence.
pub open spec fn is_message<S>(
    message: StepResultsView,
    init: SpecDecView<S>,
    rd: ReqDataView,
    resp: ResponseChunkView,
) -> bool {
    let n = resp.tokens.len();
    &&& message.response.req_id == resp.req_id
    &&& message.response.sequence_idx == resp.sequence_idx
    &&& message.response.error == resp.error
    &&& message.response.logprobs == resp.logprobs
    &&& message.response.tokens == resp.tokens
    &&& message.response.generation_logits == resp.generation_logits
    &&& message.logs == rd.logs
    &&& rd.llgs.len() > 0 && resp.finish_reason is Some ==> message.final_llg
        == rd.llgs[resp.sequence_idx as int]
    &&& rd.llgs.len() == 0 || resp.finish_reason is None ==> message.final_llg is None
    &&& if n == 0 && resp.is_req_final {
        &&& message.response.finish_reason == Some(EngineFinishReason::EosToken)
        &&& message.response.is_req_final
    } else if produced(init, n) + n < init.max_num_tokens {
        &&& message.response.finish_reason is None
        &&& !message.response.is_req_final
    } else {
        &&& message.response.finish_reason == Some(EngineFinishReason::Length)
        &&& message.response.is_req_final
    }
}

/// What a response leaves of a running request: its logs are gone, and so is the constraint of a
/// sequence that the engine has finished. Every other slot holds what it held.
pub open spec fn is_left(rd: ReqDataView, post: ReqDataView, resp: ResponseChunkView) -> bool {
    &&& post.logs.len() == 0
    &&& post.llgs.len() == rd.llgs.len()
    &&& forall|slot: int|
        0 <= slot < rd.llgs.len() ==> {
            &&& resp.finish_reason is Some && slot == resp.sequence_idx
                ==> #[trigger] post.llgs[slot] is None
            &&& !(resp.finish_reason is Some && slot == resp.sequence_idx) ==> post.llgs[slot]
                == rd.llgs[slot]
        }
    &&& post.req_id == rd.req_id
    &&& post.client_req_id == rd.client_req_id
    &&& post.channel == rd.channel
    &&& post.llg_infos == rd.llg_infos
    &&& post.min_p == rd.min_p
    &&& post.prompt_len == rd.prompt_len
    &&& post.is_run == rd.is_run
}

/// Putting together what the client gets takes from its running request just what goes along, and
/// touches nothing else. What is left to do is told with the output that the request has now.
pub proof fn law_target_response_put_together<S>(
    state: ExecutorView<S>,
    resp: ResponseChunkView,
    other: ClientReqId,
)
    requires
        state.req_to_client.contains_key(resp.req_id),
        state.target_response_ok(resp),
        other != state.req_to_client[resp.req_id],
    ensures
        ({
            let client = state.req_to_client[resp.req_id];
            let init = state.client_to_init[client];
            let rd = state.req_data[client];
            let post = state.target_passed(resp);
            let follow = state.follow_up(resp);
            &&& is_message(state.target_results(resp), init, rd, resp)
            &&& post.req_data.contains_key(client)
            &&& is_left(rd, post.req_data[client], resp)
            &&& post.req_data[client].offered == rd.offered
            &&& post.req_data[client].sent == rd.sent
            &&& same_client(state, post, other)
            &&& post.req_to_client == state.req_to_client
            &&& post.draft_req_to_client == state.draft_req_to_client
            &&& post.draft_req_data == state.draft_req_data
            &&& post.client_to_init == state.client_to_init
            &&& post.closed == state.closed
            &&& same_setup(state, post)
            &&& follow.req_id == resp.req_id
            &&& follow.client_req_id == client
            &&& follow.tokens == resp.tokens
            &&& follow.is_req_final == resp.is_req_final
            &&& follow.init.req_init.tokens == init.req_init.tokens + resp.tokens
            &&& follow.init.req_init.params == init.req_init.params
            &&& follow.init.req_init.draft_params == init.req_init.draft_params
            &&& same_but_round(follow.init, init)
        }),
{
}

/// A client is handed results alone: no other client, id or round changes.
pub proof fn law_only_that_client_is_told<S>(
    state: ExecutorView<S>,
    client: ClientReqId,
    results: StepResultsView,
    sent: bool,
    other: ClientReqId,
)
    requires
        other != client,
        state.req_data.contains_key(client),
    ensures
        ({
            let post = state.delivered(client, results, sent);
            let rd = state.req_data[client];
            let now = post.req_data[client];
            &&& post.req_data.contains_key(client)
            &&& now.offered == rd.offered.push(results)
            &&& sent ==> now.sent == rd.sent.push(results)
            &&& !sent ==> now.sent == rd.sent
            &&& now.channel == rd.channel
            &&& now.llgs == rd.llgs
            &&& now.llg_infos == rd.llg_infos
            &&& now.logs == rd.logs
            &&& same_client(state, post, other)
            &&& post.req_to_client == state.req_to_client
            &&& post.draft_req_to_client == state.draft_req_to_client
            &&& post.client_to_init == state.client_to_init
            &&& post.closed == state.closed
            &&& same_setup(state, post)
        }),
{
}

/// What follows once results have been sent, or could not be. A request whose results cannot be
/// sent is cancelled. A round that goes on is waited for. When a round is over it is counted, and
/// then another one starts if and only if the request is unfinished; otherwise it is cancelled.
pub proof fn law_what_follows<S>(
    state: ExecutorView<S>,
    follow: FollowUpView<S>,
    sent: bool,
    n: u32,
)
    ensures
        ({
            let action = target_action(follow, sent, n);
            let over = sent && follow.is_req_final;
            &&& action == TargetActionView::<S>::Wait <==> sent && !follow.is_req_final
            &&& action is Redraft <==> over && follow.verdict == Verdict::Unfinished
            &&& action == TargetActionView::<S>::Cancel(follow.req_id) <==> !sent || (over
                && follow.verdict != Verdict::Unfinished)
            &&& action matches TargetActionView::Redraft(next) ==> {
                &&& same_but_round(next, follow.init)
                &&& next.req_init.tokens == follow.init.req_init.tokens
                &&& next.req_init.draft_params is None
                &&& next.req_init.params.max_new_tokens == n
                &&& next.req_init.params.min_tokens == n
                &&& !next.req_init.params.streaming
            }
            &&& follow.ok(sent, state.has_draft) <==> {
                ||| !over
                ||| {
                    &&& follow.init.req_init.draft_params is Some
                    &&& follow.verdict != Verdict::Unfinished || state.has_draft
                }
            }
            &&& !over ==> target_sample(follow, sent) is None
            &&& over ==> target_sample(follow, sent) == Some(
                acceptance(
                    follow.client_req_id,
                    follow.init.req_init.draft_params->0.draft_tokens.len(),
                    follow.tokens.len(),
                ),
            )
            &&& !sent || (over && follow.verdict != Verdict::Unfinished)
                ==> state.target_followed(follow, sent) == state.drop_request(follow.req_id)
            &&& sent && (!follow.is_req_final || follow.verdict == Verdict::Unfinished)
                ==> state.target_followed(follow, sent) == state
        }),
{
}

/// A round has kept all tokens of the target model but one, of those drafted.
pub proof fn law_acceptance(client: ClientReqId, drafted: nat, tokens: nat)
    requires
        drafted <= usize::MAX,
        tokens <= usize::MAX,
    ensures
        acceptance(client, drafted, tokens).client_req_id == client,
        acceptance(client, drafted, tokens).drafted == drafted,
        tokens > 0 ==> acceptance(client, drafted, tokens).accepted + 1 == tokens,
        tokens == 0 ==> acceptance(client, drafted, tokens).accepted == usize::MAX,
{
}

/// What a response of the target model comes to, for a known request. The client, and nobody else,
/// is handed one message. If that cannot be sent, the request is cancelled. At the end of a round
/// with tokens, another round starts if and only if the tokens after the prompt, with the new ones,
/// and the new ones once more, are fewer than the client asked for; how long the prompt is does not
/// matter. The next round has all output so far behind the prompt. A request that is cancelled is
/// gone with its client, whose channel is closed behind the message.
pub proof fn law_target_outcome<S>(
    state: ExecutorView<S>,
    resp: ResponseChunkView,
    sent: bool,
    post: ExecutorView<S>,
    action: TargetActionView<S>,
    sample: Option<AcceptanceSample>,
    other: ClientReqId,
    other_id: ReqId,
)
    requires
        state.req_to_client.contains_key(resp.req_id),
        state.target_response_ok(resp),
        state.target_handled(resp, sent, post, action, sample),
        other != state.req_to_client[resp.req_id],
        other_id != resp.req_id,
    ensures
        ({
            let client = state.req_to_client[resp.req_id];
            let init = state.client_to_init[client];
            let rd = state.req_data[client];
            let n = resp.tokens.len();
            let message = state.target_results(resp);
            let over = sent && resp.is_req_final;
            &&& is_message(message, init, rd, resp)
            &&& over && n > 0 ==> (action is Redraft <==> produced(init, n) + n
                < init.max_num_tokens)
            &&& over && n == 0 ==> !(action is Redraft)
            &&& over && !(action is Redraft) ==> action == TargetActionView::<S>::Cancel(
                resp.req_id,
            )
            &&& sent && !resp.is_req_final ==> action == TargetActionView::<S>::Wait
            &&& !sent ==> action == TargetActionView::<S>::Cancel(resp.req_id)
            &&& action matches TargetActionView::Redraft(next) ==> {
                &&& same_but_round(next, init)
                &&& next.req_init.tokens == init.req_init.tokens + resp.tokens
                &&& next.req_init.draft_params is None
                &&& next.req_init.params.max_new_tokens == state.n_draft_tokens
                &&& next.req_init.params.min_tokens == state.n_draft_tokens
                &&& !next.req_init.params.streaming
            }
            &&& sample is Some <==> over
            &&& sample matches Some(s) ==> s.client_req_id == client
            &&& over && init.req_init.draft_params->0.draft_tokens.len() <= usize::MAX
                ==> sample->0.drafted == init.req_init.draft_params->0.draft_tokens.len()
            &&& over && 0 < n <= usize::MAX ==> sample->0.accepted + 1 == n
            &&& if action is Cancel {
                &&& !post.req_to_client.contains_key(resp.req_id)
                &&& !post.req_data.contains_key(client)
                &&& !post.client_to_init.contains_key(client)
                &&& post.closed.len() == state.closed.len() + 1
                &&& post.closed.last().channel == rd.channel
                &&& post.closed.last().offered == rd.offered.push(message)
                &&& sent ==> post.closed.last().sent == rd.sent.push(message)
                &&& !sent ==> post.closed.last().sent == rd.sent
            } else {
                let now = post.req_data[client];
                &&& post.req_data.contains_key(client)
                &&& is_left(rd, now, resp)
                &&& now.offered == rd.offered.push(message)
                &&& now.sent == rd.sent.push(message)
                &&& post.req_to_client == state.req_to_client
                &&& post.client_to_init == state.client_to_init
                &&& post.closed == state.closed
            }
            &&& same_client(state, post, other)
            &&& same_target_id(state, post, other_id)
            &&& post.draft_req_to_client == state.draft_req_to_client
            &&& post.draft_req_data == state.draft_req_data
            &&& same_setup(state, post)
        }),
{
}

/// The prompt does not count. Two requests that want as many tokens, have as much output and get
/// the same number of tokens go on in the same way, however long their prompts are.
pub proof fn law_prompt_does_not_count<S>(
    a: ExecutorView<S>,
    b: ExecutorView<S>,
    resp: ResponseChunkView,
    sent: bool,
    a_post: ExecutorView<S>,
    b_post: ExecutorView<S>,
    a_action: TargetActionView<S>,
    b_action: TargetActionView<S>,
    a_sample: Option<AcceptanceSample>,
    b_sample: Option<AcceptanceSample>,
)
    requires
        a.req_to_client.contains_key(resp.req_id),
        b.req_to_client.contains_key(resp.req_id),
        ({
            let x = a.client_to_init[a.req_to_client[resp.req_id]];
            let y = b.client_to_init[b.req_to_client[resp.req_id]];
            &&& x.max_num_tokens == y.max_num_tokens
            &&& x.req_init.tokens.len() - x.start_prompt_len == y.req_init.tokens.len()
                - y.start_prompt_len
        }),
        a.target_handled(resp, sent, a_post, a_action, a_sample),
        b.target_handled(resp, sent, b_post, b_action, b_sample),
    ensures
        a_action is Redraft <==> b_action is Redraft,
        a_action is Cancel <==> b_action is Cancel,
        a_action is Wait <==> b_action is Wait,
        a.target_results(resp).response == b.target_results(resp).response,
{
}

} // verus!
