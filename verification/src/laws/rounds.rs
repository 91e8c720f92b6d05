//! Laws of the rounds of drafting and checking.
use llguidance::Constraint;
use tokio::sync::mpsc::{UnboundedReceiver, UnboundedSender};
use vstd::prelude::*;

use crate::channel::{channel_at, went_out};
use crate::executor::logits::{batch_checked_in, batch_checked_out, CheckInView};
use crate::executor::rounds::{AcceptanceSample, DraftActionView, TargetActionView};
use crate::executor::{planned, CancelCall, ExecutorView, PendingRequestView};
use crate::laws::batches::{countable, law_check_out};
use crate::pending::{LogitsEntryView, PendingSeqView};
use crate::request::{ClosedView, ReqDataView, SpecDecView};
use crate::types::{
    ClientReqId, EngineFinishReason, ReqId, RequestInitView, ResponseChunkView, StepResults,
    StepResultsView, TokenId,
};

verus! {

impl<S> ExecutorView<S> {
    /// A client is in rounds, and has a running request.
    pub open spec fn in_rounds(self, client: ClientReqId) -> bool {
        self.client_to_init.contains_key(client) && self.req_data.contains_key(client)
    }

    /// No model is working for a client.
    pub open spec fn is_idle(self, client: ClientReqId) -> bool {
        &&& forall|id: ReqId| #[trigger]
            self.req_to_client.contains_key(id) ==> self.req_to_client[id] != client
        &&& forall|id: ReqId| #[trigger]
            self.draft_req_to_client.contains_key(id) ==> self.draft_req_to_client[id] != client
    }

    /// What holds all the time with a draft model: whatever a model is working on belongs to a
    /// client that is in rounds; what the target model is working on has been drafted; and for
    /// each client there is at most one model working, on one request.
    pub open spec fn consistent(self) -> bool {
        &&& self.wf()
        &&& self.has_draft
        &&& self.n_draft_tokens < u32::MAX
        &&& forall|id: ReqId| #[trigger]
            self.draft_req_to_client.contains_key(id) ==> self.in_rounds(
                self.draft_req_to_client[id],
            )
        &&& forall|id: ReqId| #[trigger]
            self.req_to_client.contains_key(id) ==> self.in_rounds(self.req_to_client[id])
                && self.client_to_init[self.req_to_client[id]].req_init.draft_params is Some
        &&& forall|a: ReqId, b: ReqId|
            #![trigger self.req_to_client.contains_key(a), self.req_to_client.contains_key(b)]
            self.req_to_client.contains_key(a) && self.req_to_client.contains_key(b) && a != b
                ==> self.req_to_client[a] != self.req_to_client[b]
        &&& forall|a: ReqId, b: ReqId|
            #![trigger self.draft_req_to_client.contains_key(a), self.draft_req_to_client.contains_key(b)]
            self.draft_req_to_client.contains_key(a) && self.draft_req_to_client.contains_key(b)
                && a != b ==> self.draft_req_to_client[a] != self.draft_req_to_client[b]
        &&& forall|a: ReqId, b: ReqId|
            #![trigger self.req_to_client.contains_key(a), self.draft_req_to_client.contains_key(b)]
            self.req_to_client.contains_key(a) && self.draft_req_to_client.contains_key(b)
                ==> self.req_to_client[a] != self.draft_req_to_client[b]
    }
}

/// A new executor with a draft model is consistent.
pub proof fn law_new_consistent<S>(state: ExecutorView<S>)
    requires
        state.has_draft,
        state.n_draft_tokens < u32::MAX,
        state.req_to_client == Map::<ReqId, ClientReqId>::empty(),
        state.draft_req_to_client == Map::<ReqId, ClientReqId>::empty(),
        state.draft_req_data == Map::<ClientReqId, ReqDataView>::empty(),
        state.client_to_init == Map::<ClientReqId, SpecDecView<S>>::empty(),
    ensures
        state.consistent(),
{
}

/// Adding a request keeps the executor consistent, if no model is working for its client yet.
pub proof fn law_add_request_consistent<S>(
    state: ExecutorView<S>,
    pending: PendingRequestView<S>,
    engine_req_id: ReqId,
)
    requires
        state.consistent(),
        state.is_idle(pending.init.client()),
        pending.temp_req_id is Some,
        pending.wf(),
    ensures
        state.request_added(pending, engine_req_id).consistent(),
{
}

/// Cancelling a request of the target model, known or not, keeps the executor consistent.
pub proof fn law_cancel_consistent<S>(state: ExecutorView<S>, req_id: ReqId)
    requires
        state.consistent(),
    ensures
        state.drop_request(req_id).consistent(),
{
}

/// Cancelling a request of the draft model, known or not, keeps the executor consistent.
pub proof fn law_cancel_draft_consistent<S>(state: ExecutorView<S>, req_id: ReqId)
    requires
        state.consistent(),
    ensures
        state.drop_draft_request(req_id).consistent(),
{
}

/// In a consistent executor every response of the draft model can be handled. If it ends a round,
/// the executor is consistent again once the target model has taken the round.
pub proof fn law_draft_response_consistent<S>(
    state: ExecutorView<S>,
    resp: ResponseChunkView,
    target_req_id: ReqId,
)
    requires
        state.consistent(),
    ensures
        state.draft_response_ok(resp),
        state.draft_action(resp) matches DraftActionView::Check(init) ==> state.target_taken(
            resp.req_id,
            target_req_id,
            init,
        ).consistent(),
{
}

/// In a consistent executor every response of the target model can be handled, if there is a slot
/// for its sequence. Whether or not its results can be sent, the executor is consistent again,
/// and if a round follows, then also once the draft model has taken it.
pub proof fn law_target_response_consistent<S>(
    state: ExecutorView<S>,
    resp: ResponseChunkView,
    sent: bool,
    post: ExecutorView<S>,
    action: TargetActionView<S>,
    sample: Option<AcceptanceSample>,
    draft_req_id: ReqId,
)
    requires
        state.consistent(),
        state.knows_target(resp.req_id) && state.target_data(resp.req_id).takes_llg(resp)
            ==> resp.sequence_idx < state.target_data(resp.req_id).llgs.len(),
    ensures
        state.target_response_ok(resp),
        state.knows_target(resp.req_id) ==> state.follow_up(resp).ok(true, state.has_draft),
        state.knows_target(resp.req_id) && state.target_handled(resp, sent, post, action, sample)
            ==> {
            &&& post.consistent()
            &&& action matches TargetActionView::Redraft(init) ==> post.draft_taken(
                resp.req_id,
                draft_req_id,
                init,
            ).consistent()
        },
{
    if state.knows_target(resp.req_id) && state.target_handled(resp, sent, post, action, sample) {
        let follow = state.follow_up(resp);
        let passed = state.target_passed(resp).delivered(
            follow.client_req_id,
            state.target_results(resp),
            sent,
        );
        assert(passed.req_data.dom() =~= state.req_data.dom());
        assert(passed.consistent());
        assert(post.consistent());
    }
}

/// Checking a batch out, which only touches the data of running requests, keeps the executor
/// consistent.
pub proof fn law_check_out_consistent<S>(state: ExecutorView<S>, entries: Seq<LogitsEntryView>)
    requires
        state.consistent(),
        countable(state.req_data),
        entries.len() <= usize::MAX,
        batch_checked_out(state.req_data, entries).failed is None,
    ensures
        (ExecutorView {
            req_data: batch_checked_out(state.req_data, entries).data,
            ..state
        }).consistent(),
{
    law_check_out(state.req_data, entries);
    let post = ExecutorView { req_data: batch_checked_out(state.req_data, entries).data, ..state };
    assert(post.req_data.dom() == state.req_data.dom());
    assert forall|c: ClientReqId| state.req_data.contains_key(c) implies #[trigger]
        post.req_data.contains_key(c) by {
        assert(post.req_data.dom().contains(c));
    }
}

/// Checking a batch in keeps the executor consistent, whichever of its sequences have failed.
pub proof fn law_check_in_consistent<S>(
    state: ExecutorView<S>,
    entries: Seq<LogitsEntryView>,
    seqs: Seq<PendingSeqView>,
    sent: Seq<bool>,
)
    requires
        state.consistent(),
    ensures
        batch_checked_in(state, entries, seqs, sent).state.consistent(),
{
    lemma_check_in_consistent(state, entries, seqs, sent, seqs.len() as int);
}

proof fn lemma_check_in_consistent<S>(
    state: ExecutorView<S>,
    entries: Seq<LogitsEntryView>,
    seqs: Seq<PendingSeqView>,
    sent: Seq<bool>,
    n: int,
)
    requires
        state.consistent(),
    ensures
        CheckInView::start(state, entries).check_in_all(seqs, sent, n).state.consistent(),
    decreases n,
{
    if n > 0 {
        lemma_check_in_consistent(state, entries, seqs, sent, n - 1);
        let st = CheckInView::start(state, entries).check_in_all(seqs, sent, n - 1);
        let ps = seqs[n - 1];
        if st.failed is None && ps.entry_idx < st.entries.len() {
            let entry = st.entries[ps.entry_idx as int];
            let back = st.state.taken_back(entry.client_req_id, ps);
            assert(back.req_data.dom() =~= st.state.req_data.dom());
            assert(back.consistent());
            if let Some(report) = st.state.back_report(entry, ps) {
                let told = back.delivered(entry.client_req_id, report, sent[n - 1]);
                assert(told.req_data.dom() =~= back.req_data.dom());
                assert(told.consistent());
                law_cancel_consistent(told, entry.req_id);
            }
        }
    }
}

/// A request that goes into another round has made progress, and has not yet all the tokens that
/// its client wants: so there are at most as many rounds as tokens wanted. The new tokens follow
/// the old ones, and all else that the client asked for stays as it was.
pub proof fn law_round_progress<S>(
    state: ExecutorView<S>,
    resp: ResponseChunkView,
    sent: bool,
    post: ExecutorView<S>,
    action: TargetActionView<S>,
    sample: Option<AcceptanceSample>,
)
    requires
        state.target_handled(resp, sent, post, action, sample),
        action is Redraft,
    ensures
        ({
            let old_init = state.target_init(resp.req_id);
            let new_init = action->Redraft_0;
            &&& sent
            &&& new_init.req_init.tokens == old_init.req_init.tokens + resp.tokens
            &&& old_init.completion_len() < new_init.completion_len() < new_init.max_num_tokens
            &&& same_wish(old_init, new_init)
        }),
{
}

/// Two rounds are of one request: the client, the number of tokens wanted, the prompt's length
/// and the settings that no round sets are the same.
pub open spec fn same_wish<S>(a: SpecDecView<S>, b: SpecDecView<S>) -> bool {
    &&& a.max_num_tokens == b.max_num_tokens
    &&& a.start_prompt_len == b.start_prompt_len
    &&& a.client() == b.client()
    &&& a.req_init.is_run == b.req_init.is_run
    &&& a.req_init.settings == b.req_init.settings
    &&& a.req_init.params.min_p == b.req_init.params.min_p
    &&& a.req_init.params.num_return_sequences == b.req_init.params.num_return_sequences
}

/// The round that the target model is to check is the one that was drafted: the output so far is
/// the same, the tokens to check are those of the response, and it may add one more.
pub proof fn law_checked_as_drafted<S>(state: ExecutorView<S>, resp: ResponseChunkView)
    requires
        state.draft_action(resp) is Check,
        state.n_draft_tokens < u32::MAX,
    ensures
        ({
            let drafted = state.client_to_init[state.draft_req_to_client[resp.req_id]];
            let init = state.draft_action(resp)->Check_0;
            &&& same_wish(drafted, init)
            &&& init.req_init.tokens == drafted.req_init.tokens
            &&& init.req_init.draft_params matches Some(params)
            &&& params.draft_tokens == resp.tokens
            &&& init.req_init.params.max_new_tokens == state.n_draft_tokens + 1
        }),
{
}

/// The client gets one message for a response, with the output and the logs just as they are. When a round is over, what the client
/// gets is marked as final, and has a reason to finish, exactly if the request is over.
pub proof fn law_results<S>(
    state: ExecutorView<S>,
    resp: ResponseChunkView,
    post: ExecutorView<S>,
    action: TargetActionView<S>,
    sample: Option<AcceptanceSample>,
)
    requires
        state.target_handled(resp, true, post, action, sample),
    ensures
        ({
            let results = state.target_results(resp);
            let rd = state.target_data(resp.req_id);
            &&& results.response == ResponseChunkView {
                finish_reason: results.response.finish_reason,
                is_req_final: results.response.is_req_final,
                ..resp
            }
            &&& results.logs == rd.logs
            &&& results.response.is_req_final ==> results.response.finish_reason is Some
            &&& resp.is_req_final ==> {
                &&& results.response.is_req_final == (action is Cancel)
                &&& results.response.finish_reason is Some == (action is Cancel)
            }
            &&& went_out(rd.channel, rd.offered.push(results), rd.sent.push(results))
            &&& !(action is Cancel) ==> {
                let now = post.target_data(resp.req_id);
                &&& now.sent == rd.sent.push(results)
                &&& now.logs == Seq::<char>::empty()
            }
        }),
{
}

/// A request that is cancelled is gone, and so is all that was kept for its client, whose channel
/// is closed. Cancelling it once more changes nothing, and neither does cancelling a request that is not known.
pub proof fn law_cancel<S>(state: ExecutorView<S>, req_id: ReqId)
    ensures
        ({
            let post = state.drop_request(req_id);
            &&& !post.knows_target(req_id)
            &&& post.drop_request(req_id) == post
            &&& !state.knows_target(req_id) ==> post == state
            &&& state.knows_target(req_id) ==> {
                let client = state.req_to_client[req_id];
                &&& !post.req_data.contains_key(client)
                &&& !post.client_to_init.contains_key(client)
                &&& state.req_data.contains_key(client) ==> post.closed == state.closed.push(
                    state.req_data[client].closing(),
                )
                &&& forall|c: ClientReqId|
                    c != client && #[trigger] state.req_data.contains_key(c)
                        ==> post.req_data.contains_key(c) && post.req_data[c] == state.req_data[c]
            }
        }),
{
}

/// Without a draft model, cancelling a request that has just been added leaves everything as it was
/// before, and closes the channel of the receiver that was given out, through which nothing ever
/// went.
pub proof fn law_add_then_cancel<S>(
    state: ExecutorView<S>,
    pending: PendingRequestView<S>,
    engine_req_id: ReqId,
)
    requires
        pending.wf(),
        pending.temp_req_id is None,
        !state.req_data.contains_key(pending.init.client()),
        !state.client_to_init.contains_key(pending.init.client()),
        !state.knows_target(engine_req_id),
    ensures
        state.request_added(pending, engine_req_id).drop_request(engine_req_id) == (ExecutorView {
            closed: state.closed.push(
                ClosedView {
                    channel: channel_at(pending.rx),
                    offered: Seq::empty(),
                    sent: Seq::empty(),
                },
            ),
            ..state
        }),
{
    let post = state.request_added(pending, engine_req_id).drop_request(engine_req_id);
    assert(post.req_to_client =~= state.req_to_client);
    assert(post.req_data =~= state.req_data);
    assert(post.client_to_init =~= state.client_to_init);
}

/// A request of the draft model that is cancelled is gone, but its client is not. Cancelling it
/// once more changes nothing, and neither does cancelling a request that is not known.
pub proof fn law_cancel_draft<S>(state: ExecutorView<S>, req_id: ReqId)
    ensures
        ({
            let post = state.drop_draft_request(req_id);
            &&& !post.knows_draft(req_id)
            &&& post.drop_draft_request(req_id) == post
            &&& !state.knows_draft(req_id) ==> post == state
            &&& post.req_data == state.req_data
            &&& post.client_to_init == state.client_to_init
            &&& post.req_to_client == state.req_to_client
        }),
{
}

/// When the next round starts, only the old round is forgotten: the client keeps its request.
pub proof fn law_next_round_keeps_client<S>(
    state: ExecutorView<S>,
    target_req_id: ReqId,
    draft_req_id: ReqId,
    init: SpecDecView<S>,
)
    requires
        state.knows_target(target_req_id),
        state.req_to_client[target_req_id] == init.client(),
        state.req_data.contains_key(init.client()),
    ensures
        ({
            let post = state.draft_taken(target_req_id, draft_req_id, init);
            &&& !post.knows_target(target_req_id)
            &&& post.draft_req_to_client[draft_req_id] == init.client()
            &&& post.in_rounds(init.client())
            &&& post.client_to_init[init.client()] == init
            &&& post.req_data == state.req_data
        }),
{
}

/// The tokens of all that has been sent to a client.
pub open spec fn sent_tokens(sent: Seq<StepResultsView>) -> Seq<TokenId>
    decreases sent.len(),
{
    if sent.len() == 0 {
        Seq::empty()
    } else {
        sent_tokens(sent.drop_last()) + sent.last().response.tokens
    }
}

impl<S> ExecutorView<S> {
    /// Every client in rounds has been sent all the output of its request so far, and nothing
    /// else.
    pub open spec fn accounted(self) -> bool {
        forall|c: ClientReqId| #[trigger]
            self.in_rounds(c) ==> sent_tokens(self.req_data[c].sent)
                == self.client_to_init[c].output()
    }
}

impl<S> SpecDecView<S> {
    /// The output so far.
    pub open spec fn output(self) -> Seq<TokenId> {
        self.req_init.tokens.skip(self.start_prompt_len as int)
    }
}

/// A request that has just been added has no output, and its client has been sent nothing.
pub proof fn law_add_request_accounted<S>(
    state: ExecutorView<S>,
    init: RequestInitView<S>,
    llgs: Seq<Box<Constraint>>,
    temp_req_id: ReqId,
    tx: UnboundedSender<StepResults>,
    rx: UnboundedReceiver<StepResults>,
    engine_req_id: ReqId,
)
    requires
        state.accounted(),
        state.has_draft,
        planned(state, init, llgs, temp_req_id, tx, rx).wf(),
    ensures
        state.request_added(
            planned(state, init, llgs, temp_req_id, tx, rx),
            engine_req_id,
        ).accounted(),
{
    let pending = planned(state, init, llgs, temp_req_id, tx, rx);
    let post = state.request_added(pending, engine_req_id);
    let client = init.client_req_id;
    assert forall|c: ClientReqId| #[trigger] post.in_rounds(c) implies sent_tokens(
        post.req_data[c].sent,
    ) == post.client_to_init[c].output() by {
        if c == client {
            assert(post.client_to_init[c].output() =~= Seq::empty());
        } else {
            assert(state.in_rounds(c));
        }
    }
}

/// Handing a drafted round to the target model leaves all clients accounted for.
pub proof fn law_draft_response_accounted<S>(
    state: ExecutorView<S>,
    resp: ResponseChunkView,
    target_req_id: ReqId,
)
    requires
        state.consistent(),
        state.accounted(),
        state.draft_action(resp) is Check,
    ensures
        state.target_taken(
            resp.req_id,
            target_req_id,
            state.draft_action(resp)->Check_0,
        ).accounted(),
{
    let init = state.draft_action(resp)->Check_0;
    let client = state.draft_req_to_client[resp.req_id];
    let post = state.target_taken(resp.req_id, target_req_id, init);
    assert(state.in_rounds(client));
    assert forall|c: ClientReqId| #[trigger] post.in_rounds(c) implies sent_tokens(
        post.req_data[c].sent,
    ) == post.client_to_init[c].output() by {
        assert(state.in_rounds(c));
    }
}

/// A round that the target model has ended leaves all clients accounted for, once the draft model
/// has taken the next round, if there is one.
pub proof fn law_target_response_accounted<S>(
    state: ExecutorView<S>,
    resp: ResponseChunkView,
    sent: bool,
    post: ExecutorView<S>,
    action: TargetActionView<S>,
    sample: Option<AcceptanceSample>,
    draft_req_id: ReqId,
)
    requires
        state.consistent(),
        state.accounted(),
        state.knows_target(resp.req_id),
        resp.is_req_final,
        state.target_handled(resp, sent, post, action, sample),
    ensures
        action matches TargetActionView::Redraft(init) ==> post.draft_taken(
            resp.req_id,
            draft_req_id,
            init,
        ).accounted(),
        !(action is Redraft) ==> post.accounted(),
{
    let client = state.req_to_client[resp.req_id];
    assert(state.in_rounds(client));
    match action {
        TargetActionView::Redraft(init) => {
            let next = post.draft_taken(resp.req_id, draft_req_id, init);
            assert forall|c: ClientReqId| #[trigger] next.in_rounds(c) implies sent_tokens(
                next.req_data[c].sent,
            ) == next.client_to_init[c].output() by {
                assert(state.in_rounds(c));
                if c == client {
                    let before = state.req_data[c].sent;
                    let results = state.target_results(resp);
                    assert(next.req_data[c].sent == before.push(results));
                    assert(before.push(results).drop_last() =~= before);
                    assert(init.output() =~= state.client_to_init[c].output() + resp.tokens);
                }
            }
        },
        _ => {
            assert forall|c: ClientReqId| #[trigger] post.in_rounds(c) implies sent_tokens(
                post.req_data[c].sent,
            ) == post.client_to_init[c].output() by {
                assert(c != client);
                assert(state.in_rounds(c));
            }
        },
    }
}

/// A request that ends has been sent the rest of its output, and with it a message that says that
/// it is over, and its channel is closed after that: all that was ever sent on the channel of the
/// client, from the first message to that last one, has the tokens of the whole output.
pub proof fn law_request_ends<S>(
    state: ExecutorView<S>,
    resp: ResponseChunkView,
    post: ExecutorView<S>,
    action: TargetActionView<S>,
    sample: Option<AcceptanceSample>,
)
    requires
        state.consistent(),
        state.accounted(),
        state.knows_target(resp.req_id),
        resp.is_req_final,
        state.target_handled(resp, true, post, action, sample),
        action is Cancel,
    ensures
        ({
            let rd = state.target_data(resp.req_id);
            let results = state.target_results(resp);
            let sent = rd.sent.push(results);
            &&& went_out(rd.channel, rd.offered.push(results), sent)
            &&& post.closed == state.closed.push(
                ClosedView { channel: rd.channel, offered: rd.offered.push(results), sent },
            )
            &&& sent_tokens(sent) == state.target_init(resp.req_id).output() + resp.tokens
            &&& results.response.is_req_final
            &&& results.response.finish_reason == Some(
                if resp.tokens.len() == 0 {
                    EngineFinishReason::EosToken
                } else {
                    EngineFinishReason::Length
                },
            )
        }),
{
    let rd = state.target_data(resp.req_id);
    let results = state.target_results(resp);
    assert(state.in_rounds(state.req_to_client[resp.req_id]));
    assert(rd.sent.push(results).drop_last() =~= rd.sent);
}

/// If the results of a response cannot be sent, they have still been handed to the client's
/// channel, which is then closed: nothing more has been sent.
pub proof fn law_unsent_results<S>(
    state: ExecutorView<S>,
    resp: ResponseChunkView,
    post: ExecutorView<S>,
    action: TargetActionView<S>,
    sample: Option<AcceptanceSample>,
)
    requires
        state.knows_target(resp.req_id),
        state.target_handled(resp, false, post, action, sample),
    ensures
        ({
            let rd = state.target_data(resp.req_id);
            let offered = rd.offered.push(state.target_results(resp));
            &&& went_out(rd.channel, offered, rd.sent)
            &&& post.closed == state.closed.push(
                ClosedView { channel: rd.channel, offered, sent: rd.sent },
            )
            &&& action == TargetActionView::<S>::Cancel(resp.req_id)
        }),
{
}

/// The client of a sequence that has failed is told, on its channel, with the report of the
/// failure, if its request is still there when the sequence comes back. If the engine knows that
/// request under the id of the sequence, the channel is closed after the report.
pub proof fn law_failure_is_told<S>(
    state: ExecutorView<S>,
    entries: Seq<LogitsEntryView>,
    seqs: Seq<PendingSeqView>,
    sent: Seq<bool>,
    post: ExecutorView<S>,
    post_entries: Seq<LogitsEntryView>,
    res: Result<Vec<CancelCall>, usize>,
    k: int,
)
    requires
        0 <= k < seqs.len(),
        seqs.len() == sent.len(),
        batch_checked_in(state, entries, seqs, sent).gives(post, post_entries, res),
        res is Ok,
        seqs[k].error is Some,
        CheckInView::start(state, entries).check_in_all(seqs, sent, k).state.req_data.contains_key(
            CheckInView::start(state, entries).check_in_all(
                seqs,
                sent,
                k,
            ).entries[seqs[k].entry_idx as int].client_req_id,
        ),
    ensures
        ({
            let at = CheckInView::start(state, entries).check_in_all(seqs, sent, k);
            let entry = at.entries[seqs[k].entry_idx as int];
            let rd = at.state.req_data[entry.client_req_id];
            let report = rd.failure_report(entry.req_id, seqs[k], seqs[k].error->0);
            let all_sent = if sent[k] {
                rd.sent.push(report)
            } else {
                rd.sent
            };
            &&& went_out(rd.channel, rd.offered.push(report), all_sent)
            &&& at.state.knows_target(entry.req_id) && at.state.req_to_client[entry.req_id]
                == entry.client_req_id ==> CheckInView::start(state, entries).check_in_all(
                seqs,
                sent,
                k + 1,
            ).state.closed == at.state.closed.push(
                ClosedView {
                    channel: rd.channel,
                    offered: rd.offered.push(report),
                    sent: all_sent,
                },
            )
        }),
{
    let start = CheckInView::start(state, entries);
    let at = start.check_in_all(seqs, sent, k);
    let next = start.check_in_all(seqs, sent, k + 1);
    let end = start.check_in_all(seqs, sent, seqs.len() as int);
    lemma_told_grows(start, seqs, sent, k, seqs.len() as int);
    lemma_told_grows(start, seqs, sent, k + 1, seqs.len() as int);
    assert(next == at.check_in(seqs[k], k as usize, sent[k]));
    let i = at.told.len() as int;
    assert(end.told[i] == next.told[i]);
    assert(end.told[i].on_record());
}

/// What clients were told stays told, and a failure stays a failure.
proof fn lemma_told_grows<S>(
    start: CheckInView<S>,
    seqs: Seq<PendingSeqView>,
    sent: Seq<bool>,
    k: int,
    n: int,
)
    requires
        0 <= k <= n,
    ensures
        start.check_in_all(seqs, sent, k).told.len() <= start.check_in_all(
            seqs,
            sent,
            n,
        ).told.len(),
        forall|i: int|
            0 <= i < start.check_in_all(seqs, sent, k).told.len() ==> #[trigger]
                start.check_in_all(seqs, sent, n).told[i] == start.check_in_all(
                seqs,
                sent,
                k,
            ).told[i],
        start.check_in_all(seqs, sent, k).failed is Some ==> start.check_in_all(
            seqs,
            sent,
            n,
        ).failed is Some,
    decreases n,
{
    if k < n {
        lemma_told_grows(start, seqs, sent, k, n - 1);
    }
}

/// Checking a batch in leaves all clients accounted for: that a sequence has failed is told
/// without any tokens.
pub proof fn law_check_in_accounted<S>(
    state: ExecutorView<S>,
    entries: Seq<LogitsEntryView>,
    seqs: Seq<PendingSeqView>,
    sent: Seq<bool>,
)
    requires
        state.accounted(),
    ensures
        batch_checked_in(state, entries, seqs, sent).state.accounted(),
{
    lemma_check_in_accounted(state, entries, seqs, sent, seqs.len() as int);
}

proof fn lemma_check_in_accounted<S>(
    state: ExecutorView<S>,
    entries: Seq<LogitsEntryView>,
    seqs: Seq<PendingSeqView>,
    sent: Seq<bool>,
    n: int,
)
    requires
        state.accounted(),
    ensures
        CheckInView::start(state, entries).check_in_all(seqs, sent, n).state.accounted(),
    decreases n,
{
    if n > 0 {
        lemma_check_in_accounted(state, entries, seqs, sent, n - 1);
        let st = CheckInView::start(state, entries).check_in_all(seqs, sent, n - 1);
        let post = CheckInView::start(state, entries).check_in_all(seqs, sent, n);
        assert forall|c: ClientReqId| #[trigger] post.state.in_rounds(c) implies sent_tokens(
            post.state.req_data[c].sent,
        ) == post.state.client_to_init[c].output() by {
            assert(st.state.in_rounds(c));
            let before = st.state.req_data[c].sent;
            let after = post.state.req_data[c].sent;
            if after != before {
                assert(after.drop_last() =~= before);
                assert(sent_tokens(before) + Seq::<TokenId>::empty() =~= sent_tokens(before));
            }
        }
    }
}

/// Checking a batch out leaves all clients accounted for.
pub proof fn law_check_out_accounted<S>(state: ExecutorView<S>, entries: Seq<LogitsEntryView>)
    requires
        state.accounted(),
        countable(state.req_data),
        entries.len() <= usize::MAX,
        batch_checked_out(state.req_data, entries).failed is None,
    ensures
        (ExecutorView {
            req_data: batch_checked_out(state.req_data, entries).data,
            ..state
        }).accounted(),
{
    law_check_out(state.req_data, entries);
    let post = ExecutorView { req_data: batch_checked_out(state.req_data, entries).data, ..state };
    assert forall|c: ClientReqId| #[trigger] post.in_rounds(c) implies sent_tokens(
        post.req_data[c].sent,
    ) == post.client_to_init[c].output() by {
        assert(post.req_data.dom().contains(c));
        assert(state.req_data.contains_key(c));
        assert(post.req_data[c].grown_from(state.req_data[c]));
        assert(state.in_rounds(c));
    }
}

/// The results of a request that goes on still go to the receiver that was given out for it, and
/// come after those that went there before.
pub open spec fn same_channels<S>(pre: ExecutorView<S>, post: ExecutorView<S>) -> bool {
    forall|c: ClientReqId| #[trigger]
        post.req_data.contains_key(c) ==> {
            &&& pre.req_data.contains_key(c)
            &&& post.req_data[c].channel == pre.req_data[c].channel
            &&& pre.req_data[c].sent.is_prefix_of(post.req_data[c].sent)
        }
}

/// Whoever makes a request gets its results: the request is kept with the channel of the receiver
/// that is given out, and no response and no batch changes that.
pub proof fn law_channels<S>(
    state: ExecutorView<S>,
    pending: PendingRequestView<S>,
    engine_req_id: ReqId,
    resp: ResponseChunkView,
    entries: Seq<LogitsEntryView>,
    seqs: Seq<PendingSeqView>,
    outcomes: Seq<bool>,
)
    requires
        pending.wf(),
        countable(state.req_data),
        entries.len() <= usize::MAX,
    ensures
        state.request_added(pending, engine_req_id).req_data[pending.init.client()].channel
            == channel_at(pending.rx),
        state.target_response_ok(resp) && state.knows_target(resp.req_id) ==> forall|
            sent: bool,
            post: ExecutorView<S>,
            action: TargetActionView<S>,
            sample: Option<AcceptanceSample>,
        | #[trigger]
            state.target_handled(resp, sent, post, action, sample) ==> same_channels(state, post),
        batch_checked_out(state.req_data, entries).failed is None ==> same_channels(
            state,
            ExecutorView { req_data: batch_checked_out(state.req_data, entries).data, ..state },
        ),
        same_channels(state, batch_checked_in(state, entries, seqs, outcomes).state),
{
    if batch_checked_out(state.req_data, entries).failed is None {
        law_check_out(state.req_data, entries);
        let post = ExecutorView {
            req_data: batch_checked_out(state.req_data, entries).data,
            ..state
        };
        assert forall|c: ClientReqId| #[trigger] post.req_data.contains_key(c) implies
            state.req_data.contains_key(c) && post.req_data[c].grown_from(state.req_data[c]) by {
            assert(post.req_data.dom().contains(c));
        }
    }
    lemma_check_in_channels(state, entries, seqs, outcomes, seqs.len() as int);
}

proof fn lemma_check_in_channels<S>(
    state: ExecutorView<S>,
    entries: Seq<LogitsEntryView>,
    seqs: Seq<PendingSeqView>,
    sent: Seq<bool>,
    n: int,
)
    ensures
        same_channels(
            state,
            CheckInView::start(state, entries).check_in_all(seqs, sent, n).state,
        ),
    decreases n,
{
    if n > 0 {
        lemma_check_in_channels(state, entries, seqs, sent, n - 1);
        let st = CheckInView::start(state, entries).check_in_all(seqs, sent, n - 1).state;
        let post = CheckInView::start(state, entries).check_in_all(seqs, sent, n).state;
        assert forall|c: ClientReqId| #[trigger] post.req_data.contains_key(c) implies {
            &&& state.req_data.contains_key(c)
            &&& post.req_data[c].channel == state.req_data[c].channel
            &&& state.req_data[c].sent.is_prefix_of(post.req_data[c].sent)
        } by {
            assert(st.req_data.contains_key(c));
            let a = state.req_data[c].sent;
            let b = st.req_data[c].sent;
            let d = post.req_data[c].sent;
            assert(a =~= b.subrange(0, a.len() as int));
            assert(a =~= d.subrange(0, a.len() as int));
        }
    }
}

} // verus!
