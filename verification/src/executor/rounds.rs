//! The rounds of a request: what follows from the responses of the two models.
use vstd::prelude::*;

use super::{AsyncExecutor, CancelCall, ExecutorView, Model};
use crate::request::{ReqDataView, SpecDecReqInit, SpecDecView};
use crate::types::{
    copy_words, lemma_map_view_insert, lemma_map_view_remove, take_text, ClientReqId,
    EngineFinishReason, ReqId, ResponseChunk, ResponseChunkView, StepResults, StepResultsView,
    TokenId,
};

verus! {

/// What is to be done after a response of the draft model.
pub enum DraftAction<S> {
    /// More of the response is to come.
    Wait,
    /// The draft model is to cancel this request.
    Cancel(ReqId),
    /// The target model is to check this round; the id it gives goes to `target_taken`.
    Check(SpecDecReqInit<S>),
}

pub enum DraftActionView<S> {
    Wait,
    Cancel(ReqId),
    Check(SpecDecView<S>),
}

impl<S> View for DraftAction<S> {
    type V = DraftActionView<S>;

    open spec fn view(&self) -> DraftActionView<S> {
        match self {
            DraftAction::Wait => DraftActionView::Wait,
            DraftAction::Cancel(req_id) => DraftActionView::Cancel(*req_id),
            DraftAction::Check(init) => DraftActionView::Check(init@),
        }
    }
}

/// What is to be done after a response of the target model.
pub enum TargetAction<S> {
    /// More of the response is to come.
    Wait,
    /// The target model is to cancel this request.
    Cancel(ReqId),
    /// The draft model is to start the next round; the id it gives goes to `draft_taken`.
    Redraft(SpecDecReqInit<S>),
}

pub enum TargetActionView<S> {
    Wait,
    Cancel(ReqId),
    Redraft(SpecDecView<S>),
}

impl<S> View for TargetAction<S> {
    type V = TargetActionView<S>;

    open spec fn view(&self) -> TargetActionView<S> {
        match self {
            TargetAction::Wait => TargetActionView::Wait,
            TargetAction::Cancel(req_id) => TargetActionView::Cancel(*req_id),
            TargetAction::Redraft(init) => TargetActionView::Redraft(init@),
        }
    }
}

/// How a request stands after a piece of output of the target model.
#[derive(Clone, Copy, PartialEq, Eq, Structural, Debug)]
pub enum Verdict {
    /// The model has nothing more to say.
    Ended,
    /// There is room for more tokens.
    Unfinished,
    /// The client has as many tokens as it wanted.
    Full,
}

/// `init` already holds the `new_tokens` tokens of the piece. They are counted once more against
/// the number of tokens wanted, for the piece that would follow.
pub open spec fn verdict<S>(init: SpecDecView<S>, new_tokens: nat, is_req_final: bool) -> Verdict {
    if new_tokens == 0 && is_req_final {
        Verdict::Ended
    } else if init.completion_len() + new_tokens < init.max_num_tokens {
        Verdict::Unfinished
    } else {
        Verdict::Full
    }
}

/// What is left to do for a piece of output of the target model once it has been sent on.
pub struct FollowUp<S> {
    pub req_id: ReqId,
    pub client_req_id: ClientReqId,
    /// The round, with the tokens of the piece.
    pub init: SpecDecReqInit<S>,
    /// The tokens of the piece.
    pub tokens: Vec<TokenId>,
    /// Whether the round is over.
    pub is_req_final: bool,
    pub verdict: Verdict,
}

pub struct FollowUpView<S> {
    pub req_id: ReqId,
    pub client_req_id: ClientReqId,
    pub init: SpecDecView<S>,
    pub tokens: Seq<TokenId>,
    pub is_req_final: bool,
    pub verdict: Verdict,
}

impl<S> View for FollowUp<S> {
    type V = FollowUpView<S>;

    open spec fn view(&self) -> FollowUpView<S> {
        FollowUpView {
            req_id: self.req_id,
            client_req_id: self.client_req_id,
            init: self.init@,
            tokens: self.tokens@,
            is_req_final: self.is_req_final,
            verdict: self.verdict,
        }
    }
}

/// How many of the drafted tokens a round has kept. The target model adds one token of its own.
#[derive(Clone, Copy, PartialEq, Eq, Structural, Debug)]
pub struct AcceptanceSample {
    pub client_req_id: ClientReqId,
    pub accepted: usize,
    pub drafted: usize,
}

/// All tokens of the target model but one were drafted. A round without tokens wraps around.
pub open spec fn acceptance(
    client_req_id: ClientReqId,
    drafted: nat,
    target_tokens: nat,
) -> AcceptanceSample {
    AcceptanceSample {
        client_req_id,
        accepted: if target_tokens == 0 {
            usize::MAX
        } else {
            (target_tokens - 1) as usize
        },
        drafted: drafted as usize,
    }
}

impl ReqDataView {
    /// Whether a response takes the constraint of its sequence along.
    pub open spec fn takes_llg(self, resp: ResponseChunkView) -> bool {
        self.llgs.len() > 0 && resp.finish_reason is Some
    }

    /// What is left of a request after a response: its logs go with the response, and so does the
    /// constraint of a sequence that the engine has finished.
    pub open spec fn drained(self, resp: ResponseChunkView) -> ReqDataView {
        ReqDataView {
            logs: Seq::empty(),
            llgs: if self.takes_llg(resp) {
                self.llgs.update(resp.sequence_idx as int, None)
            } else {
                self.llgs
            },
            ..self
        }
    }

    /// What the client gets for a response of the target model.
    pub open spec fn results(self, resp: ResponseChunkView, verdict: Verdict) -> StepResultsView {
        StepResultsView {
            response: match verdict {
                Verdict::Ended => ResponseChunkView {
                    finish_reason: Some(EngineFinishReason::EosToken),
                    ..resp
                },
                Verdict::Unfinished => ResponseChunkView {
                    finish_reason: None,
                    is_req_final: false,
                    ..resp
                },
                Verdict::Full => ResponseChunkView {
                    finish_reason: Some(EngineFinishReason::Length),
                    is_req_final: true,
                    ..resp
                },
            },
            logs: self.logs,
            final_llg: if self.takes_llg(resp) {
                self.llgs[resp.sequence_idx as int]
            } else {
                None
            },
        }
    }
}

impl<S> ExecutorView<S> {
    pub open spec fn knows_draft(self, req_id: ReqId) -> bool {
        self.draft_req_to_client.contains_key(req_id)
    }

    pub open spec fn knows_target(self, req_id: ReqId) -> bool {
        self.req_to_client.contains_key(req_id)
    }

    /// The round of the client of a request of the target model.
    pub open spec fn target_init(self, req_id: ReqId) -> SpecDecView<S> {
        self.client_to_init[self.req_to_client[req_id]]
    }

    /// The data of the client of a request of the target model.
    pub open spec fn target_data(self, req_id: ReqId) -> ReqDataView {
        self.req_data[self.req_to_client[req_id]]
    }

    /// A response of the draft model can be handled: the client of a known request is in rounds.
    pub open spec fn draft_response_ok(self, resp: ResponseChunkView) -> bool {
        self.knows_draft(resp.req_id) ==> {
            &&& self.client_to_init.contains_key(self.draft_req_to_client[resp.req_id])
            &&& resp.is_req_final ==> self.n_draft_tokens < u32::MAX
        }
    }

    pub open spec fn draft_action(self, resp: ResponseChunkView) -> DraftActionView<S> {
        if !self.knows_draft(resp.req_id) {
            DraftActionView::Cancel(resp.req_id)
        } else if resp.is_req_final {
            DraftActionView::Check(
                self.client_to_init[self.draft_req_to_client[resp.req_id]].with_draft(
                    resp.tokens,
                ).for_target(self.n_draft_tokens),
            )
        } else {
            DraftActionView::Wait
        }
    }

    /// A response of the target model can be passed on: the client of a known request is in
    /// rounds and has a running request, which has a slot for the sequence.
    pub open spec fn target_response_ok(self, resp: ResponseChunkView) -> bool {
        self.knows_target(resp.req_id) ==> {
            let client = self.req_to_client[resp.req_id];
            &&& self.client_to_init.contains_key(client)
            &&& self.req_data.contains_key(client)
            &&& self.req_data[client].takes_llg(resp) ==> resp.sequence_idx
                < self.req_data[client].llgs.len()
        }
    }

    pub open spec fn follow_up(self, resp: ResponseChunkView) -> FollowUpView<S> {
        let init = self.target_init(resp.req_id).extended(resp.tokens);
        FollowUpView {
            req_id: resp.req_id,
            client_req_id: self.req_to_client[resp.req_id],
            init,
            tokens: resp.tokens,
            is_req_final: resp.is_req_final,
            verdict: verdict(init, resp.tokens.len(), resp.is_req_final),
        }
    }

    /// The results for a response of the target model have been put together.
    pub open spec fn target_passed(self, resp: ResponseChunkView) -> ExecutorView<S> {
        ExecutorView {
            req_data: self.req_data.insert(
                self.req_to_client[resp.req_id],
                self.target_data(resp.req_id).drained(resp),
            ),
            ..self
        }
    }

    /// Some results have been handed to a client's channel, and sent if that was possible.
    pub open spec fn delivered(
        self,
        client: ClientReqId,
        results: StepResultsView,
        sent: bool,
    ) -> ExecutorView<S> {
        ExecutorView {
            req_data: self.req_data.insert(client, self.req_data[client].delivered(results, sent)),
            ..self
        }
    }

    /// The results for a response of the target model.
    pub open spec fn target_results(self, resp: ResponseChunkView) -> StepResultsView {
        self.target_data(resp.req_id).results(resp, self.follow_up(resp).verdict)
    }

    /// The results have been sent, or could not be.
    pub open spec fn target_followed(self, follow: FollowUpView<S>, sent: bool) -> ExecutorView<S> {
        if target_action(follow, sent, self.n_draft_tokens) is Cancel {
            self.drop_request(follow.req_id)
        } else {
            self
        }
    }

    /// The request of a response of the target model, just after its results have been handed to
    /// the client's channel.
    pub open spec fn target_told(self, resp: ResponseChunkView, sent: bool) -> ReqDataView {
        self.target_data(resp.req_id).drained(resp).delivered(self.target_results(resp), sent)
    }

    /// What a response of the target model comes to, depending on whether its results could be
    /// sent. They have been handed to the client's channel, also where the request is over then.
    pub open spec fn target_handled(
        self,
        resp: ResponseChunkView,
        sent: bool,
        post: ExecutorView<S>,
        action: TargetActionView<S>,
        sample: Option<AcceptanceSample>,
    ) -> bool {
        let follow = self.follow_up(resp);
        &&& post == self.target_passed(resp).delivered(
            follow.client_req_id,
            self.target_results(resp),
            sent,
        ).target_followed(follow, sent)
        &&& action == target_action(follow, sent, self.n_draft_tokens)
        &&& sample == target_sample(follow, sent)
        &&& self.target_told(resp, sent).on_record()
    }

    /// The target model has taken the round that `draft_req_id` has drafted.
    pub open spec fn target_taken(
        self,
        draft_req_id: ReqId,
        target_req_id: ReqId,
        init: SpecDecView<S>,
    ) -> ExecutorView<S> {
        self.target_enqueued(target_req_id, init).drop_draft_request(draft_req_id)
    }

    /// The draft model has taken the round that follows `target_req_id`.
    pub open spec fn draft_taken(
        self,
        target_req_id: ReqId,
        draft_req_id: ReqId,
        init: SpecDecView<S>,
    ) -> ExecutorView<S> {
        ExecutorView {
            req_to_client: self.req_to_client.remove(target_req_id),
            ..self.draft_enqueued(draft_req_id, init)
        }
    }
}

impl<S> FollowUpView<S> {
    /// A round that is over has drafted tokens to count, and goes on only with a draft model.
    pub open spec fn ok(self, sent: bool, has_draft: bool) -> bool {
        sent && self.is_req_final ==> {
            &&& self.init.req_init.draft_params is Some
            &&& self.verdict == Verdict::Unfinished ==> has_draft
        }
    }
}

/// A request whose results cannot be sent is cancelled. Otherwise, once a round is over, the next
/// one starts, unless the request is done.
pub open spec fn target_action<S>(
    follow: FollowUpView<S>,
    sent: bool,
    n_draft_tokens: u32,
) -> TargetActionView<S> {
    if !sent {
        TargetActionView::Cancel(follow.req_id)
    } else if !follow.is_req_final {
        TargetActionView::Wait
    } else if follow.verdict == Verdict::Unfinished {
        TargetActionView::Redraft(follow.init.for_draft(n_draft_tokens))
    } else {
        TargetActionView::Cancel(follow.req_id)
    }
}

/// A round that is over, and whose results were sent, is counted.
pub open spec fn target_sample<S>(follow: FollowUpView<S>, sent: bool) -> Option<AcceptanceSample> {
    if sent && follow.is_req_final {
        Some(
            acceptance(
                follow.client_req_id,
                follow.init.req_init.draft_params->0.draft_tokens.len(),
                follow.tokens.len(),
            ),
        )
    } else {
        None
    }
}

impl<S> FollowUp<S> {
    /// Tells whether `target_sent` can be called, on an executor with or without a draft model.
    pub fn can_go_on(&self, sent: bool, has_draft: bool) -> (res: bool)
        ensures
            res == self@.ok(sent, has_draft),
    {
        !(sent && self.is_req_final) || (self.init.req_init.draft_params.is_some() && (self.verdict
            != Verdict::Unfinished || has_draft))
    }
}

/// How a request stands, from the number of tokens produced, with the new ones, the number of new
/// ones, and the number wanted.
pub fn judge(completion_tokens: usize, new_tokens: usize, max_tokens: usize, is_req_final: bool)
    -> (res: Verdict)
    ensures
        res == (if new_tokens == 0 && is_req_final {
            Verdict::Ended
        } else if completion_tokens + new_tokens < max_tokens {
            Verdict::Unfinished
        } else {
            Verdict::Full
        }),
{
    if new_tokens == 0 && is_req_final {
        Verdict::Ended
    } else if new_tokens < max_tokens && completion_tokens < max_tokens - new_tokens {
        Verdict::Unfinished
    } else {
        Verdict::Full
    }
}

impl<S> AsyncExecutor<S> {
    /// Tells whether `draft_response` can be called.
    pub fn can_handle_draft_response(&self, resp: &ResponseChunk) -> (res: bool)
        ensures
            res == self@.draft_response_ok(resp@),
    {
        match self.draft_req_to_client.get(&resp.req_id) {
            None => true,
            Some(client) => self.client_to_init.contains_key(client) && (!resp.is_req_final
                || self.n_draft_tokens < u32::MAX),
        }
    }

    /// A response of the draft model. The tokens of a round that is over go to the target model.
    pub fn draft_response(&self, resp: ResponseChunk) -> (res: DraftAction<S>)
        requires
            self@.wf(),
            self@.draft_response_ok(resp@),
        ensures
            res@ == self@.draft_action(resp@),
            res matches DraftAction::Check(init) ==> init@.wf(),
    {
        match self.draft_req_to_client.get(&resp.req_id) {
            None => DraftAction::Cancel(resp.req_id),
            Some(client) => {
                let mut init = self.client_to_init.get(client).unwrap().clone();
                init.set_draft(resp.tokens);
                if resp.is_req_final {
                    DraftAction::Check(self.enqueue_request(init))
                } else {
                    DraftAction::Wait
                }
            },
        }
    }

    /// The target model has taken a drafted round, under `target_req_id`. The draft model is to
    /// forget about it.
    pub fn target_taken(
        &mut self,
        draft_req_id: ReqId,
        target_req_id: ReqId,
        init: SpecDecReqInit<S>,
    ) -> (res: CancelCall)
        requires
            old(self)@.wf(),
            init@.wf(),
        ensures
            final(self)@ == old(self)@.target_taken(draft_req_id, target_req_id, init@),
            final(self)@.wf(),
            res == (CancelCall { model: Model::Draft, req_id: draft_req_id }),
    {
        let ghost pre = *self;
        let client_req_id = init.req_init.client_req_id;
        let _ = self.req_to_client.insert(target_req_id, client_req_id);
        let _ = self.client_to_init.insert(client_req_id, init);
        proof {
            lemma_map_view_insert(pre.client_to_init@, client_req_id, init);
        }
        self.drop_draft_request_data(draft_req_id);
        CancelCall { model: Model::Draft, req_id: draft_req_id }
    }

    /// Puts together what the client gets for a response of the target model. `None` stands for a
    /// request that is not known.
    pub fn target_response(&mut self, resp: ResponseChunk) -> (res: Option<
        (StepResults, FollowUp<S>),
    >)
        requires
            old(self)@.wf(),
            old(self)@.target_response_ok(resp@),
        ensures
            match res {
                None => {
                    &&& !old(self)@.knows_target(resp@.req_id)
                    &&& final(self)@ == old(self)@
                },
                Some((results, follow)) => {
                    &&& old(self)@.knows_target(resp@.req_id)
                    &&& follow@ == old(self)@.follow_up(resp@)
                    &&& results@ == old(self)@.target_results(resp@)
                    &&& final(self)@ == old(self)@.target_passed(resp@)
                    &&& follow@.init.wf()
                },
            },
            final(self)@.wf(),
    {
        let ghost pre = *self;
        let req_id = resp.req_id;
        let client_req_id = match self.req_to_client.get(&req_id) {
            None => return None,
            Some(client) => *client,
        };
        assert(pre@.client_to_init.contains_key(client_req_id));
        let mut init = self.client_to_init.get(&client_req_id).unwrap().clone();
        let mut rd = self.req_data.remove(&client_req_id).unwrap();
        let ghost data = rd@;
        let is_req_final = resp.is_req_final;
        let tokens = copy_words(&resp.tokens);
        let idx = resp.sequence_idx as usize;
        let mut results = StepResults {
            response: resp,
            logs: take_text(&mut rd.logs),
            final_llg: None,
        };
        if rd.llgs.len() > 0 && results.response.finish_reason.is_some() {
            results.final_llg = rd.llgs[idx].take();
        }
        assert(rd@ == data.drained(resp@));
        let mut new_tokens = copy_words(&tokens);
        init.req_init.tokens.append(&mut new_tokens);
        assert(init@ == pre@.target_init(req_id).extended(resp@.tokens));
        let completion_tokens = init.req_init.tokens.len() - init.start_prompt_len;
        let verdict = judge(completion_tokens, tokens.len(), init.max_num_tokens, is_req_final);
        match verdict {
            Verdict::Ended => {
                results.response.finish_reason = Some(EngineFinishReason::EosToken);
            },
            Verdict::Unfinished => {
                results.response.is_req_final = false;
                results.response.finish_reason = None;
            },
            Verdict::Full => {
                results.response.finish_reason = Some(EngineFinishReason::Length);
                results.response.is_req_final = true;
            },
        }
        let ghost without = self.req_data@;
        let _ = self.req_data.insert(client_req_id, rd);
        proof {
            lemma_map_view_remove(pre.req_data@, client_req_id);
            lemma_map_view_insert(without, client_req_id, rd);
            assert(self@.req_data =~= pre@.target_passed(resp@).req_data);
        }
        Some((results, FollowUp { req_id, client_req_id, init, tokens, is_req_final, verdict }))
    }

    /// Sends results to a client. Tells whether that was possible.
    pub(crate) fn deliver(&mut self, client: ClientReqId, results: StepResults) -> (sent: bool)
        requires
            old(self)@.req_data.contains_key(client),
        ensures
            final(self)@ == old(self)@.delivered(client, results@, sent),
            old(self)@.req_data[client].delivered(results@, sent).on_record(),
    {
        let ghost pre = *self;
        let mut rd = self.req_data.remove(&client).unwrap();
        let ghost without = self.req_data@;
        assert(pre@.req_data[client] == rd@);
        let sent = rd.deliver(results);
        let _ = self.req_data.insert(client, rd);
        proof {
            lemma_map_view_remove(pre.req_data@, client);
            lemma_map_view_insert(without, client, rd);
            assert(self@.req_data =~= pre@.delivered(client, results@, sent).req_data);
        }
        sent
    }

    /// Goes on after the results of a response of the target model have been sent, or could not
    /// be. Also returns how the round went, if it is over.
    pub fn target_sent(&mut self, follow: FollowUp<S>, sent: bool) -> (res: (
        TargetAction<S>,
        Option<AcceptanceSample>,
    ))
        requires
            old(self)@.wf(),
            follow@.init.wf(),
            follow@.ok(sent, old(self)@.has_draft),
        ensures
            final(self)@ == old(self)@.target_followed(follow@, sent),
            final(self)@.wf(),
            res.0@ == target_action(follow@, sent, old(self)@.n_draft_tokens),
            res.0 matches TargetAction::Redraft(init) ==> init@.wf(),
            res.1 == target_sample(follow@, sent),
    {
        if !sent {
            let call = self.cancel_request(follow.req_id);
            return (TargetAction::Cancel(call.req_id), None);
        }
        if !follow.is_req_final {
            return (TargetAction::Wait, None);
        }
        let drafted = follow.init.req_init.draft_params.as_ref().unwrap().draft_tokens.len();
        let sample = AcceptanceSample {
            client_req_id: follow.client_req_id,
            accepted: follow.tokens.len().wrapping_sub(1),
            drafted,
        };
        if follow.verdict == Verdict::Unfinished {
            (TargetAction::Redraft(self.enqueue_draft_request(follow.init)), Some(sample))
        } else {
            let call = self.cancel_request(follow.req_id);
            (TargetAction::Cancel(call.req_id), Some(sample))
        }
    }

    /// The draft model has taken the next round of a request, under `draft_req_id`. The target
    /// model is to forget about the one before.
    pub fn draft_taken(
        &mut self,
        target_req_id: ReqId,
        draft_req_id: ReqId,
        init: SpecDecReqInit<S>,
    ) -> (res: CancelCall)
        requires
            old(self)@.wf(),
            init@.wf(),
        ensures
            final(self)@ == old(self)@.draft_taken(target_req_id, draft_req_id, init@),
            final(self)@.wf(),
            res == (CancelCall { model: Model::Target, req_id: target_req_id }),
    {
        self.draft_enqueued(draft_req_id, init);
        let _ = self.req_to_client.remove(&target_req_id);
        CancelCall { model: Model::Target, req_id: target_req_id }
    }

    /// Tells whether `send_target_response` can be called.
    pub fn can_send_target_response(&self, resp: &ResponseChunk) -> (res: bool)
        ensures
            res == self@.target_response_ok(resp@),
    {
        let client = match self.req_to_client.get(&resp.req_id) {
            None => return true,
            Some(client) => client,
        };
        if !self.client_to_init.contains_key(client) {
            assert(!self@.client_to_init.contains_key(*client));
            return false;
        }
        assert(self@.client_to_init.contains_key(*client));
        match self.req_data.get(client) {
            None => {
                assert(!self@.req_data.contains_key(*client));
                false
            },
            Some(rd) => {
                assert(self@.req_data.contains_key(*client) && self@.req_data[*client] == rd@);
                rd.llgs.len() == 0 || resp.finish_reason.is_none() || (resp.sequence_idx as usize)
                    < rd.llgs.len()
            },
        }
    }

    /// Sends the results for a response of the target model to the client. Returns what is left to
    /// do, and whether the results could be sent. `None` stands for a request that is not known.
    pub fn send_target_response(&mut self, resp: ResponseChunk) -> (res: Option<
        (FollowUp<S>, bool),
    >)
        requires
            old(self)@.wf(),
            old(self)@.target_response_ok(resp@),
        ensures
            match res {
                None => {
                    &&& !old(self)@.knows_target(resp@.req_id)
                    &&& final(self)@ == old(self)@
                },
                Some((follow, sent)) => {
                    &&& old(self)@.knows_target(resp@.req_id)
                    &&& follow@ == old(self)@.follow_up(resp@)
                    &&& final(self)@ == old(self)@.target_passed(resp@).delivered(
                        follow@.client_req_id,
                        old(self)@.target_results(resp@),
                        sent,
                    )
                    &&& old(self)@.target_told(resp@, sent).on_record()
                    &&& follow@.init.wf()
                },
            },
            final(self)@.wf(),
    {
        match self.target_response(resp) {
            None => None,
            Some((results, follow)) => {
                let sent = self.deliver(follow.client_req_id, results);
                Some((follow, sent))
            },
        }
    }

    /// Tells whether `handle_target_response` can be called.
    pub fn can_handle_target_response(&self, resp: &ResponseChunk) -> (res: bool)
        requires
            self@.wf(),
        ensures
            res == (self@.target_response_ok(resp@) && (self@.knows_target(resp@.req_id)
                ==> self@.follow_up(resp@).ok(true, self@.has_draft))),
    {
        if !self.can_send_target_response(resp) {
            return false;
        }
        let client = match self.req_to_client.get(&resp.req_id) {
            None => return true,
            Some(client) => client,
        };
        assert(self@.client_to_init.contains_key(*client));
        let init = self.client_to_init.get(client).unwrap();
        if !resp.is_req_final {
            return true;
        }
        if init.req_init.draft_params.is_none() {
            return false;
        }
        let produced = init.req_init.tokens.len() - init.start_prompt_len;
        let n = resp.tokens.len();
        let unfinished = n > 0 && n < init.max_num_tokens && init.max_num_tokens - n > n && produced
            < init.max_num_tokens - n - n;
        !unfinished || self.has_draft
    }

    /// A response of the target model: sends the results to the client, and says what follows.
    pub fn handle_target_response(&mut self, resp: ResponseChunk) -> (res: (
        TargetAction<S>,
        Option<AcceptanceSample>,
    ))
        requires
            old(self)@.wf(),
            old(self)@.target_response_ok(resp@),
            old(self)@.knows_target(resp@.req_id) ==> old(self)@.follow_up(resp@).ok(
                true,
                old(self)@.has_draft,
            ),
        ensures
            !old(self)@.knows_target(resp@.req_id) ==> {
                &&& final(self)@ == old(self)@
                &&& res.0@ == TargetActionView::<S>::Cancel(resp@.req_id)
                &&& res.1 is None
            },
            old(self)@.knows_target(resp@.req_id) ==> exists|sent: bool|
                old(self)@.target_handled(resp@, sent, final(self)@, res.0@, res.1),
            res.0 matches TargetAction::Redraft(init) ==> init@.wf(),
            final(self)@.wf(),
    {
        let req_id = resp.req_id;
        let ghost pre = self@;
        match self.send_target_response(resp) {
            None => (TargetAction::Cancel(req_id), None),
            Some((follow, sent)) => {
                let res = self.target_sent(follow, sent);
                assert(pre.target_handled(resp@, sent, self@, res.0@, res.1));
                res
            },
        }
    }
}

} // verus!
