//! What is kept of a request while it runs.
use llguidance::Constraint;
use tokio::sync::mpsc::UnboundedSender;
use vstd::prelude::*;
use vstd::string::*;

use crate::channel::{channel_of, offered_through, send_results, sent_through, went_out};
use crate::text::{append_decimal, decimal};
use crate::types::{
    ClientReqId, DraftParams, DraftParamsView, ReqId, RequestInit, RequestInitView, RequestParams,
    StepResults, StepResultsView, TokenId,
};

verus! {

/// The engine's request id of the sequence that a constraint belongs to.
#[derive(Clone, Copy, PartialEq, Eq, Structural, Debug)]
pub struct ConstraintInfo {
    pub req_id: ReqId,
}

/// A running request.
pub struct ReqData {
    pub req_id: ReqId,
    pub client_req_id: ClientReqId,
    pub tx: UnboundedSender<StepResults>,
    pub logs: String,
    /// The constraints of the sequences. A constraint that is in use elsewhere has left its slot.
    pub llgs: Vec<Option<Box<Constraint>>>,
    /// The engine makes a request id for each sequence of a request, one by one. This keeps track
    /// of which of them has which slot of `llgs`.
    pub llg_infos: Vec<ConstraintInfo>,
    /// Bit pattern of the min-p threshold.
    pub min_p: u32,
    pub prompt_len: usize,
    pub is_run: bool,
}

pub struct ReqDataView {
    pub req_id: ReqId,
    pub client_req_id: ClientReqId,
    /// The channel over which the client gets its results.
    pub channel: int,
    /// What has been handed to that channel.
    pub offered: Seq<StepResultsView>,
    /// What of that could be sent.
    pub sent: Seq<StepResultsView>,
    pub logs: Seq<char>,
    pub llgs: Seq<Option<Box<Constraint>>>,
    pub llg_infos: Seq<ConstraintInfo>,
    pub min_p: u32,
    pub prompt_len: nat,
    pub is_run: bool,
}

/// A channel whose sending half is gone: what had been handed to it by then, and what of that
/// could be sent. Nothing can follow.
pub struct ClosedView {
    pub channel: int,
    pub offered: Seq<StepResultsView>,
    pub sent: Seq<StepResultsView>,
}

impl View for ReqData {
    type V = ReqDataView;

    open spec fn view(&self) -> ReqDataView {
        ReqDataView {
            req_id: self.req_id,
            client_req_id: self.client_req_id,
            channel: channel_of(self.tx),
            offered: offered_through(self.tx),
            sent: sent_through(self.tx),
            logs: self.logs@,
            llgs: self.llgs@,
            llg_infos: self.llg_infos@,
            min_p: self.min_p,
            prompt_len: self.prompt_len as nat,
            is_run: self.is_run,
        }
    }
}

impl ReqDataView {
    /// The slot from which the constraint has been taken is empty.
    pub open spec fn without_llg(self, idx: int) -> ReqDataView {
        ReqDataView { llgs: self.llgs.update(idx, None), ..self }
    }

    /// Some results have been handed to the client's channel, and sent if that was possible.
    pub open spec fn delivered(self, results: StepResultsView, sent: bool) -> ReqDataView {
        ReqDataView {
            offered: self.offered.push(results),
            sent: if sent {
                self.sent.push(results)
            } else {
                self.sent
            },
            ..self
        }
    }

    /// The client's channel, if the request is forgotten now.
    pub open spec fn closing(self) -> ClosedView {
        ClosedView { channel: self.channel, offered: self.offered, sent: self.sent }
    }

    /// The client's channel has come to where it is here: this stays true when the request is
    /// forgotten.
    pub open spec fn on_record(self) -> bool {
        went_out(self.channel, self.offered, self.sent)
    }
}

impl ReqData {
    /// Sends results to the client. Tells whether that was possible.
    pub(crate) fn deliver(&mut self, results: StepResults) -> (sent: bool)
        ensures
            final(self)@ == old(self)@.delivered(results@, sent),
            final(self)@.on_record(),
    {
        let sent = send_results(&mut self.tx, results).is_ok();
        assert(offered_through(self.tx) == self@.offered);
        sent
    }

    /// A short description for messages.
    pub fn describe(&self) -> (res: String)
        ensures
            res@ == "ReqData("@ + decimal(self@.req_id as nat) + " "@ + decimal(
                self@.client_req_id as nat,
            ) + ")"@,
    {
        let mut res = "ReqData(".to_owned();
        append_decimal(&mut res, self.req_id);
        res.append(" ");
        append_decimal(&mut res, self.client_req_id);
        res.append(")");
        res
    }
}

/// A request that runs in rounds of drafting and checking, as it stands in the current round.
#[derive(Debug)]
pub struct SpecDecReqInit<S> {
    /// What the engine of the current round gets. The tokens are the prompt and all output so far.
    pub req_init: RequestInit<S>,
    /// How many tokens the client wants.
    pub max_num_tokens: usize,
    /// Length of the prompt that the request started with.
    pub start_prompt_len: usize,
}

pub struct SpecDecView<S> {
    pub req_init: RequestInitView<S>,
    pub max_num_tokens: nat,
    pub start_prompt_len: nat,
}

impl<S> View for SpecDecReqInit<S> {
    type V = SpecDecView<S>;

    open spec fn view(&self) -> SpecDecView<S> {
        SpecDecView {
            req_init: self.req_init@,
            max_num_tokens: self.max_num_tokens as nat,
            start_prompt_len: self.start_prompt_len as nat,
        }
    }
}

impl<S> Clone for SpecDecReqInit<S> {
    fn clone(&self) -> (res: Self)
        ensures
            res@ == self@,
    {
        SpecDecReqInit {
            req_init: self.req_init.clone(),
            max_num_tokens: self.max_num_tokens,
            start_prompt_len: self.start_prompt_len,
        }
    }
}

impl<S> RequestInitView<S> {
    /// A request before its first round.
    pub open spec fn first_round(self) -> SpecDecView<S> {
        SpecDecView {
            req_init: self,
            max_num_tokens: self.params.max_new_tokens as nat,
            start_prompt_len: self.tokens.len(),
        }
    }
}

impl<S> SpecDecView<S> {
    /// The prompt is still there.
    pub open spec fn wf(self) -> bool {
        self.start_prompt_len <= self.req_init.tokens.len()
    }

    pub open spec fn client(self) -> ClientReqId {
        self.req_init.client_req_id
    }

    /// How many tokens have been produced so far.
    pub open spec fn completion_len(self) -> int {
        self.req_init.tokens.len() - self.start_prompt_len
    }

    /// The request as it goes to the draft model: it is to produce exactly `n` tokens, in one
    /// piece, and there is nothing to check.
    pub open spec fn for_draft(self, n: u32) -> SpecDecView<S> {
        SpecDecView {
            req_init: RequestInitView {
                draft_params: None,
                params: RequestParams {
                    max_new_tokens: n,
                    min_tokens: n,
                    streaming: false,
                    ..self.req_init.params
                },
                ..self.req_init
            },
            ..self
        }
    }

    /// The request as it goes to the target model after `n` tokens have been drafted: it is to
    /// produce at least one token and at most one more than were drafted, in one piece.
    pub open spec fn for_target(self, n: u32) -> SpecDecView<S> {
        SpecDecView {
            req_init: RequestInitView {
                params: RequestParams {
                    max_new_tokens: (n + 1) as u32,
                    min_tokens: 1,
                    streaming: false,
                    ..self.req_init.params
                },
                ..self.req_init
            },
            ..self
        }
    }

    /// The request with the tokens that the draft model proposes.
    pub open spec fn with_draft(self, draft_tokens: Seq<TokenId>) -> SpecDecView<S> {
        SpecDecView {
            req_init: RequestInitView {
                draft_params: Some(
                    DraftParamsView { draft_tokens, logits_tensor: None, acc_rate: None },
                ),
                ..self.req_init
            },
            ..self
        }
    }

    /// The request with more output.
    pub open spec fn extended(self, tokens: Seq<TokenId>) -> SpecDecView<S> {
        SpecDecView {
            req_init: RequestInitView {
                tokens: self.req_init.tokens + tokens,
                ..self.req_init
            },
            ..self
        }
    }
}

impl<S> SpecDecReqInit<S> {
    pub fn new(init: RequestInit<S>) -> (res: Self)
        ensures
            res@ == init@.first_round(),
            res@.wf(),
    {
        let max_num_tokens = init.params.max_new_tokens as usize;
        let start_prompt_len = init.tokens.len();
        SpecDecReqInit { req_init: init, max_num_tokens, start_prompt_len }
    }

    pub fn into_draft(self, n: u32) -> (res: Self)
        ensures
            res@ == self@.for_draft(n),
    {
        let mut res = self;
        res.req_init.draft_params = None;
        res.req_init.params.max_new_tokens = n;
        res.req_init.params.min_tokens = n;
        res.req_init.params.streaming = false;
        res
    }

    pub fn into_target(self, n: u32) -> (res: Self)
        requires
            n < u32::MAX,
        ensures
            res@ == self@.for_target(n),
    {
        let mut res = self;
        res.req_init.params.max_new_tokens = n + 1;
        res.req_init.params.min_tokens = 1;
        res.req_init.params.streaming = false;
        res
    }

    pub fn set_draft(&mut self, draft_tokens: Vec<TokenId>)
        ensures
            final(self)@ == old(self)@.with_draft(draft_tokens@),
    {
        self.req_init.draft_params = Some(
            DraftParams { draft_tokens, logits_tensor: None, acc_rate: None },
        );
    }
}

} // verus!
