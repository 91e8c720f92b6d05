//! The requests in flight, and which engine is working on them.
//!
//! With a draft model, a request goes through rounds: the draft model proposes some tokens, the
//! target model checks them and adds one, and the accepted tokens become part of the prompt of
//! the next round. Without one, a request goes to the target model once; there is no round for its
//! responses to go on with, so they cannot be handled, and all that can follow is to cancel it.
//!
//! The engines are driven from outside. Where an engine has to be told something, a method here
//! returns what it is to be told; the id that an engine gives to a request comes back through
//! another method.
pub mod logits;
pub mod rounds;

use std::collections::HashMap;

use llguidance::Constraint;
use rand::Rng;
use tokio::sync::mpsc::{UnboundedReceiver, UnboundedSender};
use vstd::prelude::*;

use crate::channel::{channel_at, channel_of, offered_through, results_channel, sent_through};
use crate::request::{ClosedView, ReqData, ReqDataView, SpecDecReqInit, SpecDecView};
use crate::types::{
    lemma_map_view_insert, lemma_map_view_remove, map_view, ClientReqId, ReqId, RequestInit,
    RequestInitView, StepResults, StepResultsView,
};

verus! {

/// Which of the two engines.
#[derive(Clone, Copy, PartialEq, Eq, Structural, Debug)]
pub enum Model {
    Target,
    Draft,
}

/// A request that an engine is to drop.
#[derive(Clone, Copy, PartialEq, Eq, Structural, Debug)]
pub struct CancelCall {
    pub model: Model,
    pub req_id: ReqId,
}

/// The state of all requests. `S` is what an engine wants to know of a request beyond what is
/// read here.
pub struct AsyncExecutor<S> {
    has_draft: bool,
    n_vocab: usize,
    max_batch_size: usize,
    req_to_client: HashMap<ReqId, ClientReqId>,
    req_data: HashMap<ClientReqId, ReqData>,
    draft_req_to_client: HashMap<ReqId, ClientReqId>,
    draft_req_data: HashMap<ClientReqId, ReqData>,
    client_to_init: HashMap<ClientReqId, SpecDecReqInit<S>>,
    n_draft_tokens: u32,
    draft_token_acc_rate: Option<u32>,
    /// The channels of the requests that have been forgotten, in the order in which they were.
    closed: Ghost<Seq<ClosedView>>,
}

pub struct ExecutorView<S> {
    pub has_draft: bool,
    pub n_vocab: usize,
    pub max_batch_size: usize,
    pub req_to_client: Map<ReqId, ClientReqId>,
    pub req_data: Map<ClientReqId, ReqDataView>,
    pub draft_req_to_client: Map<ReqId, ClientReqId>,
    pub draft_req_data: Map<ClientReqId, ReqDataView>,
    pub client_to_init: Map<ClientReqId, SpecDecView<S>>,
    pub n_draft_tokens: u32,
    pub draft_token_acc_rate: Option<u32>,
    pub closed: Seq<ClosedView>,
}

impl<S> View for AsyncExecutor<S> {
    type V = ExecutorView<S>;

    closed spec fn view(&self) -> ExecutorView<S> {
        ExecutorView {
            has_draft: self.has_draft,
            n_vocab: self.n_vocab,
            max_batch_size: self.max_batch_size,
            req_to_client: self.req_to_client@,
            req_data: map_view(self.req_data@),
            draft_req_to_client: self.draft_req_to_client@,
            draft_req_data: map_view(self.draft_req_data@),
            client_to_init: map_view(self.client_to_init@),
            n_draft_tokens: self.n_draft_tokens,
            draft_token_acc_rate: self.draft_token_acc_rate,
            closed: self.closed@,
        }
    }
}

impl<S> ExecutorView<S> {
    /// Every request in rounds still has its prompt, and is kept under its own client id. Nothing
    /// is kept for the draft model alone.
    pub open spec fn wf(self) -> bool {
        &&& forall|c: ClientReqId| #[trigger]
            self.client_to_init.contains_key(c) ==> self.client_to_init[c].wf()
                && self.client_to_init[c].client() == c
        &&& forall|c: ClientReqId| !#[trigger] self.draft_req_data.contains_key(c)
    }

    /// The closed channels, once what is kept of a client's request is gone.
    pub open spec fn closed_with(self, client: ClientReqId) -> Seq<ClosedView> {
        if self.req_data.contains_key(client) {
            self.closed.push(self.req_data[client].closing())
        } else {
            self.closed
        }
    }

    /// All that was kept for a request of the target model, and for its client, is gone. With it
    /// goes the sending half of the client's channel.
    pub open spec fn drop_request(self, req_id: ReqId) -> ExecutorView<S> {
        if self.req_to_client.contains_key(req_id) {
            let client = self.req_to_client[req_id];
            ExecutorView {
                req_to_client: self.req_to_client.remove(req_id),
                req_data: self.req_data.remove(client),
                client_to_init: self.client_to_init.remove(client),
                closed: self.closed_with(client),
                ..self
            }
        } else {
            self
        }
    }

    /// A request of the draft model is gone; its client stays.
    pub open spec fn drop_draft_request(self, req_id: ReqId) -> ExecutorView<S> {
        if self.draft_req_to_client.contains_key(req_id) {
            let client = self.draft_req_to_client[req_id];
            ExecutorView {
                draft_req_to_client: self.draft_req_to_client.remove(req_id),
                draft_req_data: self.draft_req_data.remove(client),
                ..self
            }
        } else {
            self
        }
    }

    /// The draft model has taken a round of a request, under `req_id`.
    pub open spec fn draft_enqueued(self, req_id: ReqId, init: SpecDecView<S>) -> ExecutorView<S> {
        ExecutorView {
            draft_req_to_client: self.draft_req_to_client.insert(req_id, init.client()),
            client_to_init: self.client_to_init.insert(init.client(), init),
            ..self
        }
    }

    /// The target model has taken a round of a request, under `req_id`.
    pub open spec fn target_enqueued(self, req_id: ReqId, init: SpecDecView<S>) -> ExecutorView<S> {
        ExecutorView {
            req_to_client: self.req_to_client.insert(req_id, init.client()),
            client_to_init: self.client_to_init.insert(init.client(), init),
            ..self
        }
    }

    /// A request has been added, and its engine has taken it under `engine_req_id`. It replaces a
    /// request that its client may still have.
    pub open spec fn request_added(
        self,
        pending: PendingRequestView<S>,
        engine_req_id: ReqId,
    ) -> ExecutorView<S> {
        let client = pending.init.client();
        let req_data = self.req_data.insert(client, pending.data(engine_req_id));
        if pending.temp_req_id is Some {
            ExecutorView {
                req_data,
                closed: self.closed_with(client),
                ..self.draft_enqueued(engine_req_id, pending.init)
            }
        } else {
            ExecutorView {
                req_data,
                closed: self.closed_with(client),
                req_to_client: self.req_to_client.insert(engine_req_id, client),
                ..self
            }
        }
    }
}

/// A request that is ready to go to its engine.
pub struct PendingRequest<S> {
    /// With a draft model, a request is known under an id of our own.
    pub temp_req_id: Option<ReqId>,
    /// `init.req_init` is what the engine gets: the draft model where there is one, and else the
    /// target model.
    pub init: SpecDecReqInit<S>,
    pub llgs: Vec<Option<Box<Constraint>>>,
    pub tx: UnboundedSender<StepResults>,
    pub rx: UnboundedReceiver<StepResults>,
}

pub struct PendingRequestView<S> {
    pub temp_req_id: Option<ReqId>,
    pub init: SpecDecView<S>,
    pub llgs: Seq<Option<Box<Constraint>>>,
    pub tx: UnboundedSender<StepResults>,
    pub rx: UnboundedReceiver<StepResults>,
}

impl<S> View for PendingRequest<S> {
    type V = PendingRequestView<S>;

    open spec fn view(&self) -> PendingRequestView<S> {
        PendingRequestView {
            temp_req_id: self.temp_req_id,
            init: self.init@,
            llgs: self.llgs@,
            tx: self.tx,
            rx: self.rx,
        }
    }
}

impl<S> PendingRequestView<S> {
    /// The id under which the request is known to whoever made it.
    pub open spec fn req_id(self, engine_req_id: ReqId) -> ReqId {
        match self.temp_req_id {
            Some(req_id) => req_id,
            None => engine_req_id,
        }
    }

    /// The request is ready: its prompt is there, and its results go to `rx`.
    pub open spec fn wf(self) -> bool {
        &&& self.init.wf()
        &&& channel_of(self.tx) == channel_at(self.rx)
        &&& offered_through(self.tx) == Seq::<StepResultsView>::empty()
        &&& sent_through(self.tx) == Seq::<StepResultsView>::empty()
    }

    /// What is kept of the request from the start.
    pub open spec fn data(self, engine_req_id: ReqId) -> ReqDataView {
        ReqDataView {
            req_id: self.req_id(engine_req_id),
            client_req_id: self.init.client(),
            channel: channel_of(self.tx),
            offered: offered_through(self.tx),
            sent: sent_through(self.tx),
            logs: Seq::empty(),
            llgs: self.llgs,
            llg_infos: Seq::empty(),
            min_p: self.init.req_init.params.min_p,
            prompt_len: self.init.start_prompt_len,
            is_run: self.init.req_init.is_run,
        }
    }
}

/// Why a request is not accepted.
#[derive(Clone, Copy, PartialEq, Eq, Structural, Debug)]
pub enum AddRequestError {
    /// There has to be one constraint for each sequence, or none at all.
    ConstraintCount { constraints: usize, sequences: u32 },
}

/// There are no constraints, or one for each sequence.
pub open spec fn constraint_count_ok(constraints: nat, sequences: u32) -> bool {
    constraints == 0 || constraints == sequences
}

/// Constraints in their slots.
pub open spec fn in_slots(llgs: Seq<Box<Constraint>>) -> Seq<Option<Box<Constraint>>> {
    Seq::new(llgs.len(), |i: int| Some(llgs[i]))
}

/// A random request id, from `rand::Rng::random_range` over everything below the largest id.
#[verifier::external_body]
fn random_req_id() -> (res: ReqId)
    ensures
        res < u64::MAX,
{
    rand::rng().random_range(0..u64::MAX)
}

fn into_slots(llgs: Vec<Box<Constraint>>) -> (res: Vec<Option<Box<Constraint>>>)
    ensures
        res@ == in_slots(llgs@),
{
    let mut res: Vec<Option<Box<Constraint>>> = Vec::new();
    for llg in iter: llgs
        invariant
            iter.seq() == llgs@,
            res@ == in_slots(llgs@).take(iter.index() as int),
    {
        res.push(Some(llg));
    }
    assert(in_slots(llgs@).take(llgs@.len() as int) =~= in_slots(llgs@));
    res
}

impl<S> AsyncExecutor<S> {
    /// Starts with no requests. The batch size is that of the target model; there is a draft
    /// model if its batch size is given.
    pub fn new(
        target_max_batch_size: usize,
        draft_max_batch_size: Option<usize>,
        n_vocab: usize,
        n_draft_tokens: u32,
        draft_token_acc_rate: Option<u32>,
    ) -> (res: Self)
        ensures
            res@ == (ExecutorView::<S> {
                has_draft: draft_max_batch_size is Some,
                n_vocab,
                max_batch_size: target_max_batch_size,
                req_to_client: Map::empty(),
                req_data: Map::empty(),
                draft_req_to_client: Map::empty(),
                draft_req_data: Map::empty(),
                client_to_init: Map::empty(),
                n_draft_tokens,
                draft_token_acc_rate,
                closed: Seq::empty(),
            }),
            res@.wf(),
    {
        let res = AsyncExecutor {
            has_draft: draft_max_batch_size.is_some(),
            n_vocab,
            max_batch_size: target_max_batch_size,
            req_to_client: HashMap::new(),
            req_data: HashMap::new(),
            draft_req_to_client: HashMap::new(),
            draft_req_data: HashMap::new(),
            client_to_init: HashMap::new(),
            n_draft_tokens,
            draft_token_acc_rate,
            closed: Ghost(Seq::empty()),
        };
        assert(res@.req_data =~= Map::empty());
        assert(res@.draft_req_data =~= Map::empty());
        assert(res@.client_to_init =~= Map::empty());
        res
    }

    pub fn has_draft_model(&self) -> (res: bool)
        ensures
            res == self@.has_draft,
    {
        self.has_draft
    }

    pub fn n_draft_tokens(&self) -> (res: u32)
        ensures
            res == self@.n_draft_tokens,
    {
        self.n_draft_tokens
    }

    /// Bit pattern of the acceptance rate.
    pub fn draft_token_acc_rate(&self) -> (res: Option<u32>)
        ensures
            res == self@.draft_token_acc_rate,
    {
        self.draft_token_acc_rate
    }

    /// The vocabulary size and the number of masks that a pool of masks is made for: one for each
    /// sequence of a batch, and one more.
    pub fn mask_pool(&self) -> (res: (usize, usize))
        requires
            self@.max_batch_size < usize::MAX,
        ensures
            res.0 == self@.n_vocab,
            res.1 == self@.max_batch_size + 1,
    {
        (self.n_vocab, self.max_batch_size + 1)
    }

    /// A request can be added when every engine there is has room for it.
    pub fn can_enqueue_request(&self, target_has_room: bool, draft_has_room: bool) -> (res: bool)
        ensures
            res == (target_has_room && (self@.has_draft ==> draft_has_room)),
    {
        target_has_room && (!self.has_draft || draft_has_room)
    }

    pub(crate) fn drop_request_data(&mut self, req_id: ReqId)
        ensures
            final(self)@ == old(self)@.drop_request(req_id),
    {
        let ghost pre = *self;
        if let Some(client) = self.req_to_client.remove(&req_id) {
            if let Some(rd) = self.req_data.remove(&client) {
                self.closed = Ghost(self.closed@.push(rd@.closing()));
            } else {
                assert(self.req_data@ =~= pre.req_data@.remove(client));
            }
            let _ = self.client_to_init.remove(&client);
            proof {
                lemma_map_view_remove(pre.req_data@, client);
                lemma_map_view_remove(pre.client_to_init@, client);
            }
        } else {
            assert(self.req_to_client@ =~= pre.req_to_client@);
        }
    }

    /// Forgets a request of the target model; the engine is to cancel it.
    pub fn cancel_request(&mut self, req_id: ReqId) -> (res: CancelCall)
        requires
            old(self)@.wf(),
        ensures
            final(self)@ == old(self)@.drop_request(req_id),
            final(self)@.wf(),
            res == (CancelCall { model: Model::Target, req_id }),
    {
        self.drop_request_data(req_id);
        CancelCall { model: Model::Target, req_id }
    }

    pub(crate) fn drop_draft_request_data(&mut self, req_id: ReqId)
        ensures
            final(self)@ == old(self)@.drop_draft_request(req_id),
    {
        let ghost pre = *self;
        if let Some(client) = self.draft_req_to_client.remove(&req_id) {
            let _ = self.draft_req_data.remove(&client);
            proof {
                lemma_map_view_remove(pre.draft_req_data@, client);
            }
        } else {
            assert(self.draft_req_to_client@ =~= pre.draft_req_to_client@);
        }
    }

    /// Forgets a request of the draft model; the engine is to cancel it.
    pub fn cancel_draft_request(&mut self, req_id: ReqId) -> (res: CancelCall)
        requires
            old(self)@.wf(),
            old(self)@.has_draft,
        ensures
            final(self)@ == old(self)@.drop_draft_request(req_id),
            final(self)@.wf(),
            res == (CancelCall { model: Model::Draft, req_id }),
    {
        self.drop_draft_request_data(req_id);
        CancelCall { model: Model::Draft, req_id }
    }

    /// Makes a request ready for its engine. With a draft model it goes there first, and is known
    /// under `temp_req_id`.
    pub fn plan_request(
        &self,
        init: RequestInit<S>,
        llgs: Vec<Box<Constraint>>,
        temp_req_id: ReqId,
    ) -> (res: Result<PendingRequest<S>, AddRequestError>)
        ensures
            match res {
                Ok(pending) => {
                    &&& constraint_count_ok(llgs@.len(), init@.params.num_return_sequences)
                    &&& pending@ == planned(self@, init@, llgs@, temp_req_id, pending.tx, pending.rx)
                    &&& pending@.wf()
                },
                Err(err) => {
                    &&& !constraint_count_ok(llgs@.len(), init@.params.num_return_sequences)
                    &&& err == AddRequestError::ConstraintCount {
                        constraints: llgs@.len() as usize,
                        sequences: init@.params.num_return_sequences,
                    }
                },
            },
    {
        let constraints = llgs.len();
        let sequences = init.params.num_return_sequences;
        if !(constraints == 0 || constraints as u64 == sequences as u64) {
            return Err(AddRequestError::ConstraintCount { constraints, sequences });
        }
        let (tx, rx) = results_channel();
        let init = SpecDecReqInit::new(init);
        let llgs = into_slots(llgs);
        if self.has_draft {
            let init = self.enqueue_draft_request(init);
            Ok(PendingRequest { temp_req_id: Some(temp_req_id), init, llgs, tx, rx })
        } else {
            Ok(PendingRequest { temp_req_id: None, init, llgs, tx, rx })
        }
    }

    /// Makes a request ready for its engine. With a draft model it goes there first, and is known
    /// under a random id.
    pub fn add_request(&self, init: RequestInit<S>, llgs: Vec<Box<Constraint>>) -> (res: Result<
        PendingRequest<S>,
        AddRequestError,
    >)
        ensures
            match res {
                Ok(pending) => {
                    &&& constraint_count_ok(llgs@.len(), init@.params.num_return_sequences)
                    &&& pending@ == planned(
                        self@,
                        init@,
                        llgs@,
                        pending.temp_req_id.unwrap_or(0),
                        pending.tx,
                        pending.rx,
                    )
                    &&& pending.temp_req_id.unwrap_or(0) < u64::MAX
                    &&& pending@.wf()
                },
                Err(err) => {
                    &&& !constraint_count_ok(llgs@.len(), init@.params.num_return_sequences)
                    &&& err == AddRequestError::ConstraintCount {
                        constraints: llgs@.len() as usize,
                        sequences: init@.params.num_return_sequences,
                    }
                },
            },
    {
        let temp_req_id: ReqId = if self.has_draft {
            random_req_id()
        } else {
            0
        };
        self.plan_request(init, llgs, temp_req_id)
    }

    /// `add_request`, for a request that is meant to go through rounds.
    pub fn add_full_request(&self, init: RequestInit<S>, llgs: Vec<Box<Constraint>>) -> (res:
        Result<PendingRequest<S>, AddRequestError>)
        requires
            self@.has_draft,
        ensures
            match res {
                Ok(pending) => {
                    &&& constraint_count_ok(llgs@.len(), init@.params.num_return_sequences)
                    &&& pending.temp_req_id matches Some(temp_req_id)
                    &&& temp_req_id < u64::MAX
                    &&& pending@ == planned(
                        self@,
                        init@,
                        llgs@,
                        temp_req_id,
                        pending.tx,
                        pending.rx,
                    )
                    &&& pending@.wf()
                },
                Err(err) => {
                    &&& !constraint_count_ok(llgs@.len(), init@.params.num_return_sequences)
                    &&& err == AddRequestError::ConstraintCount {
                        constraints: llgs@.len() as usize,
                        sequences: init@.params.num_return_sequences,
                    }
                },
            },
    {
        self.add_request(init, llgs)
    }

    /// Takes a request in that its engine has taken under `engine_req_id`. Returns the id under
    /// which the request is known, and where its results arrive.
    pub fn complete_request(&mut self, pending: PendingRequest<S>, engine_req_id: ReqId) -> (res: (
        ReqId,
        UnboundedReceiver<StepResults>,
    ))
        requires
            old(self)@.wf(),
            pending@.wf(),
        ensures
            res.0 == pending@.req_id(engine_req_id),
            res.1 == pending.rx,
            final(self)@ == old(self)@.request_added(pending@, engine_req_id),
            final(self)@.wf(),
    {
        let ghost pre = *self;
        let client_req_id = pending.init.req_init.client_req_id;
        let req_id = match pending.temp_req_id {
            Some(req_id) => req_id,
            None => engine_req_id,
        };
        let data = ReqData {
            req_id,
            client_req_id,
            tx: pending.tx,
            logs: String::new(),
            llgs: pending.llgs,
            llg_infos: Vec::new(),
            min_p: pending.init.req_init.params.min_p,
            prompt_len: pending.init.start_prompt_len,
            is_run: pending.init.req_init.is_run,
        };
        assert(data@ == pending@.data(engine_req_id)) by {
            assert(data@.llg_infos =~= Seq::empty());
        }
        if pending.temp_req_id.is_some() {
            self.draft_enqueued(engine_req_id, pending.init);
        } else {
            let _ = self.req_to_client.insert(engine_req_id, client_req_id);
        }
        let ghost mid = *self;
        if let Some(replaced) = self.req_data.insert(client_req_id, data) {
            self.closed = Ghost(self.closed@.push(replaced@.closing()));
        }
        proof {
            lemma_map_view_insert(mid.req_data@, client_req_id, data);
        }
        (req_id, pending.rx)
    }

    /// A round of a request, made ready for the draft model.
    pub fn enqueue_draft_request(&self, init: SpecDecReqInit<S>) -> (res: SpecDecReqInit<S>)
        ensures
            res@ == init@.for_draft(self@.n_draft_tokens),
    {
        init.into_draft(self.n_draft_tokens)
    }

    pub(crate) fn draft_enqueued(&mut self, draft_req_id: ReqId, init: SpecDecReqInit<S>)
        requires
            old(self)@.wf(),
            init@.wf(),
        ensures
            final(self)@ == old(self)@.draft_enqueued(draft_req_id, init@),
            final(self)@.wf(),
    {
        let ghost pre = *self;
        let client_req_id = init.req_init.client_req_id;
        let _ = self.draft_req_to_client.insert(draft_req_id, client_req_id);
        let _ = self.client_to_init.insert(client_req_id, init);
        proof {
            lemma_map_view_insert(pre.client_to_init@, client_req_id, init);
        }
    }

    /// A round of a request, made ready for the target model.
    pub fn enqueue_request(&self, init: SpecDecReqInit<S>) -> (res: SpecDecReqInit<S>)
        requires
            self@.n_draft_tokens < u32::MAX,
        ensures
            res@ == init@.for_target(self@.n_draft_tokens),
    {
        init.into_target(self.n_draft_tokens)
    }
}

/// What making a request ready comes to.
pub open spec fn planned<S>(
    exec: ExecutorView<S>,
    init: RequestInitView<S>,
    llgs: Seq<Box<Constraint>>,
    temp_req_id: ReqId,
    tx: UnboundedSender<StepResults>,
    rx: UnboundedReceiver<StepResults>,
) -> PendingRequestView<S> {
    PendingRequestView {
        temp_req_id: if exec.has_draft {
            Some(temp_req_id)
        } else {
            None
        },
        init: if exec.has_draft {
            init.first_round().for_draft(exec.n_draft_tokens)
        } else {
            init.first_round()
        },
        llgs: in_slots(llgs),
        tx,
        rx,
    }
}

} // verus!
