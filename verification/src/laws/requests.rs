//! Laws of adding and cancelling requests, and of the rounds that models are given.
use llguidance::Constraint;
use tokio::sync::mpsc::{UnboundedReceiver, UnboundedSender};
use vstd::prelude::*;

use crate::channel::{channel_of, offered_through, sent_through};
use crate::executor::{constraint_count_ok, in_slots, planned, ExecutorView, PendingRequestView};
use crate::request::SpecDecView;
use crate::types::{ClientReqId, ReqId, RequestInitView, StepResults, TokenId};

verus! {

/// Two states agree in all that no call ever changes.
pub open spec fn same_setup<S>(a: ExecutorView<S>, b: ExecutorView<S>) -> bool {
    &&& a.has_draft == b.has_draft
    &&& a.n_vocab == b.n_vocab
    &&& a.max_batch_size == b.max_batch_size
    &&& a.n_draft_tokens == b.n_draft_tokens
    &&& a.draft_token_acc_rate == b.draft_token_acc_rate
}

/// Constraints are accepted if there are none at all, or as many as sequences; each then has its
/// own slot, in the order in which they were given.
pub proof fn law_one_constraint_per_sequence(llgs: Seq<Box<Constraint>>, sequences: u32)
    ensures
        constraint_count_ok(llgs.len(), sequences) <==> llgs.len() == 0 || llgs.len()
            == sequences as int,
        in_slots(llgs).len() == llgs.len(),
        forall|i: int| 0 <= i < llgs.len() ==> #[trigger] in_slots(llgs)[i] == Some(llgs[i]),
{
}

/// What the engine gets is what the client asked for. Without a draft model it is the request in
/// every field. With one, it is the same prompt, with the same number of sequences, threshold and
/// settings, to draft exactly as many tokens as are drafted in a round, in one piece; how many
/// tokens the client wants, and how long its prompt is, is kept apart.
pub proof fn law_ready_as_asked<S>(
    state: ExecutorView<S>,
    init: RequestInitView<S>,
    llgs: Seq<Box<Constraint>>,
    temp_req_id: ReqId,
    tx: UnboundedSender<StepResults>,
    rx: UnboundedReceiver<StepResults>,
)
    ensures
        ({
            let ready = planned(state, init, llgs, temp_req_id, tx, rx);
            let given = ready.init.req_init;
            &&& !state.has_draft ==> given == init && ready.temp_req_id is None
            &&& state.has_draft ==> {
                &&& ready.temp_req_id == Some(temp_req_id)
                &&& given.tokens == init.tokens
                &&& given.client_req_id == init.client_req_id
                &&& given.is_run == init.is_run
                &&& given.settings == init.settings
                &&& given.params.num_return_sequences == init.params.num_return_sequences
                &&& given.params.min_p == init.params.min_p
                &&& given.params.max_new_tokens == state.n_draft_tokens
                &&& given.params.min_tokens == state.n_draft_tokens
                &&& !given.params.streaming
                &&& given.draft_params is None
            }
            &&& ready.init.max_num_tokens == init.params.max_new_tokens
            &&& ready.init.start_prompt_len == init.tokens.len()
            &&& ready.llgs.len() == llgs.len()
            &&& forall|i: int| 0 <= i < llgs.len() ==> #[trigger] ready.llgs[i] == Some(llgs[i])
            &&& ready.tx == tx
            &&& ready.rx == rx
        }),
{
}

/// The first round of a request is the request itself: nothing has been produced, and the client
/// wants as many tokens as it asked for.
pub proof fn law_first_round<S>(init: RequestInitView<S>)
    ensures
        init.first_round().req_init == init,
        init.first_round().max_num_tokens == init.params.max_new_tokens,
        init.first_round().start_prompt_len == init.tokens.len(),
{
}

/// A round for the draft model asks for `n` tokens, no more and no fewer, in one piece, and has
/// nothing to check. Nothing else of the request changes.
pub proof fn law_round_for_draft<S>(init: SpecDecView<S>, n: u32)
    ensures
        ({
            let round = init.for_draft(n);
            &&& round.req_init.params.max_new_tokens == n
            &&& round.req_init.params.min_tokens == n
            &&& !round.req_init.params.streaming
            &&& round.req_init.draft_params is None
            &&& same_but_round(round, init)
            &&& round.req_init.tokens == init.req_init.tokens
        }),
{
}

/// A round for the target model asks for one token at least, and for one more than were drafted at
/// most, in one piece. Nothing else of the request changes, and what there is to check does not.
pub proof fn law_round_for_target<S>(init: SpecDecView<S>, n: u32)
    requires
        n < u32::MAX,
    ensures
        ({
            let round = init.for_target(n);
            &&& round.req_init.params.max_new_tokens == n + 1
            &&& round.req_init.params.min_tokens == 1
            &&& !round.req_init.params.streaming
            &&& round.req_init.draft_params == init.req_init.draft_params
            &&& same_but_round(round, init)
            &&& round.req_init.tokens == init.req_init.tokens
        }),
{
}

/// Drafted tokens are there to check, without logits or a rate, and are no output; output goes
/// behind the output so far.
pub proof fn law_round_tokens<S>(init: SpecDecView<S>, tokens: Seq<TokenId>)
    ensures
        ({
            let drafted = init.with_draft(tokens);
            let longer = init.extended(tokens);
            &&& drafted.req_init.draft_params matches Some(params)
            &&& params.draft_tokens == tokens
            &&& params.logits_tensor is None
            &&& params.acc_rate is None
            &&& drafted.req_init.tokens == init.req_init.tokens
            &&& drafted.req_init.params == init.req_init.params
            &&& same_but_round(drafted, init)
            &&& longer.req_init.tokens.len() == init.req_init.tokens.len() + tokens.len()
            &&& forall|i: int|
                0 <= i < init.req_init.tokens.len() ==> #[trigger] longer.req_init.tokens[i]
                    == init.req_init.tokens[i]
            &&& forall|i: int|
                0 <= i < tokens.len() ==> longer.req_init.tokens[init.req_init.tokens.len() + i]
                    == #[trigger] tokens[i]
            &&& longer.req_init.params == init.req_init.params
            &&& longer.req_init.draft_params == init.req_init.draft_params
            &&& same_but_round(longer, init)
        }),
{
}

/// Two rounds are of one request: they agree in all that no round sets.
pub open spec fn same_but_round<S>(a: SpecDecView<S>, b: SpecDecView<S>) -> bool {
    &&& a.max_num_tokens == b.max_num_tokens
    &&& a.start_prompt_len == b.start_prompt_len
    &&& a.req_init.client_req_id == b.req_init.client_req_id
    &&& a.req_init.is_run == b.req_init.is_run
    &&& a.req_init.settings == b.req_init.settings
    &&& a.req_init.params.num_return_sequences == b.req_init.params.num_return_sequences
    &&& a.req_init.params.min_p == b.req_init.params.min_p
}

/// A request that is taken in is kept for its client just as it was made: under the id that is
/// given out, with the sending half that belongs to the receiver, with all its constraints in their
/// slots, and without logs or sequences. The engine's id leads to the client. Other clients, and
/// other ids, are left alone.
pub proof fn law_request_taken_in<S>(
    state: ExecutorView<S>,
    pending: PendingRequestView<S>,
    engine_req_id: ReqId,
    other: ClientReqId,
    other_id: ReqId,
)
    requires
        other != pending.init.req_init.client_req_id,
        other_id != engine_req_id,
    ensures
        ({
            let client = pending.init.req_init.client_req_id;
            let post = state.request_added(pending, engine_req_id);
            let rd = post.req_data[client];
            &&& post.req_data.contains_key(client)
            &&& rd.req_id == pending.req_id(engine_req_id)
            &&& pending.temp_req_id matches Some(id) ==> pending.req_id(engine_req_id) == id
            &&& pending.temp_req_id is None ==> pending.req_id(engine_req_id) == engine_req_id
            &&& rd.client_req_id == client
            &&& rd.channel == channel_of(pending.tx)
            &&& rd.offered == offered_through(pending.tx)
            &&& rd.sent == sent_through(pending.tx)
            &&& rd.logs.len() == 0
            &&& rd.llgs == pending.llgs
            &&& rd.llg_infos.len() == 0
            &&& rd.min_p == pending.init.req_init.params.min_p
            &&& rd.prompt_len == pending.init.start_prompt_len
            &&& rd.is_run == pending.init.req_init.is_run
            &&& if pending.temp_req_id is Some {
                &&& post.draft_req_to_client.contains_key(engine_req_id)
                &&& post.draft_req_to_client[engine_req_id] == client
                &&& post.req_to_client == state.req_to_client
                &&& post.client_to_init.contains_key(client)
                &&& post.client_to_init[client] == pending.init
            } else {
                &&& post.req_to_client.contains_key(engine_req_id)
                &&& post.req_to_client[engine_req_id] == client
                &&& post.draft_req_to_client == state.draft_req_to_client
                &&& post.client_to_init == state.client_to_init
            }
            &&& same_client(state, post, other)
            &&& same_ids(state, post, other_id)
            &&& same_setup(state, post)
            &&& post.draft_req_data == state.draft_req_data
            &&& state.req_data.contains_key(client) ==> {
                &&& post.closed.len() == state.closed.len() + 1
                &&& post.closed.last().channel == state.req_data[client].channel
                &&& post.closed.last().offered == state.req_data[client].offered
                &&& post.closed.last().sent == state.req_data[client].sent
            }
            &&& !state.req_data.contains_key(client) ==> post.closed == state.closed
        }),
{
}

/// All that is kept for a client is the same in two states.
pub open spec fn same_client<S>(
    a: ExecutorView<S>,
    b: ExecutorView<S>,
    client: ClientReqId,
) -> bool {
    &&& a.req_data.contains_key(client) == b.req_data.contains_key(client)
    &&& a.req_data.contains_key(client) ==> a.req_data[client] == b.req_data[client]
    &&& a.client_to_init.contains_key(client) == b.client_to_init.contains_key(client)
    &&& a.client_to_init.contains_key(client) ==> a.client_to_init[client]
        == b.client_to_init[client]
}

/// A request id of the target model leads to the same client in two states, or to none in both.
pub open spec fn same_target_id<S>(a: ExecutorView<S>, b: ExecutorView<S>, id: ReqId) -> bool {
    &&& a.req_to_client.contains_key(id) == b.req_to_client.contains_key(id)
    &&& a.req_to_client.contains_key(id) ==> a.req_to_client[id] == b.req_to_client[id]
}

/// A request id of the draft model leads to the same client in two states, or to none in both.
pub open spec fn same_draft_id<S>(a: ExecutorView<S>, b: ExecutorView<S>, id: ReqId) -> bool {
    &&& a.draft_req_to_client.contains_key(id) == b.draft_req_to_client.contains_key(id)
    &&& a.draft_req_to_client.contains_key(id) ==> a.draft_req_to_client[id]
        == b.draft_req_to_client[id]
}

/// A request id leads to the same client in two states, of whichever model it is.
pub open spec fn same_ids<S>(a: ExecutorView<S>, b: ExecutorView<S>, id: ReqId) -> bool {
    same_target_id(a, b, id) && same_draft_id(a, b, id)
}

/// Cancelling a request of the target model takes away that request and its client, and nothing
/// else: all other requests go on, of either model.
pub proof fn law_cancel_only_that<S>(
    state: ExecutorView<S>,
    req_id: ReqId,
    other: ClientReqId,
    other_id: ReqId,
)
    requires
        state.req_to_client.contains_key(req_id),
        other != state.req_to_client[req_id],
        other_id != req_id,
    ensures
        ({
            let client = state.req_to_client[req_id];
            let post = state.drop_request(req_id);
            &&& !post.req_to_client.contains_key(req_id)
            &&& !post.req_data.contains_key(client)
            &&& !post.client_to_init.contains_key(client)
            &&& same_client(state, post, other)
            &&& same_target_id(state, post, other_id)
            &&& post.draft_req_to_client == state.draft_req_to_client
            &&& post.draft_req_data == state.draft_req_data
            &&& same_setup(state, post)
            &&& state.req_data.contains_key(client) ==> {
                &&& post.closed.len() == state.closed.len() + 1
                &&& post.closed.last().channel == state.req_data[client].channel
                &&& post.closed.last().offered == state.req_data[client].offered
                &&& post.closed.last().sent == state.req_data[client].sent
                &&& forall|i: int|
                    0 <= i < state.closed.len() ==> #[trigger] post.closed[i] == state.closed[i]
            }
            &&& !state.req_data.contains_key(client) ==> post.closed == state.closed
        }),
{
}

/// Cancelling a request of the draft model takes away that request, and nothing else: its client
/// and all other requests go on. One that is not known changes nothing.
pub proof fn law_cancel_draft_only_that<S>(
    state: ExecutorView<S>,
    req_id: ReqId,
    other_id: ReqId,
)
    requires
        state.wf(),
        other_id != req_id,
    ensures
        ({
            let post = state.drop_draft_request(req_id);
            &&& !post.draft_req_to_client.contains_key(req_id)
            &&& same_draft_id(state, post, other_id)
            &&& post.req_to_client == state.req_to_client
            &&& post.req_data == state.req_data
            &&& post.client_to_init == state.client_to_init
            &&& post.draft_req_data =~= state.draft_req_data
            &&& same_setup(state, post)
            &&& post.closed == state.closed
            &&& !state.draft_req_to_client.contains_key(req_id) ==> post == state
        }),
{
}

/// When a model takes a round, its id leads to the client, and the client is in that round. No
/// other client, no other id and no running request changes.
pub proof fn law_round_taken<S>(
    state: ExecutorView<S>,
    req_id: ReqId,
    init: SpecDecView<S>,
    other: ClientReqId,
    other_id: ReqId,
)
    requires
        other != init.req_init.client_req_id,
        other_id != req_id,
    ensures
        ({
            let client = init.req_init.client_req_id;
            let draft = state.draft_enqueued(req_id, init);
            let target = state.target_enqueued(req_id, init);
            &&& draft.draft_req_to_client.contains_key(req_id)
            &&& draft.draft_req_to_client[req_id] == client
            &&& draft.req_to_client == state.req_to_client
            &&& target.req_to_client.contains_key(req_id)
            &&& target.req_to_client[req_id] == client
            &&& target.draft_req_to_client == state.draft_req_to_client
            &&& forall|post: ExecutorView<S>|
                post == draft || post == target ==> {
                    &&& post.client_to_init.contains_key(client)
                    &&& post.client_to_init[client] == init
                    &&& #[trigger] same_client(state, post, other)
                    &&& same_ids(state, post, other_id)
                    &&& post.req_data == state.req_data
                    &&& post.draft_req_data == state.draft_req_data
                    &&& post.closed == state.closed
                    &&& same_setup(state, post)
                }
        }),
{
}

/// When the target model takes a drafted round, only the draft of that round is forgotten: every
/// other request id of either model leads where it led before, and so do all other clients. The
/// client keeps its running request, and is in the round that was taken.
pub proof fn law_target_takes_round<S>(
    state: ExecutorView<S>,
    draft_req_id: ReqId,
    target_req_id: ReqId,
    init: SpecDecView<S>,
    other: ClientReqId,
    other_id: ReqId,
)
    requires
        state.wf(),
        other != init.req_init.client_req_id,
    ensures
        ({
            let client = init.req_init.client_req_id;
            let post = state.target_taken(draft_req_id, target_req_id, init);
            &&& post.req_to_client.contains_key(target_req_id)
            &&& post.req_to_client[target_req_id] == client
            &&& !post.draft_req_to_client.contains_key(draft_req_id)
            &&& other_id != target_req_id ==> same_target_id(state, post, other_id)
            &&& other_id != draft_req_id ==> same_draft_id(state, post, other_id)
            &&& post.client_to_init.contains_key(client)
            &&& post.client_to_init[client] == init
            &&& same_client(state, post, other)
            &&& post.req_data == state.req_data
            &&& post.closed == state.closed
            &&& same_setup(state, post)
        }),
{
}

/// When the draft model takes the next round of a request, only the round before is forgotten:
/// every other request id of either model leads where it led before, and so do all other clients.
/// The client keeps its running request, and is in the round that was taken.
pub proof fn law_draft_takes_round<S>(
    state: ExecutorView<S>,
    target_req_id: ReqId,
    draft_req_id: ReqId,
    init: SpecDecView<S>,
    other: ClientReqId,
    other_id: ReqId,
)
    requires
        other != init.req_init.client_req_id,
    ensures
        ({
            let client = init.req_init.client_req_id;
            let post = state.draft_taken(target_req_id, draft_req_id, init);
            &&& post.draft_req_to_client.contains_key(draft_req_id)
            &&& post.draft_req_to_client[draft_req_id] == client
            &&& !post.req_to_client.contains_key(target_req_id)
            &&& other_id != target_req_id ==> same_target_id(state, post, other_id)
            &&& other_id != draft_req_id ==> same_draft_id(state, post, other_id)
            &&& post.client_to_init.contains_key(client)
            &&& post.client_to_init[client] == init
            &&& same_client(state, post, other)
            &&& post.req_data == state.req_data
            &&& post.draft_req_data == state.draft_req_data
            &&& post.closed == state.closed
            &&& same_setup(state, post)
        }),
{
}

} // verus!
