use std::sync::Arc;

use async_exec::executor::rounds::{
    judge, AcceptanceSample, DraftAction, TargetAction, Verdict,
};
use async_exec::executor::{AddRequestError, AsyncExecutor, CancelCall, Model, PendingRequest};
use async_exec::types::{
    EngineFinishReason, RequestInit, RequestParams, ResponseChunk, StepResults,
};
use llguidance::api::TopLevelGrammar;
use llguidance::{Constraint, ParserFactory};
use tokio::sync::mpsc::UnboundedReceiver;
use toktrie::ApproximateTokEnv;

type Executor = AsyncExecutor<&'static str>;

fn constraint(regex: &str) -> Box<Constraint> {
    let env = ApproximateTokEnv::single_byte_env();
    let mut factory = ParserFactory::new_simple(&env).unwrap();
    factory.quiet();
    let parser = factory.create_parser(TopLevelGrammar::from_regex(regex)).unwrap();
    Box::new(Constraint::new(parser))
}

fn with_draft() -> Executor {
    AsyncExecutor::new(16, Some(8), 262, 3, Some(0x3f000000))
}

fn without_draft() -> Executor {
    AsyncExecutor::new(16, None, 262, 3, None)
}

fn request(client_req_id: u64, max_new_tokens: u32, sequences: u32) -> RequestInit<&'static str> {
    RequestInit {
        tokens: vec![1, 2],
        params: RequestParams {
            max_new_tokens,
            min_tokens: 0,
            num_return_sequences: sequences,
            streaming: true,
            min_p: 0,
        },
        client_req_id,
        is_run: false,
        draft_params: None,
        settings: Arc::new("settings"),
    }
}

fn response(req_id: u64, tokens: &[u32], is_req_final: bool) -> ResponseChunk {
    ResponseChunk {
        req_id,
        sequence_idx: 0,
        finish_reason: if is_req_final { Some(EngineFinishReason::Length) } else { None },
        error: None,
        is_req_final,
        logprobs: None,
        tokens: tokens.to_vec(),
        generation_logits: None,
    }
}

fn ready<S>(res: Result<PendingRequest<S>, AddRequestError>) -> PendingRequest<S> {
    match res {
        Ok(pending) => pending,
        Err(err) => panic!("{err:?}"),
    }
}

/// Adds a request that the draft model takes under `draft_req_id`.
fn start(
    exec: &mut Executor,
    init: RequestInit<&'static str>,
    draft_req_id: u64,
) -> UnboundedReceiver<StepResults> {
    let pending = ready(exec.add_full_request(init, vec![]));
    let (_, rx) = exec.complete_request(pending, draft_req_id);
    rx
}

/// The draft model has drafted `tokens`, and the target model takes the round.
fn drafted(exec: &mut Executor, draft_req_id: u64, tokens: &[u32], target_req_id: u64) {
    let resp = response(draft_req_id, tokens, true);
    assert!(exec.can_handle_draft_response(&resp));
    match exec.draft_response(resp) {
        DraftAction::Check(init) => {
            let call = exec.target_taken(draft_req_id, target_req_id, init);
            assert_eq!(call, CancelCall { model: Model::Draft, req_id: draft_req_id });
        }
        _ => panic!("the round is over"),
    }
}

fn received(rx: &mut UnboundedReceiver<StepResults>) -> StepResults {
    match rx.try_recv() {
        Ok(results) => results,
        Err(err) => panic!("{err}"),
    }
}

#[test]
fn an_executor_knows_its_models() {
    let exec = with_draft();
    assert!(exec.has_draft_model());
    assert_eq!(exec.n_draft_tokens(), 3);
    assert_eq!(exec.draft_token_acc_rate(), Some(0x3f000000));
    assert_eq!(exec.mask_pool(), (262, 17));
    assert!(exec.can_enqueue_request(true, true));
    assert!(!exec.can_enqueue_request(true, false));
    assert!(!exec.can_enqueue_request(false, true));

    let exec = without_draft();
    assert!(!exec.has_draft_model());
    assert_eq!(exec.draft_token_acc_rate(), None);
    assert!(exec.can_enqueue_request(true, false));
    assert!(!exec.can_enqueue_request(false, false));
}

#[test]
fn constraints_are_counted() {
    let exec = with_draft();
    let too_few = exec.add_request(request(1, 10, 2), vec![constraint("a")]);
    match too_few {
        Err(err) => assert_eq!(
            err,
            AddRequestError::ConstraintCount { constraints: 1, sequences: 2 }
        ),
        Ok(_) => panic!("one constraint is missing"),
    }
    assert!(exec.add_request(request(1, 10, 1), vec![constraint("a"), constraint("b")]).is_err());
    let pending = ready(exec.add_request(request(1, 10, 2), vec![constraint("a"), constraint("b")]));
    assert_eq!(pending.llgs.len(), 2);
    assert!(pending.llgs.iter().all(|llg| llg.is_some()));
    assert_eq!(ready(exec.add_request(request(1, 10, 2), vec![])).llgs.len(), 0);
}

#[test]
fn a_request_without_a_draft_model_goes_to_the_target() {
    let mut exec = without_draft();
    let pending = ready(exec.add_request(request(5, 10, 1), vec![]));
    assert_eq!(pending.temp_req_id, None);
    assert_eq!(pending.init.req_init.params.max_new_tokens, 10);
    assert!(pending.init.req_init.params.streaming);
    let (req_id, _rx) = exec.complete_request(pending, 900);
    assert_eq!(req_id, 900);
    // there are no rounds, so a response has nothing to go on with
    assert!(!exec.can_handle_target_response(&response(900, &[3], true)));
    let call = exec.cancel_request(900);
    assert_eq!(call, CancelCall { model: Model::Target, req_id: 900 });
    assert!(exec.can_handle_target_response(&response(900, &[3], true)));
}

#[test]
fn cancelling_a_new_request_closes_its_receiver() {
    let mut exec = without_draft();
    let pending = ready(exec.add_request(request(5, 10, 1), vec![]));
    let (req_id, mut rx) = exec.complete_request(pending, 900);
    assert!(!rx.is_closed());
    let _ = exec.cancel_request(req_id);
    assert!(rx.is_closed());
    assert!(rx.try_recv().is_err());
    // a request that takes the place of another closes that one's receiver too
    let pending = ready(exec.add_request(request(5, 10, 1), vec![]));
    let (_, first) = exec.complete_request(pending, 901);
    let pending = ready(exec.add_request(request(5, 10, 1), vec![]));
    let (_, second) = exec.complete_request(pending, 902);
    assert!(first.is_closed());
    assert!(!second.is_closed());
}

#[test]
fn a_request_with_a_draft_model_is_drafted_first() {
    let mut exec = with_draft();
    let pending = ready(exec.plan_request(request(5, 10, 1), vec![], 1234));
    assert_eq!(pending.temp_req_id, Some(1234));
    assert_eq!(pending.init.req_init.params.max_new_tokens, 3);
    assert_eq!(pending.init.req_init.params.min_tokens, 3);
    assert!(!pending.init.req_init.params.streaming);
    assert_eq!(pending.init.max_num_tokens, 10);
    let (req_id, _rx) = exec.complete_request(pending, 70);
    assert_eq!(req_id, 1234);
}

#[test]
fn own_request_ids_are_random() {
    let exec = with_draft();
    let mut ids = vec![];
    for _ in 0..8 {
        ids.push(ready(exec.add_full_request(request(5, 10, 1), vec![])).temp_req_id.unwrap());
    }
    assert!(ids.iter().all(|id| *id < u64::MAX));
    assert!(ids.iter().any(|id| *id != ids[0]));
}

#[test]
fn drafts_wait_for_the_end_of_the_round() {
    let mut exec = with_draft();
    let _rx = start(&mut exec, request(5, 10, 1), 70);
    let piece = response(70, &[9], false);
    assert!(exec.can_handle_draft_response(&piece));
    assert!(matches!(exec.draft_response(piece), DraftAction::Wait));
    match exec.draft_response(response(70, &[9, 8, 7], true)) {
        DraftAction::Check(init) => {
            assert_eq!(init.req_init.params.max_new_tokens, 4);
            assert_eq!(init.req_init.params.min_tokens, 1);
            assert_eq!(init.req_init.draft_params.unwrap().draft_tokens, vec![9, 8, 7]);
            assert_eq!(init.req_init.tokens, vec![1, 2]);
        }
        _ => panic!("the round is over"),
    }
}

#[test]
fn unknown_drafts_are_cancelled() {
    let exec = with_draft();
    match exec.draft_response(response(71, &[9], true)) {
        DraftAction::Cancel(req_id) => assert_eq!(req_id, 71),
        _ => panic!("nobody knows this request"),
    }
}

#[test]
fn unknown_responses_are_cancelled() {
    let mut exec = with_draft();
    let resp = response(71, &[9], true);
    assert!(exec.can_handle_target_response(&resp));
    let (action, sample) = exec.handle_target_response(resp);
    assert!(matches!(action, TargetAction::Cancel(71)));
    assert!(sample.is_none());
}

#[test]
fn requests_are_judged() {
    assert_eq!(judge(4, 0, 10, true), Verdict::Ended);
    assert_eq!(judge(4, 0, 10, false), Verdict::Unfinished);
    assert_eq!(judge(4, 3, 10, true), Verdict::Unfinished);
    assert_eq!(judge(7, 3, 10, true), Verdict::Full);
    assert_eq!(judge(6, 3, 10, true), Verdict::Unfinished);
    assert_eq!(judge(usize::MAX, usize::MAX, usize::MAX, true), Verdict::Full);
}

/// Two rounds: the first goes on, the second is over.
#[test]
fn a_request_goes_through_rounds() {
    let mut exec = with_draft();
    let mut rx = start(&mut exec, request(5, 8, 1), 70);

    drafted(&mut exec, 70, &[9, 8, 7], 500);
    let resp = response(500, &[9, 8], true);
    assert!(exec.can_handle_target_response(&resp));
    let (action, sample) = exec.handle_target_response(resp);
    assert_eq!(sample, Some(AcceptanceSample { client_req_id: 5, accepted: 1, drafted: 3 }));
    let next = match action {
        TargetAction::Redraft(init) => init,
        _ => panic!("there is room for more"),
    };
    assert_eq!(next.req_init.tokens, vec![1, 2, 9, 8]);
    assert!(next.req_init.draft_params.is_none());
    assert_eq!(next.req_init.params.max_new_tokens, 3);
    let call = exec.draft_taken(500, 71, next);
    assert_eq!(call, CancelCall { model: Model::Target, req_id: 500 });
    let results = received(&mut rx);
    assert_eq!(results.response.tokens, vec![9, 8]);
    assert!(!results.response.is_req_final);
    assert_eq!(results.response.finish_reason, None);

    // the old ids are not known any more
    assert!(matches!(exec.draft_response(response(70, &[1], true)), DraftAction::Cancel(70)));
    let (action, _) = exec.handle_target_response(response(500, &[1], true));
    assert!(matches!(action, TargetAction::Cancel(500)));

    drafted(&mut exec, 71, &[6, 5, 4], 501);
    let (action, sample) = exec.handle_target_response(response(501, &[6, 5, 4], true));
    assert_eq!(sample, Some(AcceptanceSample { client_req_id: 5, accepted: 2, drafted: 3 }));
    assert!(matches!(action, TargetAction::Cancel(501)));
    let results = received(&mut rx);
    assert_eq!(results.response.tokens, vec![6, 5, 4]);
    assert!(results.response.is_req_final);
    assert_eq!(results.response.finish_reason, Some(EngineFinishReason::Length));
    // the sender is gone with the request
    assert!(rx.try_recv().is_err());
    assert!(rx.is_closed());
}

#[test]
fn a_round_without_tokens_ends_the_request() {
    let mut exec = with_draft();
    let mut rx = start(&mut exec, request(5, 8, 1), 70);
    drafted(&mut exec, 70, &[9, 8, 7], 500);
    let (action, sample) = exec.handle_target_response(response(500, &[], true));
    assert!(matches!(action, TargetAction::Cancel(500)));
    assert_eq!(
        sample,
        Some(AcceptanceSample { client_req_id: 5, accepted: usize::MAX, drafted: 3 })
    );
    let results = received(&mut rx);
    assert!(results.response.is_req_final);
    assert_eq!(results.response.finish_reason, Some(EngineFinishReason::EosToken));
}

#[test]
fn pieces_of_a_round_are_passed_on() {
    let mut exec = with_draft();
    let mut rx = start(&mut exec, request(5, 8, 1), 70);
    drafted(&mut exec, 70, &[9, 8, 7], 500);
    let (action, sample) = exec.handle_target_response(response(500, &[9], false));
    assert!(matches!(action, TargetAction::Wait));
    assert!(sample.is_none());
    assert_eq!(received(&mut rx).response.tokens, vec![9]);
}

#[test]
fn a_request_nobody_listens_to_is_cancelled() {
    let mut exec = with_draft();
    let rx = start(&mut exec, request(5, 8, 1), 70);
    drafted(&mut exec, 70, &[9, 8, 7], 500);
    drop(rx);
    let (action, sample) = exec.handle_target_response(response(500, &[9], false));
    assert!(matches!(action, TargetAction::Cancel(500)));
    assert!(sample.is_none());
    // and forgotten
    assert!(!exec.knows(500));
}

/// Tells whether a response for a request would be handled as one of a known request.
trait Knows {
    fn knows(&mut self, req_id: u64) -> bool;
}

impl Knows for Executor {
    fn knows(&mut self, req_id: u64) -> bool {
        self.target_response(response(req_id, &[], false)).is_some()
    }
}

#[test]
fn what_was_sent_decides_what_follows() {
    for sent in [true, false] {
        let mut exec = with_draft();
        let _rx = start(&mut exec, request(5, 8, 1), 70);
        drafted(&mut exec, 70, &[9, 8, 7], 500);
        let (results, follow) = exec.target_response(response(500, &[9, 8], true)).unwrap();
        assert_eq!(results.response.tokens, vec![9, 8]);
        assert_eq!(follow.req_id, 500);
        assert_eq!(follow.client_req_id, 5);
        assert_eq!(follow.tokens, vec![9, 8]);
        assert!(follow.is_req_final);
        assert_eq!(follow.verdict, Verdict::Unfinished);
        assert_eq!(follow.init.req_init.tokens, vec![1, 2, 9, 8]);
        let (action, sample) = exec.target_sent(follow, sent);
        if sent {
            assert!(matches!(action, TargetAction::Redraft(_)));
            assert!(sample.is_some());
        } else {
            assert!(matches!(action, TargetAction::Cancel(500)));
            assert!(sample.is_none());
            assert!(!exec.knows(500));
        }
    }
}

#[test]
fn results_are_sent_before_what_follows_is_decided() {
    let mut exec = with_draft();
    let mut rx = start(&mut exec, request(5, 8, 1), 70);
    drafted(&mut exec, 70, &[9, 8, 7], 500);
    let resp = response(500, &[9, 8], true);
    assert!(exec.can_send_target_response(&resp));
    let (follow, sent) = exec.send_target_response(resp).unwrap();
    assert!(sent);
    assert_eq!(received(&mut rx).response.tokens, vec![9, 8]);
    assert!(follow.can_go_on(true, true));
    // another round needs a draft model, but a request nobody listens to is just cancelled
    assert!(!follow.can_go_on(true, false));
    assert!(follow.can_go_on(false, false));
    let (action, _) = exec.target_sent(follow, sent);
    assert!(matches!(action, TargetAction::Redraft(_)));

    rx.close();
    let (follow, sent) = exec.send_target_response(response(500, &[7], true)).unwrap();
    assert!(!sent);
    let (action, sample) = exec.target_sent(follow, sent);
    assert!(matches!(action, TargetAction::Cancel(500)));
    assert!(sample.is_none());
    assert!(exec.send_target_response(response(500, &[7], true)).is_none());

    let mut exec = without_draft();
    let pending = ready(exec.add_request(request(5, 10, 1), vec![]));
    let _ = exec.complete_request(pending, 900);
    assert!(!exec.can_send_target_response(&response(900, &[3], true)));
    assert!(exec.can_send_target_response(&response(901, &[3], true)));
}

#[test]
fn a_finished_sequence_takes_its_constraint_along() {
    let mut exec = with_draft();
    let pending = ready(exec.add_full_request(request(5, 8, 1), vec![constraint("ab")]));
    let (_, mut rx) = exec.complete_request(pending, 70);
    drafted(&mut exec, 70, &[9, 8, 7], 500);

    // there is no slot for a second sequence
    let mut other = response(500, &[9], true);
    other.sequence_idx = 1;
    assert!(!exec.can_handle_target_response(&other));
    other.finish_reason = None;
    assert!(exec.can_handle_target_response(&other));

    let (action, _) = exec.handle_target_response(response(500, &[9], false));
    assert!(matches!(action, TargetAction::Wait));
    assert!(received(&mut rx).final_llg.is_none());
    let _ = exec.handle_target_response(response(500, &[9], true));
    assert!(received(&mut rx).final_llg.is_some());
}

#[test]
fn cancelling_forgets_the_client() {
    let mut exec = with_draft();
    let mut rx = start(&mut exec, request(5, 8, 1), 70);
    let mut other_rx = start(&mut exec, request(6, 8, 1), 80);
    drafted(&mut exec, 70, &[9, 8, 7], 500);
    drafted(&mut exec, 80, &[9, 8, 7], 600);
    // not known: nothing happens
    assert_eq!(exec.cancel_request(123), CancelCall { model: Model::Target, req_id: 123 });
    assert!(rx.try_recv().is_err() && !rx.is_closed());
    let _ = exec.cancel_request(500);
    assert!(rx.is_closed());
    let _ = exec.cancel_request(500);
    // the other client goes on
    let (action, _) = exec.handle_target_response(response(600, &[4, 3], true));
    assert!(matches!(action, TargetAction::Redraft(_)));
    assert_eq!(received(&mut other_rx).response.tokens, vec![4, 3]);
}

#[test]
fn cancelling_a_draft_keeps_the_client() {
    let mut exec = with_draft();
    let rx = start(&mut exec, request(5, 8, 1), 70);
    let call = exec.cancel_draft_request(70);
    assert_eq!(call, CancelCall { model: Model::Draft, req_id: 70 });
    assert!(matches!(exec.draft_response(response(70, &[1], true)), DraftAction::Cancel(70)));
    assert!(!rx.is_closed());
}

#[test]
fn all_output_reaches_the_client_in_order() {
    let mut exec = with_draft();
    let mut rx = start(&mut exec, request(5, 100, 1), 0);
    let mut expected: Vec<u32> = vec![];
    for round in 0..5u64 {
        let tokens: Vec<u32> = (0..=round as u32).map(|t| 10 * round as u32 + t).collect();
        drafted(&mut exec, round, &[1, 2, 3], 1000 + round);
        let (action, _) = exec.handle_target_response(response(1000 + round, &tokens, true));
        expected.extend(&tokens);
        match action {
            TargetAction::Redraft(init) => {
                assert_eq!(init.req_init.tokens[2..], expected[..]);
                let _ = exec.draft_taken(1000 + round, round + 1, init);
            }
            _ => panic!("there is room for more"),
        }
    }
    let mut got: Vec<u32> = vec![];
    while let Ok(results) = rx.try_recv() {
        got.extend(&results.response.tokens);
    }
    assert_eq!(got, expected);
}
