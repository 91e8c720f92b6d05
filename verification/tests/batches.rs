use std::sync::Arc;

use async_exec::executor::{AsyncExecutor, CancelCall, Model};
use async_exec::pending::{LogitsEntry, PendingSeq};
use async_exec::request::ReqData;
use async_exec::types::{EngineFinishReason, RequestInit, RequestParams, StepResults};
use llguidance::api::TopLevelGrammar;
use llguidance::{Constraint, ParserFactory};
use tokio::sync::mpsc::UnboundedReceiver;
use toktrie::ApproximateTokEnv;

type Executor = AsyncExecutor<()>;

const WORDS: usize = 9;

/// A constraint that starts with the given letter.
fn constraint(letter: char) -> Box<Constraint> {
    let env = ApproximateTokEnv::single_byte_env();
    let mut factory = ParserFactory::new_simple(&env).unwrap();
    factory.quiet();
    let grammar = TopLevelGrammar::from_regex(&format!("{letter}z"));
    Box::new(Constraint::new(factory.create_parser(grammar).unwrap()))
}

/// The mask that has only one letter.
fn only(letter: char) -> Vec<u32> {
    let mut mask = vec![0; WORDS];
    mask[letter as usize / 32] = 1 << (letter as u32 % 32);
    mask
}

fn request(client_req_id: u64, sequences: u32, is_run: bool) -> RequestInit<()> {
    RequestInit {
        tokens: vec![1, 2],
        params: RequestParams {
            max_new_tokens: 20,
            min_tokens: 0,
            num_return_sequences: sequences,
            streaming: true,
            min_p: 0x3d000000,
        },
        client_req_id,
        is_run,
        draft_params: None,
        settings: Arc::new(()),
    }
}

/// Adds a request with one constraint for each letter, under the engine's id `req_id`.
fn start(
    exec: &mut Executor,
    client_req_id: u64,
    req_id: u64,
    letters: &str,
) -> UnboundedReceiver<StepResults> {
    let llgs: Vec<Box<Constraint>> = letters.chars().map(constraint).collect();
    let init = request(client_req_id, letters.len() as u32, true);
    match exec.add_request(init, llgs) {
        Ok(pending) => exec.complete_request(pending, req_id).1,
        Err(err) => panic!("{err:?}"),
    }
}

fn entry(req_id: u64, client_req_id: u64) -> LogitsEntry {
    LogitsEntry { req_id, client_req_id, tokens: vec![1, 2], out_mask: None }
}

fn out(exec: &mut Executor, entries: &Vec<LogitsEntry>) -> Vec<PendingSeq> {
    match exec.check_out(entries) {
        Ok(seqs) => seqs,
        Err(idx) => panic!("entry {idx}"),
    }
}

fn worked(seqs: Vec<PendingSeq>) -> Vec<PendingSeq> {
    let mut res = vec![];
    for mut ps in seqs {
        let outcome = ps.step(WORDS).map_err(|err| err.text());
        assert!(ps.can_settle(outcome.is_err(), WORDS));
        ps.settle(outcome, WORDS);
        res.push(ps);
    }
    res
}

fn executor() -> Executor {
    AsyncExecutor::new(4, None, 262, 0, None)
}

#[test]
fn slots_are_given_in_the_order_of_request_ids() {
    let mut exec = executor();
    let _rx = start(&mut exec, 5, 100, "abc");
    // the engine asks in another order than it made the ids, and also for a client it made up
    let mut entries = vec![entry(102, 5), entry(100, 5), entry(3, 99), entry(101, 5)];
    let seqs = out(&mut exec, &entries);
    let found: Vec<(u64, usize, usize)> =
        seqs.iter().map(|ps| (ps.entry.req_id, ps.llg_idx, ps.entry_idx)).collect();
    assert_eq!(found, vec![(100, 0, 1), (101, 1, 3), (102, 2, 0)]);
    assert!(seqs.iter().all(|ps| ps.is_run && ps.prompt_len == 2 && ps.min_p == 0x3d000000));

    let cancels = exec.check_in(&mut entries, worked(seqs));
    assert_eq!(cancels, Ok(vec![]));
    assert_eq!(entries[0].out_mask, Some(only('c')));
    assert_eq!(entries[1].out_mask, Some(only('a')));
    assert_eq!(entries[2].out_mask, None);
    assert_eq!(entries[3].out_mask, Some(only('b')));
}

#[test]
fn sequences_keep_their_slots() {
    let mut exec = executor();
    let _rx = start(&mut exec, 5, 100, "abc");
    let mut entries = vec![entry(101, 5)];
    let seqs = worked(out(&mut exec, &entries));
    assert_eq!(exec.check_in(&mut entries, seqs), Ok(vec![]));
    assert_eq!(entries[0].out_mask, Some(only('a')));

    // a smaller id that comes later gets a later slot; known sequences come first
    let mut entries = vec![entry(50, 5), entry(101, 5)];
    let seqs = out(&mut exec, &entries);
    let found: Vec<(u64, usize)> = seqs.iter().map(|ps| (ps.entry.req_id, ps.llg_idx)).collect();
    assert_eq!(found, vec![(101, 0), (50, 1)]);
    assert_eq!(exec.check_in(&mut entries, worked(seqs)), Ok(vec![]));
    assert_eq!(entries[0].out_mask, Some(only('b')));
    assert_eq!(entries[1].out_mask, Some(only('a')));
}

#[test]
fn a_batch_can_hold_several_clients() {
    let mut exec = executor();
    let _rx = start(&mut exec, 5, 100, "ab");
    let _other = start(&mut exec, 6, 200, "xy");
    let mut entries = vec![entry(201, 6), entry(101, 5), entry(200, 6), entry(100, 5)];
    let seqs = worked(out(&mut exec, &entries));
    assert_eq!(exec.check_in(&mut entries, seqs), Ok(vec![]));
    let masks: Vec<Option<Vec<u32>>> = entries.into_iter().map(|e| e.out_mask).collect();
    assert_eq!(masks, vec![Some(only('y')), Some(only('b')), Some(only('x')), Some(only('a'))]);
}

#[test]
fn there_may_be_no_slot_left() {
    let mut exec = executor();
    let _rx = start(&mut exec, 5, 100, "a");
    let entries = vec![entry(101, 5), entry(100, 5)];
    assert!(matches!(exec.check_out(&entries), Err(0)));
}

#[test]
fn a_constraint_can_be_out_only_once() {
    let mut exec = executor();
    let _rx = start(&mut exec, 5, 100, "a");
    let entries = vec![entry(100, 5)];
    let seqs = out(&mut exec, &entries);
    assert!(matches!(exec.check_out(&entries), Err(0)));
    let mut entries = entries;
    assert_eq!(exec.check_in(&mut entries, seqs), Ok(vec![]));
    assert_eq!(out(&mut exec, &entries).len(), 1);
}

#[test]
fn logs_are_gathered_for_the_client() {
    let mut exec = AsyncExecutor::<()>::new(4, Some(4), 262, 3, None);
    let pending = match exec.add_full_request(request(5, 1, false), vec![constraint('a')]) {
        Ok(pending) => pending,
        Err(err) => panic!("{err:?}"),
    };
    let (_, mut rx) = exec.complete_request(pending, 70);
    for text in ["one;", "two;"] {
        let mut entries = vec![entry(500, 5)];
        let mut seqs = out(&mut exec, &entries);
        seqs[0].llg.parser.logger.write_buffer(text);
        assert_eq!(exec.check_in(&mut entries, worked(seqs)), Ok(vec![]));
    }
    // an error sends all of them
    let mut entries = vec![entry(500, 5)];
    let mut seqs = out(&mut exec, &entries);
    seqs[0].llg.parser.logger.write_buffer("three;");
    seqs[0].settle(Err("it broke".to_string()), WORDS);
    let cancels = exec.check_in(&mut entries, seqs);
    assert_eq!(cancels, Ok(vec![CancelCall { model: Model::Target, req_id: 500 }]));
    let results = rx.try_recv().unwrap();
    assert_eq!(results.logs, "one;two;three;\nWarning: it broke\n");
    assert_eq!(results.response.error, Some("it broke".to_string()));
    assert_eq!(results.response.req_id, 500);
    assert!(results.response.is_req_final);
    assert!(rx.try_recv().is_err());
}

#[test]
fn a_failed_sequence_ends_its_request() {
    let mut exec = executor();
    let mut rx = start(&mut exec, 5, 100, "ab");
    let mut entries = vec![entry(100, 5), entry(101, 5)];
    let mut seqs = out(&mut exec, &entries);
    seqs[1].settle(Err("boom".to_string()), WORDS);
    seqs[0].settle(Err("bang".to_string()), WORDS);
    let cancels = exec.check_in(&mut entries, seqs);
    // the second sequence finds its request gone
    assert_eq!(cancels, Ok(vec![CancelCall { model: Model::Target, req_id: 100 }]));
    assert_eq!(entries[0].out_mask, None);

    let results = rx.try_recv().unwrap();
    assert_eq!(results.response.req_id, 100);
    assert_eq!(results.response.sequence_idx, 0);
    assert_eq!(results.response.finish_reason, Some(EngineFinishReason::Unknown));
    assert_eq!(results.response.error, Some("bang".to_string()));
    assert!(results.response.is_req_final);
    assert_eq!(results.response.tokens, Vec::<u32>::new());
    assert_eq!(results.logs, "\nWarning: bang\n");
    assert!(results.final_llg.is_none());
    assert!(rx.try_recv().is_err());
    assert!(rx.is_closed());
    assert!(out(&mut exec, &vec![entry(100, 5)]).is_empty());
}

#[test]
fn a_failure_stays_with_its_client() {
    let mut exec = executor();
    let mut rx = start(&mut exec, 5, 100, "ab");
    let mut other = start(&mut exec, 6, 200, "xy");
    let mut entries = vec![entry(100, 5), entry(200, 6), entry(101, 5), entry(201, 6)];
    let mut seqs = worked(out(&mut exec, &entries));
    for ps in &mut seqs {
        if ps.entry.req_id == 100 {
            ps.entry.out_mask = None;
            ps.settle(Err("bang".to_string()), WORDS);
        } else {
            let text = format!("{};", ps.entry.req_id);
            ps.llg.parser.logger.write_buffer(&text);
        }
    }
    let cancels = exec.check_in(&mut entries, seqs);
    assert_eq!(cancels, Ok(vec![CancelCall { model: Model::Target, req_id: 100 }]));
    assert_eq!(rx.try_recv().unwrap().response.error, Some("bang".to_string()));
    assert!(other.try_recv().is_err() && !other.is_closed());
    assert_eq!(entries[1].out_mask, Some(only('x')));
    assert_eq!(entries[3].out_mask, Some(only('y')));

    // the other client's constraints are in their slots, and its logs are its own
    let mut entries = vec![entry(201, 6), entry(200, 6)];
    let mut seqs = out(&mut exec, &entries);
    let found: Vec<(u64, usize)> = seqs.iter().map(|ps| (ps.entry.req_id, ps.llg_idx)).collect();
    assert_eq!(found, vec![(201, 1), (200, 0)]);
    seqs[0].settle(Err("late".to_string()), WORDS);
    assert!(exec.check_in(&mut entries, seqs).is_ok());
    assert_eq!(other.try_recv().unwrap().logs, "200;201;\nWarning: late\n");
}

#[test]
fn a_sequence_without_a_place_is_refused() {
    let mut exec = executor();
    let _rx = start(&mut exec, 5, 100, "ab");
    let mut entries = vec![entry(100, 5), entry(101, 5)];
    let mut seqs = out(&mut exec, &entries);
    seqs[1].llg_idx = 2;
    assert_eq!(exec.check_in(&mut entries, seqs), Err(1));

    let mut exec = executor();
    let _rx = start(&mut exec, 5, 100, "ab");
    let mut entries = vec![entry(100, 5), entry(101, 5)];
    let mut seqs = out(&mut exec, &entries);
    seqs[0].entry_idx = 2;
    assert_eq!(exec.check_in(&mut entries, seqs), Err(0));
}

#[test]
fn a_sequence_can_be_taken_back_alone() {
    let mut exec = executor();
    let _rx = start(&mut exec, 5, 100, "a");
    let entries = vec![entry(100, 5)];
    let mut seqs = out(&mut exec, &entries);
    let ps = seqs.pop().unwrap();
    assert!(exec.can_take_back(5, &ps));
    assert!(exec.take_back(&entries[0], ps).is_none());
    // the request may be gone by then
    let ps = out(&mut exec, &entries).pop().unwrap();
    let _ = exec.cancel_request(100);
    assert!(exec.can_take_back(5, &ps));
    assert!(exec.take_back(&entries[0], ps).is_none());
}

#[test]
fn requests_can_be_described() {
    let (tx, _rx) = tokio::sync::mpsc::unbounded_channel();
    let mut rd = ReqData {
        req_id: 12,
        client_req_id: 340,
        tx,
        logs: String::new(),
        llgs: vec![Some(constraint('a'))],
        llg_infos: vec![],
        min_p: 7,
        prompt_len: 2,
        is_run: false,
    };
    assert_eq!(rd.describe(), "ReqData(12 340)");
    let ps = PendingSeq::new(&mut rd, &entry(12, 340), 4, 0);
    assert!(rd.llgs[0].is_none());
    assert_eq!(ps.entry_idx, 4);
    assert_eq!(ps.llg_idx, 0);
    assert_eq!(ps.prompt_len, 2);
    assert_eq!(ps.min_p, 7);
    assert_eq!(ps.entry.client_req_id, 340);
    assert!(!ps.stop && ps.error.is_none());
}
