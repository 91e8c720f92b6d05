use async_exec::llg::MaskStep;
use async_exec::pending::{CommitFault, LogitsEntry, PendingSeq, StepError};
use llguidance::api::TopLevelGrammar;
use llguidance::{Constraint, ParserFactory};
use toktrie::{ApproximateTokEnv, InferenceCapabilities};

/// 256 bytes and six special tokens; the last of these ends a sequence.
const VOCAB_WORDS: usize = 9;
const EOS_MASK: [u32; 9] = [0, 0, 0, 0, 0, 0, 0, 0, 1 << 5];
const A: u32 = b'a' as u32;
const B: u32 = b'b' as u32;
/// The mask that has only the letter `a`.
const A_MASK: [u32; 9] = [0, 0, 0, 1 << 1, 0, 0, 0, 0, 0];
const B_MASK: [u32; 9] = [0, 0, 0, 1 << 2, 0, 0, 0, 0, 0];

fn constraint_with(regex: &str, caps: InferenceCapabilities) -> Box<Constraint> {
    let env = ApproximateTokEnv::single_byte_env();
    let mut factory = ParserFactory::new(&env, caps, &[]).unwrap();
    factory.quiet();
    let parser = factory.create_parser(TopLevelGrammar::from_regex(regex)).unwrap();
    Box::new(Constraint::new(parser))
}

fn constraint(regex: &str) -> Box<Constraint> {
    constraint_with(regex, InferenceCapabilities::default())
}

fn pending(llg: Box<Constraint>, prompt_len: usize, tokens: &[u32]) -> PendingSeq {
    PendingSeq {
        entry_idx: 0,
        llg,
        llg_idx: 0,
        prompt_len,
        is_run: false,
        entry: LogitsEntry {
            req_id: 1,
            client_req_id: 2,
            tokens: tokens.to_vec(),
            out_mask: None,
        },
        min_p: 0,
        stop: false,
        error: None,
    }
}

#[test]
fn prompt_gets_the_first_mask() {
    let mut ps = pending(constraint("ab"), 2, &[7, 8]);
    assert!(ps.step(VOCAB_WORDS).is_ok());
    assert!(!ps.stop);
    assert_eq!(ps.entry.out_mask, Some(A_MASK.to_vec()));
    assert!(ps.can_settle(false, VOCAB_WORDS));
    ps.settle(Ok(()), VOCAB_WORDS);
    assert!(!ps.stop);
    assert!(ps.error.is_none());
    assert_eq!(ps.entry.out_mask, Some(A_MASK.to_vec()));
}

#[test]
fn prompt_pieces_share_the_mask() {
    let mut first = pending(constraint("ab"), 4, &[7, 8]);
    assert!(first.step(VOCAB_WORDS).is_ok());
    let mut second = pending(first.llg, 4, &[7, 8, 9, 10]);
    assert!(second.step(VOCAB_WORDS).is_ok());
    assert_eq!(second.entry.out_mask, first.entry.out_mask);
    // the mask is still that of the start: the prompt was not committed
    let mut third = pending(second.llg, 4, &[7, 8, 9, 10, A]);
    assert!(third.step(VOCAB_WORDS).is_ok());
    assert_eq!(third.entry.out_mask, Some(B_MASK.to_vec()));
}

#[test]
fn masks_are_cut_for_the_engine() {
    let mut ps = pending(constraint("ab"), 1, &[7]);
    assert!(ps.step(4).is_ok());
    assert_eq!(ps.entry.out_mask, Some(A_MASK[..4].to_vec()));
}

#[test]
fn a_finished_grammar_leaves_only_the_end() {
    let mut ps = pending(constraint("a"), 1, &[7]);
    assert!(ps.step(VOCAB_WORDS).is_ok());
    let mut ps = pending(ps.llg, 1, &[7, A]);
    assert!(ps.step(VOCAB_WORDS).is_ok());
    assert!(ps.stop);
    assert_eq!(ps.entry.out_mask, None);
    assert!(ps.can_settle(false, VOCAB_WORDS));
    ps.settle(Ok(()), VOCAB_WORDS);
    assert!(ps.stop);
    assert!(ps.error.is_none());
    assert_eq!(ps.entry.out_mask, Some(EOS_MASK.to_vec()));

    // once it has said to stop, it says so again
    let mut ps = pending(ps.llg, 1, &[7, A, 261]);
    assert!(ps.step(VOCAB_WORDS).is_ok());
    assert!(ps.stop);
    assert_eq!(ps.entry.out_mask, None);
}

#[test]
fn a_stopped_constraint_has_no_mask_for_a_prompt() {
    let mut ps = pending(constraint("a"), 1, &[7]);
    assert!(ps.step(VOCAB_WORDS).is_ok());
    let mut ps = pending(ps.llg, 1, &[7, A]);
    assert!(ps.step(VOCAB_WORDS).is_ok());
    let mut ps = pending(ps.llg, 3, &[7, A, B]);
    assert!(matches!(ps.step(VOCAB_WORDS), Err(StepError::Constraint(_))));
    assert!(!ps.stop);
}

#[test]
fn a_token_against_the_grammar_is_an_error() {
    let mut ps = pending(constraint("ab"), 1, &[7]);
    assert!(ps.step(VOCAB_WORDS).is_ok());
    let mut ps = pending(ps.llg, 1, &[7, B]);
    let err = match ps.step(VOCAB_WORDS) {
        Ok(()) => panic!("the token must not be taken"),
        Err(err) => err,
    };
    assert!(matches!(err, StepError::Constraint(_)));
    assert!(!ps.stop);
    assert_eq!(ps.entry.out_mask, None);
    let text = err.text();
    assert!(!text.is_empty());
    assert!(ps.can_settle(true, VOCAB_WORDS));
    ps.settle(Err(text.clone()), VOCAB_WORDS);
    assert!(ps.stop);
    assert_eq!(ps.error, Some(text));
    assert_eq!(ps.entry.out_mask, None);
}

#[test]
fn a_commit_without_a_mask_is_a_fault() {
    let mut ps = pending(constraint("ab"), 1, &[7, A]);
    assert!(matches!(ps.step(VOCAB_WORDS), Err(StepError::Constraint(_))));

    let caps = InferenceCapabilities { ff_tokens: true, ..InferenceCapabilities::default() };
    let mut ps = pending(constraint_with("ab", caps), 1, &[7, A]);
    match ps.step(VOCAB_WORDS) {
        Err(StepError::Commit(fault)) => assert_eq!(fault, CommitFault::TokenCount),
        _ => panic!("nothing was sampled under a mask"),
    }
}

#[test]
fn forced_tokens_are_a_fault() {
    let caps = InferenceCapabilities { ff_tokens: true, ..InferenceCapabilities::default() };
    let mut ps = pending(constraint_with("[ax]bc", caps), 1, &[7]);
    assert!(ps.step(VOCAB_WORDS).is_ok());
    let mut ps = pending(ps.llg, 1, &[7, A]);
    match ps.step(VOCAB_WORDS) {
        Err(StepError::Commit(fault)) => assert_eq!(fault, CommitFault::TokenCount),
        _ => panic!("more than the sampled token is reported"),
    }
    assert!(!ps.stop);
    assert_eq!(ps.entry.out_mask, None);
}

#[test]
fn computed_masks_are_taken_over() {
    let mut ps = pending(constraint("ab"), 1, &[7]);
    let step = MaskStep { sample_mask: Some(vec![4, 5, 6]), stop: false };
    assert!(ps.apply_mask(step, 2).is_ok());
    assert_eq!(ps.entry.out_mask, Some(vec![4, 5]));
    assert!(!ps.stop);

    let mut ps = pending(constraint("ab"), 1, &[7]);
    let step = MaskStep { sample_mask: Some(vec![4]), stop: false };
    assert!(matches!(
        ps.apply_mask(step, 2),
        Err(StepError::ShortMask { words: 2, mask_len: 1 })
    ));
    assert!(ps.apply_mask(MaskStep { sample_mask: None, stop: true }, 2).is_ok());
    assert!(ps.stop);
    assert_eq!(ps.entry.out_mask, None);
}

#[test]
fn steps_keep_the_logs() {
    let mut ps = pending(constraint("ab"), 1, &[7]);
    ps.llg.parser.logger.write_buffer("kept");
    assert!(ps.step(VOCAB_WORDS).is_ok());
    let mut ps = pending(ps.llg, 1, &[7, A]);
    assert!(ps.step(VOCAB_WORDS).is_ok());
    assert!(ps.llg.flush_logs().starts_with("kept"));
    // one token past the prompt is one token for the parser
    assert_eq!(ps.llg.parser.num_tokens(), 1);
}

#[test]
fn a_mask_can_be_too_short() {
    let mut ps = pending(constraint("ab"), 1, &[7]);
    match ps.step(VOCAB_WORDS + 1) {
        Err(StepError::ShortMask { words, mask_len }) => {
            assert_eq!(words, 10);
            assert_eq!(mask_len, 9);
        }
        _ => panic!("there are not so many words"),
    }
    assert_eq!(ps.entry.out_mask, None);
}

/// A sequence that is said to have stopped, with a parser that stopped over an error.
fn broken(is_run: bool) -> PendingSeq {
    let mut ps = pending(constraint("ab"), 1, &[7]);
    assert!(ps.step(VOCAB_WORDS).is_ok());
    let mut ps = pending(ps.llg, 1, &[7, B]);
    assert!(ps.step(VOCAB_WORDS).is_err());
    assert!(!ps.llg.parser.stop_reason().is_ok());
    ps.stop = true;
    ps.is_run = is_run;
    ps
}

#[test]
fn a_bad_stop_reason_is_reported() {
    let mut ps = broken(false);
    let name = ps.llg.parser.stop_reason().to_string();
    assert!(ps.can_settle(false, VOCAB_WORDS));
    ps.settle(Ok(()), VOCAB_WORDS);
    assert_eq!(ps.error, Some(format!("llg stop reason: {name}")));
    assert_eq!(ps.entry.out_mask, None);
}

#[test]
fn a_run_handles_stop_reasons_itself() {
    let mut ps = broken(true);
    assert!(ps.can_settle(false, VOCAB_WORDS));
    ps.settle(Ok(()), VOCAB_WORDS);
    assert_eq!(ps.error, None);
    assert_eq!(ps.entry.out_mask, Some(EOS_MASK.to_vec()));
}

#[test]
fn settling_needs_a_mask_or_a_stop() {
    let mut ps = pending(constraint("ab"), 1, &[7]);
    assert!(!ps.can_settle(false, VOCAB_WORDS));
    assert!(ps.can_settle(true, VOCAB_WORDS));
    ps.stop = true;
    assert!(ps.can_settle(false, VOCAB_WORDS));
    assert!(!ps.can_settle(false, VOCAB_WORDS + 1));
    ps.entry.out_mask = Some(vec![1]);
    assert!(!ps.can_settle(false, VOCAB_WORDS));
}
