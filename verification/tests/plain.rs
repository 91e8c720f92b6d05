use std::sync::Arc;

use async_exec::llg::{Commit, StopReason};
use async_exec::pending::{check_commit, copy_mask, CommitFault, StepError};
use async_exec::request::SpecDecReqInit;
use async_exec::text::{append_decimal, mk_panic_error};
use async_exec::types::{
    map_finish_reason, DraftParams, EngineFinishReason, FinishReason, RequestInit, RequestParams,
    ResponseChunk, StepResults, Tensor,
};

fn decimal(n: u64) -> String {
    let mut text = String::from("<");
    append_decimal(&mut text, n);
    text
}

#[test]
fn numbers_are_written_in_decimal() {
    assert_eq!(decimal(0), "<0");
    assert_eq!(decimal(7), "<7");
    assert_eq!(decimal(10), "<10");
    assert_eq!(decimal(90210), "<90210");
    assert_eq!(decimal(u64::MAX), "<18446744073709551615");
}

#[test]
fn panic_payloads_become_messages() {
    assert_eq!(mk_panic_error(Some("boom"), None), "panic: boom");
    assert_eq!(mk_panic_error(None, Some("owned boom")), "panic: owned boom");
    assert_eq!(mk_panic_error(Some("first"), Some("second")), "panic: first");
    assert_eq!(mk_panic_error(None, None), "panic: non-string panic!()");
}

#[test]
fn only_length_is_reported_as_length() {
    assert_eq!(map_finish_reason(EngineFinishReason::EosToken), FinishReason::Stop);
    assert_eq!(map_finish_reason(EngineFinishReason::StopWords), FinishReason::Stop);
    assert_eq!(map_finish_reason(EngineFinishReason::Length), FinishReason::Length);
    assert_eq!(map_finish_reason(EngineFinishReason::Unknown), FinishReason::Stop);
}

#[test]
fn logs_can_be_taken_once() {
    let mut results = StepResults {
        response: ResponseChunk {
            req_id: 4,
            sequence_idx: 0,
            finish_reason: None,
            error: None,
            is_req_final: false,
            logprobs: None,
            tokens: vec![9],
            generation_logits: None,
        },
        logs: "some logs".to_string(),
        final_llg: None,
    };
    assert_eq!(results.take_logs(), Some("some logs".to_string()));
    assert_eq!(results.logs, "");
    assert_eq!(results.take_logs(), None);
    assert_eq!(results.response.tokens, vec![9]);
}

#[test]
fn stop_reasons_have_names() {
    assert!(StopReason::NotStopped.is_ok());
    assert!(StopReason::EndOfSentence.is_ok());
    assert!(StopReason::NoExtension.is_ok());
    assert!(StopReason::NoExtensionBias.is_ok());
    assert!(!StopReason::MaxTokensTotal.is_ok());
    assert!(!StopReason::MaxTokensParser.is_ok());
    assert!(!StopReason::InternalError.is_ok());
    assert!(!StopReason::LexerTooComplex.is_ok());
    assert!(!StopReason::ParserTooComplex.is_ok());
    assert_eq!(StopReason::NoExtensionBias.text(), "NoExtensionBias");
    assert_eq!(StopReason::MaxTokensTotal.text(), "MaxTokensTotal");
}

/// The names, and which reasons are fine, are those of the grammar library.
#[test]
fn stop_reasons_agree_with_the_grammar_library() {
    let pairs = [
        (StopReason::NotStopped, llguidance::api::StopReason::NotStopped),
        (StopReason::MaxTokensTotal, llguidance::api::StopReason::MaxTokensTotal),
        (StopReason::MaxTokensParser, llguidance::api::StopReason::MaxTokensParser),
        (StopReason::NoExtension, llguidance::api::StopReason::NoExtension),
        (StopReason::NoExtensionBias, llguidance::api::StopReason::NoExtensionBias),
        (StopReason::EndOfSentence, llguidance::api::StopReason::EndOfSentence),
        (StopReason::InternalError, llguidance::api::StopReason::InternalError),
        (StopReason::LexerTooComplex, llguidance::api::StopReason::LexerTooComplex),
        (StopReason::ParserTooComplex, llguidance::api::StopReason::ParserTooComplex),
    ];
    for (ours, theirs) in pairs {
        assert_eq!(ours.text(), theirs.to_string());
        assert_eq!(ours.is_ok(), theirs.is_ok());
    }
}

#[test]
fn masks_are_cut_to_the_words_wanted() {
    assert_eq!(copy_mask(&vec![1, 2, 3], 2), vec![1, 2]);
    assert_eq!(copy_mask(&vec![1, 2, 3], 3), vec![1, 2, 3]);
    assert_eq!(copy_mask(&vec![1, 2, 3], 0), Vec::<u32>::new());
}

#[test]
fn commits_are_checked() {
    let commit = |stop: bool, backtrack: u32, ff_tokens: Vec<u32>| Commit {
        stop,
        backtrack,
        ff_tokens,
    };
    assert_eq!(check_commit(&commit(false, 0, vec![5]), 5), Ok(false));
    assert_eq!(check_commit(&commit(true, 0, vec![]), 5), Ok(true));
    assert_eq!(check_commit(&commit(true, 1, vec![]), 5), Err(CommitFault::Backtracked));
    assert_eq!(check_commit(&commit(false, 2, vec![5]), 5), Err(CommitFault::Backtracked));
    assert_eq!(check_commit(&commit(false, 0, vec![]), 5), Err(CommitFault::TokenCount));
    assert_eq!(check_commit(&commit(false, 0, vec![5, 6]), 5), Err(CommitFault::TokenCount));
    assert_eq!(check_commit(&commit(false, 0, vec![6]), 5), Err(CommitFault::OtherToken));
}

#[test]
fn step_errors_have_texts() {
    assert_eq!(
        StepError::Commit(CommitFault::Backtracked).text(),
        "panic: assertion failed: r.backtrack == 0"
    );
    assert_eq!(
        StepError::Commit(CommitFault::TokenCount).text(),
        "panic: assertion failed: r.ff_tokens.len() == 1"
    );
    assert_eq!(
        StepError::Commit(CommitFault::OtherToken).text(),
        "panic: assertion failed: r.ff_tokens[0] == tok"
    );
    assert_eq!(
        StepError::ShortMask { words: 10, mask_len: 9 }.text(),
        "panic: range end index 10 out of range for slice of length 9"
    );
    let text = StepError::Constraint(anyhow::Error::msg("no such token")).text();
    assert!(text.starts_with("no such token"));
}

fn request(max_new_tokens: u32) -> RequestInit<&'static str> {
    RequestInit {
        tokens: vec![1, 2, 3],
        params: RequestParams {
            max_new_tokens,
            min_tokens: 0,
            num_return_sequences: 1,
            streaming: true,
            min_p: 0x3dcccccd,
        },
        client_req_id: 77,
        is_run: true,
        draft_params: None,
        settings: Arc::new("settings"),
    }
}

#[test]
fn rounds_set_their_parameters() {
    let first = SpecDecReqInit::new(request(50));
    assert_eq!(first.max_num_tokens, 50);
    assert_eq!(first.start_prompt_len, 3);

    let mut draft = first.into_draft(5);
    assert_eq!(draft.req_init.params.max_new_tokens, 5);
    assert_eq!(draft.req_init.params.min_tokens, 5);
    assert!(!draft.req_init.params.streaming);
    assert!(draft.req_init.draft_params.is_none());
    assert_eq!(draft.max_num_tokens, 50);

    draft.set_draft(vec![4, 5, 6]);
    let target = draft.into_target(5);
    assert_eq!(target.req_init.params.max_new_tokens, 6);
    assert_eq!(target.req_init.params.min_tokens, 1);
    let params = target.req_init.draft_params.as_ref().unwrap();
    assert_eq!(params.draft_tokens, vec![4, 5, 6]);
    assert!(params.logits_tensor.is_none());
    assert!(params.acc_rate.is_none());

    let again = target.into_draft(2);
    assert!(again.req_init.draft_params.is_none());
    assert_eq!(again.req_init.params.min_p, 0x3dcccccd);
    assert_eq!(again.req_init.tokens, vec![1, 2, 3]);
    assert!(again.req_init.is_run);
}

#[test]
fn copies_share_the_settings() {
    let mut init = request(8);
    init.draft_params = Some(DraftParams {
        draft_tokens: vec![11, 12],
        logits_tensor: Some(Tensor { dims: vec![2, 1], data: vec![1, 2, 3] }),
        acc_rate: Some(0x3f000000),
    });
    let copy = init.clone();
    assert!(Arc::ptr_eq(&init.settings, &copy.settings));
    assert_eq!(copy.tokens, vec![1, 2, 3]);
    assert_eq!(copy.client_req_id, 77);
    let params = copy.draft_params.unwrap();
    assert_eq!(params.draft_tokens, vec![11, 12]);
    assert_eq!(params.acc_rate, Some(0x3f000000));
    let tensor = params.logits_tensor.unwrap();
    assert_eq!(tensor.dims, vec![2, 1]);
    assert_eq!(tensor.data, vec![1, 2, 3]);
}
