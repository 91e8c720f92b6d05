//! Laws of the sampling masks of single sequences.
use vstd::prelude::*;

use crate::llg::{
    calls_of, committed, eos_token_of, last_step, mask_after, mask_of, pending_logs,
    singleton_words, stop_reason_of, vocab_size_of, CommitView, LlgCall, StopReason,
};
use crate::pending::{
    can_settle, checked_out, commit_check, eos_fits, settled, step_outcome, CommitFault,
    LogitsEntryView, PendingSeqView, StepError,
};
use crate::request::ReqDataView;
use crate::types::TokenId;

verus! {

/// A sequence as it is checked out: nothing has been said of it yet.
pub open spec fn is_fresh(ps: PendingSeqView) -> bool {
    !ps.stop && ps.error is None && ps.entry.out_mask is None
}

/// The prompt may come in several pieces; they share the mask that was computed for the first. A
/// constraint that still holds that mask is not touched, and the answer is the same.
pub proof fn law_prompt_pieces_share_mask(
    first: PendingSeqView,
    first_done: PendingSeqView,
    next: PendingSeqView,
    next_done: PendingSeqView,
    first_res: Result<(), StepError>,
    next_res: Result<(), StepError>,
    words: usize,
)
    requires
        is_fresh(first),
        first.entry.tokens.len() <= first.prompt_len,
        step_outcome(first, first_done, first_res, words),
        first_res is Ok,
        !first_done.stop,
        is_fresh(next),
        next.entry.tokens.len() <= next.prompt_len,
        last_step(*next.llg) == last_step(*first_done.llg),
        step_outcome(next, next_done, next_res, words),
    ensures
        next_res is Ok,
        next_done.llg == next.llg,
        !next_done.stop,
        next_done.entry.out_mask == first_done.entry.out_mask,
{
}

/// No token of the prompt is committed. Past the prompt, the last token is committed, once, and
/// nothing else is; a mask is computed at most once, and only after that. The token is taken in if
/// it was sampled under a mask, unless the constraint fails. No logs are lost.
pub proof fn law_tokens_committed_once(
    pre: PendingSeqView,
    post: PendingSeqView,
    res: Result<(), StepError>,
    words: usize,
)
    requires
        step_outcome(pre, post, res, words),
    ensures
        pre.entry.tokens.len() <= pre.prompt_len ==> {
            &&& committed(*post.llg) == committed(*pre.llg)
            &&& calls_of(*post.llg) == calls_of(*pre.llg) || calls_of(*post.llg) == calls_of(
                *pre.llg,
            ).push(LlgCall::Mask)
        },
        pre.entry.tokens.len() > pre.prompt_len ==> {
            let token = pre.entry.tokens[pre.entry.tokens.len() - 1];
            let with_commit = calls_of(*pre.llg).push(LlgCall::Commit(token));
            &&& calls_of(*post.llg) == with_commit || calls_of(*post.llg) == with_commit.push(
                LlgCall::Mask,
            )
            &&& !(res matches Err(StepError::Constraint(_))) && last_step(*pre.llg).0 is Some
                ==> committed(*post.llg) == committed(*pre.llg).push(token)
        },
        pending_logs(*pre.llg).is_prefix_of(pending_logs(*post.llg)),
{
    let token = pre.entry.tokens.last();
    let calls = calls_of(*pre.llg);
    assert(calls + seq![LlgCall::Mask] =~= calls.push(LlgCall::Mask));
    assert(calls + seq![LlgCall::Commit(token)] =~= calls.push(LlgCall::Commit(token)));
    assert(calls + seq![LlgCall::Commit(token), LlgCall::Mask] =~= calls.push(
        LlgCall::Commit(token),
    ).push(LlgCall::Mask));
}

/// After its step, every sequence can be settled, provided that the mask of the end-of-sequence
/// token has enough words. It then has either an answer, of the right length, or an error; an
/// error stops it; and if it has stopped without an error, only the end-of-sequence token may be
/// sampled.
pub proof fn law_settled(
    pre: PendingSeqView,
    post: PendingSeqView,
    res: Result<(), StepError>,
    message: Seq<char>,
    words: usize,
)
    requires
        is_fresh(pre),
        step_outcome(pre, post, res, words),
        eos_fits(*pre.llg, words),
    ensures
        can_settle(post, res is Err, words),
        ({
            let outcome = if res is Ok {
                Ok(())
            } else {
                Err(message)
            };
            let end = settled(post, outcome, words);
            &&& (end.error is Some) != (end.entry.out_mask is Some)
            &&& end.error is Some ==> end.stop
            &&& end.entry.out_mask matches Some(mask) ==> mask.len() == words
            &&& res is Err ==> end.error == Some(message)
            &&& end.stop && end.error is None ==> end.entry.out_mask == Some(
                singleton_words(
                    vocab_size_of(*post.llg) as nat,
                    eos_token_of(*post.llg),
                ).take(words as int),
            )
        }),
{
}

/// Past the prompt, a sequence whose constraint has already said to stop stops, without an error.
pub proof fn law_stopped_stays_stopped(
    pre: PendingSeqView,
    post: PendingSeqView,
    res: Result<(), StepError>,
    words: usize,
)
    requires
        step_outcome(pre, post, res, words),
        pre.entry.tokens.len() > pre.prompt_len,
        last_step(*pre.llg).1,
    ensures
        res is Ok,
        post.stop,
        post.entry.out_mask == pre.entry.out_mask,
{
}

/// A sequence that handles its stop reasons itself never gets an error for one.
pub proof fn law_run_handles_stop_reasons(ps: PendingSeqView, words: usize)
    requires
        ps.is_run,
        ps.error is None,
    ensures
        settled(ps, Ok(()), words).error is None,
{
}

/// A set of tokens, as words, has a token.
pub open spec fn allows(mask: Seq<u32>, token: TokenId) -> bool {
    token / 32 < mask.len() && (mask[token as int / 32] >> (token % 32)) & 1 == 1
}

/// The set of one token has that token, and no other.
pub proof fn law_singleton_words(vocab_size: nat, token: TokenId, words: int, other: TokenId)
    requires
        0 <= words <= singleton_words(vocab_size, token).len(),
        token / 32 < words,
    ensures
        allows(singleton_words(vocab_size, token).take(words), other) <==> other == token,
{
    let mask = singleton_words(vocab_size, token).take(words);
    let a = token % 32;
    let b = other % 32;
    if other / 32 < words {
        let word = mask[other as int / 32];
        if other / 32 == token / 32 {
            assert(word == 1u32 << a);
            assert(((1u32 << a) >> b) & 1 == 1 <==> a == b) by (bit_vector)
                requires
                    a < 32,
                    b < 32,
            ;
        } else {
            assert(word == 0);
            assert((0u32 >> b) & 1 == 0) by (bit_vector);
        }
    }
}

/// The mask that a step has to answer with: the one that the constraint already holds, while the
/// tokens are those of the prompt, and else the one that it computes, past the prompt after the
/// last token.
pub open spec fn mask_to_answer(ps: PendingSeqView) -> Option<Seq<u32>> {
    if ps.entry.tokens.len() > ps.prompt_len {
        mask_after(*ps.llg, ps.entry.tokens[ps.entry.tokens.len() - 1])
    } else if last_step(*ps.llg).0 is Some {
        last_step(*ps.llg).0
    } else {
        mask_of(*ps.llg)
    }
}

/// The answer to the engine is the mask of the constraint. After a step that ends well and does not
/// stop the sequence, there are as many words as were wanted, they are those of the mask, and so
/// every token inside them is allowed exactly if the mask allows it.
pub proof fn law_answer_is_the_mask(
    pre: PendingSeqView,
    post: PendingSeqView,
    res: Result<(), StepError>,
    words: usize,
    token: TokenId,
)
    requires
        step_outcome(pre, post, res, words),
        res is Ok,
        !post.stop,
    ensures
        mask_to_answer(pre) is Some,
        post.entry.out_mask is Some,
        ({
            let mask = mask_to_answer(pre)->0;
            let answer = post.entry.out_mask->0;
            &&& words <= mask.len()
            &&& answer.len() == words
            &&& forall|i: int| 0 <= i < words ==> #[trigger] answer[i] == mask[i]
            &&& (token as int) < 32 * words ==> (allows(answer, token) <==> allows(mask, token))
        }),
{
    let mask = mask_to_answer(pre)->0;
    let answer = post.entry.out_mask->0;
    assert(answer.len() == words);
    if (token as int) < 32 * words {
        assert(answer[token as int / 32] == mask[token as int / 32]);
    }
}

/// How a step ends, unless the constraint fails: without a mask the sequence stops; a mask that is
/// too short is an error, and leaves the sequence as it was. Nothing but the constraint, the answer
/// and the stop ever changes.
pub proof fn law_step_ends(
    pre: PendingSeqView,
    post: PendingSeqView,
    res: Result<(), StepError>,
    words: usize,
)
    requires
        step_outcome(pre, post, res, words),
    ensures
        post.entry_idx == pre.entry_idx,
        post.llg_idx == pre.llg_idx,
        post.prompt_len == pre.prompt_len,
        post.is_run == pre.is_run,
        post.min_p == pre.min_p,
        post.error == pre.error,
        post.entry.req_id == pre.entry.req_id,
        post.entry.client_req_id == pre.entry.client_req_id,
        post.entry.tokens == pre.entry.tokens,
        eos_token_of(*post.llg) == eos_token_of(*pre.llg),
        vocab_size_of(*post.llg) == vocab_size_of(*pre.llg),
        res is Err ==> post.stop == pre.stop && post.entry.out_mask == pre.entry.out_mask,
        res is Ok && post.stop && !pre.stop ==> {
            &&& post.entry.out_mask == pre.entry.out_mask
            &&& last_step(*pre.llg).1 || mask_to_answer(pre) is None
        },
        res matches Err(StepError::ShortMask { words: wanted, mask_len }) ==> {
            &&& wanted == words
            &&& mask_to_answer(pre) matches Some(mask)
            &&& mask.len() < words
            &&& mask_len == mask.len() as usize
        },
        pre.entry.tokens.len() <= pre.prompt_len && last_step(*pre.llg).0 is Some ==> {
            let mask = last_step(*pre.llg).0->0;
            &&& res is Ok <==> words <= mask.len()
            &&& post.llg == pre.llg
            &&& post.stop == pre.stop
        },
        pre.entry.tokens.len() <= pre.prompt_len ==> !(res matches Err(StepError::Commit(_))),
{
}

/// What is wrong with committing a token: that something is taken back; that, without a stop, not
/// just one token comes back; or that it is another one.
pub proof fn law_commit_check(commit: CommitView, token: TokenId)
    ensures
        commit_check(commit, token) == Ok::<bool, CommitFault>(true) <==> commit.backtrack == 0
            && commit.stop,
        commit_check(commit, token) == Ok::<bool, CommitFault>(false) <==> commit.backtrack == 0
            && !commit.stop && commit.ff_tokens =~= seq![token],
        commit_check(commit, token) == Err::<bool, CommitFault>(CommitFault::Backtracked)
            <==> commit.backtrack > 0,
        commit_check(commit, token) == Err::<bool, CommitFault>(CommitFault::TokenCount)
            <==> commit.backtrack == 0 && !commit.stop && commit.ff_tokens.len() != 1,
        commit_check(commit, token) == Err::<bool, CommitFault>(CommitFault::OtherToken)
            <==> commit.backtrack == 0 && !commit.stop && commit.ff_tokens.len() == 1
            && commit.ff_tokens[0] != token,
{
    if commit.ff_tokens.len() == 1 && commit.ff_tokens[0] == token {
        assert(commit.ff_tokens =~= seq![token]);
    }
}

/// How a sequence is settled. A message of an error becomes its error, and stops it. Otherwise a
/// sequence that goes on is left as it is. One that stopped has an error exactly if it does not
/// handle its stop reasons itself and its parser ran into a limit or an error of its own, and it
/// names that; else only the end-of-sequence token may be sampled. Nothing else changes.
pub proof fn law_settling(ps: PendingSeqView, message: Seq<char>, words: usize, token: TokenId)
    ensures
        settled(ps, Err(message), words).error == Some(message),
        settled(ps, Err(message), words).stop,
        settled(ps, Err(message), words).entry == ps.entry,
        !ps.stop ==> settled(ps, Ok(()), words) == ps,
        ps.stop && bad_stop(ps) ==> {
            let end = settled(ps, Ok(()), words);
            &&& end.error == Some("llg stop reason: "@ + stop_reason_of(*ps.llg).name())
            &&& end.entry == ps.entry
        },
        ps.stop && !bad_stop(ps) && eos_token_of(*ps.llg) as int / 32 < words && words as int
            <= singleton_words(vocab_size_of(*ps.llg) as nat, eos_token_of(*ps.llg)).len() ==> {
            let end = settled(ps, Ok(()), words);
            &&& end.error == ps.error
            &&& end.entry.out_mask matches Some(mask)
            &&& mask.len() == words
            &&& allows(mask, token) <==> token == eos_token_of(*ps.llg)
            &&& end.entry.tokens == ps.entry.tokens
            &&& end.entry.req_id == ps.entry.req_id
            &&& end.entry.client_req_id == ps.entry.client_req_id
        },
        forall|outcome: Result<(), Seq<char>>|
            {
                let end = #[trigger] settled(ps, outcome, words);
                &&& end.entry_idx == ps.entry_idx
                &&& end.llg == ps.llg
                &&& end.llg_idx == ps.llg_idx
                &&& end.prompt_len == ps.prompt_len
                &&& end.is_run == ps.is_run
                &&& end.min_p == ps.min_p
                &&& ps.stop ==> end.stop
            },
{
    if ps.stop && !bad_stop(ps) && eos_token_of(*ps.llg) as int / 32 < words && words as int
        <= singleton_words(vocab_size_of(*ps.llg) as nat, eos_token_of(*ps.llg)).len() {
        law_singleton_words(
            vocab_size_of(*ps.llg) as nat,
            eos_token_of(*ps.llg),
            words as int,
            token,
        );
    }
}

/// A sequence has to report why it stopped.
pub open spec fn bad_stop(ps: PendingSeqView) -> bool {
    let reason = stop_reason_of(*ps.llg);
    &&& !ps.is_run
    &&& {
        ||| reason == StopReason::MaxTokensTotal
        ||| reason == StopReason::MaxTokensParser
        ||| reason == StopReason::InternalError
        ||| reason == StopReason::LexerTooComplex
        ||| reason == StopReason::ParserTooComplex
    }
}

/// When a sequence can be settled: after an error always; after a stop, if it has to report why,
/// or has no answer yet and the end-of-sequence token fits into the words; and if it goes on, if it
/// has an answer.
pub proof fn law_when_settled(ps: PendingSeqView, failed: bool, words: usize)
    ensures
        can_settle(ps, failed, words) <==> {
            let vocab = vocab_size_of(*ps.llg);
            let len = (vocab + 1) / 32 + 1;
            ||| failed
            ||| !ps.stop && ps.entry.out_mask is Some
            ||| ps.stop && bad_stop(ps)
            ||| {
                &&& ps.stop
                &&& ps.entry.out_mask is None
                &&& vocab < usize::MAX
                &&& eos_token_of(*ps.llg) as int / 32 < len
                &&& words <= len
            }
        },
{
}

/// Every stop reason has a name of its own.
pub proof fn law_stop_reason_names()
    ensures
        StopReason::NotStopped.name() == "NotStopped"@,
        StopReason::MaxTokensTotal.name() == "MaxTokensTotal"@,
        StopReason::MaxTokensParser.name() == "MaxTokensParser"@,
        StopReason::NoExtension.name() == "NoExtension"@,
        StopReason::NoExtensionBias.name() == "NoExtensionBias"@,
        StopReason::EndOfSentence.name() == "EndOfSentence"@,
        StopReason::InternalError.name() == "InternalError"@,
        StopReason::LexerTooComplex.name() == "LexerTooComplex"@,
        StopReason::ParserTooComplex.name() == "ParserTooComplex"@,
        forall|reason: StopReason|
            #[trigger] reason.spec_is_ok() <==> reason == StopReason::NotStopped || reason
                == StopReason::NoExtension || reason == StopReason::NoExtensionBias || reason
                == StopReason::EndOfSentence,
{
}

/// A sequence is checked out with the constraint of its slot, the settings of its request, and its
/// entry; nothing has been said of it yet. Only its slot is emptied.
pub proof fn law_checked_out(rd: ReqDataView, entry: LogitsEntryView, idx: usize, slot: usize)
    requires
        slot < rd.llgs.len(),
        rd.llgs[slot as int] is Some,
    ensures
        ({
            let ps = checked_out(rd, entry, idx, slot);
            let post = rd.without_llg(slot as int);
            &&& Some(ps.llg) == rd.llgs[slot as int]
            &&& ps.llg_idx == slot
            &&& ps.entry_idx == idx
            &&& ps.entry == entry
            &&& ps.prompt_len == rd.prompt_len
            &&& ps.is_run == rd.is_run
            &&& ps.min_p == rd.min_p
            &&& !ps.stop
            &&& ps.error is None
            &&& post.llgs.len() == rd.llgs.len()
            &&& post.llgs[slot as int] is None
            &&& forall|i: int|
                0 <= i < rd.llgs.len() && i != slot ==> #[trigger] post.llgs[i] == rd.llgs[i]
            &&& post == ReqDataView { llgs: post.llgs, ..rd }
        }),
{
}

} // verus!
