//! One sequence of a batch while its sampling mask is being computed.
use llguidance::Constraint;
use vstd::prelude::*;
use vstd::string::*;

use crate::llg::{
    calls_of, commit_of, commit_token, committed, compute_mask, eos_token, eos_token_of,
    error_text, last_step, mask_after, mask_of, pending_logs, singleton_token_set,
    singleton_words, step_result, stop_reason, stop_reason_of, token_set_len, vocab_size,
    vocab_size_of, Commit, CommitView, LlgCall, MaskStep,
};
use crate::request::{ReqData, ReqDataView};
use crate::text::{append_decimal, decimal, mk_panic_error, panic_message};
use crate::types::{copy_words, opt_view, ClientReqId, ReqId, TokenId};

verus! {

/// The engine's call for the logits of one sequence: whose sequence it is, and its tokens so far.
/// The answer is the sampling mask, as 32-bit words.
pub struct LogitsEntry {
    pub req_id: ReqId,
    pub client_req_id: ClientReqId,
    pub tokens: Vec<TokenId>,
    pub out_mask: Option<Vec<u32>>,
}

pub struct LogitsEntryView {
    pub req_id: ReqId,
    pub client_req_id: ClientReqId,
    pub tokens: Seq<TokenId>,
    pub out_mask: Option<Seq<u32>>,
}

impl View for LogitsEntry {
    type V = LogitsEntryView;

    open spec fn view(&self) -> LogitsEntryView {
        LogitsEntryView {
            req_id: self.req_id,
            client_req_id: self.client_req_id,
            tokens: self.tokens@,
            out_mask: opt_view(self.out_mask),
        }
    }
}

impl Clone for LogitsEntry {
    fn clone(&self) -> (res: Self)
        ensures
            res@ == self@,
    {
        LogitsEntry {
            req_id: self.req_id,
            client_req_id: self.client_req_id,
            tokens: copy_words(&self.tokens),
            out_mask: match &self.out_mask {
                Some(words) => Some(copy_words(words)),
                None => None,
            },
        }
    }
}

/// A sequence that has been checked out of its request, together with its constraint.
pub struct PendingSeq {
    /// Position of `entry` in the batch.
    pub entry_idx: usize,
    pub llg: Box<Constraint>,
    /// Slot of the request that `llg` was taken from.
    pub llg_idx: usize,
    pub prompt_len: usize,
    pub is_run: bool,
    pub entry: LogitsEntry,
    /// Bit pattern of the min-p threshold.
    pub min_p: u32,
    pub stop: bool,
    /// Setting this stops the sequence with the given error.
    pub error: Option<String>,
}

pub struct PendingSeqView {
    pub entry_idx: usize,
    pub llg: Box<Constraint>,
    pub llg_idx: usize,
    pub prompt_len: nat,
    pub is_run: bool,
    pub entry: LogitsEntryView,
    pub min_p: u32,
    pub stop: bool,
    pub error: Option<Seq<char>>,
}

impl View for PendingSeq {
    type V = PendingSeqView;

    open spec fn view(&self) -> PendingSeqView {
        PendingSeqView {
            entry_idx: self.entry_idx,
            llg: self.llg,
            llg_idx: self.llg_idx,
            prompt_len: self.prompt_len as nat,
            is_run: self.is_run,
            entry: self.entry@,
            min_p: self.min_p,
            stop: self.stop,
            error: opt_view(self.error),
        }
    }
}

/// What can be wrong with the outcome of committing a token that was sampled under the mask.
#[derive(Clone, Copy, PartialEq, Eq, Structural, Debug)]
pub enum CommitFault {
    Backtracked,
    TokenCount,
    OtherToken,
}

/// Why no mask could be computed.
pub enum StepError {
    Constraint(anyhow::Error),
    Commit(CommitFault),
    /// The mask has `mask_len` words, and `words` are wanted.
    ShortMask { words: usize, mask_len: usize },
}

impl CommitFault {
    pub open spec fn condition(self) -> Seq<char> {
        match self {
            CommitFault::Backtracked => "assertion failed: r.backtrack == 0"@,
            CommitFault::TokenCount => "assertion failed: r.ff_tokens.len() == 1"@,
            CommitFault::OtherToken => "assertion failed: r.ff_tokens[0] == tok"@,
        }
    }

    pub fn text(&self) -> (res: &'static str)
        ensures
            res@ == self.condition(),
    {
        match self {
            CommitFault::Backtracked => "assertion failed: r.backtrack == 0",
            CommitFault::TokenCount => "assertion failed: r.ff_tokens.len() == 1",
            CommitFault::OtherToken => "assertion failed: r.ff_tokens[0] == tok",
        }
    }
}

/// The text of a mask that is too short for the words wanted of it.
pub open spec fn short_mask_text(words: usize, mask_len: usize) -> Seq<char> {
    "range end index "@ + decimal(words as nat) + " out of range for slice of length "@ + decimal(
        mask_len as nat,
    )
}

impl StepError {
    /// The message of the error. That of an error of the constraint is the error's own.
    pub fn text(&self) -> (res: String)
        ensures
            match *self {
                StepError::Constraint(_) => true,
                StepError::Commit(fault) => res@ == panic_message(Some(fault.condition()), None),
                StepError::ShortMask { words, mask_len } => res@ == panic_message(
                    None,
                    Some(short_mask_text(words, mask_len)),
                ),
            },
    {
        match self {
            StepError::Constraint(err) => error_text(err),
            StepError::Commit(fault) => mk_panic_error(Some(fault.text()), None),
            StepError::ShortMask { words, mask_len } => {
                let mut text = "range end index ".to_owned();
                append_decimal(&mut text, *words as u64);
                text.append(" out of range for slice of length ");
                append_decimal(&mut text, *mask_len as u64);
                mk_panic_error(None, Some(text.as_str()))
            },
        }
    }
}

/// The first words of a mask.
pub fn copy_mask(src: &Vec<u32>, words: usize) -> (res: Vec<u32>)
    requires
        words <= src@.len(),
    ensures
        res@ == src@.take(words as int),
{
    let mut res = copy_words(src);
    res.truncate(words);
    assert(res@ =~= src@.take(words as int));
    res
}

/// What committing a sampled token has to come back with: a stop, or that token and nothing else.
pub open spec fn commit_check(commit: CommitView, token: TokenId) -> Result<bool, CommitFault> {
    if commit.backtrack != 0 {
        Err(CommitFault::Backtracked)
    } else if commit.stop {
        Ok(true)
    } else if commit.ff_tokens.len() != 1 {
        Err(CommitFault::TokenCount)
    } else if commit.ff_tokens[0] != token {
        Err(CommitFault::OtherToken)
    } else {
        Ok(false)
    }
}

/// Checks the outcome of a commit; `Ok` says whether the sequence stops.
pub fn check_commit(commit: &Commit, token: TokenId) -> (res: Result<bool, CommitFault>)
    ensures
        res == commit_check(commit@, token),
{
    if commit.backtrack != 0 {
        return Err(CommitFault::Backtracked);
    }
    if commit.stop {
        return Ok(true);
    }
    if commit.ff_tokens.len() != 1 {
        return Err(CommitFault::TokenCount);
    }
    if commit.ff_tokens[0] != token {
        return Err(CommitFault::OtherToken);
    }
    Ok(false)
}

/// What a mask, or the lack of one, does to a sequence: the first words of the mask are the
/// answer; without a mask the sequence stops.
pub open spec fn masked(
    pre: PendingSeqView,
    post: PendingSeqView,
    res: Result<(), StepError>,
    mask: Option<Seq<u32>>,
    words: usize,
) -> bool {
    match mask {
        None => {
            &&& res is Ok
            &&& post.stop
            &&& post.entry.out_mask == pre.entry.out_mask
        },
        Some(m) => {
            &&& post.stop == pre.stop
            &&& if words <= m.len() {
                &&& res is Ok
                &&& post.entry.out_mask == Some(m.take(words as int))
            } else {
                &&& res == Err::<(), StepError>(
                    StepError::ShortMask { words, mask_len: m.len() as usize },
                )
                &&& post.entry.out_mask == pre.entry.out_mask
            }
        },
    }
}

/// The sequence has neither been stopped nor been given a mask.
pub open spec fn unanswered(pre: PendingSeqView, post: PendingSeqView) -> bool {
    &&& post.stop == pre.stop
    &&& post.entry.out_mask == pre.entry.out_mask
}

/// What one step does to a sequence.
///
/// As long as the tokens are those of the prompt, a mask that the constraint already holds is
/// used again and the constraint is left alone; without one, a mask is computed. Past the prompt
/// the last token is committed first: where the constraint already said to stop, the sequence
/// stops, and else, unless something is wrong with the outcome, a new mask is computed.
pub open spec fn step_outcome(
    pre: PendingSeqView,
    post: PendingSeqView,
    res: Result<(), StepError>,
    words: usize,
) -> bool {
    let (mask, stopped) = last_step(*pre.llg);
    let new_mask = last_step(*post.llg).0;
    let token = pre.entry.tokens.last();
    &&& post == PendingSeqView {
        llg: post.llg,
        stop: post.stop,
        entry: LogitsEntryView { out_mask: post.entry.out_mask, ..pre.entry },
        ..pre
    }
    &&& pending_logs(*pre.llg).is_prefix_of(pending_logs(*post.llg))
    &&& same_tokenizer(*pre.llg, *post.llg)
    &&& if pre.entry.tokens.len() <= pre.prompt_len {
        if mask is Some {
            &&& post.llg == pre.llg
            &&& masked(pre, post, res, mask, words)
        } else {
            &&& called(*pre.llg, *post.llg, seq![LlgCall::Mask])
            &&& committed(*post.llg) == committed(*pre.llg)
            &&& {
                ||| (res matches Err(StepError::Constraint(_)) && unanswered(pre, post))
                ||| {
                    &&& !stopped
                    &&& new_mask == mask_of(*pre.llg)
                    &&& masked(pre, post, res, new_mask, words)
                }
            }
        }
    } else {
        ||| {
            &&& !stopped
            &&& res matches Err(StepError::Constraint(_))
            &&& unanswered(pre, post)
            &&& called(*pre.llg, *post.llg, seq![LlgCall::Commit(token)])
        }
        ||| {
            &&& commit_of(*pre.llg, token).stop == stopped
            &&& committed(*post.llg) == (if mask is Some {
                committed(*pre.llg).push(token)
            } else {
                committed(*pre.llg)
            })
            &&& match commit_check(commit_of(*pre.llg, token), token) {
                Err(fault) => {
                    &&& !stopped
                    &&& called(*pre.llg, *post.llg, seq![LlgCall::Commit(token)])
                    &&& res == Err::<(), StepError>(StepError::Commit(fault))
                    &&& unanswered(pre, post)
                },
                Ok(true) => {
                    &&& stopped
                    &&& called(*pre.llg, *post.llg, seq![LlgCall::Commit(token)])
                    &&& res is Ok
                    &&& post.stop
                    &&& post.entry.out_mask == pre.entry.out_mask
                },
                Ok(false) => {
                    &&& !stopped
                    &&& called(*pre.llg, *post.llg, seq![LlgCall::Commit(token), LlgCall::Mask])
                    &&& {
                        ||| (res matches Err(StepError::Constraint(_)) && unanswered(pre, post))
                        ||| {
                            &&& new_mask == mask_after(*pre.llg, token)
                            &&& masked(pre, post, res, new_mask, words)
                        }
                    }
                },
            }
        }
    }
}

/// Two constraints work with one tokenizer, as far as its size and its end-of-sequence token go.
pub open spec fn same_tokenizer(a: Constraint, b: Constraint) -> bool {
    eos_token_of(a) == eos_token_of(b) && vocab_size_of(a) == vocab_size_of(b)
}

/// The calls that were made on a constraint between `pre` and `post`.
pub open spec fn called(pre: Constraint, post: Constraint, calls: Seq<LlgCall>) -> bool {
    calls_of(post) == calls_of(pre) + calls
}

/// What becomes of a sequence once its step has ended, well or with an error.
pub open spec fn settled(
    pre: PendingSeqView,
    outcome: Result<(), Seq<char>>,
    words: usize,
) -> PendingSeqView {
    match outcome {
        Err(msg) => PendingSeqView { stop: true, error: Some(msg), ..pre },
        Ok(_) => if !pre.stop {
            pre
        } else if reports_stop_reason(pre) {
            PendingSeqView {
                error: Some("llg stop reason: "@ + stop_reason_of(*pre.llg).name()),
                ..pre
            }
        } else {
            PendingSeqView {
                entry: LogitsEntryView {
                    out_mask: Some(
                        singleton_words(
                            vocab_size_of(*pre.llg) as nat,
                            eos_token_of(*pre.llg),
                        ).take(words as int),
                    ),
                    ..pre.entry
                },
                ..pre
            }
        },
    }
}

/// Whether a stop is an error: not for a sequence that handles its stop reasons itself, and not
/// where the grammar was done.
pub open spec fn reports_stop_reason(seq: PendingSeqView) -> bool {
    !seq.is_run && !stop_reason_of(*seq.llg).spec_is_ok()
}

/// A sequence that stopped well can be answered with the mask of the end-of-sequence token.
pub open spec fn eos_fits(llg: Constraint, words: usize) -> bool {
    let len = token_set_len(vocab_size_of(llg) as nat);
    &&& vocab_size_of(llg) < usize::MAX
    &&& eos_token_of(llg) / 32 < len
    &&& words <= len
}

/// A sequence whose step ended well has a mask exactly when it goes on.
pub open spec fn can_settle(seq: PendingSeqView, failed: bool, words: usize) -> bool {
    failed || if seq.stop {
        reports_stop_reason(seq) || (seq.entry.out_mask is None && eos_fits(*seq.llg, words))
    } else {
        seq.entry.out_mask is Some
    }
}

impl PendingSeq {
    /// Takes the mask of a computation over, or stops.
    pub fn apply_mask(&mut self, step: MaskStep, words: usize) -> (res: Result<(), StepError>)
        requires
            step.stop == (step.sample_mask is None),
        ensures
            final(self)@ == (PendingSeqView {
                stop: final(self)@.stop,
                entry: LogitsEntryView {
                    out_mask: final(self)@.entry.out_mask,
                    ..old(self)@.entry
                },
                ..old(self)@
            }),
            masked(old(self)@, final(self)@, res, step@.0, words),
    {
        match step.sample_mask {
            None => {
                self.stop = true;
                Ok(())
            },
            Some(mask) => {
                if words > mask.len() {
                    return Err(StepError::ShortMask { words, mask_len: mask.len() });
                }
                self.entry.out_mask = Some(copy_mask(&mask, words));
                Ok(())
            },
        }
    }

    /// Commits the last token, if the sequence is past its prompt, and gets the sampling mask, of
    /// which the first `words` words are the answer to the engine.
    pub fn step(&mut self, words: usize) -> (res: Result<(), StepError>)
        ensures
            step_outcome(old(self)@, final(self)@, res, words),
    {
        let ghost pre = *self.llg;
        let n = self.entry.tokens.len();
        if n > self.prompt_len {
            // past the prompt, commit the last token and compute the mask
            let token = self.entry.tokens[n - 1];
            let committing = commit_token(&mut self.llg, token);
            assert(calls_of(*self.llg) =~= calls_of(pre) + seq![LlgCall::Commit(token)]);
            let commit = match committing {
                Ok(commit) => commit,
                Err(err) => return Err(StepError::Constraint(err)),
            };
            match check_commit(&commit, token) {
                Ok(true) => {
                    self.stop = true;
                    return Ok(());
                },
                Ok(false) => {},
                Err(fault) => return Err(StepError::Commit(fault)),
            }
        } else {
            let last = step_result(&self.llg);
            if last.sample_mask.is_some() {
                // the prompt may come in several pieces; they share the first mask
                return self.apply_mask(last, words);
            }
        }
        let ghost mid = *self.llg;
        let computing = compute_mask(&mut self.llg);
        proof {
            if n > self.prompt_len {
                let token = self.entry.tokens@.last();
                assert(calls_of(*self.llg) =~= calls_of(pre) + seq![
                    LlgCall::Commit(token),
                    LlgCall::Mask,
                ]);
            } else {
                assert(calls_of(*self.llg) =~= calls_of(pre) + seq![LlgCall::Mask]);
            }
            let a = pending_logs(pre);
            let b = pending_logs(mid);
            assert(a =~= b.subrange(0, a.len() as int));
            assert(a =~= pending_logs(*self.llg).subrange(0, a.len() as int));
        }
        let step = match computing {
            Ok(step) => step,
            Err(err) => return Err(StepError::Constraint(err)),
        };
        self.apply_mask(step, words)
    }

    /// Tells whether `settle` can be called.
    pub fn can_settle(&self, failed: bool, words: usize) -> (res: bool)
        ensures
            res == can_settle(self@, failed, words),
    {
        if failed {
            return true;
        }
        if !self.stop {
            return self.entry.out_mask.is_some();
        }
        if !self.is_run && !stop_reason(&self.llg).is_ok() {
            return true;
        }
        let vocab = vocab_size(&self.llg);
        if self.entry.out_mask.is_some() || vocab == usize::MAX {
            return false;
        }
        let len = (vocab + 1) / 32 + 1;
        let eos = eos_token(&self.llg) / 32;
        (eos as u64) < len as u64 && words <= len
    }

    /// Records how the step ended. A sequence that stopped well may only sample the
    /// end-of-sequence token.
    pub fn settle(&mut self, outcome: Result<(), String>, words: usize)
        requires
            can_settle(old(self)@, outcome is Err, words),
        ensures
            final(self)@ == settled(
                old(self)@,
                match outcome {
                    Ok(_) => Ok(()),
                    Err(msg) => Err(msg@),
                },
                words,
            ),
    {
        match outcome {
            Err(msg) => {
                self.stop = true;
                self.error = Some(msg);
            },
            Ok(_) => {
                if self.stop {
                    let reason = stop_reason(&self.llg);
                    if !self.is_run && !reason.is_ok() {
                        let mut msg = "llg stop reason: ".to_owned();
                        msg.append(reason.text());
                        self.error = Some(msg);
                    } else {
                        let only_eos = singleton_token_set(&self.llg, eos_token(&self.llg));
                        self.entry.out_mask = Some(copy_mask(&only_eos, words));
                    }
                }
            },
        }
    }

    /// Takes a constraint out of its slot.
    pub fn new(rd: &mut ReqData, entry: &LogitsEntry, entry_idx: usize, llg_idx: usize) -> (res:
        Self)
        requires
            llg_idx < old(rd)@.llgs.len(),
            old(rd)@.llgs[llg_idx as int] is Some,
        ensures
            res@ == checked_out(old(rd)@, entry@, entry_idx, llg_idx),
            final(rd)@ == old(rd)@.without_llg(llg_idx as int),
    {
        let llg = rd.llgs[llg_idx].take().unwrap();
        PendingSeq {
            entry_idx,
            llg,
            llg_idx,
            prompt_len: rd.prompt_len,
            is_run: rd.is_run,
            entry: entry.clone(),
            min_p: rd.min_p,
            stop: false,
            error: None,
        }
    }
}

/// A sequence as it is checked out of its request.
pub open spec fn checked_out(
    rd: ReqDataView,
    entry: LogitsEntryView,
    entry_idx: usize,
    llg_idx: usize,
) -> PendingSeqView {
    PendingSeqView {
        entry_idx,
        llg: rd.llgs[llg_idx as int]->0,
        llg_idx,
        prompt_len: rd.prompt_len,
        is_run: rd.is_run,
        entry,
        min_p: rd.min_p,
        stop: false,
        error: None,
    }
}

} // verus!
