//! The grammar constraint of a sequence, and what this crate takes from `llguidance`.
//!
//! A [`Constraint`] is opaque here. The names below stand for what it holds, as its getters
//! report it; each wrapper says over those names what the wrapped method does and returns.
use llguidance::Constraint;
use vstd::prelude::*;

use crate::types::TokenId;

verus! {

/// The per-sequence grammar state machine of `llguidance`.
#[verifier::external_type_specification]
#[verifier::external_body]
pub struct ExConstraint(llguidance::Constraint);

/// The error type that `llguidance` reports.
#[verifier::external_type_specification]
#[verifier::external_body]
pub struct ExError(anyhow::Error);

/// The last result that a constraint holds: the words of its sampling mask, if it has one, and
/// whether it says to stop.
pub uninterp spec fn last_step(llg: Constraint) -> (Option<Seq<u32>>, bool);

/// The tokens that have been committed to a constraint under a mask, in their order.
pub uninterp spec fn committed(llg: Constraint) -> Seq<TokenId>;

/// The calls that were made on a constraint to commit a token or to compute a mask, in their order,
/// whatever came of them.
pub uninterp spec fn calls_of(llg: Constraint) -> Seq<LlgCall>;

/// What committing a token to a constraint comes to, where it succeeds.
pub uninterp spec fn commit_of(llg: Constraint, token: TokenId) -> CommitView;

/// The words of the mask that a constraint computes, where it succeeds. `None` is a stop.
pub uninterp spec fn mask_of(llg: Constraint) -> Option<Seq<u32>>;

/// The words of the mask that a constraint computes after a token has been committed to it, where
/// both succeed. `None` is a stop.
pub uninterp spec fn mask_after(llg: Constraint, token: TokenId) -> Option<Seq<u32>>;

/// The logs that a constraint has gathered since they were last flushed.
pub uninterp spec fn pending_logs(llg: Constraint) -> Seq<char>;

/// A constraint as flushing its logs leaves it.
pub uninterp spec fn flushed(llg: Constraint) -> Constraint;

/// Why the parser of a constraint stopped.
pub uninterp spec fn stop_reason_of(llg: Constraint) -> StopReason;

/// The end-of-sequence token of the tokenizer that a constraint works with.
pub uninterp spec fn eos_token_of(llg: Constraint) -> TokenId;

/// The number of tokens of the tokenizer that a constraint works with.
pub uninterp spec fn vocab_size_of(llg: Constraint) -> usize;

/// A call that moves a constraint on.
pub enum LlgCall {
    Commit(TokenId),
    Mask,
}

/// A plain copy of `toktrie::StepResult`: the sampling mask as 32-bit words, and `is_stop()`.
pub struct MaskStep {
    pub sample_mask: Option<Vec<u32>>,
    pub stop: bool,
}

impl View for MaskStep {
    type V = (Option<Seq<u32>>, bool);

    open spec fn view(&self) -> (Option<Seq<u32>>, bool) {
        (crate::types::opt_view(self.sample_mask), self.stop)
    }
}

/// A plain copy of `llguidance::CommitResult`.
pub struct Commit {
    pub stop: bool,
    pub backtrack: u32,
    pub ff_tokens: Vec<TokenId>,
}

pub struct CommitView {
    pub stop: bool,
    pub backtrack: u32,
    pub ff_tokens: Seq<TokenId>,
}

impl View for Commit {
    type V = CommitView;

    open spec fn view(&self) -> CommitView {
        CommitView {
            stop: self.stop,
            backtrack: self.backtrack,
            ff_tokens: self.ff_tokens@,
        }
    }
}

/// The stop reasons of `llguidance::api::StopReason`.
#[derive(Clone, Copy, PartialEq, Eq, Structural, Debug)]
pub enum StopReason {
    NotStopped,
    MaxTokensTotal,
    MaxTokensParser,
    NoExtension,
    NoExtensionBias,
    EndOfSentence,
    InternalError,
    LexerTooComplex,
    ParserTooComplex,
}

/// Calls `Constraint::step_result`, the getter of the last result. A result with a mask is no
/// stop.
#[verifier::external_body]
pub(crate) fn step_result(llg: &Constraint) -> (res: MaskStep)
    ensures
        res@ == last_step(*llg),
        res.stop ==> res.sample_mask is None,
{
    let step = llg.step_result();
    MaskStep {
        sample_mask: step.sample_mask.as_ref().map(|mask| mask.as_slice().to_vec()),
        stop: step.is_stop(),
    }
}

/// Calls `Constraint::compute_mask`.
///
/// Whatever comes back, no token is committed, logs are only added, and the tokenizer stays. When
/// it succeeds, the last result before was no stop, the result is the new last result, and it is
/// either the mask that the constraint has at this point or a stop. When the call fails rests on
/// the grammar and on the limits of the parser, and is not stated.
#[verifier::external_body]
pub(crate) fn compute_mask(llg: &mut Constraint) -> (res: Result<MaskStep, anyhow::Error>)
    ensures
        calls_of(*final(llg)) == calls_of(*old(llg)).push(LlgCall::Mask),
        committed(*final(llg)) == committed(*old(llg)),
        eos_token_of(*final(llg)) == eos_token_of(*old(llg)),
        vocab_size_of(*final(llg)) == vocab_size_of(*old(llg)),
        pending_logs(*old(llg)).is_prefix_of(pending_logs(*final(llg))),
        res matches Ok(step) ==> {
            &&& !last_step(*old(llg)).1
            &&& step@ == last_step(*final(llg))
            &&& step@.0 == mask_of(*old(llg))
            &&& step.stop == (step.sample_mask is None)
        },
{
    let step = llg.compute_mask()?;
    Ok(MaskStep {
        sample_mask: step.sample_mask.as_ref().map(|mask| mask.as_slice().to_vec()),
        stop: step.is_stop(),
    })
}

/// Calls `Constraint::commit_token` with a sampled token.
///
/// Whatever comes back, logs are only added, and the tokenizer stays. It succeeds where the last
/// result was a stop. When it succeeds, it reports a stop exactly when the last result was one; a
/// stop comes with no backtracking and no forced tokens, and leaves the last result as it was.
/// Otherwise the new last result holds no mask and is no stop. The token is taken in only where
/// the last result held a mask. What is reported, and the mask that can be computed next, follow
/// from the constraint and the token. When else the call fails rests on the grammar and on the
/// limits of the parser, and is not stated.
#[verifier::external_body]
pub(crate) fn commit_token(llg: &mut Constraint, token: TokenId) -> (res: Result<
    Commit,
    anyhow::Error,
>)
    ensures
        calls_of(*final(llg)) == calls_of(*old(llg)).push(LlgCall::Commit(token)),
        eos_token_of(*final(llg)) == eos_token_of(*old(llg)),
        vocab_size_of(*final(llg)) == vocab_size_of(*old(llg)),
        last_step(*old(llg)).1 ==> res is Ok,
        pending_logs(*old(llg)).is_prefix_of(pending_logs(*final(llg))),
        res matches Ok(commit) ==> {
            &&& commit@ == commit_of(*old(llg), token)
            &&& mask_of(*final(llg)) == mask_after(*old(llg), token)
            &&& committed(*final(llg)) == (if last_step(*old(llg)).0 is Some {
                committed(*old(llg)).push(token)
            } else {
                committed(*old(llg))
            })
            &&& commit.stop == last_step(*old(llg)).1
            &&& commit.stop ==> {
                &&& commit.backtrack == 0
                &&& commit.ff_tokens@.len() == 0
                &&& last_step(*final(llg)) == last_step(*old(llg))
            }
            &&& !commit.stop ==> last_step(*final(llg)) == (None::<Seq<u32>>, false)
        },
{
    let commit = llg.commit_token(Some(token))?;
    Ok(Commit { stop: commit.stop, backtrack: commit.backtrack, ff_tokens: commit.ff_tokens })
}

/// Calls `Constraint::flush_logs`, which hands the gathered logs over and touches nothing else.
#[verifier::external_body]
pub(crate) fn flush_logs(llg: &mut Constraint) -> (res: String)
    ensures
        res@ == pending_logs(*old(llg)),
        *final(llg) == flushed(*old(llg)),
        pending_logs(*final(llg)) == Seq::<char>::empty(),
        last_step(*final(llg)) == last_step(*old(llg)),
        committed(*final(llg)) == committed(*old(llg)),
        calls_of(*final(llg)) == calls_of(*old(llg)),
        mask_of(*final(llg)) == mask_of(*old(llg)),
        stop_reason_of(*final(llg)) == stop_reason_of(*old(llg)),
        eos_token_of(*final(llg)) == eos_token_of(*old(llg)),
        vocab_size_of(*final(llg)) == vocab_size_of(*old(llg)),
{
    llg.flush_logs()
}

/// Calls `TokenParser::stop_reason` of the parser of a constraint, a getter.
#[verifier::external_body]
pub(crate) fn stop_reason(llg: &Constraint) -> (res: StopReason)
    ensures
        res == stop_reason_of(*llg),
{
    match llg.parser.stop_reason() {
        llguidance::api::StopReason::NotStopped => StopReason::NotStopped,
        llguidance::api::StopReason::MaxTokensTotal => StopReason::MaxTokensTotal,
        llguidance::api::StopReason::MaxTokensParser => StopReason::MaxTokensParser,
        llguidance::api::StopReason::NoExtension => StopReason::NoExtension,
        llguidance::api::StopReason::NoExtensionBias => StopReason::NoExtensionBias,
        llguidance::api::StopReason::EndOfSentence => StopReason::EndOfSentence,
        llguidance::api::StopReason::InternalError => StopReason::InternalError,
        llguidance::api::StopReason::LexerTooComplex => StopReason::LexerTooComplex,
        llguidance::api::StopReason::ParserTooComplex => StopReason::ParserTooComplex,
    }
}

/// Calls `TokTrie::eos_token` of the tokenizer of a constraint, a getter.
#[verifier::external_body]
pub(crate) fn eos_token(llg: &Constraint) -> (res: TokenId)
    ensures
        res == eos_token_of(*llg),
{
    llg.tok_trie().eos_token()
}

/// Calls `TokTrie::vocab_size` of the tokenizer of a constraint, a getter.
#[verifier::external_body]
pub(crate) fn vocab_size(llg: &Constraint) -> (res: usize)
    ensures
        res == vocab_size_of(*llg),
{
    llg.tok_trie().vocab_size()
}

/// The number of words of a token set over `vocab_size` tokens: there is room for one token more.
pub open spec fn token_set_len(vocab_size: nat) -> nat {
    (vocab_size + 1) / 32 + 1
}

/// The words of the set that holds one token.
pub open spec fn singleton_words(vocab_size: nat, token: TokenId) -> Seq<u32> {
    Seq::new(
        token_set_len(vocab_size),
        |i: int|
            if i == token / 32 {
                1u32 << (token % 32)
            } else {
                0u32
            },
    )
}

/// Calls `TokTrie::singleton_token_set` of the tokenizer of a constraint: the set, as its words,
/// that holds only `token`. The token has to lie inside the words of the set.
#[verifier::external_body]
pub(crate) fn singleton_token_set(llg: &Constraint, token: TokenId) -> (res: Vec<u32>)
    requires
        vocab_size_of(*llg) < usize::MAX,
        token / 32 < token_set_len(vocab_size_of(*llg) as nat),
    ensures
        res@ == singleton_words(vocab_size_of(*llg) as nat, token),
{
    llg.tok_trie().singleton_token_set(token).as_slice().to_vec()
}

/// The text of an error, with `{:?}`. It may hold a backtrace, where these are switched on,
/// so nothing is stated of it.
#[verifier::external_body]
pub(crate) fn error_text(err: &anyhow::Error) -> (res: String) {
    format!("{:?}", err)
}

impl StopReason {
    /// Whether the sequence ended as the grammar wanted it to.
    pub open spec fn spec_is_ok(self) -> bool {
        ||| self == StopReason::NotStopped
        ||| self == StopReason::EndOfSentence
        ||| self == StopReason::NoExtension
        ||| self == StopReason::NoExtensionBias
    }

    pub fn is_ok(&self) -> (res: bool)
        ensures
            res == self.spec_is_ok(),
    {
        match self {
            StopReason::NotStopped
            | StopReason::EndOfSentence
            | StopReason::NoExtension
            | StopReason::NoExtensionBias => true,
            _ => false,
        }
    }

    /// The name of the reason.
    pub open spec fn name(self) -> Seq<char> {
        match self {
            StopReason::NotStopped => "NotStopped"@,
            StopReason::MaxTokensTotal => "MaxTokensTotal"@,
            StopReason::MaxTokensParser => "MaxTokensParser"@,
            StopReason::NoExtension => "NoExtension"@,
            StopReason::NoExtensionBias => "NoExtensionBias"@,
            StopReason::EndOfSentence => "EndOfSentence"@,
            StopReason::InternalError => "InternalError"@,
            StopReason::LexerTooComplex => "LexerTooComplex"@,
            StopReason::ParserTooComplex => "ParserTooComplex"@,
        }
    }

    pub fn text(&self) -> (res: &'static str)
        ensures
            res@ == self.name(),
    {
        match self {
            StopReason::NotStopped => "NotStopped",
            StopReason::MaxTokensTotal => "MaxTokensTotal",
            StopReason::MaxTokensParser => "MaxTokensParser",
            StopReason::NoExtension => "NoExtension",
            StopReason::NoExtensionBias => "NoExtensionBias",
            StopReason::EndOfSentence => "EndOfSentence",
            StopReason::InternalError => "InternalError",
            StopReason::LexerTooComplex => "LexerTooComplex",
            StopReason::ParserTooComplex => "ParserTooComplex",
        }
    }
}

} // verus!
