//! Laws of numbers and messages as text.
use vstd::prelude::*;

use crate::pending::{short_mask_text, CommitFault};
use crate::text::{decimal, opt_str, panic_message};

verus! {

/// The number that decimal digits stand for.
pub open spec fn value_of(digits: Seq<char>) -> int
    decreases digits.len(),
{
    if digits.len() == 0 {
        0
    } else {
        value_of(digits.drop_last()) * 10 + (digits.last() as u32 - '0' as u32)
    }
}

/// A number is written with decimal digits that stand for it, and without a leading zero but for
/// zero itself.
pub proof fn law_decimal(n: nat)
    ensures
        value_of(decimal(n)) == n,
        decimal(n).len() > 0,
        forall|i: int|
            0 <= i < decimal(n).len() ==> '0' as u32 <= (#[trigger] decimal(n)[i]) as u32 <= '9' as u32,
        n > 0 ==> decimal(n)[0] != '0',
        n == 0 ==> decimal(n) =~= seq!['0'],
    decreases n,
{
    if n < 10 {
        assert(decimal(n).drop_last() =~= Seq::empty());
        assert(value_of(decimal(n).drop_last()) == 0);
    } else {
        law_decimal(n / 10);
        assert(decimal(n).drop_last() =~= decimal(n / 10));
    }
}

/// The text of a panic is its payload behind a fixed prefix: as a literal if it is one, as a
/// string if it is one, and else a fixed text.
pub proof fn law_panic_message(literal: Seq<char>, owned: Seq<char>)
    ensures
        panic_message(Some(literal), None) == "panic: "@ + literal,
        panic_message(Some(literal), Some(owned)) == "panic: "@ + literal,
        panic_message(None, Some(owned)) == "panic: "@ + owned,
        panic_message(None, None) == "panic: "@ + "non-string panic!()"@,
        forall|text: &str| #[trigger] opt_str(Some(text)) == Some(text@),
        opt_str(None) is None,
{
}

/// Each fault has its own text, and a mask that is too short says how many words were wanted and
/// how many there are.
pub proof fn law_step_error_texts(words: usize, mask_len: usize)
    ensures
        CommitFault::Backtracked.condition() == "assertion failed: r.backtrack == 0"@,
        CommitFault::TokenCount.condition() == "assertion failed: r.ff_tokens.len() == 1"@,
        CommitFault::OtherToken.condition() == "assertion failed: r.ff_tokens[0] == tok"@,
        short_mask_text(words, mask_len) == "range end index "@ + decimal(words as nat)
            + " out of range for slice of length "@ + decimal(mask_len as nat),
{
}

} // verus!
