//! Numbers and messages as text.
use vstd::prelude::*;
use vstd::string::*;

verus! {

/// The character of a decimal digit.
pub open spec fn digit(d: nat) -> char {
    ('0' as u32 + d) as char
}

/// The decimal notation of a number.
pub open spec fn decimal(n: nat) -> Seq<char>
    decreases n,
{
    if n < 10 {
        seq![digit(n)]
    } else {
        decimal(n / 10).push(digit(n % 10))
    }
}

fn digit_text(d: u64) -> (res: &'static str)
    requires
        d < 10,
    ensures
        res@ == seq![digit(d as nat)],
{
    proof {
        reveal_strlit("0");
        reveal_strlit("1");
        reveal_strlit("2");
        reveal_strlit("3");
        reveal_strlit("4");
        reveal_strlit("5");
        reveal_strlit("6");
        reveal_strlit("7");
        reveal_strlit("8");
        reveal_strlit("9");
    }
    match d {
        0 => "0",
        1 => "1",
        2 => "2",
        3 => "3",
        4 => "4",
        5 => "5",
        6 => "6",
        7 => "7",
        8 => "8",
        _ => "9",
    }
}

/// Writes a number behind a text, in decimal notation.
pub fn append_decimal(text: &mut String, n: u64)
    ensures
        final(text)@ == old(text)@ + decimal(n as nat),
    decreases n,
{
    if n >= 10 {
        append_decimal(text, n / 10);
    }
    text.append(digit_text(n % 10));
    assert(text@ =~= old(text)@ + decimal(n as nat));
}

/// The text of a caught panic: its payload where that is a text, behind a fixed prefix.
///
/// `literal` and `owned` are the payload taken as a string literal and as a `String`.
pub open spec fn panic_message(literal: Option<Seq<char>>, owned: Option<Seq<char>>) -> Seq<char> {
    "panic: "@ + match (literal, owned) {
        (Some(text), _) => text,
        (None, Some(text)) => text,
        (None, None) => "non-string panic!()"@,
    }
}

pub open spec fn opt_str(text: Option<&str>) -> Option<Seq<char>> {
    match text {
        Some(s) => Some(s@),
        None => None,
    }
}

pub fn mk_panic_error(literal: Option<&str>, owned: Option<&str>) -> (res: String)
    ensures
        res@ == panic_message(opt_str(literal), opt_str(owned)),
{
    let msg = match literal {
        Some(s) => s,
        None => match owned {
            Some(s) => s,
            None => "non-string panic!()",
        },
    };
    let mut res = "panic: ".to_owned();
    res.append(msg);
    res
}

} // verus!
