use vstd::prelude::*;
use vstd::string::StringExecFns;

verus! {

/// Why a template body could not be tokenized or a template could not be rendered.
///
/// Positions are byte offsets into the piece of the body that was being scanned
/// when the problem was found.
#[derive(Debug)]
pub enum ParseError {
    /// A `}` with no `{` before it.
    MissingOpenBrace(usize),
    /// A `{` with no `}` after it.
    MissingCloseBrace(usize),
    /// A placeholder whose name is not one of the template's children.
    MissingTemplate(String),
}

/// The mathematical value of a [`ParseError`].
pub enum Failure {
    MissingOpenBrace(nat),
    MissingCloseBrace(nat),
    MissingTemplate(Seq<char>),
}

impl View for ParseError {
    type V = Failure;

    open spec fn view(&self) -> Failure {
        match self {
            ParseError::MissingOpenBrace(p) => Failure::MissingOpenBrace(*p as nat),
            ParseError::MissingCloseBrace(p) => Failure::MissingCloseBrace(*p as nat),
            ParseError::MissingTemplate(name) => Failure::MissingTemplate(name@),
        }
    }
}

/// The decimal digits of `n`, most significant first.
pub open spec fn decimal(n: nat) -> Seq<char>
    decreases n,
{
    if n < 10 {
        seq![digit(n)]
    } else {
        decimal(n / 10) + seq![digit(n % 10)]
    }
}

/// The character of the digit `d`.
pub open spec fn digit(d: nat) -> char {
    if d < 10 {
        (('0' as nat) + d) as char
    } else {
        '?'
    }
}

/// The message that describes a failure.
pub open spec fn message_text(f: Failure) -> Seq<char> {
    match f {
        Failure::MissingTemplate(name) => "sub_templates does not have any template indexed under: "@
            + name,
        Failure::MissingCloseBrace(p) => "Open brace at "@ + decimal(p)
            + " does not have a corresponding close brace"@,
        Failure::MissingOpenBrace(p) => "Close brace at "@ + decimal(p)
            + " does not have a corresponding open brace"@,
    }
}

/// The one-character string of the digit `d`.
fn digit_str(d: usize) -> (r: &'static str)
    requires
        d < 10,
    ensures
        r@ == seq![digit(d as nat)],
{
    proof {
        reveal_strlit("0");
        reveal_strlit("1");
        reveal_strlit("2");
        reveal_strlit("3");
        reveal_strlit("4");
        reveal_strlit("5");
        reveal_strlit("6");
        reveal_strlit("7");
        reveal_strlit("8");
        reveal_strlit("9");
    }
    let r = match d {
        0 => "0",
        1 => "1",
        2 => "2",
        3 => "3",
        4 => "4",
        5 => "5",
        6 => "6",
        7 => "7",
        8 => "8",
        _ => "9",
    };
    assert(r@ =~= seq![digit(d as nat)]);
    r
}

/// Appends the decimal digits of `n` to `out`.
fn append_decimal(out: &mut String, n: usize)
    ensures
        final(out)@ == old(out)@ + decimal(n as nat),
    decreases n,
{
    if n >= 10 {
        append_decimal(out, n / 10);
    }
    out.append(digit_str(n % 10));
    assert(final(out)@ =~= old(out)@ + decimal(n as nat));
}

impl ParseError {
    /// A sentence that describes the error.
    pub fn message(&self) -> (r: String)
        ensures
            r@ == message_text(self@),
    {
        match self {
            ParseError::MissingTemplate(name) => {
                let mut out = String::from_str("sub_templates does not have any template indexed under: ");
                out.append(name.as_str());
                out
            },
            ParseError::MissingCloseBrace(loc) => {
                let mut out = String::from_str("Open brace at ");
                append_decimal(&mut out, *loc);
                out.append(" does not have a corresponding close brace");
                out
            },
            ParseError::MissingOpenBrace(loc) => {
                let mut out = String::from_str("Close brace at ");
                append_decimal(&mut out, *loc);
                out.append(" does not have a corresponding open brace");
                out
            },
        }
    }
}

} // verus!
