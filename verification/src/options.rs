//! Formatting policy and the errors that formatting reports.
use vstd::prelude::*;

verus! {

/// Formatting policy. Width is a soft target: literals and comments are never reflowed.
#[derive(Clone, Debug)]
pub struct Options {
    pub line_width: usize,
    pub indent_width: usize,
}

impl Default for Options {
    fn default() -> (o: Self)
        ensures
            o.line_width == 100,
            o.indent_width == 4,
    {
        Self { line_width: 100, indent_width: 4 }
    }
}

/// An error never contains a partially formatted result.
#[derive(Debug)]
pub enum FormatError {
    InvalidOptions(&'static str),
    Syntax { line: usize, column: usize },
    Nesting { line: usize, column: usize },
    Internal(&'static str),
}

/// Options are accepted: a line width of at least 20 and an indentation of 1 to 16 spaces.
pub open spec fn options_ok(o: Options) -> bool {
    o.line_width >= 20 && 1 <= o.indent_width <= 16
}

/// What checking the options gives: the first bound they break, if any.
pub open spec fn options_check(o: Options) -> Result<(), FormatError> {
    if o.line_width < 20 {
        Err(FormatError::InvalidOptions("line width must be at least 20"))
    } else if !(1 <= o.indent_width <= 16) {
        Err(FormatError::InvalidOptions("indent width must be between 1 and 16"))
    } else {
        Ok(())
    }
}

/// Check the options' bounds.
pub fn check_options(o: &Options) -> (r: Result<(), FormatError>)
    ensures
        r == options_check(*o),
        r is Ok <==> options_ok(*o),
{
    if o.line_width < 20 {
        return Err(FormatError::InvalidOptions("line width must be at least 20"));
    }
    if !(1 <= o.indent_width && o.indent_width <= 16) {
        return Err(FormatError::InvalidOptions("indent width must be between 1 and 16"));
    }
    Ok(())
}

/// The decimal digit `d`.
pub open spec fn digit(d: nat) -> char {
    if d == 0 { '0' } else if d == 1 { '1' } else if d == 2 { '2' } else if d == 3 { '3' }
    else if d == 4 { '4' } else if d == 5 { '5' } else if d == 6 { '6' } else if d == 7 { '7' }
    else if d == 8 { '8' } else { '9' }
}

/// `n` written in decimal.
pub open spec fn decimal(n: nat) -> Seq<char>
    decreases n,
{
    if n < 10 {
        seq![digit(n)]
    } else {
        decimal(n / 10).push(digit(n % 10))
    }
}

/// What an error says, as its message reads.
pub open spec fn message_text(e: FormatError) -> Seq<char> {
    match e {
        FormatError::InvalidOptions(m) => m@,
        FormatError::Internal(m) => m@,
        FormatError::Syntax { line, column } => "syntax error at "@ + decimal(line as nat) + ":"@
            + decimal(column as nat) + "; refusing to format"@,
        FormatError::Nesting { line, column } => "syntax nesting exceeds 256 levels at "@ + decimal(
            line as nat,
        ) + ":"@ + decimal(column as nat),
    }
}

fn digit_str(d: usize) -> (s: &'static str)
    requires
        d < 10,
    ensures
        s@ == seq![digit(d as nat)],
{
    if d == 0 {
        proof { reveal_strlit("0"); }
        "0"
    } else if d == 1 {
        proof { reveal_strlit("1"); }
        "1"
    } else if d == 2 {
        proof { reveal_strlit("2"); }
        "2"
    } else if d == 3 {
        proof { reveal_strlit("3"); }
        "3"
    } else if d == 4 {
        proof { reveal_strlit("4"); }
        "4"
    } else if d == 5 {
        proof { reveal_strlit("5"); }
        "5"
    } else if d == 6 {
        proof { reveal_strlit("6"); }
        "6"
    } else if d == 7 {
        proof { reveal_strlit("7"); }
        "7"
    } else if d == 8 {
        proof { reveal_strlit("8"); }
        "8"
    } else {
        proof { reveal_strlit("9"); }
        "9"
    }
}

fn push_decimal(s: &mut String, n: usize)
    ensures
        final(s)@ == old(s)@ + decimal(n as nat),
    decreases n,
{
    if n >= 10 {
        push_decimal(s, n / 10);
    }
    s.append(digit_str(n % 10));
    assert(s@ =~= old(s)@ + decimal(n as nat));
}

impl FormatError {
    /// The error's message.
    pub fn message(&self) -> (m: String)
        ensures
            m@ == message_text(*self),
    {
        match self {
            FormatError::InvalidOptions(message) => String::from_str(message),
            FormatError::Internal(message) => String::from_str(message),
            FormatError::Syntax { line, column } => {
                let mut m = String::from_str("syntax error at ");
                push_decimal(&mut m, *line);
                m.append(":");
                push_decimal(&mut m, *column);
                m.append("; refusing to format");
                m
            },
            FormatError::Nesting { line, column } => {
                let mut m = String::from_str("syntax nesting exceeds 256 levels at ");
                push_decimal(&mut m, *line);
                m.append(":");
                push_decimal(&mut m, *column);
                m
            },
        }
    }
}


/// Options are accepted exactly where the line width is at least 20 and the
/// indentation is from 1 to 16 spaces; a line width that is too small is
/// the error reported where both bounds are broken.
pub proof fn option_bounds(o: Options)
    ensures
        options_check(o) is Ok <==> (o.line_width >= 20 && o.indent_width >= 1 && o.indent_width <= 16),
        o.line_width < 20 ==> options_check(o) == Err::<(), FormatError>(
            FormatError::InvalidOptions("line width must be at least 20"),
        ),
        o.line_width >= 20 && (o.indent_width < 1 || o.indent_width > 16) ==> options_check(o) == Err::<
            (),
            FormatError,
        >(FormatError::InvalidOptions("indent width must be between 1 and 16")),
{
}

/// The value of a decimal digit character.
pub open spec fn digit_value(c: char) -> nat {
    if c == '1' { 1 } else if c == '2' { 2 } else if c == '3' { 3 } else if c == '4' { 4 }
    else if c == '5' { 5 } else if c == '6' { 6 } else if c == '7' { 7 } else if c == '8' { 8 }
    else if c == '9' { 9 } else { 0 }
}

/// The number that a string of decimal digits reads as.
pub open spec fn read_decimal(s: Seq<char>) -> nat
    decreases s.len(),
{
    if s.len() == 0 {
        0
    } else {
        read_decimal(s.drop_last()) * 10 + digit_value(s.last())
    }
}

/// The positions in messages are written in plain decimal: digits only,
/// without leading zeros, reading back as the number.
pub proof fn positions_are_written_in_decimal(n: nat)
    ensures
        read_decimal(decimal(n)) == n,
        decimal(n).len() >= 1,
        decimal(n)[0] == '0' ==> n == 0,
        forall|i: int| 0 <= i < decimal(n).len() ==> '0' <= #[trigger] decimal(n)[i] <= '9',
    decreases n,
{
    if n < 10 {
        let s = decimal(n);
        assert(s.drop_last() =~= Seq::<char>::empty());
        assert(digit_value(digit(n)) == n);
        assert(read_decimal(s) == read_decimal(s.drop_last()) * 10 + digit_value(s.last()));
    } else {
        positions_are_written_in_decimal(n / 10);
        let s = decimal(n);
        assert(s.drop_last() =~= decimal(n / 10));
        assert(n % 10 < 10);
        assert(s.last() == digit(n % 10));
        assert(digit_value(digit(n % 10)) == n % 10);
        assert(read_decimal(s) == read_decimal(s.drop_last()) * 10 + digit_value(s.last()));
        assert(n / 10 * 10 + n % 10 == n) by (nonlinear_arith);
        assert(n / 10 > 0) by (nonlinear_arith) requires n >= 10;
        assert(s[0] == decimal(n / 10)[0]);
        assert forall|i: int| 0 <= i < s.len() implies '0' <= #[trigger] s[i] <= '9' by {
            if i < s.len() - 1 {
                assert(s[i] == decimal(n / 10)[i]);
            }
        }
    }
}

}
