//! Small text utilities shared by the scanner and the parser: character
//! classification, decimal rendering of line numbers, and the construction
//! of located error messages.

use vstd::prelude::*;
use vstd::string::StrSliceExecFns;
use vstd::string::StringExecFns;

verus! {

/// The decimal digit characters.
pub open spec fn is_digit_char(c: char) -> bool {
    48 <= c as u32 && c as u32 <= 57
}

/// Letters and the underscore, the characters that may start an identifier.
pub open spec fn is_alpha_char(c: char) -> bool {
    ||| (97 <= c as u32 && c as u32 <= 122)
    ||| (65 <= c as u32 && c as u32 <= 90)
    ||| c == '_'
}

/// The characters that may continue an identifier.
pub open spec fn is_alnum_char(c: char) -> bool {
    is_alpha_char(c) || is_digit_char(c)
}

/// The digit character for a value below ten.
pub open spec fn spec_digit_char(d: int) -> char {
    if d == 0 { '0' }
    else if d == 1 { '1' }
    else if d == 2 { '2' }
    else if d == 3 { '3' }
    else if d == 4 { '4' }
    else if d == 5 { '5' }
    else if d == 6 { '6' }
    else if d == 7 { '7' }
    else if d == 8 { '8' }
    else { '9' }
}

/// The usual decimal rendering of a number, most significant digit first.
pub open spec fn dec_digits(n: nat) -> Seq<char>
    decreases n,
{
    if n < 10 {
        seq![spec_digit_char(n as int)]
    } else {
        dec_digits(n / 10).push(spec_digit_char(n as int % 10))
    }
}

/// A lexical error record: `Line <n>: <message>`.
pub open spec fn spec_line_error(line: nat, msg: Seq<char>) -> Seq<char> {
    "Line "@ + dec_digits(line) + ": "@ + msg
}

/// A parse error: `Error at <line>: <message>`.
pub open spec fn spec_parse_error(line: nat, msg: Seq<char>) -> Seq<char> {
    "Error at "@ + dec_digits(line) + ": "@ + msg
}

fn digit_str(d: usize) -> (r: &'static str)
    requires
        d < 10,
    ensures
        r@ == seq![spec_digit_char(d as int)],
{
    proof {
        reveal_strlit("0");
        reveal_strlit("1");
        reveal_strlit("2");
        reveal_strlit("3");
        reveal_strlit("4");
        reveal_strlit("5");
        reveal_strlit("6");
        reveal_strlit("7");
        reveal_strlit("8");
        reveal_strlit("9");
    }
    let r = match d {
        0 => "0",
        1 => "1",
        2 => "2",
        3 => "3",
        4 => "4",
        5 => "5",
        6 => "6",
        7 => "7",
        8 => "8",
        _ => "9",
    };
    proof {
        assert(r@ =~= seq![spec_digit_char(d as int)]);
    }
    r
}

/// Appends the decimal rendering of `n` to `s`.
pub fn push_dec(s: &mut String, n: usize)
    ensures
        final(s)@ == old(s)@ + dec_digits(n as nat),
    decreases n,
{
    if n >= 10 {
        push_dec(s, n / 10);
    }
    s.append(digit_str(n % 10));
    proof {
        assert(s@ =~= old(s)@ + dec_digits(n as nat));
    }
}

/// Relies on `String::push`: it appends exactly the given character.
#[verifier::external_body]
pub(crate) fn push_char(s: &mut String, c: char)
    ensures
        final(s)@ == old(s)@.push(c),
{
    s.push(c);
}

/// Builds the error record `Line <line>: <message>`.
pub fn line_error(line: usize, message: &str) -> (r: String)
    ensures
        r@ == spec_line_error(line as nat, message@),
{
    let mut r = String::new();
    r.append("Line ");
    push_dec(&mut r, line);
    r.append(": ");
    r.append(message);
    proof {
        assert(r@ =~= spec_line_error(line as nat, message@));
    }
    r
}

/// Builds the error message `Error at <line>: <message>`.
pub fn parse_error(line: usize, message: &str) -> (r: String)
    ensures
        r@ == spec_parse_error(line as nat, message@),
{
    let mut r = String::new();
    r.append("Error at ");
    push_dec(&mut r, line);
    r.append(": ");
    r.append(message);
    proof {
        assert(r@ =~= spec_parse_error(line as nat, message@));
    }
    r
}

/// Character-for-character string comparison.
pub fn str_eq(a: &str, b: &str) -> (r: bool)
    ensures
        r == (a@ == b@),
{
    let n = a.unicode_len();
    if n != b.unicode_len() {
        proof {
            assert(a@ != b@) by {
                if a@ == b@ {
                    assert(a@.len() == b@.len());
                }
            }
        }
        return false;
    }
    let mut i: usize = 0;
    while i < n
        invariant
            n == a@.len(),
            n == b@.len(),
            i <= n,
            forall|j: int| 0 <= j < i ==> a@[j] == b@[j],
        decreases n - i,
    {
        if a.get_char(i) != b.get_char(i) {
            return false;
        }
        i += 1;
    }
    proof {
        assert(a@ =~= b@);
    }
    true
}

/// Whether `c` is a decimal digit; mirrors `is_digit_char`.
pub fn is_digit(c: char) -> (r: bool)
    ensures
        r == is_digit_char(c),
{
    c as u32 >= 48 && c as u32 <= 57
}

/// Whether `c` may start an identifier; mirrors `is_alpha_char`.
pub fn is_alpha(c: char) -> (r: bool)
    ensures
        r == is_alpha_char(c),
{
    (c as u32 >= 97 && c as u32 <= 122) || (c as u32 >= 65 && c as u32 <= 90) || c == '_'
}

/// Whether `c` may continue an identifier; mirrors `is_alnum_char`.
pub fn is_alpha_numeric(c: char) -> (r: bool)
    ensures
        r == is_alnum_char(c),
{
    is_alpha(c) || is_digit(c)
}

} // verus!
