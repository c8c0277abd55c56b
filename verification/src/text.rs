//! Text operations: trimming, lowercasing, regular-expression captures and
//! decimal numbers.
use vstd::prelude::*;
use vstd::string::StringExecFns;

verus! {

/// What `str::trim` gives for a text (Unicode `White_Space` removed at both ends).
pub uninterp spec fn str_trim(text: Seq<char>) -> Seq<char>;

/// What `str::to_lowercase` gives for a text (Unicode lowercase mapping).
pub uninterp spec fn str_to_lowercase(text: Seq<char>) -> Seq<char>;

/// The capture groups (group 0 first) of the first match of a regular
/// expression in a text, as the `regex` crate finds them; a group that did not
/// take part in the match is empty. `None` when nothing matches or the pattern
/// is not a valid regular expression.
pub uninterp spec fn regex_captures(pattern: Seq<char>, text: Seq<char>) -> Option<Seq<Seq<char>>>;

/// Calls `str::trim`; its result is named `str_trim`.
#[verifier::external_body]
pub(crate) fn trim<'a>(text: &'a str) -> (r: &'a str)
    ensures
        r@ == str_trim(text@),
{
    text.trim()
}

/// Calls `str::to_lowercase`; its result is named `str_to_lowercase`.
#[verifier::external_body]
pub(crate) fn to_lowercase(text: &str) -> (r: String)
    ensures
        r@ == str_to_lowercase(text@),
{
    text.to_lowercase()
}

/// Calls `regex::Regex::new` on the pattern and `Regex::captures` on the text.
/// The groups that come back are named `regex_captures`; nothing more is claimed
/// of them.
#[verifier::external_body]
pub(crate) fn captures_of(pattern: &str, text: &str) -> (r: Option<Vec<String>>)
    ensures
        match r {
            Some(groups) => regex_captures(pattern@, text@) == Some(
                groups@.map_values(|g: String| g@),
            ),
            None => regex_captures(pattern@, text@) is None,
        },
{
    let re = regex::Regex::new(pattern).ok()?;
    re.captures(text).map(
        |c| c.iter().map(|g| g.map_or(String::new(), |g| g.as_str().to_string())).collect(),
    )
}

/// Whether two texts are the same.
pub fn text_equals(a: &str, b: &str) -> (r: bool)
    ensures
        r == (a@ == b@),
{
    String::from_str(a) == String::from_str(b)
}

pub open spec fn digit_char(d: int) -> char {
    if d == 0 {
        '0'
    } else if d == 1 {
        '1'
    } else if d == 2 {
        '2'
    } else if d == 3 {
        '3'
    } else if d == 4 {
        '4'
    } else if d == 5 {
        '5'
    } else if d == 6 {
        '6'
    } else if d == 7 {
        '7'
    } else if d == 8 {
        '8'
    } else {
        '9'
    }
}

/// Decimal digits of a natural number, without leading zeros.
pub open spec fn natural_text(n: nat) -> Seq<char>
    decreases n,
{
    if n < 10 {
        seq![digit_char(n as int)]
    } else {
        natural_text(n / 10).push(digit_char((n % 10) as int))
    }
}

/// Decimal text of an integer, with a leading '-' when it is negative.
pub open spec fn integer_text(n: int) -> Seq<char> {
    if n < 0 {
        seq!['-'] + natural_text((-n) as nat)
    } else {
        natural_text(n as nat)
    }
}

fn digit_str(d: u64) -> (s: &'static str)
    requires
        d < 10,
    ensures
        s@ == seq![digit_char(d as int)],
{
    if d == 0 {
        proof {
            reveal_strlit("0");
        }
        "0"
    } else if d == 1 {
        proof {
            reveal_strlit("1");
        }
        "1"
    } else if d == 2 {
        proof {
            reveal_strlit("2");
        }
        "2"
    } else if d == 3 {
        proof {
            reveal_strlit("3");
        }
        "3"
    } else if d == 4 {
        proof {
            reveal_strlit("4");
        }
        "4"
    } else if d == 5 {
        proof {
            reveal_strlit("5");
        }
        "5"
    } else if d == 6 {
        proof {
            reveal_strlit("6");
        }
        "6"
    } else if d == 7 {
        proof {
            reveal_strlit("7");
        }
        "7"
    } else if d == 8 {
        proof {
            reveal_strlit("8");
        }
        "8"
    } else {
        proof {
            reveal_strlit("9");
        }
        "9"
    }
}

fn append_natural(out: &mut String, n: u64)
    ensures
        final(out)@ == old(out)@ + natural_text(n as nat),
    decreases n,
{
    if n >= 10 {
        append_natural(out, n / 10);
        out.append(digit_str(n % 10));
        assert(natural_text(n as nat) == natural_text((n / 10) as nat).push(
            digit_char((n % 10) as int),
        ));
    } else {
        out.append(digit_str(n));
    }
}

/// Appends the decimal text of `n` (as `{}` formats an integer) to `out`.
pub fn append_integer(out: &mut String, n: i32)
    ensures
        final(out)@ == old(out)@ + integer_text(n as int),
{
    if n < 0 {
        proof {
            reveal_strlit("-");
        }
        out.append("-");
        let magnitude: u64 = (-(n as i64)) as u64;
        append_natural(out, magnitude);
    } else {
        append_natural(out, n as u64);
    }
}

} // verus!
