//! Boundary types shared with the mappers that turn raw measurements into
//! judgments, and the boolean normalisation they rely on.
use vstd::prelude::*;
use vstd::string::StrSliceExecFns;

use crate::canonical::push_str;
use crate::clock::now_rfc3339;
use crate::text::{is_blank, is_whitespace_char, whitespace};

verus! {

/// The kinds of mapper.
#[derive(Debug, Clone, Copy, PartialEq, Eq, Structural)]
pub enum MapperType {
    /// Interpolates a number between falsity, indeterminacy and truth points.
    Numerical,
    /// Looks a category up, with an optional default.
    Categorical,
    /// Maps a boolean-like value.
    Boolean,
}

/// Errors reported by mappers.
#[derive(Debug, Clone)]
pub enum MapperError {
    Input { message: String },
    Validation { message: String },
    Configuration { message: String },
}

/// Errors in a raw mapper input.
#[derive(Debug, Clone)]
pub enum InputError {
    InvalidType { expected: String, actual: String },
    OutOfRange { value: String },
    InvalidFormat { message: String },
}

/// Outcome of checking a mapper configuration.
#[derive(Debug, Clone)]
pub struct ValidationResult {
    pub valid: bool,
    pub errors: Vec<String>,
}

/// The raw shapes a boolean mapper accepts.
#[derive(Debug, Clone)]
pub enum BooleanInput {
    Flag(bool),
    Integer(i32),
    Text(String),
}

/// The lowercase form of a text, as `str::to_lowercase` gives it.
pub uninterp spec fn lower_of(s: Seq<char>) -> Seq<char>;

/// Relies on `str::to_lowercase`: the result depends on the characters alone.
#[verifier::external_body]
fn lowercase(s: &str) -> (r: String)
    ensures
        r@ == lower_of(s@),
{
    s.to_lowercase()
}

pub open spec fn trim_start(s: Seq<char>) -> Seq<char>
    decreases s.len(),
{
    if s.len() > 0 && is_whitespace_char(s[0]) {
        trim_start(s.drop_first())
    } else {
        s
    }
}

pub open spec fn trim_end(s: Seq<char>) -> Seq<char>
    decreases s.len(),
{
    if s.len() > 0 && is_whitespace_char(s.last()) {
        trim_end(s.drop_last())
    } else {
        s
    }
}

/// The text without leading and trailing whitespace.
pub open spec fn trimmed(s: Seq<char>) -> Seq<char> {
    trim_end(trim_start(s))
}

fn trim_chars(s: &Vec<char>) -> (r: Vec<char>)
    ensures
        r@ == trimmed(s@),
{
    let n = s.len();
    let mut a: usize = 0;
    assert(s@.skip(0) =~= s@);
    while a < n && whitespace(s[a])
        invariant
            a <= n,
            n == s@.len(),
            trim_start(s@) == trim_start(s@.skip(a as int)),
        decreases n - a,
    {
        assert(s@.skip(a as int).drop_first() =~= s@.skip(a as int + 1));
        a = a + 1;
    }
    let ghost rest = s@.skip(a as int);
    assert(trim_start(s@) == rest);
    let mut b: usize = n;
    assert(s@.subrange(a as int, b as int) =~= rest);
    while b > a && whitespace(s[b - 1])
        invariant
            a <= b <= n,
            n == s@.len(),
            trim_end(rest) == trim_end(s@.subrange(a as int, b as int)),
        decreases b - a,
    {
        assert(s@.subrange(a as int, b as int).drop_last() =~= s@.subrange(a as int, b - 1));
        b = b - 1;
    }
    let mut out: Vec<char> = Vec::new();
    let mut k: usize = a;
    while k < b
        invariant
            a <= k <= b <= n,
            n == s@.len(),
            out@ == s@.subrange(a as int, k as int),
        decreases b - k,
    {
        out.push(s[k]);
        assert(s@.subrange(a as int, k as int + 1) =~= s@.subrange(a as int, k as int).push(
            s@[k as int],
        ));
        k = k + 1;
    }
    out
}

fn chars_equal(a: &Vec<char>, lit: &str) -> (r: bool)
    ensures
        r == (a@ == lit@),
{
    let n = lit.unicode_len();
    if a.len() != n {
        return false;
    }
    let mut k: usize = 0;
    while k < n
        invariant
            k <= n,
            n == lit@.len(),
            a@.len() == n,
            a@.subrange(0, k as int) == lit@.subrange(0, k as int),
        decreases n - k,
    {
        if a[k] != lit.get_char(k) {
            return false;
        }
        assert(a@.subrange(0, k as int + 1) =~= a@.subrange(0, k as int).push(a@[k as int]));
        assert(lit@.subrange(0, k as int + 1) =~= lit@.subrange(0, k as int).push(lit@[k as int]));
        k = k + 1;
    }
    assert(a@ =~= a@.subrange(0, n as int));
    assert(lit@ =~= lit@.subrange(0, n as int));
    true
}

/// Texts read as true.
pub open spec fn true_word(s: Seq<char>) -> bool {
    s == "true"@ || s == "yes"@ || s == "1"@ || s == "on"@ || s == "enabled"@
}

/// Texts read as false.
pub open spec fn false_word(s: Seq<char>) -> bool {
    s == "false"@ || s == "no"@ || s == "0"@ || s == "off"@ || s == "disabled"@
}

/// The normalised text of a boolean-like input: lowercased, then trimmed.
pub open spec fn boolean_text(s: Seq<char>) -> Seq<char> {
    trimmed(lower_of(s))
}

/// The boolean of a text once lowercased and trimmed, or a format error.
pub fn normalize_boolean_text(s: &str) -> (r: Result<bool, InputError>)
    ensures
        r matches Ok(b) ==> (b <==> true_word(boolean_text(s@))),
        r is Ok <==> true_word(boolean_text(s@)) || false_word(boolean_text(s@)),
        r matches Err(e) ==> e is InvalidFormat,
{
    proof {
        reveal_strlit("true");
        reveal_strlit("yes");
        reveal_strlit("1");
        reveal_strlit("on");
        reveal_strlit("enabled");
        reveal_strlit("false");
        reveal_strlit("no");
        reveal_strlit("0");
        reveal_strlit("off");
        reveal_strlit("disabled");
    }
    let lower = lowercase(s);
    let mut chars: Vec<char> = Vec::new();
    push_str(&mut chars, lower.as_str());
    let word = trim_chars(&chars);
    if chars_equal(&word, "true") || chars_equal(&word, "yes") || chars_equal(&word, "1")
        || chars_equal(&word, "on") || chars_equal(&word, "enabled") {
        Ok(true)
    } else if chars_equal(&word, "false") || chars_equal(&word, "no") || chars_equal(&word, "0")
        || chars_equal(&word, "off") || chars_equal(&word, "disabled") {
        Ok(false)
    } else {
        Err(
            InputError::InvalidFormat {
                message: "String input must be a valid boolean representation".to_owned(),
            },
        )
    }
}

/// Normalises a boolean-like input: a flag as it is, the integers 1 and 0,
/// or one of the words accepted by `normalize_boolean_text`.
pub fn normalize_boolean_input(input: &BooleanInput) -> (r: Result<bool, InputError>)
    ensures
        input is Flag ==> (r matches Ok(v) && v == input->Flag_0),
        input is Integer ==> (if input->Integer_0 == 1 {
            r matches Ok(v) && v
        } else if input->Integer_0 == 0 {
            r matches Ok(v) && !v
        } else {
            r matches Err(e) && e is InvalidFormat
        }),
        input is Text ==> (r is Ok <==> true_word(boolean_text(input->Text_0@)) || false_word(
            boolean_text(input->Text_0@),
        )),
        input is Text ==> (r matches Ok(v) ==> (v <==> true_word(boolean_text(input->Text_0@)))),
        input is Text ==> (r matches Err(e) ==> e is InvalidFormat),
{
    match input {
        BooleanInput::Flag(b) => Ok(*b),
        BooleanInput::Integer(n) => {
            if *n == 1 {
                Ok(true)
            } else if *n == 0 {
                Ok(false)
            } else {
                Err(
                    InputError::InvalidFormat {
                        message: "Integer input for BooleanMapper must be 0 or 1".to_owned(),
                    },
                )
            }
        },
        BooleanInput::Text(s) => {
            normalize_boolean_text(s.as_str())
        },
    }
}

/// The current time as ISO-8601 (RFC 3339) text, as provenance entries
/// record it; never blank.
pub fn create_timestamp() -> (r: String)
    ensures
        !is_blank(r@),
{
    now_rfc3339()
}

} // verus!
