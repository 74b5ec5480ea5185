//! Character-level helpers shared by validation and canonical encoding.
use vstd::prelude::*;
use vstd::string::StrSliceExecFns;

verus! {

/// The Unicode `White_Space` property, as `char::is_whitespace` defines it.
pub open spec fn is_whitespace_char(c: char) -> bool {
    ||| ('\u{9}' <= c && c <= '\u{d}')
    ||| c == ' '
    ||| c == '\u{85}'
    ||| c == '\u{a0}'
    ||| c == '\u{1680}'
    ||| ('\u{2000}' <= c && c <= '\u{200a}')
    ||| c == '\u{2028}'
    ||| c == '\u{2029}'
    ||| c == '\u{202f}'
    ||| c == '\u{205f}'
    ||| c == '\u{3000}'
}

/// A text is blank when it is empty or made of whitespace alone.
pub open spec fn is_blank(s: Seq<char>) -> bool {
    forall|k: int| 0 <= k < s.len() ==> is_whitespace_char(#[trigger] s[k])
}

pub(crate) fn whitespace(c: char) -> (r: bool)
    ensures
        r == is_whitespace_char(c),
{
    ('\u{9}' <= c && c <= '\u{d}') || c == ' ' || c == '\u{85}' || c == '\u{a0}' || c == '\u{1680}'
        || ('\u{2000}' <= c && c <= '\u{200a}') || c == '\u{2028}' || c == '\u{2029}' || c
        == '\u{202f}' || c == '\u{205f}' || c == '\u{3000}'
}

/// Tells whether `s` holds nothing but whitespace.
pub fn is_blank_str(s: &str) -> (r: bool)
    ensures
        r == is_blank(s@),
{
    let n = s.unicode_len();
    let mut k: usize = 0;
    while k < n
        invariant
            n == s@.len(),
            k <= n,
            is_blank(s@.subrange(0, k as int)),
        decreases n - k,
    {
        let c = s.get_char(k);
        if !whitespace(c) {
            return false;
        }
        assert(is_blank(s@.subrange(0, k as int + 1))) by {
            assert forall|m: int| 0 <= m < k + 1 implies is_whitespace_char(
                #[trigger] s@.subrange(0, k as int + 1)[m],
            ) by {
                if m < k {
                    assert(s@.subrange(0, k as int + 1)[m] == s@.subrange(0, k as int)[m]);
                }
            }
        }
        k = k + 1;
    }
    assert(s@.subrange(0, n as int) =~= s@);
    true
}

} // verus!
