//! The line classifier: decides whether a text line starts a question
//! (numeric marker), an answer option (alphabetic marker), or neither.
//!
//! A marker is, after trimming whitespace at both ends: an optional opening
//! parenthesis, a body of one to four non-whitespace characters, at most one
//! whitespace character, and a closing delimiter `)`, `.` or `-`. The verdict
//! is taken from the first character of the captured body.

use vstd::prelude::*;
use vstd::string::StrSliceExecFns;

use crate::chars::char_is_alphabetic;
use crate::chars::char_is_numeric;
use crate::chars::is_alphabetic_char;
use crate::chars::is_delim;
use crate::chars::is_delim_char;
use crate::chars::is_numeric_char;
use crate::chars::is_space;
use crate::chars::is_space_char;

verus! {

/// Classification of one text line.
#[derive(Clone, Copy, PartialEq, Eq, Structural, Debug)]
pub enum TextType {
    Numeric,
    Alphabetic,
    Undefined,
}

/// Index of the first character that is not whitespace (the length if all are).
pub open spec fn trim_start_index(s: Seq<char>) -> int
    decreases s.len(),
{
    if s.len() == 0 {
        0
    } else if is_space_char(s[0]) {
        1 + trim_start_index(s.drop_first())
    } else {
        0
    }
}

/// One past the index of the last character that is not whitespace (0 if all are).
pub open spec fn trim_end_index(s: Seq<char>) -> int
    decreases s.len(),
{
    if s.len() == 0 {
        0
    } else if is_space_char(s[s.len() - 1]) {
        trim_end_index(s.drop_last())
    } else {
        s.len() as int
    }
}

/// The sequence with leading and trailing whitespace removed, as `str::trim`
/// leaves it.
pub open spec fn trimmed(s: Seq<char>) -> Seq<char> {
    if trim_start_index(s) < trim_end_index(s) {
        s.subrange(trim_start_index(s), trim_end_index(s))
    } else {
        Seq::empty()
    }
}

pub proof fn lemma_trim_start_index(s: Seq<char>)
    ensures
        0 <= trim_start_index(s) <= s.len(),
        forall|k: int| 0 <= k < trim_start_index(s) ==> is_space_char(s[k]),
        trim_start_index(s) < s.len() ==> !is_space_char(s[trim_start_index(s)]),
    decreases s.len(),
{
    if s.len() == 0 {
    } else if is_space_char(s[0]) {
        lemma_trim_start_index(s.drop_first());
        assert forall|k: int| 0 <= k < trim_start_index(s) implies is_space_char(s[k]) by {
            if k > 0 {
                assert(s.drop_first()[k - 1] == s[k]);
            }
        }
        if trim_start_index(s) < s.len() {
            assert(s.drop_first()[trim_start_index(s) - 1] == s[trim_start_index(s)]);
        }
    } else {
    }
}

pub proof fn lemma_trim_end_index(s: Seq<char>)
    ensures
        0 <= trim_end_index(s) <= s.len(),
        forall|k: int| trim_end_index(s) <= k < s.len() ==> is_space_char(s[k]),
        trim_end_index(s) > 0 ==> !is_space_char(s[trim_end_index(s) - 1]),
    decreases s.len(),
{
    if s.len() == 0 {
    } else if is_space_char(s[s.len() - 1]) {
        lemma_trim_end_index(s.drop_last());
        assert forall|k: int| trim_end_index(s) <= k < s.len() implies is_space_char(s[k]) by {
            if k < s.len() - 1 {
                assert(s.drop_last()[k] == s[k]);
            }
        }
        if trim_end_index(s) > 0 {
            assert(s.drop_last()[trim_end_index(s) - 1] == s[trim_end_index(s) - 1]);
        }
    } else {
    }
}

/// The first non-whitespace position determines `trim_start_index`.
proof fn lemma_trim_start_unique(s: Seq<char>, lo: int)
    requires
        0 <= lo <= s.len(),
        forall|k: int| 0 <= k < lo ==> is_space_char(s[k]),
        lo < s.len() ==> !is_space_char(s[lo]),
    ensures
        trim_start_index(s) == lo,
{
    lemma_trim_start_index(s);
}

/// The last non-whitespace position determines `trim_end_index`.
proof fn lemma_trim_end_unique(s: Seq<char>, hi: int)
    requires
        0 <= hi <= s.len(),
        forall|k: int| hi <= k < s.len() ==> is_space_char(s[k]),
        hi > 0 ==> !is_space_char(s[hi - 1]),
    ensures
        trim_end_index(s) == hi,
{
    lemma_trim_end_index(s);
}

/// Whether a delimiter stands at position `j`.
pub open spec fn delim_at(t: Seq<char>, j: int) -> bool {
    0 <= j < t.len() && is_delim_char(t[j])
}

/// One way the marker can close from `start`: a body of `n` non-whitespace
/// characters, then the delimiter, with at most one whitespace character
/// between them.
pub open spec fn marker_body_matches(t: Seq<char>, start: int, n: int) -> bool {
    &&& 1 <= n <= 4
    &&& start + n <= t.len()
    &&& (forall|k: int| start <= k < start + n ==> !is_space_char(t[k]))
    &&& (delim_at(t, start + n) || (start + n < t.len() && is_space_char(t[start + n])
        && delim_at(t, start + n + 1)))
}

/// The marker's body and delimiter match beginning at `start`.
pub open spec fn marker_matches_from(t: Seq<char>, start: int) -> bool {
    exists|n: int| marker_body_matches(t, start, n)
}

/// Where the captured marker body begins in the trimmed line: behind the
/// opening parenthesis when one is present and the rest of the marker
/// matches after it, else at the very first character.
pub open spec fn capture_start(t: Seq<char>) -> int {
    if t.len() > 0 && t[0] == '(' && marker_matches_from(t, 1) {
        1
    } else {
        0
    }
}

/// Whether the trimmed line carries a marker at all.
pub open spec fn has_marker(t: Seq<char>) -> bool {
    marker_matches_from(t, capture_start(t))
}

/// Verdict taken from the character that opens a marker body.
pub open spec fn classify_char(c: char) -> TextType {
    if char_is_numeric(c) {
        TextType::Numeric
    } else if char_is_alphabetic(c) {
        TextType::Alphabetic
    } else {
        TextType::Undefined
    }
}

/// What `question_type` returns on a line whose trimmed text is `t`.
pub open spec fn line_class(t: Seq<char>) -> TextType {
    if has_marker(t) {
        classify_char(t[capture_start(t)])
    } else {
        TextType::Undefined
    }
}

/// What `question_type` returns on the raw line `s`.
pub open spec fn spec_question_type(s: Seq<char>) -> TextType {
    line_class(trimmed(s))
}

/// Law: the verdict depends only on the first character of the captured
/// marker body — two lines whose trimmed texts both carry a marker opening
/// with the same character are classified alike.
pub proof fn lemma_class_depends_on_capture_head(s1: Seq<char>, s2: Seq<char>)
    requires
        has_marker(trimmed(s1)),
        has_marker(trimmed(s2)),
        trimmed(s1)[capture_start(trimmed(s1))] == trimmed(s2)[capture_start(trimmed(s2))],
    ensures
        spec_question_type(s1) == spec_question_type(s2),
{
}

/// Law: a line whose trimmed text carries no marker is classified
/// `Undefined`.
pub proof fn lemma_no_marker_undefined(s: Seq<char>)
    requires
        !has_marker(trimmed(s)),
    ensures
        spec_question_type(s) == TextType::Undefined,
{
}

fn classify(c: char) -> (r: TextType)
    ensures
        r == classify_char(c),
{
    if is_numeric_char(c) {
        TextType::Numeric
    } else if is_alphabetic_char(c) {
        TextType::Alphabetic
    } else {
        TextType::Undefined
    }
}

/// The characters of `text` between the character positions `lo` and `hi`.
fn chars_between(text: &str, lo: usize, hi: usize) -> (v: Vec<char>)
    requires
        lo <= hi <= text@.len(),
    ensures
        v@ == text@.subrange(lo as int, hi as int),
{
    let mut v: Vec<char> = Vec::new();
    proof {
        assert(v@ =~= text@.subrange(lo as int, lo as int));
    }
    let mut i: usize = lo;
    while i < hi
        invariant
            lo <= i <= hi <= text@.len(),
            v@ == text@.subrange(lo as int, i as int),
        decreases hi - i,
    {
        let c = text.get_char(i);
        v.push(c);
        proof {
            assert(v@ =~= text@.subrange(lo as int, (i + 1) as int));
        }
        i = i + 1;
    }
    v
}

/// Decides `marker_matches_from` on the trimmed characters `t`.
fn marker_match_from(t: &Vec<char>, start: usize) -> (r: bool)
    requires
        start <= t@.len(),
    ensures
        r == marker_matches_from(t@, start as int),
{
    let len: usize = t.len();
    let mut n: usize = 0;
    while n < 4
        invariant
            n <= 4,
            start + n <= len,
            len == t@.len(),
            forall|k: int| start <= k < start + n ==> !is_space_char(t@[k]),
            forall|m: int| 1 <= m <= n ==> !marker_body_matches(t@, start as int, m),
        decreases 4 - n,
    {
        if len - start <= n {
            proof {
                assert forall|m: int| 1 <= m <= 4 implies !marker_body_matches(
                    t@,
                    start as int,
                    m,
                ) by {
                    if m > n {
                        assert(start + m > len);
                    }
                }
            }
            return false;
        }
        let c = t[start + n];
        if is_space(c) {
            proof {
                assert forall|m: int| 1 <= m <= 4 implies !marker_body_matches(
                    t@,
                    start as int,
                    m,
                ) by {
                    if m > n {
                        assert(is_space_char(t@[start + n]));
                    }
                }
            }
            return false;
        }
        n = n + 1;
        let j: usize = start + n;
        if j < len {
            if is_delim(t[j]) {
                proof {
                    assert(marker_body_matches(t@, start as int, n as int));
                }
                return true;
            }
            if is_space(t[j]) && j + 1 < len {
                if is_delim(t[j + 1]) {
                    proof {
                        assert(marker_body_matches(t@, start as int, n as int));
                    }
                    return true;
                }
            }
        }
        proof {
            assert(!marker_body_matches(t@, start as int, n as int));
        }
    }
    false
}

/// Classifies one OCR line. The verdict is `Numeric` or `Alphabetic` when,
/// after trimming whitespace, the line opens with a marker — an optional
/// `(`, one to four non-whitespace characters, an optional whitespace
/// character and a `)`, `.` or `-` delimiter — according to the first
/// captured character; `Undefined` on every other input.
pub fn question_type(text: &str) -> (r: TextType)
    ensures
        r == spec_question_type(text@),
{
    let n: usize = text.unicode_len();
    let mut lo: usize = 0;
    while lo < n && is_space(text.get_char(lo))
        invariant
            lo <= n == text@.len(),
            forall|k: int| 0 <= k < lo ==> is_space_char(text@[k]),
        decreases n - lo,
    {
        lo = lo + 1;
    }
    let mut hi: usize = n;
    while hi > lo && is_space(text.get_char(hi - 1))
        invariant
            lo <= hi <= n == text@.len(),
            forall|k: int| 0 <= k < lo ==> is_space_char(text@[k]),
            lo < n ==> !is_space_char(text@[lo as int]),
            forall|k: int| hi <= k < n ==> is_space_char(text@[k]),
        decreases hi,
    {
        hi = hi - 1;
    }
    proof {
        if lo < hi {
            lemma_trim_start_unique(text@, lo as int);
            lemma_trim_end_unique(text@, hi as int);
        } else {
            assert(lo == n);
            lemma_trim_start_unique(text@, lo as int);
            lemma_trim_end_unique(text@, 0);
        }
        assert(trimmed(text@) =~= text@.subrange(lo as int, hi as int));
    }
    let t = chars_between(text, lo, hi);
    if t.len() > 0 {
        let c0 = t[0];
        if c0 == '(' && marker_match_from(&t, 1) {
            proof {
                let m = choose|m: int| marker_body_matches(t@, 1, m);
                assert(1 + m <= t@.len() && 1 <= m);
            }
            return classify(t[1]);
        }
    }
    if marker_match_from(&t, 0) {
        proof {
            let m = choose|m: int| marker_body_matches(t@, 0, m);
            assert(m <= t@.len() && 1 <= m);
        }
        classify(t[0])
    } else {
        TextType::Undefined
    }
}

} // verus!
