//! Log line extractor: pulls a port number and a shutdown token out of one
//! line of engine log text.
//!
//! A line that contains `http://127.0.0.1:` publishes the maximal run of
//! ASCII digits that follows the marker as the engine's port, provided the
//! run is non-empty and its value fits in sixteen bits.  A line that
//! contains `shutdown_token=` publishes the rest of the line, trimmed of
//! leading and trailing whitespace, as the shutdown token.  A line without
//! a marker publishes nothing; that is never an error.

use vstd::prelude::*;
use vstd::string::StrSliceExecFns;

verus! {

/// The literal that precedes the engine's port in a log line.
pub open spec fn port_marker() -> Seq<char> {
    "http://127.0.0.1:"@
}

/// The literal that precedes the shutdown token in a log line.
pub open spec fn token_marker() -> Seq<char> {
    "shutdown_token="@
}

/// `pat` occurs in `line` starting at position `i`.
pub open spec fn matches_at(line: Seq<char>, pat: Seq<char>, i: int) -> bool {
    &&& 0 <= i
    &&& i + pat.len() <= line.len()
    &&& line.subrange(i, i + pat.len()) == pat
}

/// Position of the first occurrence of `pat` in `line` at or after `from`.
pub open spec fn spec_find(line: Seq<char>, pat: Seq<char>, from: int) -> Option<int>
    decreases line.len() - from + 1,
{
    if from < 0 || from + pat.len() > line.len() {
        None
    } else if matches_at(line, pat, from) {
        Some(from)
    } else {
        spec_find(line, pat, from + 1)
    }
}

/// A found position is a first occurrence: it matches, and no position
/// before it (at or after `from`) does.
pub proof fn lemma_spec_find_some(line: Seq<char>, pat: Seq<char>, from: int, i: int)
    requires
        spec_find(line, pat, from) == Some(i),
    ensures
        from <= i,
        matches_at(line, pat, i),
        forall|j: int| from <= j < i ==> !matches_at(line, pat, j),
    decreases line.len() - from + 1,
{
    if from < 0 || from + pat.len() > line.len() {
    } else if matches_at(line, pat, from) {
    } else {
        lemma_spec_find_some(line, pat, from + 1, i);
    }
}

/// A match with nothing matching before it is exactly what the search finds.
pub proof fn lemma_spec_find_first(line: Seq<char>, pat: Seq<char>, from: int, i: int)
    requires
        0 <= from <= i,
        matches_at(line, pat, i),
        forall|j: int| from <= j < i ==> !matches_at(line, pat, j),
    ensures
        spec_find(line, pat, from) == Some(i),
    decreases i - from,
{
    if from < i {
        lemma_spec_find_first(line, pat, from + 1, i);
    }
}

/// `pat` matches `line` at position `i`, checked character by character.
fn pattern_matches_at(line: &str, pat: &str, i: usize, line_len: usize, pat_len: usize) -> (r: bool)
    requires
        line_len == line@.len(),
        pat_len == pat@.len(),
        i + pat_len <= line_len,
    ensures
        r == matches_at(line@, pat@, i as int),
{
    let mut j: usize = 0;
    while j < pat_len
        invariant
            line_len == line@.len(),
            pat_len == pat@.len(),
            i + pat_len <= line_len,
            j <= pat_len,
            forall|k: int| 0 <= k < j ==> line@[i + k] == pat@[k],
        decreases pat_len - j,
    {
        if line.get_char(i + j) != pat.get_char(j) {
            proof {
                assert(line@.subrange(i as int, i + pat@.len())[j as int] == line@[i + j]);
            }
            return false;
        }
        j += 1;
    }
    proof {
        assert(line@.subrange(i as int, i + pat@.len()) =~= pat@);
    }
    true
}

/// First occurrence of `pat` in `line`, scanning left to right.
pub(crate) fn find_pattern(line: &str, pat: &str) -> (r: Option<usize>)
    requires
        pat@.len() >= 1,
    ensures
        match r {
            Some(i) => spec_find(line@, pat@, 0) == Some(i as int),
            None => spec_find(line@, pat@, 0) is None,
        },
{
    let line_len = line.unicode_len();
    let pat_len = pat.unicode_len();
    if pat_len > line_len {
        return None;
    }
    let mut i: usize = 0;
    while i <= line_len - pat_len
        invariant
            line_len == line@.len(),
            pat_len == pat@.len(),
            1 <= pat_len <= line_len,
            i <= line_len - pat_len + 1,
            spec_find(line@, pat@, 0) == spec_find(line@, pat@, i as int),
        decreases line_len - i,
    {
        if pattern_matches_at(line, pat, i, line_len, pat_len) {
            return Some(i);
        }
        proof {
            assert(spec_find(line@, pat@, i as int) == spec_find(line@, pat@, i + 1));
        }
        i += 1;
    }
    None
}

/// `c` is one of the ten ASCII digits.
pub open spec fn is_ascii_digit_char(c: char) -> bool {
    48 <= c as u32 <= 57
}

/// Numeric value of one ASCII digit.
pub open spec fn digit_val(c: char) -> int {
    c as u32 - 48
}

/// Length of the maximal run of ASCII digits in `line` starting at `start`.
pub open spec fn digit_run_len(line: Seq<char>, start: int) -> int
    decreases line.len() - start when 0 <= start <= line.len()
{
    if start < line.len() && is_ascii_digit_char(line[start]) {
        1 + digit_run_len(line, start + 1)
    } else {
        0
    }
}

/// Value of a sequence of ASCII digits read as a decimal number.
pub open spec fn digits_value(ds: Seq<char>) -> int
    decreases ds.len(),
{
    if ds.len() == 0 {
        0
    } else {
        10 * digits_value(ds.drop_last()) + digit_val(ds.last())
    }
}

/// A run of exactly `end - start` digits bounded by a non-digit (or the end
/// of the line) is the maximal run.
pub proof fn lemma_digit_run_len_exact(line: Seq<char>, start: int, end: int)
    requires
        0 <= start <= end <= line.len(),
        forall|k: int| start <= k < end ==> is_ascii_digit_char(line[k]),
        end == line.len() || !is_ascii_digit_char(line[end]),
    ensures
        digit_run_len(line, start) == end - start,
    decreases end - start,
{
    if start < end {
        lemma_digit_run_len_exact(line, start + 1, end);
    }
}

/// The value of a digit sequence is no less than the value of any of its
/// prefixes: appending digits never shrinks the number.
proof fn lemma_digits_value_prefix_le(ds: Seq<char>, m: int)
    requires
        0 <= m <= ds.len(),
        forall|k: int| 0 <= k < ds.len() ==> is_ascii_digit_char(ds[k]),
        digits_value(ds.subrange(0, m)) >= 0,
    ensures
        digits_value(ds.subrange(0, m)) <= digits_value(ds),
    decreases ds.len() - m,
{
    if m == ds.len() {
        assert(ds.subrange(0, m) =~= ds);
    } else {
        assert(ds.subrange(0, m + 1).drop_last() =~= ds.subrange(0, m));
        assert(ds.subrange(0, m + 1).last() == ds[m]);
        lemma_digits_value_prefix_le(ds, m + 1);
    }
}

/// One step past the end of a digit run: where the maximal run in `line`
/// starts at `start` and ends before `end`.
fn digit_run_end(line: &str, start: usize, line_len: usize) -> (end: usize)
    requires
        line_len == line@.len(),
        start <= line_len,
    ensures
        start <= end <= line_len,
        digit_run_len(line@, start as int) == end - start,
        forall|j: int| start <= j < end ==> is_ascii_digit_char(line@[j]),
{
    let mut k = start;
    while k < line_len
        invariant
            line_len == line@.len(),
            start <= k <= line_len,
            forall|j: int| start <= j < k ==> is_ascii_digit_char(line@[j]),
        decreases line_len - k,
    {
        let u = line.get_char(k) as u32;
        if !(48 <= u && u <= 57) {
            proof {
                lemma_digit_run_len_exact(line@, start as int, k as int);
            }
            return k;
        }
        k += 1;
    }
    proof {
        lemma_digit_run_len_exact(line@, start as int, line_len as int);
    }
    k
}

/// Reads the digit run `line[start..end]` as a number; `None` when the
/// value does not fit in sixteen bits.
fn digits_to_u16(line: &str, start: usize, end: usize) -> (r: Option<u16>)
    requires
        start <= end <= line@.len(),
        forall|j: int| start <= j < end ==> is_ascii_digit_char(line@[j]),
    ensures
        match r {
            Some(p) => p == digits_value(line@.subrange(start as int, end as int)),
            None => digits_value(line@.subrange(start as int, end as int)) > u16::MAX,
        },
{
    let ghost ds = line@.subrange(start as int, end as int);
    let mut acc: u32 = 0;
    let mut k = start;
    while k < end
        invariant
            start <= k <= end <= line@.len(),
            forall|j: int| start <= j < end ==> is_ascii_digit_char(line@[j]),
            acc <= u16::MAX,
            acc == digits_value(line@.subrange(start as int, k as int)),
            ds == line@.subrange(start as int, end as int),
        decreases end - k,
    {
        let u = line.get_char(k) as u32;
        proof {
            assert(is_ascii_digit_char(line@[k as int]));
        }
        let next = acc * 10 + (u - 48);
        proof {
            assert(line@.subrange(start as int, k + 1).drop_last() =~= line@.subrange(
                start as int,
                k as int,
            ));
            assert(line@.subrange(start as int, k + 1).last() == line@[k as int]);
            assert(next == digits_value(line@.subrange(start as int, k + 1)));
        }
        if next > 65535 {
            proof {
                assert(line@.subrange(start as int, k + 1) =~= ds.subrange(0, k + 1 - start));
                lemma_digits_value_prefix_le(ds, k + 1 - start);
            }
            return None;
        }
        acc = next;
        k += 1;
    }
    Some(acc as u16)
}

/// The value of the maximal digit run in `line` starting at `start`, when
/// that run is non-empty and its value fits in sixteen bits.
pub open spec fn spec_u16_run_at(line: Seq<char>, start: int) -> Option<u16> {
    let n = digit_run_len(line, start);
    if n == 0 {
        None
    } else if digits_value(line.subrange(start, start + n)) <= u16::MAX {
        Some(digits_value(line.subrange(start, start + n)) as u16)
    } else {
        None
    }
}

/// Reads the maximal digit run starting at `start` per [`spec_u16_run_at`].
pub(crate) fn u16_run_at(line: &str, start: usize, line_len: usize) -> (r: Option<u16>)
    requires
        line_len == line@.len(),
        start <= line_len,
    ensures
        r == spec_u16_run_at(line@, start as int),
{
    let end = digit_run_end(line, start, line_len);
    if end == start {
        None
    } else {
        digits_to_u16(line, start, end)
    }
}

/// The port published by one line: the maximal digit run after the first
/// occurrence of [`port_marker`], when that run is non-empty and its value
/// fits in sixteen bits.
pub open spec fn spec_port_of_line(line: Seq<char>) -> Option<u16> {
    match spec_find(line, port_marker(), 0) {
        None => None,
        Some(i) => spec_u16_run_at(line, i + port_marker().len()),
    }
}

/// Pulls the engine's port out of one line of log text.
///
/// The result is exactly [`spec_port_of_line`] of the line: the digit run
/// following the first `http://127.0.0.1:`, absent when there is no marker,
/// no digit, or a value beyond `u16::MAX`.
pub fn parse_port_from_line(line: &str) -> (r: Option<u16>)
    ensures
        r == spec_port_of_line(line@),
{
    let marker: &str = "http://127.0.0.1:";
    proof {
        reveal_strlit("http://127.0.0.1:");
    }
    match find_pattern(line, marker) {
        None => None,
        Some(i) => {
            proof {
                lemma_spec_find_some(line@, marker@, 0, i as int);
            }
            let line_len = line.unicode_len();
            let start = i + marker.unicode_len();
            u16_run_at(line, start, line_len)
        },
    }
}

/// `c` is whitespace in the sense of the Unicode `White_Space` property,
/// the set that line trimming strips.
pub open spec fn is_space_char(c: char) -> bool {
    ||| 0x9 <= c as u32 <= 0xD
    ||| c == ' '
    ||| c == '\u{85}'
    ||| c == '\u{A0}'
    ||| c == '\u{1680}'
    ||| 0x2000 <= c as u32 <= 0x200A
    ||| c == '\u{2028}'
    ||| c == '\u{2029}'
    ||| c == '\u{202F}'
    ||| c == '\u{205F}'
    ||| c == '\u{3000}'
}

/// Exec check for [`is_space_char`].
fn is_space(c: char) -> (r: bool)
    ensures
        r == is_space_char(c),
{
    let u = c as u32;
    (9 <= u && u <= 13) || u == 0x20 || u == 0x85 || u == 0xA0 || u == 0x1680 || (0x2000 <= u
        && u <= 0x200A) || u == 0x2028 || u == 0x2029 || u == 0x202F || u == 0x205F || u == 0x3000
}

/// `s` with leading and trailing whitespace removed.
pub open spec fn spec_trim(s: Seq<char>) -> Seq<char>
    decreases s.len(),
{
    if s.len() == 0 {
        s
    } else if is_space_char(s[0]) {
        spec_trim(s.drop_first())
    } else if is_space_char(s.last()) {
        spec_trim(s.drop_last())
    } else {
        s
    }
}

/// Trimming keeps exactly the part between the leading and the trailing
/// whitespace.
proof fn lemma_trim_is_subrange(s: Seq<char>, lo: int, hi: int)
    requires
        0 <= lo <= hi <= s.len(),
        forall|j: int| 0 <= j < lo ==> is_space_char(s[j]),
        forall|j: int| hi <= j < s.len() ==> is_space_char(s[j]),
        lo < hi ==> !is_space_char(s[lo]) && !is_space_char(s[hi - 1]),
    ensures
        spec_trim(s) == s.subrange(lo, hi),
    decreases s.len(),
{
    if s.len() == 0 {
        assert(s.subrange(lo, hi) =~= s);
    } else if is_space_char(s[0]) {
        if lo == 0 {
            // The first character is whitespace, so nothing survives: hi == 0.
            lemma_trim_is_subrange(s.drop_first(), 0, 0);
            assert(s.subrange(0, 0) =~= s.drop_first().subrange(0, 0));
        } else {
            lemma_trim_is_subrange(s.drop_first(), lo - 1, hi - 1);
            assert(s.drop_first().subrange(lo - 1, hi - 1) =~= s.subrange(lo, hi));
        }
    } else if hi < s.len() {
        // lo == 0 here, and the last character is whitespace.
        assert(is_space_char(s.last()));
        lemma_trim_is_subrange(s.drop_last(), lo, hi);
        assert(s.drop_last().subrange(lo, hi) =~= s.subrange(lo, hi));
    } else {
        assert(s.subrange(0, s.len() as int) =~= s);
    }
}

/// A trimmed sequence has no whitespace at either edge.
pub proof fn lemma_spec_trim_clean(s: Seq<char>)
    ensures
        spec_trim(s).len() > 0 ==> !is_space_char(spec_trim(s)[0]),
        spec_trim(s).len() > 0 ==> !is_space_char(spec_trim(s).last()),
    decreases s.len(),
{
    if s.len() == 0 {
    } else if is_space_char(s[0]) {
        lemma_spec_trim_clean(s.drop_first());
    } else if is_space_char(s.last()) {
        lemma_spec_trim_clean(s.drop_last());
    }
}

/// Index of the first non-whitespace character at or after `start`.
fn skip_spaces_forward(line: &str, start: usize, line_len: usize) -> (lo: usize)
    requires
        line_len == line@.len(),
        start <= line_len,
    ensures
        start <= lo <= line_len,
        forall|j: int| start <= j < lo ==> is_space_char(line@[j]),
        lo < line_len ==> !is_space_char(line@[lo as int]),
{
    let mut k = start;
    while k < line_len
        invariant
            line_len == line@.len(),
            start <= k <= line_len,
            forall|j: int| start <= j < k ==> is_space_char(line@[j]),
        decreases line_len - k,
    {
        if !is_space(line.get_char(k)) {
            return k;
        }
        k += 1;
    }
    k
}

/// One past the index of the last non-whitespace character before `hi0`,
/// never moving below `lo`.
fn skip_spaces_backward(line: &str, lo: usize, hi0: usize) -> (hi: usize)
    requires
        lo <= hi0 <= line@.len(),
    ensures
        lo <= hi <= hi0,
        forall|j: int| hi <= j < hi0 ==> is_space_char(line@[j]),
        lo < hi ==> !is_space_char(line@[hi - 1]),
{
    let mut k = hi0;
    while k > lo
        invariant
            lo <= k <= hi0 <= line@.len(),
            forall|j: int| k <= j < hi0 ==> is_space_char(line@[j]),
        decreases k,
    {
        if !is_space(line.get_char(k - 1)) {
            return k;
        }
        k -= 1;
    }
    k
}

/// The token published by one line: everything after the first occurrence
/// of [`token_marker`], trimmed of leading and trailing whitespace.  An
/// empty remainder yields an empty — but present — token.
pub open spec fn spec_token_of_line(line: Seq<char>) -> Option<Seq<char>> {
    match spec_find(line, token_marker(), 0) {
        None => None,
        Some(i) => Some(spec_trim(line.subrange(i + token_marker().len(), line.len() as int))),
    }
}

/// Pulls the shutdown token out of one line of log text.
///
/// The result is exactly [`spec_token_of_line`] of the line: the trimmed
/// remainder after the first `shutdown_token=`, absent when there is no
/// marker.
pub fn parse_shutdown_token_from_line(line: &str) -> (r: Option<String>)
    ensures
        r.deep_view() == spec_token_of_line(line@),
{
    let marker: &str = "shutdown_token=";
    proof {
        reveal_strlit("shutdown_token=");
    }
    match find_pattern(line, marker) {
        None => None,
        Some(i) => {
            proof {
                lemma_spec_find_some(line@, marker@, 0, i as int);
            }
            let line_len = line.unicode_len();
            let start = i + marker.unicode_len();
            let lo = skip_spaces_forward(line, start, line_len);
            let hi = skip_spaces_backward(line, lo, line_len);
            let token = line.substring_char(lo, hi).to_owned();
            proof {
                let rest = line@.subrange(start as int, line_len as int);
                lemma_trim_is_subrange(rest, lo - start, hi - start);
                assert(rest.subrange(lo - start, hi - start) =~= line@.subrange(
                    lo as int,
                    hi as int,
                ));
            }
            Some(token)
        },
    }
}

/// Law: a line in which the port marker occurs nowhere publishes no port.
pub proof fn lemma_line_without_marker_yields_no_port(line: Seq<char>)
    requires
        forall|i: int| !matches_at(line, port_marker(), i),
    ensures
        spec_port_of_line(line) is None,
{
    match spec_find(line, port_marker(), 0) {
        None => {},
        Some(i) => {
            lemma_spec_find_some(line, port_marker(), 0, i);
        },
    }
}

/// Law: when the digit run after the first occurrence of the port marker
/// reads as `p`, the line publishes exactly the port `p`.  (A line whose
/// first marker is followed by no digit, or by a run beyond `u16::MAX`,
/// publishes none; those lines are excluded here.)
pub proof fn lemma_port_of_marked_line(line: Seq<char>, i: int, p: u16)
    requires
        matches_at(line, port_marker(), i),
        forall|j: int| 0 <= j < i ==> !matches_at(line, port_marker(), j),
        digit_run_len(line, i + port_marker().len()) > 0,
        digits_value(
            line.subrange(
                i + port_marker().len(),
                i + port_marker().len() + digit_run_len(line, i + port_marker().len()),
            ),
        ) == p,
    ensures
        spec_port_of_line(line) == Some(p),
{
    lemma_spec_find_first(line, port_marker(), 0, i);
}

/// Law: a token pulled out of a line carries no leading and no trailing
/// whitespace.
pub proof fn lemma_token_has_no_edge_whitespace(line: Seq<char>)
    ensures
        match spec_token_of_line(line) {
            Some(t) => t.len() > 0 ==> !is_space_char(t[0]) && !is_space_char(t.last()),
            None => true,
        },
{
    match spec_find(line, token_marker(), 0) {
        None => {},
        Some(i) => {
            lemma_spec_find_some(line, token_marker(), 0, i);
            lemma_spec_trim_clean(line.subrange(i + token_marker().len(), line.len() as int));
        },
    }
}

} // verus!
