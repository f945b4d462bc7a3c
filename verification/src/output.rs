//! Scanning the interpreter's standard output for the result line.
//!
//! The interpreter prints, among arbitrary other lines, at most one line
//! of the form `result=<number>` when the script computes a final value.
//! The gateway scans the captured output line by line and takes the
//! remainder of the first line whose prefix is the literal marker
//! `result=`; when no line carries the marker there is no value, which is
//! a normal outcome, not an error.
//!
//! Lines are split exactly as Rust's `str::lines` splits them: at each
//! `'\n'`, with a `'\r'` directly before the `'\n'` not counted as line
//! content, and with no empty line after a trailing `'\n'`.

use vstd::prelude::*;

verus! {

/// The literal marker that opens the line carrying the computed value.
pub open spec fn marker() -> Seq<char> {
    "result="@
}

/// The index of the first `'\n'` in `s`, or `s.len()` when there is none.
pub open spec fn first_newline(s: Seq<char>) -> nat
    decreases s.len(),
{
    if s.len() == 0 {
        0
    } else if s[0] == '\n' {
        0
    } else {
        1 + first_newline(s.skip(1))
    }
}

/// The content of the first line of `s`: everything before the first
/// `'\n'`, with a `'\r'` directly before that `'\n'` stripped as well.
pub open spec fn line_content(s: Seq<char>) -> Seq<char> {
    let p = first_newline(s) as int;
    if p < s.len() && p >= 1 && s[p - 1] == '\r' {
        s.take(p - 1)
    } else {
        s.take(p)
    }
}

/// Whether a line carries the marker as its prefix.
pub open spec fn has_marker(line: Seq<char>) -> bool {
    line.len() >= marker().len() && line.take(marker().len() as int) == marker()
}

/// What a marker line carries: its content after the marker.
pub open spec fn line_payload(line: Seq<char>) -> Seq<char> {
    line.skip(marker().len() as int)
}

/// The value extracted from an output text: the payload of the first
/// marker line, or nothing when no line carries the marker.
pub open spec fn spec_extract(s: Seq<char>) -> Option<Seq<char>>
    decreases s.len(),
{
    let p = first_newline(s);
    let line = line_content(s);
    if has_marker(line) {
        Some(line_payload(line))
    } else if p >= s.len() {
        None
    } else {
        spec_extract(s.skip(p as int + 1))
    }
}

/// The lines of an output text, split as `str::lines` splits them.
pub open spec fn spec_lines(s: Seq<char>) -> Seq<Seq<char>>
    decreases s.len(),
{
    if s.len() == 0 {
        Seq::empty()
    } else {
        let p = first_newline(s);
        if p >= s.len() {
            seq![line_content(s)]
        } else {
            seq![line_content(s)] + spec_lines(s.skip(p as int + 1))
        }
    }
}

/// The payload of the first marker line of a line sequence, if any.
pub open spec fn find_marker(lines: Seq<Seq<char>>) -> Option<Seq<char>>
    decreases lines.len(),
{
    if lines.len() == 0 {
        None
    } else if has_marker(lines[0]) {
        Some(line_payload(lines[0]))
    } else {
        find_marker(lines.skip(1))
    }
}

/// `first_newline` is the least index holding `'\n'`, or the length.
pub proof fn lemma_first_newline_bounds(s: Seq<char>)
    ensures
        first_newline(s) <= s.len(),
        forall|i: int| 0 <= i < first_newline(s) ==> s[i] != '\n',
        first_newline(s) < s.len() ==> s[first_newline(s) as int] == '\n',
    decreases s.len(),
{
    if s.len() == 0 {
    } else if s[0] == '\n' {
    } else {
        lemma_first_newline_bounds(s.skip(1));
        assert forall|i: int| 0 <= i < first_newline(s) implies s[i] != '\n' by {
            if i >= 1 {
                assert(s.skip(1)[i - 1] == s[i]);
            }
        }
        if first_newline(s) < s.len() {
            assert(s.skip(1)[first_newline(s) - 1] == s[first_newline(s) as int]);
        }
    }
}

/// Whether the text of `pat` stands in `s` at position `pos`.
pub(crate) fn text_matches_at(s: &str, pos: usize, pat: &str) -> (b: bool)
    requires
        pos <= s@.len(),
    ensures
        b == (s@.len() - pos >= pat@.len() && s@.subrange(
            pos as int,
            pos + pat@.len(),
        ) == pat@),
{
    let n = s.unicode_len();
    let m = pat.unicode_len();
    if n - pos < m {
        return false;
    }
    let mut k: usize = 0;
    while k < m
        invariant
            0 <= k <= m,
            pos + m <= n,
            n == s@.len(),
            m == pat@.len(),
            forall|t: int| 0 <= t < k ==> s@[pos + t] == pat@[t],
        decreases m - k,
    {
        if s.get_char(pos + k) != pat.get_char(k) {
            proof {
                assert(s@.subrange(pos as int, pos + m as int) == pat@ ==> s@.subrange(
                    pos as int,
                    pos + m as int,
                )[k as int] == pat@[k as int]);
                assert(s@.subrange(pos as int, pos + m as int)[k as int] == s@[pos + k]);
            }
            return false;
        }
        k += 1;
    }
    proof {
        assert(s@.subrange(pos as int, pos + m as int) =~= pat@);
    }
    true
}

/// Scans an interpreter output for the first line whose prefix is the
/// marker `result=` and returns that line's remainder; returns nothing
/// when no line starts with the marker, which is a normal outcome.
pub fn extract_result(output: &str) -> (r: Option<String>)
    ensures
        r matches Some(v) ==> spec_extract(output@) == Some(v@),
        r is None ==> spec_extract(output@) is None,
{
    let n = output.unicode_len();
    let mut pos: usize = 0;
    proof {
        assert(output@.skip(0) =~= output@);
    }
    loop
        invariant
            0 <= pos <= n,
            n == output@.len(),
            spec_extract(output@) == spec_extract(output@.skip(pos as int)),
        decreases n - pos,
    {
        let ghost suffix = output@.skip(pos as int);
        // Find the end of the line that starts at `pos`.
        let mut j: usize = pos;
        loop
            invariant
                pos <= j <= n,
                n == output@.len(),
                forall|k: int| pos <= k < j ==> output@[k] != '\n',
            ensures
                pos <= j <= n,
                forall|k: int| pos <= k < j ==> output@[k] != '\n',
                j == n || output@[j as int] == '\n',
            decreases n - j,
        {
            if j == n {
                break;
            }
            if output.get_char(j) == '\n' {
                break;
            }
            j += 1;
        }
        proof {
            assert forall|i: int| 0 <= i < j - pos implies suffix[i] != '\n' by {
                assert(suffix[i] == output@[pos + i]);
            }
            if j < n {
                assert(suffix[j - pos] == output@[j as int]);
            }
            lemma_first_newline_at(suffix, j - pos);
        }
        // The line's content: strip a '\r' standing directly before the '\n'.
        let content_end: usize = if j < n && j > pos && output.get_char(j - 1) == '\r' {
            proof {
                assert(suffix[j - 1 - pos] == output@[j - 1]);
            }
            j - 1
        } else {
            j
        };
        proof {
            assert(line_content(suffix) =~= output@.subrange(pos as int, content_end as int));
        }
        if text_matches_at(output, pos, "result=") {
            proof {
                reveal_strlit("result=");
                let line = line_content(suffix);
                // None of the marker's characters is '\n' or a final '\r',
                // so the line is at least as long as the marker.
                assert(output@[pos + 6] == marker()[6]);
                assert(line.take(7) =~= marker());
                assert(line_payload(line) =~= output@.subrange(pos + 7, content_end as int));
            }
            let payload = output.substring_char(pos + 7, content_end);
            return Some(String::from_str(payload));
        }
        proof {
            reveal_strlit("result=");
            let line = line_content(suffix);
            if has_marker(line) {
                assert forall|t: int| 0 <= t < 7 implies output@.subrange(
                    pos as int,
                    pos + 7,
                )[t] == marker()[t] by {
                    assert(line.take(7)[t] == marker()[t]);
                }
                assert(output@.subrange(pos as int, pos + 7) =~= marker());
            }
        }
        if j == n {
            return None;
        }
        proof {
            assert(suffix.skip(j - pos + 1) =~= output@.skip(j + 1));
        }
        pos = j + 1;
    }
}

/// Any index below which no `'\n'` stands, and which holds `'\n'` or is
/// the length, is `first_newline`.
pub proof fn lemma_first_newline_at(s: Seq<char>, k: int)
    requires
        0 <= k <= s.len(),
        forall|i: int| 0 <= i < k ==> s[i] != '\n',
        k == s.len() || s[k] == '\n',
    ensures
        first_newline(s) == k,
{
    lemma_first_newline_bounds(s);
    let p = first_newline(s) as int;
    if p < k {
        assert(s[p] != '\n');
    }
    if k < p {
        assert(s[k] != '\n');
    }
}

/// Extraction is exactly the first-marker search over the output's lines.
pub proof fn lemma_extract_is_find_marker(s: Seq<char>)
    ensures
        spec_extract(s) == find_marker(spec_lines(s)),
    decreases s.len(),
{
    reveal_strlit("result=");
    lemma_first_newline_bounds(s);
    let p = first_newline(s) as int;
    if s.len() == 0 {
        assert(line_content(s) =~= Seq::<char>::empty());
        assert(!has_marker(line_content(s)));
        assert(spec_lines(s) =~= Seq::<Seq<char>>::empty());
        assert(find_marker(spec_lines(s)) is None);
        assert(spec_extract(s) is None);
    } else if p >= s.len() {
        let ls = spec_lines(s);
        assert(ls == seq![line_content(s)]);
        assert(ls[0] == line_content(s));
        assert(ls.skip(1) =~= Seq::<Seq<char>>::empty());
        if has_marker(line_content(s)) {
            assert(spec_extract(s) == Some(line_payload(line_content(s))));
            assert(find_marker(ls) == Some(line_payload(ls[0])));
        } else {
            assert(spec_extract(s) is None);
            assert(find_marker(ls.skip(1)) is None);
            assert(find_marker(ls) is None);
        }
    } else {
        lemma_extract_is_find_marker(s.skip(p + 1));
        let ls = spec_lines(s);
        assert(ls[0] == line_content(s));
        assert(ls.skip(1) =~= spec_lines(s.skip(p + 1)));
    }
}

proof fn lemma_find_marker_at(lines: Seq<Seq<char>>, i: int)
    requires
        0 <= i < lines.len(),
        has_marker(lines[i]),
        forall|j: int| 0 <= j < i ==> !has_marker(lines[j]),
    ensures
        find_marker(lines) == Some(line_payload(lines[i])),
    decreases lines.len(),
{
    if i == 0 {
    } else {
        assert(!has_marker(lines[0]));
        assert forall|j: int| 0 <= j < i - 1 implies !has_marker(lines.skip(1)[j]) by {
            assert(lines.skip(1)[j] == lines[j + 1]);
        }
        assert(lines.skip(1)[i - 1] == lines[i]);
        lemma_find_marker_at(lines.skip(1), i - 1);
    }
}

proof fn lemma_find_marker_none(lines: Seq<Seq<char>>)
    requires
        forall|j: int| 0 <= j < lines.len() ==> !has_marker(lines[j]),
    ensures
        find_marker(lines) is None,
    decreases lines.len(),
{
    if lines.len() == 0 {
    } else {
        assert(!has_marker(lines[0]));
        assert forall|j: int| 0 <= j < lines.len() - 1 implies !has_marker(lines.skip(1)[j]) by {
            assert(lines.skip(1)[j] == lines[j + 1]);
        }
        lemma_find_marker_none(lines.skip(1));
    }
}

/// When several lines start with the marker, only the first is honored:
/// the extracted value is the remainder of the earliest marker line,
/// whatever the lines before and after it hold.
pub proof fn lemma_first_marker_line_wins(s: Seq<char>, i: int)
    requires
        0 <= i < spec_lines(s).len(),
        has_marker(spec_lines(s)[i]),
        forall|j: int| 0 <= j < i ==> !has_marker(spec_lines(s)[j]),
    ensures
        spec_extract(s) == Some(line_payload(spec_lines(s)[i])),
{
    lemma_extract_is_find_marker(s);
    lemma_find_marker_at(spec_lines(s), i);
}

/// When exactly one line starts with the marker, the extracted value is
/// that line's remainder, independent of every other line of the output.
pub proof fn lemma_single_marker_line(s: Seq<char>, i: int)
    requires
        0 <= i < spec_lines(s).len(),
        has_marker(spec_lines(s)[i]),
        forall|j: int| 0 <= j < spec_lines(s).len() && j != i ==> !has_marker(spec_lines(s)[j]),
    ensures
        spec_extract(s) == Some(line_payload(spec_lines(s)[i])),
{
    lemma_first_marker_line_wins(s, i);
}

proof fn lemma_find_marker_some_iff(lines: Seq<Seq<char>>)
    ensures
        find_marker(lines) is Some <==> exists|i: int|
            0 <= i < lines.len() && has_marker(lines[i]),
    decreases lines.len(),
{
    if lines.len() == 0 {
    } else if has_marker(lines[0]) {
    } else {
        lemma_find_marker_some_iff(lines.skip(1));
        if exists|i: int| 0 <= i < lines.len() && has_marker(lines[i]) {
            let i = choose|i: int| 0 <= i < lines.len() && has_marker(lines[i]);
            assert(lines.skip(1)[i - 1] == lines[i]);
        }
        if exists|i: int| 0 <= i < lines.skip(1).len() && has_marker(lines.skip(1)[i]) {
            let i = choose|i: int| 0 <= i < lines.skip(1).len() && has_marker(lines.skip(1)[i]);
            assert(lines.skip(1)[i] == lines[i + 1]);
        }
    }
}

/// A value is extracted exactly when some line starts with the marker:
/// extraction never fails on marker-free output and never invents a
/// value, whatever else the output holds.
pub proof fn lemma_value_iff_marker_line(s: Seq<char>)
    ensures
        spec_extract(s) is Some <==> exists|i: int|
            0 <= i < spec_lines(s).len() && has_marker(spec_lines(s)[i]),
{
    lemma_extract_is_find_marker(s);
    lemma_find_marker_some_iff(spec_lines(s));
}

/// When no line starts with the marker, extraction yields no value --
/// never an error, and never a value from somewhere else in the output.
pub proof fn lemma_no_marker_no_value(s: Seq<char>)
    requires
        forall|j: int| 0 <= j < spec_lines(s).len() ==> !has_marker(spec_lines(s)[j]),
    ensures
        spec_extract(s) is None,
{
    lemma_extract_is_find_marker(s);
    lemma_find_marker_none(spec_lines(s));
}

} // verus!
