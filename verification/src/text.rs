//! Character classification and plain string scanning helpers.
//!
//! Everything here works at the level of characters: a `&str` is read through
//! its view `Seq<char>`, and all positions and lengths count characters, not
//! bytes.

use vstd::prelude::*;

verus! {

// ---------------------------------------------------------------------------
// Word characters
// ---------------------------------------------------------------------------

/// Whether `char::is_alphanumeric` returns true of `c`: whether `c` is a
/// Unicode letter or digit.
pub uninterp spec fn char_is_alphanumeric(c: char) -> bool;

/// Relies on `char::is_alphanumeric`: whether `c` has one of the Unicode
/// letter or number general categories.  The result depends on the character
/// alone.
#[verifier::external_body]
pub(crate) fn alphanumeric(c: char) -> (r: bool)
    ensures
        r == char_is_alphanumeric(c),
{
    c.is_alphanumeric()
}

/// A character that may appear in a marker name: alphanumeric or underscore.
pub open spec fn is_word_char(c: char) -> bool {
    c == '_' || char_is_alphanumeric(c)
}

pub(crate) fn word_char(c: char) -> (r: bool)
    ensures
        r == is_word_char(c),
{
    c == '_' || alphanumeric(c)
}

// ---------------------------------------------------------------------------
// Literal occurrence at a position
// ---------------------------------------------------------------------------

/// `pat` occurs in `text` starting exactly at position `i`.
pub open spec fn seq_matches_at(text: Seq<char>, pat: Seq<char>, i: int) -> bool {
    &&& 0 <= i
    &&& i + pat.len() <= text.len()
    &&& text.subrange(i, i + pat.len()) == pat
}

pub(crate) fn str_matches_at(text: &str, pat: &str, i: usize) -> (r: bool)
    ensures
        r == seq_matches_at(text@, pat@, i as int),
{
    let n = text.unicode_len();
    let m = pat.unicode_len();
    if i > n || m > n - i {
        return false;
    }
    let mut j: usize = 0;
    while j < m
        invariant
            n == text@.len(),
            m == pat@.len(),
            i + m <= n,
            0 <= j <= m,
            forall|k: int| 0 <= k < j ==> text@[i + k] == pat@[k],
        decreases m - j,
    {
        if text.get_char(i + j) != pat.get_char(j) {
            proof {
                assert(text@.subrange(i as int, i + m)[j as int] == text@[i + j]);
            }
            return false;
        }
        j += 1;
    }
    proof {
        assert(text@.subrange(i as int, i + m) =~= pat@);
    }
    true
}

// ---------------------------------------------------------------------------
// Character runs
// ---------------------------------------------------------------------------

/// The end of the run of spaces that starts at `i`: the first position at or
/// after `i` holding a character other than `' '`, or the end of `text`.
pub open spec fn space_run_end(text: Seq<char>, i: int) -> int
    decreases text.len() - i,
{
    if 0 <= i < text.len() && text[i] == ' ' {
        space_run_end(text, i + 1)
    } else {
        i
    }
}

pub proof fn lemma_space_run_end(text: Seq<char>, i: int)
    requires
        0 <= i <= text.len(),
    ensures
        i <= space_run_end(text, i) <= text.len(),
        forall|k: int| i <= k < space_run_end(text, i) ==> text[k] == ' ',
        space_run_end(text, i) < text.len() ==> text[space_run_end(text, i)] != ' ',
    decreases text.len() - i,
{
    if 0 <= i < text.len() && text[i] == ' ' {
        lemma_space_run_end(text, i + 1);
    }
}

pub(crate) fn space_run(text: &str, i: usize) -> (j: usize)
    requires
        i <= text@.len(),
    ensures
        j == space_run_end(text@, i as int),
        i <= j <= text@.len(),
{
    let n = text.unicode_len();
    let mut j: usize = i;
    while j < n && text.get_char(j) == ' '
        invariant
            n == text@.len(),
            i <= j <= n,
            space_run_end(text@, i as int) == space_run_end(text@, j as int),
        decreases n - j,
    {
        j += 1;
    }
    j
}

/// The end of the run of word characters that starts at `i`.
pub open spec fn word_run_end(text: Seq<char>, i: int) -> int
    decreases text.len() - i,
{
    if 0 <= i < text.len() && is_word_char(text[i]) {
        word_run_end(text, i + 1)
    } else {
        i
    }
}

pub proof fn lemma_word_run_end(text: Seq<char>, i: int)
    requires
        0 <= i <= text.len(),
    ensures
        i <= word_run_end(text, i) <= text.len(),
        forall|k: int| i <= k < word_run_end(text, i) ==> is_word_char(text[k]),
        word_run_end(text, i) < text.len() ==> !is_word_char(text[word_run_end(text, i)]),
    decreases text.len() - i,
{
    if 0 <= i < text.len() && is_word_char(text[i]) {
        lemma_word_run_end(text, i + 1);
    }
}

pub(crate) fn word_run(text: &str, i: usize) -> (j: usize)
    requires
        i <= text@.len(),
    ensures
        j == word_run_end(text@, i as int),
        i <= j <= text@.len(),
{
    let n = text.unicode_len();
    let mut j: usize = i;
    while j < n && word_char(text.get_char(j))
        invariant
            n == text@.len(),
            i <= j <= n,
            word_run_end(text@, i as int) == word_run_end(text@, j as int),
        decreases n - j,
    {
        j += 1;
    }
    j
}

// ---------------------------------------------------------------------------
// Owned copies and comparisons
// ---------------------------------------------------------------------------

/// An owned copy of the characters of `text` in the range `[i, j)`.
pub(crate) fn copy_range(text: &str, i: usize, j: usize) -> (s: String)
    requires
        i <= j <= text@.len(),
    ensures
        s@ == text@.subrange(i as int, j as int),
{
    text.substring_char(i, j).to_owned()
}

pub(crate) fn str_eq(a: &str, b: &str) -> (r: bool)
    ensures
        r == (a@ == b@),
{
    let n = a.unicode_len();
    let m = b.unicode_len();
    if n != m {
        return false;
    }
    let mut j: usize = 0;
    while j < n
        invariant
            n == a@.len(),
            n == b@.len(),
            0 <= j <= n,
            forall|k: int| 0 <= k < j ==> a@[k] == b@[k],
        decreases n - j,
    {
        if a.get_char(j) != b.get_char(j) {
            return false;
        }
        j += 1;
    }
    proof {
        assert(a@ =~= b@);
    }
    true
}

// ---------------------------------------------------------------------------
// Splitting text into lines
// ---------------------------------------------------------------------------

/// The position of the first `'\n'` at or after `i`, or the length of `text`
/// if there is none.
pub open spec fn line_break(text: Seq<char>, i: int) -> int
    decreases text.len() - i,
{
    if 0 <= i < text.len() && text[i] != '\n' {
        line_break(text, i + 1)
    } else {
        i
    }
}

pub proof fn lemma_line_break(text: Seq<char>, i: int)
    requires
        0 <= i <= text.len(),
    ensures
        i <= line_break(text, i) <= text.len(),
        forall|k: int| i <= k < line_break(text, i) ==> text[k] != '\n',
        line_break(text, i) < text.len() ==> text[line_break(text, i)] == '\n',
    decreases text.len() - i,
{
    if 0 <= i < text.len() && text[i] != '\n' {
        lemma_line_break(text, i + 1);
    }
}

/// A line with its trailing carriage return removed, if it has one.
pub open spec fn strip_cr(line: Seq<char>) -> Seq<char> {
    if line.len() > 0 && line[line.len() - 1] == '\r' {
        line.drop_last()
    } else {
        line
    }
}

/// The lines of `text`: pieces delimited by `'\n'`, each stripped of a
/// carriage return that immediately preceded the line feed.  A final piece
/// with no line ending is kept as it stands; a trailing line ending adds no
/// empty final line.
pub open spec fn spec_lines(text: Seq<char>) -> Seq<Seq<char>>
    decreases text.len(),
{
    if text.len() == 0 {
        Seq::empty()
    } else {
        let j = line_break(text, 0);
        if j == text.len() {
            seq![text]
        } else {
            proof {
                lemma_line_break(text, 0);
            }
            seq![strip_cr(text.subrange(0, j))] + spec_lines(
                text.subrange(j + 1, text.len() as int),
            )
        }
    }
}

fn find_line_break(text: &str) -> (j: usize)
    ensures
        j == line_break(text@, 0),
        j <= text@.len(),
{
    let n = text.unicode_len();
    let mut j: usize = 0;
    while j < n && text.get_char(j) != '\n'
        invariant
            n == text@.len(),
            0 <= j <= n,
            line_break(text@, 0) == line_break(text@, j as int),
        decreases n - j,
    {
        j += 1;
    }
    j
}

/// Splits `text` into its lines, as `str::lines` does: `'\n'` delimits lines,
/// a `'\r'` immediately before a `'\n'` is dropped with it, and a trailing
/// line ending produces no final empty line.
pub(crate) fn split_lines(text: &str) -> (lines: Vec<String>)
    ensures
        lines@.map_values(|l: String| l@) == spec_lines(text@),
{
    let mut out: Vec<String> = Vec::new();
    let mut rest: &str = text;
    loop
        invariant
            spec_lines(text@) == out@.map_values(|l: String| l@) + spec_lines(rest@),
        ensures
            out@.map_values(|l: String| l@) == spec_lines(text@),
        decreases rest@.len(),
    {
        let n = rest.unicode_len();
        if n == 0 {
            proof {
                assert(spec_lines(rest@) =~= Seq::<Seq<char>>::empty());
                assert(out@.map_values(|l: String| l@) + spec_lines(rest@) =~= out@.map_values(
                    |l: String| l@,
                ));
            }
            break;
        }
        let j = find_line_break(rest);
        proof {
            lemma_line_break(rest@, 0);
        }
        if j == n {
            let ghost old_out = out@;
            let ghost old_rest = rest@;
            out.push(rest.to_owned());
            proof {
                assert(spec_lines(old_rest) =~= seq![old_rest]);
                assert(out@.map_values(|l: String| l@) =~= old_out.map_values(|l: String| l@)
                    + spec_lines(old_rest));
                assert(out@.map_values(|l: String| l@) + spec_lines(""@) =~= out@.map_values(
                    |l: String| l@,
                )) by {
                    reveal_strlit("");
                }
            }
            rest = "";
            break;
        } else {
            let end = if j > 0 && rest.get_char(j - 1) == '\r' {
                j - 1
            } else {
                j
            };
            let piece = copy_range(rest, 0, end);
            let ghost old_out = out@;
            let ghost old_rest = rest@;
            out.push(piece);
            let next = rest.substring_char(j + 1, n);
            proof {
                assert(piece@ =~= strip_cr(old_rest.subrange(0, j as int)));
                assert(out@.map_values(|l: String| l@) =~= old_out.map_values(|l: String| l@)
                    + seq![strip_cr(old_rest.subrange(0, j as int))]);
                assert(spec_lines(old_rest) == seq![strip_cr(old_rest.subrange(0, j as int))]
                    + spec_lines(next@));
                assert(out@.map_values(|l: String| l@) + spec_lines(next@) =~= old_out.map_values(
                    |l: String| l@,
                ) + spec_lines(old_rest));
            }
            rest = next;
        }
    }
    out
}

} // verus!
