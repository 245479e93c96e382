//! The parser: compiles a [`Syntax`](crate::syntax::Syntax) and two operator
//! keywords into two marker patterns, and classifies each source line of a
//! template text as raw text, an inline-parameter line, or a reference line.
//!
//! A marker pattern matches, at a position in a line: the open tag, any run
//! of spaces, an optional `(optional-operator)` group, the `(operator)`
//! group, a non-empty run of word characters (the name), any run of spaces,
//! and the close tag.  An inline-parameter line is one holding at least one
//! occurrence of the parameter pattern; occurrences are scanned left to
//! right, each occurrence starting at the first position at or after the end
//! of the previous one.  A reference line is matched against the pattern
//! occurrence starting at the last possible position, with all text before it
//! captured as `left` and all text after it as `right`.

use vstd::prelude::*;

use crate::syntax::Syntax;
use crate::syntax::SyntaxView;
use crate::template::Line;
use crate::template::LineView;
use crate::template::ParametersLineToken;
use crate::template::Template;
use crate::template::TokenView;
use crate::template::has_parameter_token;
use crate::template::line_wf;
use crate::text::copy_range;
use crate::text::lemma_space_run_end;
use crate::text::lemma_word_run_end;
use crate::text::seq_matches_at;
use crate::text::space_run;
use crate::text::space_run_end;
use crate::text::spec_lines;
use crate::text::split_lines;
use crate::text::str_matches_at;
use crate::text::word_run;
use crate::text::word_run_end;

verus! {

// ---------------------------------------------------------------------------
// Pattern shapes
// ---------------------------------------------------------------------------

/// The ghost shape of a compiled marker pattern.
pub struct MarkerPatternView {
    pub open_tag: Seq<char>,
    pub optional_group: Seq<char>,
    pub operator_group: Seq<char>,
    pub close_tag: Seq<char>,
}

/// The ghost shape of a compiled parser: its two marker patterns.
pub struct ParserView {
    pub parameter: MarkerPatternView,
    pub reference: MarkerPatternView,
}

/// An operator keyword wrapped in parentheses, as it appears in a marker.
pub open spec fn group_of(operator: Seq<char>) -> Seq<char> {
    seq!['('] + operator + seq![')']
}

/// The marker pattern derived from a syntax and one operator keyword.
pub open spec fn pattern_of(syntax: SyntaxView, operator: Seq<char>) -> MarkerPatternView {
    MarkerPatternView {
        open_tag: syntax.open_tag,
        optional_group: group_of(syntax.optional_operator),
        operator_group: group_of(operator),
        close_tag: syntax.close_tag,
    }
}

/// The parser compiled from a syntax and the two operator keywords.
pub open spec fn parser_of(
    syntax: SyntaxView,
    parameter_operator: Seq<char>,
    reference_operator: Seq<char>,
) -> ParserView {
    ParserView {
        parameter: pattern_of(syntax, parameter_operator),
        reference: pattern_of(syntax, reference_operator),
    }
}

// ---------------------------------------------------------------------------
// Matching one marker occurrence
// ---------------------------------------------------------------------------

/// One matched marker occurrence: its optionality flag, its captured name,
/// and the position just past its close tag.
pub struct MarkerMatch {
    pub is_optional: bool,
    pub name: Seq<char>,
    pub end: int,
}

/// The name and close-tag part of a marker, starting at position `b` (just
/// past the operator group): a non-empty run of word characters, a run of
/// spaces, then the close tag.
pub open spec fn match_marker_name(
    line: Seq<char>,
    pat: MarkerPatternView,
    is_optional: bool,
    b: int,
) -> Option<MarkerMatch> {
    let c = word_run_end(line, b);
    if c == b {
        None
    } else {
        let d = space_run_end(line, c);
        if seq_matches_at(line, pat.close_tag, d) {
            Some(
                MarkerMatch {
                    is_optional,
                    name: line.subrange(b, c),
                    end: d + pat.close_tag.len(),
                },
            )
        } else {
            None
        }
    }
}

/// The marker occurrence starting exactly at position `i` of `line`, if the
/// pattern matches there.  The optional group is taken when it is followed by
/// the operator group; otherwise the operator group must stand directly after
/// the spaces.
pub open spec fn match_marker_at(line: Seq<char>, pat: MarkerPatternView, i: int) -> Option<
    MarkerMatch,
> {
    if !seq_matches_at(line, pat.open_tag, i) {
        None
    } else {
        let a = space_run_end(line, i + pat.open_tag.len());
        if seq_matches_at(line, pat.optional_group, a) && seq_matches_at(
            line,
            pat.operator_group,
            a + pat.optional_group.len(),
        ) {
            match_marker_name(
                line,
                pat,
                true,
                a + pat.optional_group.len() + pat.operator_group.len(),
            )
        } else if seq_matches_at(line, pat.operator_group, a) {
            match_marker_name(line, pat, false, a + pat.operator_group.len())
        } else {
            None
        }
    }
}

pub proof fn lemma_match_marker_at_bounds(line: Seq<char>, pat: MarkerPatternView, i: int)
    requires
        0 <= i <= line.len(),
        match_marker_at(line, pat, i) is Some,
    ensures
        i < match_marker_at(line, pat, i)->Some_0.end <= line.len(),
{
    lemma_space_run_end(line, i + pat.open_tag.len());
    let a = space_run_end(line, i + pat.open_tag.len());
    if seq_matches_at(line, pat.optional_group, a) && seq_matches_at(
        line,
        pat.operator_group,
        a + pat.optional_group.len(),
    ) {
        let b = a + pat.optional_group.len() + pat.operator_group.len();
        lemma_word_run_end(line, b);
        lemma_space_run_end(line, word_run_end(line, b));
    } else {
        let b = a + pat.operator_group.len();
        lemma_word_run_end(line, b);
        lemma_space_run_end(line, word_run_end(line, b));
    }
}

// ---------------------------------------------------------------------------
// Scanning a line
// ---------------------------------------------------------------------------

/// The first position at or after `i` where the pattern matches, or `None`
/// if it matches nowhere at or after `i`.
pub open spec fn first_marker_from(line: Seq<char>, pat: MarkerPatternView, i: int) -> Option<int>
    decreases line.len() - i,
{
    if i < 0 || i >= line.len() {
        None
    } else if match_marker_at(line, pat, i) is Some {
        Some(i)
    } else {
        first_marker_from(line, pat, i + 1)
    }
}

pub proof fn lemma_first_marker_from(line: Seq<char>, pat: MarkerPatternView, i: int)
    requires
        0 <= i,
    ensures
        match first_marker_from(line, pat, i) {
            Some(m) => {
                &&& i <= m < line.len()
                &&& match_marker_at(line, pat, m) is Some
                &&& forall|k: int| i <= k < m ==> match_marker_at(line, pat, k) is None
            },
            None => forall|k: int|
                i <= k < line.len() ==> match_marker_at(line, pat, k) is None,
        },
    decreases line.len() - i,
{
    if i < line.len() && match_marker_at(line, pat, i) is None {
        lemma_first_marker_from(line, pat, i + 1);
    }
}

/// The tokens of an inline-parameter line, scanned from position `i`: for
/// each occurrence, the literal text since the previous occurrence (when
/// non-empty) and the parameter itself; after the last occurrence, one final
/// literal token holding the rest of the line, even when empty.
pub open spec fn scan_params_from(line: Seq<char>, pat: MarkerPatternView, i: int) -> Seq<
    TokenView,
>
    decreases line.len() - i,
    when 0 <= i <= line.len()
{
    match first_marker_from(line, pat, i) {
        None => seq![TokenView::Raw { value: line.subrange(i, line.len() as int) }],
        Some(m) => {
            proof {
                lemma_first_marker_from(line, pat, i);
                lemma_match_marker_at_bounds(line, pat, m);
            }
            let mm = match_marker_at(line, pat, m)->Some_0;
            let param = TokenView::Parameter { is_optional: mm.is_optional, name: mm.name };
            let rest = scan_params_from(line, pat, mm.end);
            if m > i {
                seq![TokenView::Raw { value: line.subrange(i, m) }] + seq![param] + rest
            } else {
                seq![param] + rest
            }
        },
    }
}

/// The last position before `i` where the pattern matches, or `None`.
pub open spec fn last_marker_before(line: Seq<char>, pat: MarkerPatternView, i: int) -> Option<int>
    decreases i,
{
    if i <= 0 {
        None
    } else if match_marker_at(line, pat, i - 1) is Some {
        Some(i - 1)
    } else {
        last_marker_before(line, pat, i - 1)
    }
}

pub proof fn lemma_last_marker_before(line: Seq<char>, pat: MarkerPatternView, i: int)
    ensures
        match last_marker_before(line, pat, i) {
            Some(m) => {
                &&& 0 <= m < i
                &&& match_marker_at(line, pat, m) is Some
                &&& forall|k: int| m < k < i ==> match_marker_at(line, pat, k) is None
            },
            None => forall|k: int| 0 <= k < i ==> match_marker_at(line, pat, k) is None,
        },
    decreases i,
{
    if i > 0 && match_marker_at(line, pat, i - 1) is None {
        lemma_last_marker_before(line, pat, i - 1);
    }
}

// ---------------------------------------------------------------------------
// Classifying lines
// ---------------------------------------------------------------------------

/// The classification of one source line, in order: an inline-parameter line
/// when the parameter pattern occurs anywhere in it; else a reference line
/// when the reference pattern spans it; else raw text.
pub open spec fn spec_classify(p: ParserView, line: Seq<char>) -> LineView {
    if first_marker_from(line, p.parameter, 0) is Some {
        LineView::Parameters { tokens: scan_params_from(line, p.parameter, 0) }
    } else {
        match last_marker_before(line, p.reference, line.len() as int) {
            Some(m) => {
                let mm = match_marker_at(line, p.reference, m)->Some_0;
                LineView::Reference {
                    left: if m > 0 {
                        Some(line.subrange(0, m))
                    } else {
                        None
                    },
                    is_optional: mm.is_optional,
                    name: mm.name,
                    right: if mm.end < line.len() {
                        Some(line.subrange(mm.end, line.len() as int))
                    } else {
                        None
                    },
                }
            },
            None => LineView::Raw { value: line },
        }
    }
}

/// The parse of a whole template text: its lines, classified in order.
pub open spec fn spec_parse(p: ParserView, text: Seq<char>) -> Seq<LineView> {
    spec_lines(text).map_values(|l: Seq<char>| spec_classify(p, l))
}

// ---------------------------------------------------------------------------
// The executable parser
// ---------------------------------------------------------------------------

/// A compiled marker pattern: the open tag, the two parenthesised groups,
/// and the close tag, held as plain strings.
#[derive(Debug)]
struct MarkerPattern {
    open_tag: String,
    optional_group: String,
    operator_group: String,
    close_tag: String,
}

impl View for MarkerPattern {
    type V = MarkerPatternView;

    closed spec fn view(&self) -> MarkerPatternView {
        MarkerPatternView {
            open_tag: self.open_tag@,
            optional_group: self.optional_group@,
            operator_group: self.operator_group@,
            close_tag: self.close_tag@,
        }
    }
}

/// One matched marker occurrence, as the executable scanner reports it.
struct MarkerHit {
    is_optional: bool,
    name: String,
    end: usize,
}

/// Whether `h` reports exactly the occurrence `mm`.
spec fn hit_matches(h: MarkerHit, mm: MarkerMatch) -> bool {
    &&& h.is_optional == mm.is_optional
    &&& h.name@ == mm.name
    &&& h.end == mm.end
}

fn wrap_operator(operator: &str) -> (g: String)
    ensures
        g@ == group_of(operator@),
{
    let mut g = String::new();
    g.append("(");
    g.append(operator);
    g.append(")");
    proof {
        reveal_strlit("(");
        reveal_strlit(")");
        assert(g@ =~= group_of(operator@));
    }
    g
}

fn match_marker(line: &str, pat: &MarkerPattern, i: usize) -> (r: Option<MarkerHit>)
    requires
        i <= line@.len(),
    ensures
        match match_marker_at(line@, pat@, i as int) {
            Some(mm) => r matches Some(h) && hit_matches(h, mm),
            None => r is None,
        },
{
    let n = line.unicode_len();
    if !str_matches_at(line, pat.open_tag.as_str(), i) {
        return None;
    }
    let open_len = pat.open_tag.unicode_len();
    let a = space_run(line, i + open_len);
    let optional_len = pat.optional_group.unicode_len();
    let operator_len = pat.operator_group.unicode_len();
    let take_optional = str_matches_at(line, pat.optional_group.as_str(), a) && str_matches_at(
        line,
        pat.operator_group.as_str(),
        a + optional_len,
    );
    let (is_optional, b) = if take_optional {
        (true, a + optional_len + operator_len)
    } else if str_matches_at(line, pat.operator_group.as_str(), a) {
        (false, a + operator_len)
    } else {
        return None;
    };
    let c = word_run(line, b);
    if c == b {
        return None;
    }
    let d = space_run(line, c);
    if !str_matches_at(line, pat.close_tag.as_str(), d) {
        return None;
    }
    let close_len = pat.close_tag.unicode_len();
    Some(MarkerHit { is_optional, name: copy_range(line, b, c), end: d + close_len })
}

fn find_first_marker(line: &str, pat: &MarkerPattern, from: usize) -> (r: Option<(usize, MarkerHit)>)
    requires
        from <= line@.len(),
    ensures
        match first_marker_from(line@, pat@, from as int) {
            Some(m) => {
                &&& r matches Some(p)
                &&& p.0 == m
                &&& hit_matches(p.1, match_marker_at(line@, pat@, m)->Some_0)
            },
            None => r is None,
        },
{
    let n = line.unicode_len();
    let mut m: usize = from;
    while m < n
        invariant
            n == line@.len(),
            from <= m <= n,
            first_marker_from(line@, pat@, from as int) == first_marker_from(
                line@,
                pat@,
                m as int,
            ),
        decreases n - m,
    {
        let hit = match_marker(line, pat, m);
        match hit {
            Some(h) => {
                return Some((m, h));
            },
            None => {
                m += 1;
            },
        }
    }
    None
}

fn find_last_marker(line: &str, pat: &MarkerPattern) -> (r: Option<(usize, MarkerHit)>)
    ensures
        match last_marker_before(line@, pat@, line@.len() as int) {
            Some(m) => {
                &&& r matches Some(p)
                &&& p.0 == m
                &&& hit_matches(p.1, match_marker_at(line@, pat@, m)->Some_0)
            },
            None => r is None,
        },
{
    let n = line.unicode_len();
    let mut i: usize = n;
    while i > 0
        invariant
            n == line@.len(),
            0 <= i <= n,
            last_marker_before(line@, pat@, n as int) == last_marker_before(
                line@,
                pat@,
                i as int,
            ),
        decreases i,
    {
        let hit = match_marker(line, pat, i - 1);
        match hit {
            Some(h) => {
                return Some((i - 1, h));
            },
            None => {
                i -= 1;
            },
        }
    }
    None
}

/// The parser: the two marker patterns compiled from a syntax and the two
/// operator keywords.  Immutable once constructed; one parser may parse any
/// number of template texts.
#[derive(Debug)]
pub struct Parser {
    parameter_pattern: MarkerPattern,
    reference_pattern: MarkerPattern,
}

impl View for Parser {
    type V = ParserView;

    closed spec fn view(&self) -> ParserView {
        ParserView { parameter: self.parameter_pattern@, reference: self.reference_pattern@ }
    }
}

impl Parser {
    fn compile(syntax: &Syntax, parameter_operator: &str, reference_operator: &str) -> (p: Parser)
        ensures
            p@ == parser_of(syntax@, parameter_operator@, reference_operator@),
    {
        Parser {
            parameter_pattern: MarkerPattern {
                open_tag: syntax.open_tag().to_owned(),
                optional_group: wrap_operator(syntax.optional_operator()),
                operator_group: wrap_operator(parameter_operator),
                close_tag: syntax.close_tag().to_owned(),
            },
            reference_pattern: MarkerPattern {
                open_tag: syntax.open_tag().to_owned(),
                optional_group: wrap_operator(syntax.optional_operator()),
                operator_group: wrap_operator(reference_operator),
                close_tag: syntax.close_tag().to_owned(),
            },
        }
    }

    /// Builds a parser from a syntax and the two operator keywords.
    /// Compiling the patterns cannot fail: every syntax string is taken
    /// literally, so the result is always `Ok`.
    pub fn from_syntax(
        syntax: &Syntax,
        parameter_operator: &str,
        reference_operator: &str,
    ) -> (r: Result<Parser, String>)
        ensures
            r is Ok,
            r->Ok_0@ == parser_of(syntax@, parameter_operator@, reference_operator@),
    {
        Ok(Self::compile(syntax, parameter_operator, reference_operator))
    }

    /// Classifies one source line.
    fn classify_line(&self, line: &str) -> (l: Line)
        ensures
            l@ == spec_classify(self@, line@),
            line_wf(l@),
    {
        let ghost pv = self.parameter_pattern@;
        let n = line.unicode_len();
        let first = find_first_marker(line, &self.parameter_pattern, 0);
        match first {
            Some((first_pos, first_hit)) => {
                let mut tokens: Vec<ParametersLineToken> = Vec::new();
                let mut s: usize = 0;
                let mut cur: Option<(usize, MarkerHit)> = Some((first_pos, first_hit));
                let ghost whole = scan_params_from(line@, pv, 0);
                loop
                    invariant_except_break
                        (match cur {
                            Some(p) => {
                                &&& first_marker_from(line@, pv, s as int) == Some(p.0 as int)
                                &&& hit_matches(
                                    p.1,
                                    match_marker_at(line@, pv, p.0 as int)->Some_0,
                                )
                            },
                            None => first_marker_from(line@, pv, s as int) is None,
                        }),
                        whole == tokens@.map_values(|t: ParametersLineToken| t@)
                            + scan_params_from(line@, pv, s as int),
                    invariant
                        self.parameter_pattern@ == pv,
                        n == line@.len(),
                        0 <= s <= n,
                        whole == scan_params_from(line@, pv, 0),
                        first_marker_from(line@, pv, 0) is Some,
                    ensures
                        whole == tokens@.map_values(|t: ParametersLineToken| t@),
                        tokens@.len() > 0,
                        has_parameter_token(whole),
                    decreases n - s,
                {
                    let ghost toks_before = tokens@;
                    let ghost suffix = scan_params_from(line@, pv, s as int);
                    match cur {
                        Some((m, h)) => {
                            proof {
                                lemma_first_marker_from(line@, pv, s as int);
                                lemma_match_marker_at_bounds(line@, pv, m as int);
                            }
                            if m > s {
                                tokens.push(
                                    ParametersLineToken::Raw { value: copy_range(line, s, m) },
                                );
                            }
                            let end = h.end;
                            tokens.push(
                                ParametersLineToken::Parameter {
                                    is_optional: h.is_optional,
                                    name: h.name,
                                },
                            );
                            proof {
                                let ghost mm = match_marker_at(line@, pv, m as int)->Some_0;
                                assert(scan_params_from(line@, pv, s as int) == (if m > s {
                                    seq![TokenView::Raw { value: line@.subrange(s as int, m as int) }]
                                        + seq![
                                        TokenView::Parameter {
                                            is_optional: mm.is_optional,
                                            name: mm.name,
                                        },
                                    ] + scan_params_from(line@, pv, mm.end)
                                } else {
                                    seq![
                                        TokenView::Parameter {
                                            is_optional: mm.is_optional,
                                            name: mm.name,
                                        },
                                    ] + scan_params_from(line@, pv, mm.end)
                                }));
                                assert(tokens@.map_values(|t: ParametersLineToken| t@)
                                    + scan_params_from(line@, pv, end as int) =~= toks_before.map_values(
                                    |t: ParametersLineToken| t@,
                                ) + suffix);
                            }
                            s = end;
                            cur = find_first_marker(line, &self.parameter_pattern, s);
                        },
                        None => {
                            tokens.push(
                                ParametersLineToken::Raw { value: copy_range(line, s, n) },
                            );
                            proof {
                                assert(scan_params_from(line@, pv, s as int) =~= seq![
                                    TokenView::Raw {
                                        value: line@.subrange(s as int, line@.len() as int),
                                    },
                                ]);
                                assert(tokens@.map_values(|t: ParametersLineToken| t@)
                                    =~= toks_before.map_values(|t: ParametersLineToken| t@)
                                    + suffix);
                                lemma_scan_params_has_parameter(line@, pv, 0);
                            }
                            break;
                        },
                    }
                }
                Line::Parameters { tokens }
            },
            None => {
                let last = find_last_marker(line, &self.reference_pattern);
                match last {
                    Some((m, h)) => {
                        proof {
                            lemma_last_marker_before(
                                line@,
                                self.reference_pattern@,
                                line@.len() as int,
                            );
                            lemma_match_marker_at_bounds(line@, self.reference_pattern@, m as int);
                        }
                        let left = if m > 0 {
                            Some(copy_range(line, 0, m))
                        } else {
                            None
                        };
                        let right = if h.end < n {
                            Some(copy_range(line, h.end, n))
                        } else {
                            None
                        };
                        Line::Reference { left, is_optional: h.is_optional, name: h.name, right }
                    },
                    None => Line::Raw { value: line.to_owned() },
                }
            },
        }
    }

    /// Parses a template text into a sequence of classified lines.  Parsing
    /// cannot fail: a line that matches no pattern is kept as raw text, so
    /// the result is always `Ok`, and every `Parameters` line of the result
    /// holds at least one parameter token.
    pub fn parse(&self, text: &str) -> (r: Result<Template, String>)
        ensures
            r is Ok,
            r->Ok_0@ == spec_parse(self@, text@),
            r->Ok_0.wf(),
    {
        let source_lines = split_lines(text);
        let ghost line_views = spec_lines(text@);
        let mut lines: Vec<Line> = Vec::new();
        let mut i: usize = 0;
        while i < source_lines.len()
            invariant
                source_lines@.map_values(|l: String| l@) == line_views,
                0 <= i <= source_lines@.len(),
                lines@.len() == i,
                forall|k: int|
                    0 <= k < i ==> #[trigger] lines@[k]@ == spec_classify(self@, line_views[k]),
                forall|k: int| 0 <= k < i ==> line_wf(#[trigger] lines@[k]@),
            decreases source_lines@.len() - i,
        {
            let line = self.classify_line(source_lines[i].as_str());
            lines.push(line);
            i += 1;
        }
        let template = Template { lines };
        proof {
            assert(template@ =~= spec_parse(self@, text@));
        }
        Ok(template)
    }
}

impl Default for Parser {
    /// The parser for the default syntax with the operator keywords `param`
    /// and `ref`.
    fn default() -> (p: Parser)
        ensures
            p@ == parser_of(
                SyntaxView {
                    open_tag: "<!--"@,
                    close_tag: "-->"@,
                    optional_operator: "optional"@,
                },
                "param"@,
                "ref"@,
            ),
    {
        Parser::compile(&Syntax::default(), "param", "ref")
    }
}

/// A scan that starts at a position from which the pattern occurs somewhere
/// yields at least one parameter token.
proof fn lemma_scan_params_has_parameter(line: Seq<char>, pat: MarkerPatternView, i: int)
    requires
        0 <= i <= line.len(),
        first_marker_from(line, pat, i) is Some,
    ensures
        has_parameter_token(scan_params_from(line, pat, i)),
{
    let m = first_marker_from(line, pat, i)->Some_0;
    lemma_first_marker_from(line, pat, i);
    lemma_match_marker_at_bounds(line, pat, m);
    let toks = scan_params_from(line, pat, i);
    if m > i {
        assert(toks[1] is Parameter);
    } else {
        assert(toks[0] is Parameter);
    }
}

} // verus!
