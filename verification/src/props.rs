//! The library's stated laws: properties of parsing and rendering, proved
//! once and for all inputs.

use vstd::prelude::*;

use crate::params::TemplateParameters;
use crate::params::Templates;
use crate::parser::MarkerPatternView;
use crate::parser::ParserView;
use crate::parser::first_marker_from;
use crate::parser::lemma_first_marker_from;
use crate::parser::lemma_match_marker_at_bounds;
use crate::parser::match_marker_at;
use crate::parser::scan_params_from;
use crate::parser::spec_classify;
use crate::parser::spec_parse;
use crate::render::all_tokens_optional;
use crate::render::eval_round;
use crate::render::has_always_final;
use crate::render::lemma_eval_round_ok_iff;
use crate::render::lemma_min_list_len;
use crate::render::min_list_len;
use crate::render::n_rounds;
use crate::render::render_lines;
use crate::render::render_params_line;
use crate::render::render_reference;
use crate::render::spec_render;
use crate::render::token_always_final;
use crate::render::token_list_len;
use crate::render::token_step;
use crate::template::LineView;
use crate::template::TokenView;
use crate::text::spec_lines;

verus! {

// ---------------------------------------------------------------------------
// Raw templates render to their source
// ---------------------------------------------------------------------------

/// The lines joined back into one text, each ended by a line feed.
pub open spec fn join_lines(lines: Seq<Seq<char>>) -> Seq<char>
    decreases lines.len(),
{
    if lines.len() == 0 {
        Seq::empty()
    } else {
        lines[0] + seq!['\n'] + join_lines(lines.drop_first())
    }
}

/// A text with every line terminator normalized to a single `'\n'`, and a
/// terminator added to an unterminated final line.
pub open spec fn normalized_text(text: Seq<char>) -> Seq<char> {
    join_lines(spec_lines(text))
}

proof fn lemma_render_raw_lines(
    lines: Seq<LineView>,
    params: TemplateParameters,
    registry: Templates,
    fuel: nat,
)
    requires
        forall|i: int| 0 <= i < lines.len() ==> (#[trigger] lines[i]) is Raw,
    ensures
        render_lines(lines, params, registry, Seq::empty(), Seq::empty(), fuel) == Ok::<
            Seq<char>,
            crate::render::RenderErrorView,
        >(join_lines(lines.map_values(|l: LineView| l->value))),
    decreases lines.len(),
{
    let values = lines.map_values(|l: LineView| l->value);
    if lines.len() == 0 {
        assert(values.len() == 0);
    } else {
        let rest = lines.drop_first();
        assert(forall|i: int| 0 <= i < rest.len() ==> (#[trigger] rest[i]) == lines[i + 1]);
        lemma_render_raw_lines(rest, params, registry, fuel);
        let head = Seq::<char>::empty() + lines[0]->value + Seq::<char>::empty() + seq!['\n'];
        assert(head =~= lines[0]->value + seq!['\n']);
        assert(rest.map_values(|l: LineView| l->value) =~= values.drop_first());
        assert(head + join_lines(values.drop_first()) =~= values[0] + seq!['\n'] + join_lines(
            values.drop_first(),
        ));
    }
}

/// Round-trip shape: a template whose every parsed line is raw renders, for
/// any bindings and registry, to exactly the source text with each line
/// terminator normalized.
pub proof fn lemma_raw_template_round_trip(
    p: ParserView,
    text: Seq<char>,
    params: TemplateParameters,
    registry: Templates,
    fuel: nat,
)
    requires
        forall|i: int|
            0 <= i < spec_parse(p, text).len() ==> (#[trigger] spec_parse(p, text)[i]) is Raw,
    ensures
        spec_render(spec_parse(p, text), params, registry, fuel) == Ok::<
            Seq<char>,
            crate::render::RenderErrorView,
        >(normalized_text(text)),
{
    let parsed = spec_parse(p, text);
    lemma_render_raw_lines(parsed, params, registry, fuel);
    assert forall|i: int| 0 <= i < parsed.len() implies #[trigger] parsed[i]->value == spec_lines(
        text,
    )[i] by {
        assert(parsed[i] == spec_classify(p, spec_lines(text)[i]));
        assert(parsed[i] is Raw);
    }
    assert(parsed.map_values(|l: LineView| l->value) =~= spec_lines(text));
}

// ---------------------------------------------------------------------------
// Token counts of an inline-parameter line
// ---------------------------------------------------------------------------

pub open spec fn count_raw_tokens(tokens: Seq<TokenView>) -> int
    decreases tokens.len(),
{
    if tokens.len() == 0 {
        0
    } else {
        (if tokens[0] is Raw {
            1int
        } else {
            0int
        }) + count_raw_tokens(tokens.drop_first())
    }
}

pub open spec fn count_parameter_tokens(tokens: Seq<TokenView>) -> int
    decreases tokens.len(),
{
    if tokens.len() == 0 {
        0
    } else {
        (if tokens[0] is Parameter {
            1int
        } else {
            0int
        }) + count_parameter_tokens(tokens.drop_first())
    }
}

/// Every marker occurrence from position `i` on stands strictly after the
/// position the scan reached, so each emits a non-empty literal before it.
pub open spec fn markers_separated(line: Seq<char>, pat: MarkerPatternView, i: int) -> bool
    decreases line.len() - i,
    when 0 <= i <= line.len()
{
    match first_marker_from(line, pat, i) {
        None => true,
        Some(m) => {
            proof {
                lemma_first_marker_from(line, pat, i);
                lemma_match_marker_at_bounds(line, pat, m);
            }
            m > i && markers_separated(line, pat, match_marker_at(line, pat, m)->Some_0.end)
        },
    }
}

/// On a line whose markers are all separated by non-empty literal text, the
/// scan emits exactly one more literal token than parameter tokens.
pub proof fn lemma_separated_token_counts(line: Seq<char>, pat: MarkerPatternView, i: int)
    requires
        0 <= i <= line.len(),
        markers_separated(line, pat, i),
    ensures
        count_raw_tokens(scan_params_from(line, pat, i)) == count_parameter_tokens(
            scan_params_from(line, pat, i),
        ) + 1,
    decreases line.len() - i,
{
    let toks = scan_params_from(line, pat, i);
    match first_marker_from(line, pat, i) {
        None => {
            assert(toks.len() == 1);
            assert(toks[0] is Raw);
            assert(toks.drop_first() =~= Seq::<TokenView>::empty());
            assert(count_raw_tokens(Seq::<TokenView>::empty()) == 0);
            assert(count_parameter_tokens(Seq::<TokenView>::empty()) == 0);
            assert(count_raw_tokens(toks) == 1);
            assert(count_parameter_tokens(toks) == 0);
        },
        Some(m) => {
            lemma_first_marker_from(line, pat, i);
            lemma_match_marker_at_bounds(line, pat, m);
            let mm = match_marker_at(line, pat, m)->Some_0;
            let param = TokenView::Parameter { is_optional: mm.is_optional, name: mm.name };
            let rest = scan_params_from(line, pat, mm.end);
            lemma_separated_token_counts(line, pat, mm.end);
            let raw = TokenView::Raw { value: line.subrange(i, m) };
            assert(toks == seq![raw] + seq![param] + rest);
            assert(toks[0] == raw);
            assert(toks.drop_first() =~= seq![param] + rest);
            assert(count_raw_tokens(toks) == 1 + count_raw_tokens(seq![param] + rest));
            assert(count_parameter_tokens(toks) == count_parameter_tokens(seq![param] + rest));
            assert((seq![param] + rest)[0] == param);
            assert((seq![param] + rest).drop_first() =~= rest);
            assert(count_raw_tokens(seq![param] + rest) == count_raw_tokens(rest));
            assert(count_parameter_tokens(seq![param] + rest) == 1 + count_parameter_tokens(
                rest,
            ));
        },
    }
}

/// The scan of an inline-parameter line always ends with a literal token
/// covering the line's remainder, even when that remainder is empty.
pub proof fn lemma_scan_params_trailing_literal(line: Seq<char>, pat: MarkerPatternView, i: int)
    requires
        0 <= i <= line.len(),
    ensures
        scan_params_from(line, pat, i).len() >= 1,
        scan_params_from(line, pat, i).last() is Raw,
    decreases line.len() - i,
{
    let toks = scan_params_from(line, pat, i);
    match first_marker_from(line, pat, i) {
        None => {},
        Some(m) => {
            lemma_first_marker_from(line, pat, i);
            lemma_match_marker_at_bounds(line, pat, m);
            let mm = match_marker_at(line, pat, m)->Some_0;
            lemma_scan_params_trailing_literal(line, pat, mm.end);
            let rest = scan_params_from(line, pat, mm.end);
            assert(toks.last() == rest.last());
        },
    }
}

// ---------------------------------------------------------------------------
// Mandatory and optional parameters
// ---------------------------------------------------------------------------

/// A mandatory parameter token whose name is unbound always makes rendering
/// fail, wherever its line stands in the template.
pub proof fn lemma_missing_mandatory_parameter_errs(
    lines: Seq<LineView>,
    params: TemplateParameters,
    registry: Templates,
    left: Seq<char>,
    right: Seq<char>,
    fuel: nat,
    i: int,
    j: int,
)
    requires
        0 <= i < lines.len(),
        lines[i] is Parameters,
        0 <= j < lines[i]->tokens.len(),
        lines[i]->tokens[j] is Parameter,
        !(lines[i]->tokens[j]->is_optional),
        !params@.contains_key(lines[i]->tokens[j]->name),
    ensures
        render_lines(lines, params, registry, left, right, fuel) is Err,
    decreases i,
{
    if i == 0 {
        let tokens = lines[0]->tokens;
        let all_opt = all_tokens_optional(tokens);
        assert(token_step(tokens[j], params, all_opt, 0) is Err);
        lemma_eval_round_ok_iff(tokens, params, all_opt, 0);
        assert(eval_round(tokens, params, all_opt, 0) is Err);
    } else {
        let rest = lines.drop_first();
        assert(rest[i - 1] == lines[i]);
        lemma_missing_mandatory_parameter_errs(
            rest,
            params,
            registry,
            left,
            right,
            fuel,
            i - 1,
            j,
        );
    }
}

/// An absent optional parameter never makes a line fail: a `Parameters`
/// line errs only over what its other tokens are bound to.
pub proof fn lemma_optional_absent_line_ok(
    tokens: Seq<TokenView>,
    params: TemplateParameters,
    left: Seq<char>,
    right: Seq<char>,
)
    requires
        forall|j: int|
            0 <= j < tokens.len() ==> ((#[trigger] tokens[j]) matches TokenView::Parameter {
                is_optional,
                name,
            } ==> ((is_optional && !params@.contains_key(name)) || (params@.contains_key(name) && (
            params@[name] is Value || (params@[name] is ValuesVec
                && params@[name]->ValuesVec_0@.len() > 0))))),
    ensures
        render_params_line(tokens, params, left, right) is Ok,
{
    let all_opt = all_tokens_optional(tokens);
    lemma_eval_round_ok_iff(tokens, params, all_opt, 0);
    assert forall|j: int| 0 <= j < tokens.len() implies (#[trigger] token_step(
        tokens[j],
        params,
        all_opt,
        0,
    )) is Ok by {
        match tokens[j] {
            TokenView::Parameter { is_optional, name } => {
                assert(tokens[j] matches TokenView::Parameter { is_optional: o, name: nm } ==> ((o
                    && !params@.contains_key(nm)) || (params@.contains_key(nm) && (params@[nm]
                    is Value || (params@[nm] is ValuesVec
                    && params@[nm]->ValuesVec_0@.len() > 0)))));
            },
            _ => {},
        }
    }
}

// ---------------------------------------------------------------------------
// Fan-out
// ---------------------------------------------------------------------------

/// A line holding one mandatory parameter token, bound to a list of length
/// `n`, among otherwise literal tokens, renders without error in exactly
/// `n` rounds.
pub proof fn lemma_fanout_count(
    tokens: Seq<TokenView>,
    params: TemplateParameters,
    left: Seq<char>,
    right: Seq<char>,
    j: int,
    n: int,
)
    requires
        0 <= j < tokens.len(),
        tokens[j] is Parameter,
        !(tokens[j]->is_optional),
        forall|k: int| 0 <= k < tokens.len() && k != j ==> (#[trigger] tokens[k]) is Raw,
        params@.contains_key(tokens[j]->name),
        params@[tokens[j]->name] is ValuesVec,
        params@[tokens[j]->name]->ValuesVec_0@.len() == n,
        n >= 1,
    ensures
        render_params_line(tokens, params, left, right) is Ok,
        n_rounds(tokens, params, all_tokens_optional(tokens)) == n,
{
    let all_opt = all_tokens_optional(tokens);
    lemma_eval_round_ok_iff(tokens, params, all_opt, 0);
    assert forall|k: int| 0 <= k < tokens.len() implies (#[trigger] token_step(
        tokens[k],
        params,
        all_opt,
        0,
    )) is Ok by {
        if k != j {
            assert(tokens[k] is Raw);
        }
    }
    assert(!has_always_final(tokens, params, all_opt)) by {
        if has_always_final(tokens, params, all_opt) {
            let k = choose|k: int|
                0 <= k < tokens.len() && token_always_final(tokens[k], params, all_opt);
            assert(k == j);
        }
    }
    lemma_min_list_len(tokens, params);
    assert(token_list_len(tokens[j], params) == Some(n));
    match min_list_len(tokens, params) {
        Some(m) => {
            let k = choose|k: int|
                0 <= k < tokens.len() && #[trigger] token_list_len(tokens[k], params) == Some(m);
            assert(k == j);
        },
        None => {
            assert(token_list_len(tokens[j], params) is None);
        },
    }
}

// ---------------------------------------------------------------------------
// Unbound references
// ---------------------------------------------------------------------------

/// A `Reference` line whose name is absent from the bindings renders as
/// empty output, whether or not its marker is optional.
pub proof fn lemma_unbound_reference_renders_nothing(
    lit_left: Option<Seq<char>>,
    is_optional: bool,
    name: Seq<char>,
    lit_right: Option<Seq<char>>,
    params: TemplateParameters,
    registry: Templates,
    outer_left: Seq<char>,
    outer_right: Seq<char>,
    fuel: nat,
)
    requires
        !params@.contains_key(name),
    ensures
        render_reference(
            lit_left,
            is_optional,
            name,
            lit_right,
            params,
            registry,
            outer_left,
            outer_right,
            fuel,
        ) == Ok::<Seq<char>, crate::render::RenderErrorView>(Seq::<char>::empty()),
{
}

} // verus!

