//! Rendering: expanding a template's classified lines against parameter
//! bindings and a registry of named templates.
//!
//! Lines are processed in order into one output text; every emitted physical
//! line ends with `'\n'`.  A `Parameters` line is emitted in rounds: round
//! `idx` substitutes each list-valued binding's element `idx`, a scalar only
//! in round 0, and an absent optional binding nothing; a round is the last
//! when any token signals so (an absent optional binding; a scalar bound to
//! a mandatory token, or to any token when every parameter token of the line
//! is optional; a list whose last element was just used).  A `Reference`
//! line whose name is unbound is skipped silently; otherwise the referenced
//! template is rendered once per bound sub-tree with the accumulated
//! left/right literal context.  Recursion into referenced templates is
//! bounded by a depth limit.

use vstd::prelude::*;

use crate::params::TemplateParameters;
use crate::params::TemplateParametersValue;
use crate::params::Templates;
use crate::template::Line;
use crate::template::LineView;
use crate::template::ParametersLineToken;
use crate::template::Template;
use crate::template::TokenView;
use crate::template::has_parameter_token;
use crate::template::line_wf;
use vstd::std_specs::vec::axiom_spec_len;
use vstd::std_specs::vec::spec_vec_len;

verus! {

/// The most reference nestings a render call follows before it stops with
/// [`RenderError::DepthLimitExceeded`].
pub const RENDER_DEPTH_LIMIT: usize = 100;

// ---------------------------------------------------------------------------
// Errors
// ---------------------------------------------------------------------------

/// The ghost shape of a [`RenderError`].
pub enum RenderErrorView {
    /// A parameter token was mandatory and its name is not bound.
    MissingParameter { name: Seq<char> },
    /// A parameter token's name is bound to an empty value list.
    EmptyValuesVec { name: Seq<char> },
    /// A parameter token's name is bound to a sub-tree or a sub-tree list.
    ParameterTypeMismatch { name: Seq<char> },
    /// A mandatory reference's name is bound but no template of that name is
    /// registered.
    MissingTemplate { name: Seq<char> },
    /// A reference's name is bound to a scalar or a value list.
    ReferenceTypeMismatch { name: Seq<char> },
    /// Reference nesting exceeded the depth limit.
    DepthLimitExceeded,
}

/// Why rendering stopped; each carries the parameter or template name it is
/// about.
#[derive(Debug, PartialEq, Eq)]
pub enum RenderError {
    MissingParameter { name: String },
    EmptyValuesVec { name: String },
    ParameterTypeMismatch { name: String },
    MissingTemplate { name: String },
    ReferenceTypeMismatch { name: String },
    DepthLimitExceeded,
}

impl View for RenderError {
    type V = RenderErrorView;

    open spec fn view(&self) -> RenderErrorView {
        match self {
            RenderError::MissingParameter { name } => RenderErrorView::MissingParameter {
                name: name@,
            },
            RenderError::EmptyValuesVec { name } => RenderErrorView::EmptyValuesVec {
                name: name@,
            },
            RenderError::ParameterTypeMismatch { name } => RenderErrorView::ParameterTypeMismatch {
                name: name@,
            },
            RenderError::MissingTemplate { name } => RenderErrorView::MissingTemplate {
                name: name@,
            },
            RenderError::ReferenceTypeMismatch { name } => RenderErrorView::ReferenceTypeMismatch {
                name: name@,
            },
            RenderError::DepthLimitExceeded => RenderErrorView::DepthLimitExceeded,
        }
    }
}

// ---------------------------------------------------------------------------
// One round of a Parameters line
// ---------------------------------------------------------------------------

/// The accumulated outcome of the tokens of one round: the text they emit
/// and whether any of them signalled the final round.
pub struct RoundOutput {
    pub text: Seq<char>,
    pub is_final: bool,
}

/// Every parameter token of the line is marked optional.
pub open spec fn all_tokens_optional(tokens: Seq<TokenView>) -> bool {
    forall|j: int|
        0 <= j < tokens.len() ==> ((#[trigger] tokens[j]) matches TokenView::Parameter {
            is_optional,
            ..
        } ==> is_optional)
}

/// What one token contributes to round `idx`: the text it emits and whether
/// it signals the final round, or the error it raises.
pub open spec fn token_step(
    t: TokenView,
    params: TemplateParameters,
    all_opt: bool,
    idx: int,
) -> Result<(Seq<char>, bool), RenderErrorView> {
    match t {
        TokenView::Raw { value } => Ok((value, false)),
        TokenView::Parameter { is_optional, name } => {
            if !params@.contains_key(name) {
                if is_optional {
                    Ok((Seq::empty(), true))
                } else {
                    Err(RenderErrorView::MissingParameter { name })
                }
            } else {
                match params@[name] {
                    TemplateParametersValue::Value(value) => Ok(
                        (
                            if idx == 0 {
                                value@
                            } else {
                                Seq::empty()
                            },
                            !is_optional || all_opt,
                        ),
                    ),
                    TemplateParametersValue::ValuesVec(values) => {
                        if values@.len() == 0 {
                            Err(RenderErrorView::EmptyValuesVec { name })
                        } else {
                            Ok((values@[idx]@, values@.len() == idx + 1))
                        }
                    },
                    _ => Err(RenderErrorView::ParameterTypeMismatch { name }),
                }
            }
        },
    }
}

/// The outcome of round `idx` over all tokens in order; the first erring
/// token decides the error.
pub open spec fn eval_round(
    tokens: Seq<TokenView>,
    params: TemplateParameters,
    all_opt: bool,
    idx: int,
) -> Result<RoundOutput, RenderErrorView>
    decreases tokens.len(),
{
    if tokens.len() == 0 {
        Ok(RoundOutput { text: Seq::empty(), is_final: false })
    } else {
        match token_step(tokens[0], params, all_opt, idx) {
            Err(e) => Err(e),
            Ok(step) => match eval_round(tokens.drop_first(), params, all_opt, idx) {
                Err(e) => Err(e),
                Ok(rest) => Ok(
                    RoundOutput { text: step.0 + rest.text, is_final: step.1 || rest.is_final },
                ),
            },
        }
    }
}

// ---------------------------------------------------------------------------
// How many rounds a Parameters line runs
// ---------------------------------------------------------------------------

/// A token that signals the final round in every round: an absent optional
/// binding, or a scalar binding on a mandatory token (or on any token when
/// the whole line is optional).
pub open spec fn token_always_final(
    t: TokenView,
    params: TemplateParameters,
    all_opt: bool,
) -> bool {
    t matches TokenView::Parameter { is_optional, name } && ((!params@.contains_key(name)
        && is_optional) || (params@.contains_key(name) && params@[name] is Value && (!is_optional
        || all_opt)))
}

pub open spec fn has_always_final(
    tokens: Seq<TokenView>,
    params: TemplateParameters,
    all_opt: bool,
) -> bool {
    exists|j: int| 0 <= j < tokens.len() && token_always_final(tokens[j], params, all_opt)
}

/// The length of the value list bound to this token's name, if any.
pub open spec fn token_list_len(t: TokenView, params: TemplateParameters) -> Option<int> {
    match t {
        TokenView::Parameter { name, .. } => {
            if params@.contains_key(name) && params@[name] is ValuesVec {
                Some(params@[name]->ValuesVec_0@.len() as int)
            } else {
                None
            }
        },
        _ => None,
    }
}

/// The least value-list length bound on the line, if any list is bound.
pub open spec fn min_list_len(tokens: Seq<TokenView>, params: TemplateParameters) -> Option<int>
    decreases tokens.len(),
{
    if tokens.len() == 0 {
        None
    } else {
        let rest = min_list_len(tokens.drop_first(), params);
        match (token_list_len(tokens[0], params), rest) {
            (Option::None, r) => r,
            (Option::Some(a), Option::None) => Some(a),
            (Option::Some(a), Option::Some(b)) => Some(
                if a <= b {
                    a
                } else {
                    b
                },
            ),
        }
    }
}

/// How many rounds an error-free `Parameters` line emits: one when some
/// token ends every round, else as many as the shortest bound value list.
pub open spec fn n_rounds(
    tokens: Seq<TokenView>,
    params: TemplateParameters,
    all_opt: bool,
) -> int {
    if has_always_final(tokens, params, all_opt) {
        1
    } else {
        match min_list_len(tokens, params) {
            Some(m) => m,
            None => 1,
        }
    }
}

// ---------------------------------------------------------------------------
// The output of a Parameters line
// ---------------------------------------------------------------------------

pub open spec fn round_text(
    tokens: Seq<TokenView>,
    params: TemplateParameters,
    all_opt: bool,
    idx: int,
) -> Seq<char> {
    eval_round(tokens, params, all_opt, idx)->Ok_0.text
}

/// The concatenated output of rounds `0 .. n`, each wrapped in the outer
/// context and ended by a line feed.
pub open spec fn rounds_text(
    tokens: Seq<TokenView>,
    params: TemplateParameters,
    all_opt: bool,
    left: Seq<char>,
    right: Seq<char>,
    n: int,
) -> Seq<char>
    decreases n,
{
    if n <= 0 {
        Seq::empty()
    } else {
        rounds_text(tokens, params, all_opt, left, right, n - 1) + left + round_text(
            tokens,
            params,
            all_opt,
            n - 1,
        ) + right + seq!['\n']
    }
}

/// The whole output of one `Parameters` line, or its error.
pub open spec fn render_params_line(
    tokens: Seq<TokenView>,
    params: TemplateParameters,
    left: Seq<char>,
    right: Seq<char>,
) -> Result<Seq<char>, RenderErrorView> {
    let all_opt = all_tokens_optional(tokens);
    match eval_round(tokens, params, all_opt, 0) {
        Err(e) => Err(e),
        Ok(first) => Ok(
            rounds_text(tokens, params, all_opt, left, right, n_rounds(tokens, params, all_opt)),
        ),
    }
}

// ---------------------------------------------------------------------------
// Reference lines and whole templates
// ---------------------------------------------------------------------------

/// A captured literal, or nothing.
pub open spec fn opt_text(o: Option<Seq<char>>) -> Seq<char> {
    match o {
        Some(s) => s,
        None => Seq::empty(),
    }
}

/// The rendering of one referenced template against one sub-tree of
/// bindings: skipped silently when the reference is optional and no template
/// is registered, an error when it is mandatory, and one more nesting level
/// otherwise.
pub open spec fn render_one_reference(
    name: Seq<char>,
    is_optional: bool,
    sub: TemplateParameters,
    registry: Templates,
    new_left: Seq<char>,
    new_right: Seq<char>,
    fuel: nat,
) -> Result<Seq<char>, RenderErrorView>
    decreases fuel, 0int, 0int,
{
    if registry@.contains_key(name) {
        if fuel == 0 {
            Err(RenderErrorView::DepthLimitExceeded)
        } else {
            render_lines(registry@[name]@, sub, registry, new_left, new_right, (fuel - 1) as nat)
        }
    } else {
        if is_optional {
            Ok(Seq::empty())
        } else {
            Err(RenderErrorView::MissingTemplate { name })
        }
    }
}

/// The referenced template rendered once per sub-tree, in order.
pub open spec fn render_reference_list(
    name: Seq<char>,
    is_optional: bool,
    subs: Seq<TemplateParameters>,
    registry: Templates,
    new_left: Seq<char>,
    new_right: Seq<char>,
    fuel: nat,
) -> Result<Seq<char>, RenderErrorView>
    decreases fuel, 1int, subs.len(),
{
    if subs.len() == 0 {
        Ok(Seq::empty())
    } else {
        match render_one_reference(name, is_optional, subs[0], registry, new_left, new_right,
            fuel) {
            Err(e) => Err(e),
            Ok(s) => match render_reference_list(
                name,
                is_optional,
                subs.drop_first(),
                registry,
                new_left,
                new_right,
                fuel,
            ) {
                Err(e) => Err(e),
                Ok(rest) => Ok(s + rest),
            },
        }
    }
}

/// The output of one `Reference` line.  A name absent from the bindings is
/// skipped silently, whatever its optionality; a bound name must hold a
/// sub-tree or a sub-tree list.  The nested context grows outermost-first:
/// the accumulated left context, then this line's left literal; this line's
/// right literal, then the accumulated right context.
pub open spec fn render_reference(
    lit_left: Option<Seq<char>>,
    is_optional: bool,
    name: Seq<char>,
    lit_right: Option<Seq<char>>,
    params: TemplateParameters,
    registry: Templates,
    outer_left: Seq<char>,
    outer_right: Seq<char>,
    fuel: nat,
) -> Result<Seq<char>, RenderErrorView>
    decreases fuel, 2int, 0int,
{
    if !params@.contains_key(name) {
        Ok(Seq::empty())
    } else {
        let new_left = outer_left + opt_text(lit_left);
        let new_right = opt_text(lit_right) + outer_right;
        match params@[name] {
            TemplateParametersValue::Parameters(sub) => render_one_reference(
                name,
                is_optional,
                sub,
                registry,
                new_left,
                new_right,
                fuel,
            ),
            TemplateParametersValue::ParametersVec(subs) => render_reference_list(
                name,
                is_optional,
                subs@,
                registry,
                new_left,
                new_right,
                fuel,
            ),
            _ => Err(RenderErrorView::ReferenceTypeMismatch { name }),
        }
    }
}

/// The output of a sequence of classified lines rendered in order under the
/// outer context, or the first line's error.
pub open spec fn render_lines(
    lines: Seq<LineView>,
    params: TemplateParameters,
    registry: Templates,
    left: Seq<char>,
    right: Seq<char>,
    fuel: nat,
) -> Result<Seq<char>, RenderErrorView>
    decreases fuel, 3int, lines.len(),
{
    if lines.len() == 0 {
        Ok(Seq::empty())
    } else {
        let head = match lines[0] {
            LineView::Raw { value } => Ok(left + value + right + seq!['\n']),
            LineView::Parameters { tokens } => render_params_line(tokens, params, left, right),
            LineView::Reference { left: lit_left, is_optional, name, right: lit_right } =>
                render_reference(
                lit_left,
                is_optional,
                name,
                lit_right,
                params,
                registry,
                left,
                right,
                fuel,
            ),
        };
        match head {
            Err(e) => Err(e),
            Ok(s) => match render_lines(lines.drop_first(), params, registry, left, right, fuel) {
                Err(e) => Err(e),
                Ok(rest) => Ok(s + rest),
            },
        }
    }
}

// ---------------------------------------------------------------------------
// Properties of rounds
// ---------------------------------------------------------------------------

/// A round errs exactly when some token errs, whatever the round index.
pub proof fn lemma_eval_round_ok_iff(
    tokens: Seq<TokenView>,
    params: TemplateParameters,
    all_opt: bool,
    idx: int,
)
    ensures
        eval_round(tokens, params, all_opt, idx) is Ok <==> forall|j: int|
            0 <= j < tokens.len() ==> (#[trigger] token_step(tokens[j], params, all_opt, idx))
                is Ok,
    decreases tokens.len(),
{
    if tokens.len() > 0 {
        let rest = tokens.drop_first();
        lemma_eval_round_ok_iff(rest, params, all_opt, idx);
        assert forall|j: int| 0 <= j < rest.len() implies #[trigger] rest[j] == tokens[j + 1] by {}
        if eval_round(tokens, params, all_opt, idx) is Ok {
            assert forall|j: int| 0 <= j < tokens.len() implies (#[trigger] token_step(
                tokens[j],
                params,
                all_opt,
                idx,
            )) is Ok by {
                if j > 0 {
                    assert(tokens[j] == rest[j - 1]);
                }
            }
        } else {
            if token_step(tokens[0], params, all_opt, idx) is Ok {
                let j = choose|j: int|
                    0 <= j < rest.len() && (#[trigger] token_step(rest[j], params, all_opt, idx))
                        !is Ok;
                assert(token_step(tokens[j + 1], params, all_opt, idx) == token_step(
                    rest[j],
                    params,
                    all_opt,
                    idx,
                ));
            }
        }
    }
}

/// Whether a token errs does not depend on the round index, so a line whose
/// first round went through errs in no later round.
pub proof fn lemma_eval_round_ok_any(
    tokens: Seq<TokenView>,
    params: TemplateParameters,
    all_opt: bool,
    idx1: int,
    idx2: int,
)
    requires
        eval_round(tokens, params, all_opt, idx1) is Ok,
    ensures
        eval_round(tokens, params, all_opt, idx2) is Ok,
{
    lemma_eval_round_ok_iff(tokens, params, all_opt, idx1);
    lemma_eval_round_ok_iff(tokens, params, all_opt, idx2);
    assert forall|j: int| 0 <= j < tokens.len() implies (#[trigger] token_step(
        tokens[j],
        params,
        all_opt,
        idx2,
    )) is Ok by {
        assert(token_step(tokens[j], params, all_opt, idx1) is Ok);
    }
}

/// An error-free round is final exactly when some token always signals the
/// final round, or some bound value list ends at this round's index.
pub proof fn lemma_eval_round_final(
    tokens: Seq<TokenView>,
    params: TemplateParameters,
    all_opt: bool,
    idx: int,
)
    requires
        eval_round(tokens, params, all_opt, idx) is Ok,
    ensures
        eval_round(tokens, params, all_opt, idx)->Ok_0.is_final <==> (has_always_final(
            tokens,
            params,
            all_opt,
        ) || exists|j: int|
            0 <= j < tokens.len() && #[trigger] token_list_len(tokens[j], params) == Some(
                idx + 1,
            )),
    decreases tokens.len(),
{
    if tokens.len() > 0 {
        let rest = tokens.drop_first();
        lemma_eval_round_final(rest, params, all_opt, idx);
        assert forall|j: int| 0 <= j < rest.len() implies #[trigger] rest[j] == tokens[j + 1] by {}
        let head_final = token_step(tokens[0], params, all_opt, idx)->Ok_0.1;
        assert(head_final <==> (token_always_final(tokens[0], params, all_opt) || token_list_len(
            tokens[0],
            params,
        ) == Some(idx + 1)));
        assert(has_always_final(tokens, params, all_opt) <==> (token_always_final(
            tokens[0],
            params,
            all_opt,
        ) || has_always_final(rest, params, all_opt))) by {
            if has_always_final(tokens, params, all_opt) {
                let j = choose|j: int|
                    0 <= j < tokens.len() && token_always_final(tokens[j], params, all_opt);
                if j > 0 {
                    assert(token_always_final(rest[j - 1], params, all_opt));
                }
            }
            if has_always_final(rest, params, all_opt) {
                let j = choose|j: int|
                    0 <= j < rest.len() && token_always_final(rest[j], params, all_opt);
                assert(token_always_final(tokens[j + 1], params, all_opt));
            }
        }
        assert((exists|j: int|
            0 <= j < tokens.len() && #[trigger] token_list_len(tokens[j], params) == Some(idx + 1))
            <==> (token_list_len(tokens[0], params) == Some(idx + 1) || exists|j: int|
            0 <= j < rest.len() && #[trigger] token_list_len(rest[j], params) == Some(
                idx + 1,
            ))) by {
            if exists|j: int|
                0 <= j < tokens.len() && #[trigger] token_list_len(tokens[j], params) == Some(
                    idx + 1,
                ) {
                let j = choose|j: int|
                    0 <= j < tokens.len() && #[trigger] token_list_len(tokens[j], params) == Some(
                        idx + 1,
                    );
                if j > 0 {
                    assert(token_list_len(rest[j - 1], params) == Some(idx + 1));
                }
            }
            if exists|j: int|
                0 <= j < rest.len() && #[trigger] token_list_len(rest[j], params) == Some(
                    idx + 1,
                ) {
                let j = choose|j: int|
                    0 <= j < rest.len() && #[trigger] token_list_len(rest[j], params) == Some(
                        idx + 1,
                    );
                assert(token_list_len(tokens[j + 1], params) == Some(idx + 1));
            }
        }
    }
}

/// What `min_list_len` returns: the least bound list length, when any list
/// is bound.
pub proof fn lemma_min_list_len(tokens: Seq<TokenView>, params: TemplateParameters)
    ensures
        match min_list_len(tokens, params) {
            Some(m) => (exists|j: int|
                0 <= j < tokens.len() && #[trigger] token_list_len(tokens[j], params) == Some(m))
                && (forall|j: int|
                0 <= j < tokens.len() ==> ((#[trigger] token_list_len(tokens[j], params)) matches
                Some(l) ==> m <= l)),
            None => forall|j: int|
                0 <= j < tokens.len() ==> (#[trigger] token_list_len(tokens[j], params)) is None,
        },
    decreases tokens.len(),
{
    if tokens.len() > 0 {
        let rest = tokens.drop_first();
        lemma_min_list_len(rest, params);
        assert forall|j: int| 0 <= j < rest.len() implies #[trigger] rest[j] == tokens[j + 1] by {}
        match min_list_len(tokens, params) {
            Some(m) => {
                if token_list_len(tokens[0], params) != Some(m) {
                    let j = choose|j: int|
                        0 <= j < rest.len() && #[trigger] token_list_len(rest[j], params) == Some(
                            m,
                        );
                    assert(token_list_len(tokens[j + 1], params) == Some(m));
                }
                assert forall|j: int| 0 <= j < tokens.len() implies ((#[trigger] token_list_len(
                    tokens[j],
                    params,
                )) matches Some(l) ==> m <= l) by {
                    if j > 0 {
                        assert(token_list_len(rest[j - 1], params) == token_list_len(
                            tokens[j],
                            params,
                        ));
                    }
                }
            },
            None => {
                assert forall|j: int| 0 <= j < tokens.len() implies (#[trigger] token_list_len(
                    tokens[j],
                    params,
                )) is None by {
                    if j > 0 {
                        assert(token_list_len(rest[j - 1], params) == token_list_len(
                            tokens[j],
                            params,
                        ));
                    }
                }
            },
        }
    }
}

/// How the rounds of an error-free `Parameters` line end: rounds before
/// `n_rounds - 1` are not final, and round `n_rounds - 1` is.
pub proof fn lemma_n_rounds(tokens: Seq<TokenView>, params: TemplateParameters, all_opt: bool)
    requires
        eval_round(tokens, params, all_opt, 0) is Ok,
        all_opt == all_tokens_optional(tokens),
        has_parameter_token(tokens),
    ensures
        n_rounds(tokens, params, all_opt) >= 1,
        forall|k: int| (#[trigger] eval_round(tokens, params, all_opt, k)) is Ok,
        eval_round(tokens, params, all_opt, n_rounds(tokens, params, all_opt) - 1)->Ok_0.is_final,
        forall|k: int|
            0 <= k < n_rounds(tokens, params, all_opt) - 1 ==> !((#[trigger] eval_round(
                tokens,
                params,
                all_opt,
                k,
            ))->Ok_0.is_final),
{
    let n = n_rounds(tokens, params, all_opt);
    lemma_min_list_len(tokens, params);
    lemma_eval_round_ok_iff(tokens, params, all_opt, 0);
    assert forall|k: int| (#[trigger] eval_round(tokens, params, all_opt, k)) is Ok by {
        lemma_eval_round_ok_any(tokens, params, all_opt, 0, k);
    }
    assert forall|k: int| (#[trigger] eval_round(tokens, params, all_opt, k))->Ok_0.is_final
        <==> (has_always_final(tokens, params, all_opt) || exists|j: int|
        0 <= j < tokens.len() && #[trigger] token_list_len(tokens[j], params) == Some(
            k + 1,
        )) by {
        lemma_eval_round_final(tokens, params, all_opt, k);
    }
    if has_always_final(tokens, params, all_opt) {
        assert(n == 1);
    } else {
        match min_list_len(tokens, params) {
            Some(m) => {
                let j = choose|j: int|
                    0 <= j < tokens.len() && #[trigger] token_list_len(tokens[j], params) == Some(
                        m,
                    );
                assert(token_step(tokens[j], params, all_opt, 0) is Ok);
                assert(m >= 1);
                assert(eval_round(tokens, params, all_opt, m - 1)->Ok_0.is_final);
                assert forall|k: int| 0 <= k < n - 1 implies !((#[trigger] eval_round(
                    tokens,
                    params,
                    all_opt,
                    k,
                ))->Ok_0.is_final) by {
                    if eval_round(tokens, params, all_opt, k)->Ok_0.is_final {
                        let j2 = choose|j2: int|
                            0 <= j2 < tokens.len() && #[trigger] token_list_len(tokens[j2], params)
                                == Some(k + 1);
                        assert(m <= k + 1);
                    }
                }
            },
            None => {
                assert(all_tokens_optional(tokens)) by {
                    assert forall|j: int| 0 <= j < tokens.len() implies ((#[trigger] tokens[j])
                        matches TokenView::Parameter { is_optional, .. } ==> is_optional) by {
                        match tokens[j] {
                            TokenView::Parameter { is_optional, name } => {
                                assert(token_step(tokens[j], params, all_opt, 0) is Ok);
                                assert(token_list_len(tokens[j], params) is None);
                                if !is_optional {
                                    assert(token_always_final(tokens[j], params, all_opt));
                                }
                            },
                            _ => {},
                        }
                    }
                }
                let j0 = choose|j0: int| 0 <= j0 < tokens.len() && tokens[j0] is Parameter;
                assert(token_step(tokens[j0], params, all_opt, 0) is Ok);
                assert(token_list_len(tokens[j0], params) is None);
                assert(token_always_final(tokens[j0], params, all_opt));
                assert(false);
            },
        }
    }
}

/// The output of a whole template at the top level: no outer context.
pub open spec fn spec_render(
    template: Seq<LineView>,
    params: TemplateParameters,
    registry: Templates,
    fuel: nat,
) -> Result<Seq<char>, RenderErrorView> {
    render_lines(template, params, registry, Seq::empty(), Seq::empty(), fuel)
}

// ---------------------------------------------------------------------------
// The executable renderer
// ---------------------------------------------------------------------------

/// A rendering outcome with `prefix` already emitted before it.
spec fn prepend_output(prefix: Seq<char>, r: Result<Seq<char>, RenderErrorView>) -> Result<
    Seq<char>,
    RenderErrorView,
> {
    match r {
        Ok(s) => Ok(prefix + s),
        Err(e) => Err(e),
    }
}

/// One error-free token folded into the running round state.
proof fn lemma_round_step(
    tokens: Seq<TokenView>,
    params: TemplateParameters,
    all_opt: bool,
    idx: int,
    j: int,
    emitted: Seq<char>,
    fin0: bool,
)
    requires
        0 <= j < tokens.len(),
        token_step(tokens[j], params, all_opt, idx) is Ok,
        eval_round(tokens, params, all_opt, idx) == (match eval_round(
            tokens.skip(j),
            params,
            all_opt,
            idx,
        ) {
            Ok(rest) => Ok(
                RoundOutput { text: emitted + rest.text, is_final: fin0 || rest.is_final },
            ),
            Err(e) => Err(e),
        }),
    ensures
        ({
            let step = token_step(tokens[j], params, all_opt, idx)->Ok_0;
            eval_round(tokens, params, all_opt, idx) == (match eval_round(
                tokens.skip(j + 1),
                params,
                all_opt,
                idx,
            ) {
                Ok(rest) => Ok(
                    RoundOutput {
                        text: (emitted + step.0) + rest.text,
                        is_final: (fin0 || step.1) || rest.is_final,
                    },
                ),
                Err(e) => Err(e),
            })
        }),
{
    assert(tokens.skip(j)[0] == tokens[j]);
    assert(tokens.skip(j).drop_first() =~= tokens.skip(j + 1));
    let step = token_step(tokens[j], params, all_opt, idx)->Ok_0;
    match eval_round(tokens.skip(j + 1), params, all_opt, idx) {
        Ok(rest) => {
            assert(emitted + (step.0 + rest.text) =~= (emitted + step.0) + rest.text);
        },
        Err(_) => {},
    }
}

/// An erring token decides the round's error.
proof fn lemma_round_err(
    tokens: Seq<TokenView>,
    params: TemplateParameters,
    all_opt: bool,
    idx: int,
    j: int,
    emitted: Seq<char>,
    fin0: bool,
)
    requires
        0 <= j < tokens.len(),
        token_step(tokens[j], params, all_opt, idx) is Err,
        eval_round(tokens, params, all_opt, idx) == (match eval_round(
            tokens.skip(j),
            params,
            all_opt,
            idx,
        ) {
            Ok(rest) => Ok(
                RoundOutput { text: emitted + rest.text, is_final: fin0 || rest.is_final },
            ),
            Err(e) => Err(e),
        }),
    ensures
        eval_round(tokens, params, all_opt, idx) == Err::<
            RoundOutput,
            RenderErrorView,
        >(token_step(tokens[j], params, all_opt, idx)->Err_0),
{
    assert(tokens.skip(j)[0] == tokens[j]);
}

/// Emits one `Parameters` line, round by round.
#[verifier::rlimit(60)]
fn emit_params_line(
    tokens: &Vec<ParametersLineToken>,
    parameters: &TemplateParameters,
    external_left: &Option<String>,
    external_right: &Option<String>,
    result: &mut String,
) -> (r: Result<(), RenderError>)
    requires
        has_parameter_token(tokens@.map_values(|t: ParametersLineToken| t@)),
    ensures
        (match render_params_line(
            tokens@.map_values(|t: ParametersLineToken| t@),
            *parameters,
            opt_text((*external_left).deep_view()),
            opt_text((*external_right).deep_view()),
        ) {
            Ok(s) => r is Ok && final(result)@ == old(result)@ + s,
            Err(e) => r is Err && r->Err_0@ == e && old(result)@.is_prefix_of(final(result)@),
        }),
{
    let ghost tv = tokens@.map_values(|t: ParametersLineToken| t@);
    let ghost lv = opt_text((*external_left).deep_view());
    let ghost rv = opt_text((*external_right).deep_view());
    let ghost base = old(result)@;
    let n_tokens = tokens.len();

    let mut all_opt = true;
    let ghost mut wit: int = 0;
    let mut j: usize = 0;
    while j < n_tokens
        invariant
            n_tokens == tokens@.len(),
            tv == tokens@.map_values(|t: ParametersLineToken| t@),
            0 <= j <= n_tokens,
            all_opt ==> forall|k: int|
                0 <= k < j ==> !((#[trigger] tv[k]) is Parameter && !(tv[k]->is_optional)),
            !all_opt ==> 0 <= wit < j && tv[wit] is Parameter && !(tv[wit]->is_optional),
        decreases n_tokens - j,
    {
        proof {
            assert(tv[j as int] == tokens@[j as int]@);
        }
        match &tokens[j] {
            ParametersLineToken::Parameter { is_optional, .. } => {
                if !*is_optional {
                    all_opt = false;
                    proof {
                        wit = j as int;
                    }
                }
            },
            _ => {},
        }
        j += 1;
    }
    proof {
        assert(all_opt == all_tokens_optional(tv));
    }

    let ghost n_total = n_rounds(tv, *parameters, all_opt);
    let mut idx: usize = 0;
    loop
        invariant_except_break
            result@ == base + rounds_text(tv, *parameters, all_opt, lv, rv, idx as int),
            forall|k: int|
                0 <= k < idx ==> (#[trigger] eval_round(tv, *parameters, all_opt, k)) is Ok && !(
                eval_round(tv, *parameters, all_opt, k)->Ok_0.is_final),
        invariant
            n_tokens == tokens@.len(),
            tv == tokens@.map_values(|t: ParametersLineToken| t@),
            all_opt == all_tokens_optional(tv),
            has_parameter_token(tv),
            lv == opt_text((*external_left).deep_view()),
            rv == opt_text((*external_right).deep_view()),
            base == old(result)@,
            n_total == n_rounds(tv, *parameters, all_opt),
            0 <= idx,
        ensures
            render_params_line(tv, *parameters, lv, rv) is Ok,
            result@ == base + render_params_line(tv, *parameters, lv, rv)->Ok_0,
        decreases n_total - idx,
    {
        let ghost round_start = rounds_text(tv, *parameters, all_opt, lv, rv, idx as int);
        if let Some(left_text) = external_left {
            result.append(left_text.as_str());
        }
        let ghost mut emitted: Seq<char> = Seq::empty();
        let mut is_final = false;
        proof {
            assert(result@ =~= (base + round_start) + lv + emitted);
            assert(tv.skip(0) =~= tv);
            match eval_round(tv, *parameters, all_opt, idx as int) {
                Ok(rest) => {
                    assert(emitted + rest.text =~= rest.text);
                },
                Err(_) => {},
            }
        }
        let mut j: usize = 0;
        while j < n_tokens
            invariant
                n_tokens == tokens@.len(),
                tv == tokens@.map_values(|t: ParametersLineToken| t@),
                all_opt == all_tokens_optional(tv),
                base == old(result)@,
                0 <= j <= n_tokens,
                0 <= idx,
                round_start == rounds_text(tv, *parameters, all_opt, lv, rv, idx as int),
                result@ == (base + round_start) + lv + emitted,
                eval_round(tv, *parameters, all_opt, idx as int) == (match eval_round(
                    tv.skip(j as int),
                    *parameters,
                    all_opt,
                    idx as int,
                ) {
                    Ok(rest) => Ok(
                        RoundOutput {
                            text: emitted + rest.text,
                            is_final: is_final || rest.is_final,
                        },
                    ),
                    Err(e) => Err(e),
                }),
                forall|k: int|
                    0 <= k < idx ==> (#[trigger] eval_round(tv, *parameters, all_opt, k)) is Ok
                        && !(eval_round(tv, *parameters, all_opt, k)->Ok_0.is_final),
            decreases n_tokens - j,
        {
            proof {
                assert(tv[j as int] == tokens@[j as int]@);
            }
            match &tokens[j] {
                ParametersLineToken::Raw { value } => {
                    proof {
                        lemma_round_step(
                            tv,
                            *parameters,
                            all_opt,
                            idx as int,
                            j as int,
                            emitted,
                            is_final,
                        );
                    }
                    result.append(value.as_str());
                    proof {
                        emitted = emitted + value@;
                        assert(result@ =~= (base + round_start) + lv + emitted);
                    }
                },
                ParametersLineToken::Parameter { is_optional, name } => {
                    let ghost gname = name@;
                    match parameters.get(name.as_str()) {
                        None => {
                            if !*is_optional {
                                proof {
                                    lemma_round_err(
                                        tv,
                                        *parameters,
                                        all_opt,
                                        idx as int,
                                        j as int,
                                        emitted,
                                        is_final,
                                    );
                                    if idx > 0 {
                                        assert(eval_round(tv, *parameters, all_opt, 0) is Ok);
                                        lemma_eval_round_ok_any(
                                            tv,
                                            *parameters,
                                            all_opt,
                                            0,
                                            idx as int,
                                        );
                                    }
                                    assert(base.is_prefix_of(result@)) by {
                                        assert(base =~= result@.subrange(0, base.len() as int));
                                    }
                                }
                                return Err(RenderError::MissingParameter { name: name.clone() });
                            }
                            proof {
                                lemma_round_step(
                                    tv,
                                    *parameters,
                                    all_opt,
                                    idx as int,
                                    j as int,
                                    emitted,
                                    is_final,
                                );
                                assert(emitted + Seq::<char>::empty() =~= emitted);
                            }
                            is_final = true;
                        },
                        Some(value) => match value {
                            TemplateParametersValue::Value(v) => {
                                proof {
                                    lemma_round_step(
                                        tv,
                                        *parameters,
                                        all_opt,
                                        idx as int,
                                        j as int,
                                        emitted,
                                        is_final,
                                    );
                                }
                                if idx == 0 {
                                    result.append(v.as_str());
                                    proof {
                                        emitted = emitted + v@;
                                        assert(result@ =~= (base + round_start) + lv + emitted);
                                    }
                                } else {
                                    proof {
                                        assert(emitted + Seq::<char>::empty() =~= emitted);
                                    }
                                }
                                if !*is_optional || all_opt {
                                    is_final = true;
                                }
                            },
                            TemplateParametersValue::ValuesVec(values) => {
                                let len = values.len();
                                if len == 0 {
                                    proof {
                                        lemma_round_err(
                                            tv,
                                            *parameters,
                                            all_opt,
                                            idx as int,
                                            j as int,
                                            emitted,
                                            is_final,
                                        );
                                        if idx > 0 {
                                            assert(eval_round(tv, *parameters, all_opt, 0) is Ok);
                                            lemma_eval_round_ok_any(
                                                tv,
                                                *parameters,
                                                all_opt,
                                                0,
                                                idx as int,
                                            );
                                        }
                                        assert(base.is_prefix_of(result@)) by {
                                            assert(base =~= result@.subrange(
                                                0,
                                                base.len() as int,
                                            ));
                                        }
                                    }
                                    return Err(RenderError::EmptyValuesVec { name: name.clone() });
                                }
                                proof {
                                    assert(token_list_len(tv[j as int], *parameters) == Some(
                                        len as int,
                                    ));
                                    assert forall|k: int| 0 <= k < idx implies (#[trigger]
                                    eval_round(tv, *parameters, all_opt, k)) is Ok && len != k
                                        + 1 by {
                                        lemma_eval_round_final(tv, *parameters, all_opt, k);
                                    }
                                    assert(idx < len) by {
                                        if idx >= len {
                                            assert(eval_round(
                                                tv,
                                                *parameters,
                                                all_opt,
                                                (len - 1) as int,
                                            ) is Ok);
                                        }
                                    }
                                    lemma_round_step(
                                        tv,
                                        *parameters,
                                        all_opt,
                                        idx as int,
                                        j as int,
                                        emitted,
                                        is_final,
                                    );
                                }
                                if len == idx + 1 {
                                    is_final = true;
                                }
                                let v = &values[idx];
                                result.append(v.as_str());
                                proof {
                                    emitted = emitted + v@;
                                    assert(result@ =~= (base + round_start) + lv + emitted);
                                }
                            },
                            _ => {
                                proof {
                                    lemma_round_err(
                                        tv,
                                        *parameters,
                                        all_opt,
                                        idx as int,
                                        j as int,
                                        emitted,
                                        is_final,
                                    );
                                    if idx > 0 {
                                        assert(eval_round(tv, *parameters, all_opt, 0) is Ok);
                                        lemma_eval_round_ok_any(
                                            tv,
                                            *parameters,
                                            all_opt,
                                            0,
                                            idx as int,
                                        );
                                    }
                                    assert(base.is_prefix_of(result@)) by {
                                        assert(base =~= result@.subrange(0, base.len() as int));
                                    }
                                }
                                return Err(
                                    RenderError::ParameterTypeMismatch { name: name.clone() },
                                );
                            },
                        },
                    }
                },
            }
            j += 1;
        }
        proof {
            assert(tv.skip(n_tokens as int) =~= Seq::<TokenView>::empty());
            assert(emitted + Seq::<char>::empty() =~= emitted);
            assert(eval_round(tv, *parameters, all_opt, idx as int) == Ok::<
                RoundOutput,
                RenderErrorView,
            >(RoundOutput { text: emitted, is_final }));
        }
        if let Some(right_text) = external_right {
            result.append(right_text.as_str());
        }
        result.append("\n");
        proof {
            reveal_strlit("\n");
            assert("\n"@ =~= seq!['\n']);
            assert(result@ =~= base + rounds_text(
                tv,
                *parameters,
                all_opt,
                lv,
                rv,
                idx as int + 1,
            ));
        }
        if is_final {
            proof {
                assert(eval_round(tv, *parameters, all_opt, 0) is Ok) by {
                    if idx > 0 {
                        assert(eval_round(tv, *parameters, all_opt, 0) is Ok);
                    }
                }
                lemma_n_rounds(tv, *parameters, all_opt);
                assert(idx as int == n_total - 1) by {
                    if (idx as int) < n_total - 1 {
                        assert(!(eval_round(tv, *parameters, all_opt, idx as int)->Ok_0.is_final));
                    }
                    if (idx as int) > n_total - 1 {
                        assert(!(eval_round(
                            tv,
                            *parameters,
                            all_opt,
                            n_total - 1,
                        )->Ok_0.is_final));
                    }
                }
            }
            break;
        }
        proof {
            assert(eval_round(tv, *parameters, all_opt, 0) is Ok) by {
                if idx > 0 {
                    assert(eval_round(tv, *parameters, all_opt, 0) is Ok);
                }
            }
            lemma_n_rounds(tv, *parameters, all_opt);
            assert((idx as int) < n_total - 1) by {
                if (idx as int) >= n_total - 1 {
                    assert(eval_round(tv, *parameters, all_opt, n_total - 1)->Ok_0.is_final);
                }
            }
            assert(n_total <= usize::MAX + 1) by {
                broadcast use axiom_spec_len;

                assert(!has_always_final(tv, *parameters, all_opt)) by {
                    lemma_eval_round_final(tv, *parameters, all_opt, idx as int);
                }
                lemma_eval_round_final(tv, *parameters, all_opt, n_total - 1);
                let jw = choose|jw: int|
                    0 <= jw < tv.len() && #[trigger] token_list_len(tv[jw], *parameters) == Some(
                        n_total,
                    );
                match tv[jw] {
                    TokenView::Parameter { name, .. } => {
                        let vs = (*parameters)@[name]->ValuesVec_0;
                        assert(spec_vec_len(&vs) == vs@.len());
                    },
                    _ => {
                        assert(false);
                    },
                }
            }
        }
        idx += 1;
    }
    Ok(())
}

/// Emits one referenced template against one sub-tree of bindings,
/// recursing into [`Template::render_internal`] one level deeper.
fn emit_one_reference(
    name: &String,
    is_optional: bool,
    sub: &TemplateParameters,
    templates: &Templates,
    new_left: &String,
    new_right: &String,
    result: &mut String,
    depth: usize,
) -> (r: Result<(), RenderError>)
    requires
        templates.wf(),
    ensures
        (match render_one_reference(
            name@,
            is_optional,
            *sub,
            *templates,
            new_left@,
            new_right@,
            depth as nat,
        ) {
            Ok(s) => r is Ok && final(result)@ == old(result)@ + s,
            Err(e) => r is Err && r->Err_0@ == e && old(result)@.is_prefix_of(final(result)@),
        }),
    decreases depth, 0int, 0int,
{
    match templates.get(name.as_str()) {
        Some(template) => {
            if depth == 0 {
                proof {
                    assert(old(result)@ =~= result@.subrange(0, old(result)@.len() as int));
                }
                Err(RenderError::DepthLimitExceeded)
            } else {
                template.render_internal(
                    sub,
                    templates,
                    &Some(new_left.clone()),
                    &Some(new_right.clone()),
                    result,
                    depth - 1,
                )
            }
        },
        None => {
            if is_optional {
                proof {
                    assert(result@ =~= result@ + Seq::<char>::empty());
                }
                Ok(())
            } else {
                proof {
                    assert(old(result)@ =~= result@.subrange(0, old(result)@.len() as int));
                }
                Err(RenderError::MissingTemplate { name: name.clone() })
            }
        },
    }
}

/// Emits one `Reference` line: looks the name up, accumulates the context,
/// and renders the referenced template once per bound sub-tree.
fn emit_reference(
    lit_left: &Option<String>,
    is_optional: bool,
    name: &String,
    lit_right: &Option<String>,
    parameters: &TemplateParameters,
    templates: &Templates,
    external_left: &Option<String>,
    external_right: &Option<String>,
    result: &mut String,
    depth: usize,
) -> (r: Result<(), RenderError>)
    requires
        templates.wf(),
    ensures
        (match render_reference(
            (*lit_left).deep_view(),
            is_optional,
            name@,
            (*lit_right).deep_view(),
            *parameters,
            *templates,
            opt_text((*external_left).deep_view()),
            opt_text((*external_right).deep_view()),
            depth as nat,
        ) {
            Ok(s) => r is Ok && final(result)@ == old(result)@ + s,
            Err(e) => r is Err && r->Err_0@ == e && old(result)@.is_prefix_of(final(result)@),
        }),
    decreases depth, 1int, 0int,
{
    let ghost base = old(result)@;
    match parameters.get(name.as_str()) {
        None => {
            proof {
                assert(result@ =~= result@ + Seq::<char>::empty());
            }
            Ok(())
        },
        Some(value) => {
            let mut new_left = String::new();
            if let Some(s) = external_left {
                new_left.append(s.as_str());
            }
            if let Some(s) = lit_left {
                new_left.append(s.as_str());
            }
            let mut new_right = String::new();
            if let Some(s) = lit_right {
                new_right.append(s.as_str());
            }
            if let Some(s) = external_right {
                new_right.append(s.as_str());
            }
            proof {
                assert(new_left@ =~= opt_text((*external_left).deep_view()) + opt_text(
                    (*lit_left).deep_view(),
                ));
                assert(new_right@ =~= opt_text((*lit_right).deep_view()) + opt_text(
                    (*external_right).deep_view(),
                ));
            }
            match value {
                TemplateParametersValue::Parameters(sub) => emit_one_reference(
                    name,
                    is_optional,
                    sub,
                    templates,
                    &new_left,
                    &new_right,
                    result,
                    depth,
                ),
                TemplateParametersValue::ParametersVec(subs) => {
                    let ghost subs_seq = subs@;
                    let ghost mut acc: Seq<char> = Seq::empty();
                    let n_subs = subs.len();
                    let mut k: usize = 0;
                    proof {
                        assert(subs_seq.skip(0) =~= subs_seq);
                        match render_reference_list(
                            name@,
                            is_optional,
                            subs_seq,
                            *templates,
                            new_left@,
                            new_right@,
                            depth as nat,
                        ) {
                            Ok(s) => {
                                assert(acc + s =~= s);
                            },
                            Err(_) => {},
                        }
                    }
                    while k < n_subs
                        invariant
                            templates.wf(),
                            n_subs == subs@.len(),
                            subs_seq == subs@,
                            0 <= k <= n_subs,
                            base == old(result)@,
                            result@ == base + acc,
                            (*parameters)@.contains_key(name@),
                            (*parameters)@[name@] matches TemplateParametersValue::ParametersVec(v)
                                && v@ == subs_seq,
                            new_left@ == opt_text((*external_left).deep_view()) + opt_text(
                                (*lit_left).deep_view(),
                            ),
                            new_right@ == opt_text((*lit_right).deep_view()) + opt_text(
                                (*external_right).deep_view(),
                            ),
                            render_reference_list(
                                name@,
                                is_optional,
                                subs_seq,
                                *templates,
                                new_left@,
                                new_right@,
                                depth as nat,
                            ) == prepend_output(
                                acc,
                                render_reference_list(
                                    name@,
                                    is_optional,
                                    subs_seq.skip(k as int),
                                    *templates,
                                    new_left@,
                                    new_right@,
                                    depth as nat,
                                ),
                            ),
                        decreases n_subs - k,
                    {
                        proof {
                            assert(subs_seq.skip(k as int).len() > 0);
                            assert(subs_seq.skip(k as int)[0] == subs_seq[k as int]);
                            assert(subs_seq.skip(k as int).drop_first() =~= subs_seq.skip(
                                k as int + 1,
                            ));
                        }
                        let sub = &subs[k];
                        let step = emit_one_reference(
                            name,
                            is_optional,
                            sub,
                            templates,
                            &new_left,
                            &new_right,
                            result,
                            depth,
                        );
                        match step {
                            Ok(()) => {
                                proof {
                                    let s = render_one_reference(
                                        name@,
                                        is_optional,
                                        subs_seq[k as int],
                                        *templates,
                                        new_left@,
                                        new_right@,
                                        depth as nat,
                                    )->Ok_0;
                                    match render_reference_list(
                                        name@,
                                        is_optional,
                                        subs_seq.skip(k as int + 1),
                                        *templates,
                                        new_left@,
                                        new_right@,
                                        depth as nat,
                                    ) {
                                        Ok(rest) => {
                                            assert(acc + (s + rest) =~= (acc + s) + rest);
                                        },
                                        Err(_) => {},
                                    }
                                    acc = acc + s;
                                }
                            },
                            Err(e) => {
                                proof {
                                    assert(base.is_prefix_of(result@)) by {
                                        assert(base =~= result@.subrange(0, base.len() as int));
                                    }
                                }
                                return Err(e);
                            },
                        }
                        k += 1;
                    }
                    proof {
                        assert(subs_seq.skip(n_subs as int) =~= Seq::<TemplateParameters>::empty());
                        assert(acc + Seq::<char>::empty() =~= acc);
                    }
                    Ok(())
                },
                _ => {
                    proof {
                        assert(base =~= result@.subrange(0, base.len() as int));
                    }
                    Err(RenderError::ReferenceTypeMismatch { name: name.clone() })
                },
            }
        },
    }
}

impl Template {
    /// Renders this template's lines in order, appending to `result`, under
    /// the accumulated outer literal context and with `depth` reference
    /// nestings still allowed.  On success exactly the specified output is
    /// appended; on an error `result` keeps what was emitted before the
    /// error and the error alone says why rendering stopped.
    #[verifier::rlimit(60)]
    pub fn render_internal(
        &self,
        parameters: &TemplateParameters,
        templates: &Templates,
        external_left: &Option<String>,
        external_right: &Option<String>,
        result: &mut String,
        depth: usize,
    ) -> (r: Result<(), RenderError>)
        requires
            self.wf(),
            templates.wf(),
        ensures
            (match render_lines(
                self@,
                *parameters,
                *templates,
                opt_text((*external_left).deep_view()),
                opt_text((*external_right).deep_view()),
                depth as nat,
            ) {
                Ok(s) => r is Ok && final(result)@ == old(result)@ + s,
                Err(e) => r is Err && r->Err_0@ == e && old(result)@.is_prefix_of(final(result)@),
            }),
        decreases depth, 2int, 0int,
    {
        let ghost full = self@;
        let ghost lv = opt_text((*external_left).deep_view());
        let ghost rv = opt_text((*external_right).deep_view());
        let ghost base = old(result)@;
        let ghost mut acc: Seq<char> = Seq::empty();
        let n = self.lines.len();
        let mut i: usize = 0;
        proof {
            assert(full.skip(0) =~= full);
            match render_lines(full, *parameters, *templates, lv, rv, depth as nat) {
                Ok(s) => {
                    assert(acc + s =~= s);
                },
                Err(_) => {},
            }
        }
        while i < n
            invariant
                self.wf(),
                templates.wf(),
                full == self@,
                n == self.lines@.len(),
                0 <= i <= n,
                lv == opt_text((*external_left).deep_view()),
                rv == opt_text((*external_right).deep_view()),
                base == old(result)@,
                result@ == base + acc,
                render_lines(full, *parameters, *templates, lv, rv, depth as nat)
                    == prepend_output(
                    acc,
                    render_lines(
                        full.skip(i as int),
                        *parameters,
                        *templates,
                        lv,
                        rv,
                        depth as nat,
                    ),
                ),
            decreases n - i,
        {
            proof {
                assert(full.skip(i as int).len() > 0);
                assert(full.skip(i as int)[0] == full[i as int]);
                assert(full.skip(i as int).drop_first() =~= full.skip(i as int + 1));
                assert(full[i as int] == self.lines@[i as int]@);
                assert(line_wf(full[i as int]));
            }
            let ghost head = match full[i as int] {
                LineView::Raw { value } => Ok(lv + value + rv + seq!['\n']),
                LineView::Parameters { tokens } => render_params_line(
                    tokens,
                    *parameters,
                    lv,
                    rv,
                ),
                LineView::Reference { left: lit_left, is_optional, name, right: lit_right } =>
                    render_reference(
                    lit_left,
                    is_optional,
                    name,
                    lit_right,
                    *parameters,
                    *templates,
                    lv,
                    rv,
                    depth as nat,
                ),
            };
            match &self.lines[i] {
                Line::Raw { value } => {
                    if let Some(left_text) = external_left {
                        result.append(left_text.as_str());
                    }
                    result.append(value.as_str());
                    if let Some(right_text) = external_right {
                        result.append(right_text.as_str());
                    }
                    result.append("\n");
                    proof {
                        reveal_strlit("\n");
                        assert("\n"@ =~= seq!['\n']);
                        let s = lv + value@ + rv + seq!['\n'];
                        assert(result@ =~= base + (acc + s));
                        match render_lines(
                            full.skip(i as int + 1),
                            *parameters,
                            *templates,
                            lv,
                            rv,
                            depth as nat,
                        ) {
                            Ok(rest) => {
                                assert(acc + (s + rest) =~= (acc + s) + rest);
                            },
                            Err(_) => {},
                        }
                        acc = acc + s;
                    }
                },
                Line::Parameters { tokens } => {
                    let step = emit_params_line(
                        tokens,
                        parameters,
                        external_left,
                        external_right,
                        result,
                    );
                    match step {
                        Ok(()) => {
                            proof {
                                let s = head->Ok_0;
                                match render_lines(
                                    full.skip(i as int + 1),
                                    *parameters,
                                    *templates,
                                    lv,
                                    rv,
                                    depth as nat,
                                ) {
                                    Ok(rest) => {
                                        assert(acc + (s + rest) =~= (acc + s) + rest);
                                    },
                                    Err(_) => {},
                                }
                                acc = acc + s;
                            }
                        },
                        Err(e) => {
                            proof {
                                assert(base.is_prefix_of(result@)) by {
                                    assert(base =~= result@.subrange(0, base.len() as int));
                                }
                            }
                            return Err(e);
                        },
                    }
                },
                Line::Reference { left: lit_left, is_optional, name, right: lit_right } => {
                    let step = emit_reference(
                        lit_left,
                        *is_optional,
                        name,
                        lit_right,
                        parameters,
                        templates,
                        external_left,
                        external_right,
                        result,
                        depth,
                    );
                    match step {
                        Ok(()) => {
                            proof {
                                let s = head->Ok_0;
                                match render_lines(
                                    full.skip(i as int + 1),
                                    *parameters,
                                    *templates,
                                    lv,
                                    rv,
                                    depth as nat,
                                ) {
                                    Ok(rest) => {
                                        assert(acc + (s + rest) =~= (acc + s) + rest);
                                    },
                                    Err(_) => {},
                                }
                                acc = acc + s;
                            }
                        },
                        Err(e) => {
                            proof {
                                assert(base.is_prefix_of(result@)) by {
                                    assert(base =~= result@.subrange(0, base.len() as int));
                                }
                            }
                            return Err(e);
                        },
                    }
                },
            }
            i += 1;
        }
        proof {
            assert(full.skip(n as int) =~= Seq::<LineView>::empty());
            assert(acc + Seq::<char>::empty() =~= acc);
        }
        Ok(())
    }

    /// Renders this template against `parameters` and `templates` at the top
    /// level.  The result is exactly the text the rendering relation gives,
    /// or exactly its error; two calls on equal inputs return equal results.
    pub fn render(&self, parameters: &TemplateParameters, templates: &Templates) -> (r: Result<
        String,
        RenderError,
    >)
        requires
            self.wf(),
            templates.wf(),
        ensures
            (match spec_render(self@, *parameters, *templates, RENDER_DEPTH_LIMIT as nat) {
                Ok(s) => r matches Ok(out) && out@ == s,
                Err(e) => r matches Err(err) && err@ == e,
            }),
    {
        let mut result = String::new();
        let outcome = self.render_internal(
            parameters,
            templates,
            &None,
            &None,
            &mut result,
            RENDER_DEPTH_LIMIT,
        );
        match outcome {
            Ok(()) => {
                proof {
                    match spec_render(self@, *parameters, *templates, RENDER_DEPTH_LIMIT as nat) {
                        Ok(s) => {
                            assert(result@ =~= s);
                        },
                        Err(_) => {},
                    }
                }
                Ok(result)
            },
            Err(e) => Err(e),
        }
    }
}

} // verus!
