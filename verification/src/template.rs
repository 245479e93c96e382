//! The compiled form of a template: classified lines and their tokens.

use vstd::prelude::*;

verus! {

// ---------------------------------------------------------------------------
// Ghost views
// ---------------------------------------------------------------------------

/// The ghost shape of one token of a `Parameters` line.
pub enum TokenView {
    Raw { value: Seq<char> },
    Parameter { is_optional: bool, name: Seq<char> },
}

/// The ghost shape of one classified line.
pub enum LineView {
    Raw { value: Seq<char> },
    Parameters { tokens: Seq<TokenView> },
    Reference {
        left: Option<Seq<char>>,
        is_optional: bool,
        name: Seq<char>,
        right: Option<Seq<char>>,
    },
}

// ---------------------------------------------------------------------------
// Executable data model
// ---------------------------------------------------------------------------

/// One token of a `Parameters` line: a literal fragment, or an inline
/// parameter marker with its name and optionality flag.
#[derive(Debug, PartialEq, Eq)]
pub enum ParametersLineToken {
    Raw { value: String },
    Parameter { is_optional: bool, name: String },
}

impl View for ParametersLineToken {
    type V = TokenView;

    open spec fn view(&self) -> TokenView {
        match self {
            ParametersLineToken::Raw { value } => TokenView::Raw { value: value@ },
            ParametersLineToken::Parameter { is_optional, name } => TokenView::Parameter {
                is_optional: *is_optional,
                name: name@,
            },
        }
    }
}

/// One classified source line.
///
/// - `Raw`: no markers; copied verbatim.
/// - `Parameters`: one or more inline parameter markers; `tokens` alternates
///   literal fragments and parameter markers and always ends with a literal
///   fragment (possibly empty).
/// - `Reference`: a whole-line marker referencing another named template,
///   with the literal text standing before and after the marker (`None` when
///   empty).
#[derive(Debug, PartialEq, Eq)]
pub enum Line {
    Raw { value: String },
    Parameters { tokens: Vec<ParametersLineToken> },
    Reference { left: Option<String>, is_optional: bool, name: String, right: Option<String> },
}

impl View for Line {
    type V = LineView;

    open spec fn view(&self) -> LineView {
        match self {
            Line::Raw { value } => LineView::Raw { value: value@ },
            Line::Parameters { tokens } => LineView::Parameters {
                tokens: tokens@.map_values(|t: ParametersLineToken| t@),
            },
            Line::Reference { left, is_optional, name, right } => LineView::Reference {
                left: left.deep_view(),
                is_optional: *is_optional,
                name: name@,
                right: right.deep_view(),
            },
        }
    }
}

/// An ordered, immutable sequence of classified lines; the compiled form of
/// one template source text.
#[derive(Debug, PartialEq, Eq)]
pub struct Template {
    pub lines: Vec<Line>,
}

impl View for Template {
    type V = Seq<LineView>;

    open spec fn view(&self) -> Seq<LineView> {
        self.lines@.map_values(|l: Line| l@)
    }
}

// ---------------------------------------------------------------------------
// Well-formedness
// ---------------------------------------------------------------------------

/// At least one of `tokens` is a parameter marker.
pub open spec fn has_parameter_token(tokens: Seq<TokenView>) -> bool {
    exists|j: int| 0 <= j < tokens.len() && tokens[j] is Parameter
}

/// A `Parameters` line carries at least one parameter marker; other lines
/// are unconstrained.
pub open spec fn line_wf(l: LineView) -> bool {
    l matches LineView::Parameters { tokens } ==> has_parameter_token(tokens)
}

impl Template {
    /// Every `Parameters` line holds at least one parameter marker, as the
    /// parser guarantees of the templates it produces.
    pub open spec fn wf(&self) -> bool {
        forall|i: int| 0 <= i < self@.len() ==> #[trigger] line_wf(self@[i])
    }
}

} // verus!
