//! A line-oriented text template engine.
//!
//! Template source text is compiled into a [`Template`]: an ordered sequence
//! of classified lines (literal text, lines with inline parameter markers, or
//! whole-line references to other named templates).  A template is then
//! rendered against a tree of named parameter bindings and a registry of
//! named templates, expanding markers, fanning single source lines out over
//! list-valued bindings, and recursing into referenced templates with
//! accumulated left/right literal context.

mod params;
mod parser;
mod props;
mod render;
mod syntax;
mod template;
mod text;

pub use params::TemplateParameters;
pub use params::TemplateParametersValue;
pub use params::Templates;
pub use params::assoc_map;
pub use parser::MarkerMatch;
pub use parser::MarkerPatternView;
pub use parser::Parser;
pub use parser::ParserView;
pub use parser::first_marker_from;
pub use parser::group_of;
pub use parser::last_marker_before;
pub use parser::match_marker_at;
pub use parser::parser_of;
pub use parser::pattern_of;
pub use parser::scan_params_from;
pub use parser::spec_classify;
pub use parser::spec_parse;

pub use props::count_parameter_tokens;
pub use props::count_raw_tokens;
pub use props::join_lines;
pub use props::lemma_fanout_count;
pub use props::lemma_missing_mandatory_parameter_errs;
pub use props::lemma_optional_absent_line_ok;
pub use props::lemma_raw_template_round_trip;
pub use props::lemma_scan_params_trailing_literal;
pub use props::lemma_separated_token_counts;
pub use props::lemma_unbound_reference_renders_nothing;
pub use props::markers_separated;
pub use props::normalized_text;
pub use render::RENDER_DEPTH_LIMIT;
pub use render::RenderError;
pub use render::RenderErrorView;
pub use render::RoundOutput;
pub use render::all_tokens_optional;
pub use render::eval_round;
pub use render::has_always_final;
pub use render::min_list_len;
pub use render::n_rounds;
pub use render::opt_text;
pub use render::render_lines;
pub use render::render_one_reference;
pub use render::render_params_line;
pub use render::render_reference;
pub use render::render_reference_list;
pub use render::round_text;
pub use render::rounds_text;
pub use render::spec_render;
pub use render::token_always_final;
pub use render::token_list_len;
pub use render::token_step;
pub use syntax::Syntax;
pub use syntax::SyntaxView;
pub use template::Line;
pub use template::LineView;
pub use template::ParametersLineToken;
pub use template::Template;
pub use template::TokenView;
pub use template::has_parameter_token;
pub use template::line_wf;
pub use text::char_is_alphanumeric;
pub use text::is_word_char;
pub use text::line_break;
pub use text::seq_matches_at;
pub use text::space_run_end;
pub use text::spec_lines;
pub use text::strip_cr;
pub use text::word_run_end;
