//! The marker syntax: the three literal strings that delimit markers.

use vstd::prelude::*;

verus! {

/// The ghost shape of a [`Syntax`]: its three strings as character sequences.
pub struct SyntaxView {
    pub open_tag: Seq<char>,
    pub close_tag: Seq<char>,
    pub optional_operator: Seq<char>,
}

/// The bracket/comment syntax a parser is built from: the marker's opening
/// and closing delimiters, and the keyword that marks a slot as optional.
/// Immutable once constructed.
pub struct Syntax {
    open_tag: String,
    close_tag: String,
    optional_operator: String,
}

impl View for Syntax {
    type V = SyntaxView;

    closed spec fn view(&self) -> SyntaxView {
        SyntaxView {
            open_tag: self.open_tag@,
            close_tag: self.close_tag@,
            optional_operator: self.optional_operator@,
        }
    }
}

impl Syntax {
    pub fn new(open_tag: String, close_tag: String, optional_operator: String) -> (s: Syntax)
        ensures
            s@ == (SyntaxView {
                open_tag: open_tag@,
                close_tag: close_tag@,
                optional_operator: optional_operator@,
            }),
    {
        Syntax { open_tag, close_tag, optional_operator }
    }

    pub fn open_tag(&self) -> (r: &str)
        ensures
            r@ == self@.open_tag,
    {
        self.open_tag.as_str()
    }

    pub fn close_tag(&self) -> (r: &str)
        ensures
            r@ == self@.close_tag,
    {
        self.close_tag.as_str()
    }

    pub fn optional_operator(&self) -> (r: &str)
        ensures
            r@ == self@.optional_operator,
    {
        self.optional_operator.as_str()
    }
}

impl Default for Syntax {
    /// The default syntax: HTML-comment markers and the keyword `optional`.
    fn default() -> (s: Syntax)
        ensures
            s@.open_tag == "<!--"@,
            s@.close_tag == "-->"@,
            s@.optional_operator == "optional"@,
    {
        Syntax {
            open_tag: "<!--".to_owned(),
            close_tag: "-->".to_owned(),
            optional_operator: "optional".to_owned(),
        }
    }
}

} // verus!
