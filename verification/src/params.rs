//! Parameter bindings and the template registry.
//!
//! Both are plain name-to-value maps with string keys; only lookup matters,
//! never iteration order.  They are held as entry lists whose ghost view is
//! the `Map` obtained by inserting the entries in order, so a later binding
//! of a name shadows an earlier one, as re-inserting into a map does.

use vstd::prelude::*;

use crate::template::Template;
use crate::text::str_eq;

verus! {

/// The map described by an entry list: every entry inserted in order.
pub open spec fn assoc_map<V>(entries: Seq<(String, V)>) -> Map<Seq<char>, V>
    decreases entries.len(),
{
    if entries.len() == 0 {
        Map::empty()
    } else {
        assoc_map(entries.drop_last()).insert(entries.last().0@, entries.last().1)
    }
}

proof fn lemma_assoc_map_absent<V>(entries: Seq<(String, V)>, key: Seq<char>)
    requires
        forall|i: int| 0 <= i < entries.len() ==> (#[trigger] entries[i].0)@ != key,
    ensures
        !assoc_map(entries).contains_key(key),
    decreases entries.len(),
{
    if entries.len() > 0 {
        lemma_assoc_map_absent(entries.drop_last(), key);
    }
}

proof fn lemma_assoc_map_found<V>(entries: Seq<(String, V)>, j: int)
    requires
        0 <= j < entries.len(),
        forall|l: int| j < l < entries.len() ==> (#[trigger] entries[l].0)@ != entries[j].0@,
    ensures
        assoc_map(entries).contains_key(entries[j].0@),
        assoc_map(entries)[entries[j].0@] == entries[j].1,
    decreases entries.len(),
{
    if j < entries.len() - 1 {
        lemma_assoc_map_found(entries.drop_last(), j);
    }
}

fn assoc_get<'a, V>(entries: &'a Vec<(String, V)>, name: &str) -> (r: Option<&'a V>)
    ensures
        match r {
            Some(v) => assoc_map(entries@).contains_key(name@) && *v == assoc_map(entries@)[name@],
            None => !assoc_map(entries@).contains_key(name@),
        },
{
    let mut i: usize = entries.len();
    while i > 0
        invariant
            i <= entries@.len(),
            forall|l: int| i <= l < entries@.len() ==> (#[trigger] entries@[l].0)@ != name@,
        decreases i,
    {
        let entry = &entries[i - 1];
        if str_eq(entry.0.as_str(), name) {
            proof {
                lemma_assoc_map_found(entries@, i - 1);
            }
            return Some(&entry.1);
        }
        i -= 1;
    }
    proof {
        lemma_assoc_map_absent(entries@, name@);
    }
    None
}

fn assoc_insert<V>(entries: &mut Vec<(String, V)>, name: &str, value: V)
    ensures
        assoc_map(final(entries)@) == assoc_map(old(entries)@).insert(name@, value),
{
    let ghost before = entries@;
    entries.push((name.to_owned(), value));
    proof {
        assert(entries@.drop_last() =~= before);
    }
}

// ---------------------------------------------------------------------------
// Parameter bindings
// ---------------------------------------------------------------------------

/// One bound value: a scalar, a non-empty list of scalars, a sub-tree of
/// bindings for a referenced template, or an ordered list of such sub-trees.
pub enum TemplateParametersValue {
    Parameters(TemplateParameters),
    ValuesVec(Vec<String>),
    ParametersVec(Vec<TemplateParameters>),
    Value(String),
}

/// A mapping from parameter name to one bound value.
pub struct TemplateParameters {
    entries: Vec<(String, TemplateParametersValue)>,
}

impl View for TemplateParameters {
    type V = Map<Seq<char>, TemplateParametersValue>;

    closed spec fn view(&self) -> Map<Seq<char>, TemplateParametersValue> {
        assoc_map(self.entries@)
    }
}

impl TemplateParameters {
    pub fn new() -> (r: TemplateParameters)
        ensures
            r@ == Map::<Seq<char>, TemplateParametersValue>::empty(),
    {
        TemplateParameters { entries: Vec::new() }
    }

    /// Binds `name` to `value`, shadowing any earlier binding of `name`.
    pub fn insert(&mut self, name: &str, value: TemplateParametersValue)
        ensures
            final(self)@ == old(self)@.insert(name@, value),
    {
        assoc_insert(&mut self.entries, name, value);
    }

    /// Looks `name` up; `Some` exactly when `name` is bound.
    pub fn get(&self, name: &str) -> (r: Option<&TemplateParametersValue>)
        ensures
            match r {
                Some(v) => self@.contains_key(name@) && *v == self@[name@],
                None => !self@.contains_key(name@),
            },
    {
        assoc_get(&self.entries, name)
    }
}

// ---------------------------------------------------------------------------
// The template registry
// ---------------------------------------------------------------------------

/// A mapping from template name to a parsed template, used to resolve
/// reference lines at render time.
pub struct Templates {
    entries: Vec<(String, Template)>,
}

impl View for Templates {
    type V = Map<Seq<char>, Template>;

    closed spec fn view(&self) -> Map<Seq<char>, Template> {
        assoc_map(self.entries@)
    }
}

impl Templates {
    /// Every registered template is well-formed.
    pub open spec fn wf(&self) -> bool {
        forall|name: Seq<char>|
            self@.contains_key(name) ==> (#[trigger] self@[name]).wf()
    }

    pub fn new() -> (r: Templates)
        ensures
            r@ == Map::<Seq<char>, Template>::empty(),
    {
        Templates { entries: Vec::new() }
    }

    /// Registers `template` under `name`, shadowing any earlier entry.
    pub fn insert(&mut self, name: &str, template: Template)
        ensures
            final(self)@ == old(self)@.insert(name@, template),
    {
        assoc_insert(&mut self.entries, name, template);
    }

    /// Looks `name` up; `Some` exactly when a template is registered.
    pub fn get(&self, name: &str) -> (r: Option<&Template>)
        ensures
            match r {
                Some(t) => self@.contains_key(name@) && *t == self@[name@],
                None => !self@.contains_key(name@),
            },
    {
        assoc_get(&self.entries, name)
    }
}

} // verus!
