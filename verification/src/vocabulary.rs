//! The vocabulary a document is validated against: the known section names,
//! the directive names allowed in each section, and the enumerated legal
//! values of directives — looked up by (section, directive) first, falling
//! back to the bare directive name.

use vstd::prelude::*;

use crate::text::str_eq;

verus! {

/// Model of a vocabulary.
pub ghost struct VocabularyModel {
    pub sections: Seq<Seq<char>>,
    pub section_directives: Seq<(Seq<char>, Seq<Seq<char>>)>,
    pub pair_values: Seq<(Seq<char>, Seq<char>, Seq<Seq<char>>)>,
    pub directive_values: Seq<(Seq<char>, Seq<Seq<char>>)>,
}

/// The knowledge base used by validation: section names, allowed directive
/// names per section, and enumerated value sets keyed by (section, directive)
/// or by directive name alone.
#[derive(Debug)]
pub struct Vocabulary {
    pub sections: Vec<String>,
    pub section_directives: Vec<(String, Vec<String>)>,
    pub pair_values: Vec<(String, String, Vec<String>)>,
    pub directive_values: Vec<(String, Vec<String>)>,
}

impl View for Vocabulary {
    type V = VocabularyModel;

    open spec fn view(&self) -> VocabularyModel {
        VocabularyModel {
            sections: self.sections.deep_view(),
            section_directives: self.section_directives.deep_view(),
            pair_values: self.pair_values.deep_view(),
            directive_values: self.directive_values.deep_view(),
        }
    }
}

/// Whether `x` occurs in `xs`.
pub open spec fn seq_contains_str(xs: Seq<Seq<char>>, x: Seq<char>) -> bool {
    exists|i: int| 0 <= i < xs.len() && xs[i] == x
}

/// Membership of a string in a list of strings.
#[verifier::loop_isolation(false)]
pub fn contains_string(xs: &Vec<String>, x: &str) -> (r: bool)
    ensures
        r == seq_contains_str(xs.deep_view(), x@),
{
    let mut i: usize = 0;
    while i < xs.len()
        invariant
            0 <= i <= xs@.len(),
            forall|j: int| 0 <= j < i ==> xs.deep_view()[j] != x@,
        decreases xs@.len() - i,
    {
        if str_eq(xs[i].as_str(), x) {
            proof {
                assert(xs.deep_view()[i as int] == x@);
            }
            return true;
        }
        proof {
            assert(xs.deep_view()[i as int] == xs@[i as int]@);
        }
        i = i + 1;
    }
    false
}

/// The value list of the first entry with the given key, searching from
/// index `k`.
pub open spec fn lookup_values_from(
    entries: Seq<(Seq<char>, Seq<Seq<char>>)>,
    key: Seq<char>,
    k: int,
) -> Option<Seq<Seq<char>>>
    decreases entries.len() - k,
{
    if k < 0 || k >= entries.len() {
        None
    } else if entries[k].0 == key {
        Some(entries[k].1)
    } else {
        lookup_values_from(entries, key, k + 1)
    }
}

/// The value list of the first entry with the given (section, directive)
/// key, searching from index `k`.
pub open spec fn lookup_pair_from(
    entries: Seq<(Seq<char>, Seq<char>, Seq<Seq<char>>)>,
    section: Seq<char>,
    key: Seq<char>,
    k: int,
) -> Option<Seq<Seq<char>>>
    decreases entries.len() - k,
{
    if k < 0 || k >= entries.len() {
        None
    } else if entries[k].0 == section && entries[k].1 == key {
        Some(entries[k].2)
    } else {
        lookup_pair_from(entries, section, key, k + 1)
    }
}

/// The enumerated legal values for (`section`, `key`): the section-specific
/// entry if one exists, else the entry for the bare directive name.
pub open spec fn enumerated_values_spec(
    v: VocabularyModel,
    section: Seq<char>,
    key: Seq<char>,
) -> Option<Seq<Seq<char>>> {
    match lookup_pair_from(v.pair_values, section, key, 0) {
        Some(values) => Some(values),
        None => lookup_values_from(v.directive_values, key, 0),
    }
}

impl Vocabulary {
    /// Whether `name` is a known section name.
    #[verifier::loop_isolation(false)]
    pub fn has_section(&self, name: &str) -> (r: bool)
        ensures
            r == seq_contains_str(self@.sections, name@),
    {
        contains_string(&self.sections, name)
    }

    /// The directive names allowed in `section`, if the vocabulary lists the
    /// section.
    #[verifier::loop_isolation(false)]
    pub fn directives_of<'a>(&'a self, section: &str) -> (r: Option<&'a Vec<String>>)
        ensures
            match r {
                Some(values) => lookup_values_from(self@.section_directives, section@, 0)
                    == Some::<Seq<Seq<char>>>(values.deep_view()),
                None => lookup_values_from(self@.section_directives, section@, 0) is None,
            },
    {
        let ghost entries = self@.section_directives;
        let mut i: usize = 0;
        while i < self.section_directives.len()
            invariant
                0 <= i <= self.section_directives@.len(),
                entries == self@.section_directives,
                lookup_values_from(entries, section@, 0) == lookup_values_from(
                    entries,
                    section@,
                    i as int,
                ),
            decreases self.section_directives@.len() - i,
        {
            let entry = &self.section_directives[i];
            proof {
                assert(entries[i as int] == self.section_directives@[i as int].deep_view());
            }
            if str_eq(entry.0.as_str(), section) {
                return Some(&entry.1);
            }
            i = i + 1;
        }
        None
    }

    /// The enumerated legal values for (`section`, `key`), if any: the
    /// section-specific entry wins over the entry for the bare directive
    /// name.
    #[verifier::loop_isolation(false)]
    pub fn enumerated_values<'a>(&'a self, section: &str, key: &str) -> (r: Option<
        &'a Vec<String>,
    >)
        ensures
            match r {
                Some(values) => enumerated_values_spec(self@, section@, key@) == Some::<
                    Seq<Seq<char>>,
                >(values.deep_view()),
                None => enumerated_values_spec(self@, section@, key@) is None,
            },
    {
        let ghost pairs = self@.pair_values;
        let mut i: usize = 0;
        while i < self.pair_values.len()
            invariant
                0 <= i <= self.pair_values@.len(),
                pairs == self@.pair_values,
                lookup_pair_from(pairs, section@, key@, 0) == lookup_pair_from(
                    pairs,
                    section@,
                    key@,
                    i as int,
                ),
            decreases self.pair_values@.len() - i,
        {
            let entry = &self.pair_values[i];
            proof {
                assert(pairs[i as int] == self.pair_values@[i as int].deep_view());
            }
            if str_eq(entry.0.as_str(), section) && str_eq(entry.1.as_str(), key) {
                return Some(&entry.2);
            }
            i = i + 1;
        }
        let ghost entries = self@.directive_values;
        let mut j: usize = 0;
        while j < self.directive_values.len()
            invariant
                0 <= j <= self.directive_values@.len(),
                entries == self@.directive_values,
                lookup_pair_from(pairs, section@, key@, 0) is None,
                lookup_values_from(entries, key@, 0) == lookup_values_from(
                    entries,
                    key@,
                    j as int,
                ),
            decreases self.directive_values@.len() - j,
        {
            let entry = &self.directive_values[j];
            proof {
                assert(entries[j as int] == self.directive_values@[j as int].deep_view());
            }
            if str_eq(entry.0.as_str(), key) {
                return Some(&entry.1);
            }
            j = j + 1;
        }
        None
    }
}

} // verus!
