//! The unit of the dictionary: one term, its translation and its metadata.

use crate::text::str_eq;
use vstd::prelude::*;

verus! {

/// How an atom came into the dictionary. Informational: matching ignores it.
#[derive(Clone, Copy, Debug, PartialEq, Eq, Structural)]
pub enum AtomSource {
    Base,
    AI,
    Manual,
}

impl AtomSource {
    /// The tag under which the source is persisted.
    pub open spec fn tag(self) -> Seq<char> {
        match self {
            AtomSource::Base => "base"@,
            AtomSource::AI => "ai"@,
            AtomSource::Manual => "manual"@,
        }
    }

    /// The source that a persisted tag stands for; an unknown tag reads as
    /// `Manual`.
    pub open spec fn of_tag(tag: Seq<char>) -> AtomSource {
        if tag == "base"@ {
            AtomSource::Base
        } else if tag == "ai"@ {
            AtomSource::AI
        } else {
            AtomSource::Manual
        }
    }

    /// The tag under which the source is persisted.
    pub fn as_str(&self) -> (r: &'static str)
        ensures
            r@ == self.tag(),
    {
        match self {
            AtomSource::Base => "base",
            AtomSource::AI => "ai",
            AtomSource::Manual => "manual",
        }
    }

    /// The source that a label from the user interface stands for: `base`
    /// and `ai` are known with a small or a capital initial, `ai` also in
    /// capitals; any other label reads as `Manual`.
    pub open spec fn of_label(label: Seq<char>) -> AtomSource {
        if label == "base"@ || label == "Base"@ {
            AtomSource::Base
        } else if label == "ai"@ || label == "AI"@ {
            AtomSource::AI
        } else {
            AtomSource::Manual
        }
    }

    /// The source that a label from the user interface stands for.
    pub fn from_label(label: &str) -> (r: AtomSource)
        ensures
            r == AtomSource::of_label(label@),
    {
        if str_eq(label, "base") || str_eq(label, "Base") {
            AtomSource::Base
        } else if str_eq(label, "ai") || str_eq(label, "AI") {
            AtomSource::AI
        } else {
            AtomSource::Manual
        }
    }

    /// The source that a persisted tag stands for.
    pub fn from_str(s: &str) -> (r: AtomSource)
        ensures
            r == AtomSource::of_tag(s@),
    {
        if str_eq(s, "base") {
            AtomSource::Base
        } else if str_eq(s, "ai") {
            AtomSource::AI
        } else {
            AtomSource::Manual
        }
    }
}

/// One dictionary entry.
#[derive(Debug, Clone)]
pub struct AtomTranslation {
    /// Surrogate identifier, assigned when the entry is first stored.
    pub id: i64,
    /// The lookup key: the term in lower case.
    pub original: String,
    /// The replacement text; may be empty.
    pub translated: String,
    /// How often the entry has been used; advisory.
    pub usage_count: i32,
    pub source: AtomSource,
    /// Seconds since the epoch.
    pub created_at: i64,
    /// Seconds since the epoch.
    pub updated_at: i64,
}

/// What an entry holds, as plain values.
pub struct AtomView {
    pub id: i64,
    pub original: Seq<char>,
    pub translated: Seq<char>,
    pub usage_count: i32,
    pub source: AtomSource,
    pub created_at: i64,
    pub updated_at: i64,
}

impl View for AtomTranslation {
    type V = AtomView;

    open spec fn view(&self) -> AtomView {
        AtomView {
            id: self.id,
            original: self.original@,
            translated: self.translated@,
            usage_count: self.usage_count,
            source: self.source,
            created_at: self.created_at,
            updated_at: self.updated_at,
        }
    }
}

/// The entries of a list, each as plain values.
pub open spec fn atom_views(atoms: Seq<AtomTranslation>) -> Seq<AtomView> {
    atoms.map_values(|a: AtomTranslation| a@)
}

impl AtomTranslation {
    /// A copy of the entry.
    pub fn duplicate(&self) -> (r: AtomTranslation)
        ensures
            r@ == self@,
    {
        AtomTranslation {
            id: self.id,
            original: self.original.clone(),
            translated: self.translated.clone(),
            usage_count: self.usage_count,
            source: self.source,
            created_at: self.created_at,
            updated_at: self.updated_at,
        }
    }
}

/// A copy of a list of entries.
pub fn duplicate_atoms(atoms: &Vec<AtomTranslation>) -> (r: Vec<AtomTranslation>)
    ensures
        atom_views(r@) == atom_views(atoms@),
{
    let mut out: Vec<AtomTranslation> = Vec::new();
    let mut i: usize = 0;
    while i < atoms.len()
        invariant
            0 <= i <= atoms.len(),
            out.len() == i,
            forall|k: int| 0 <= k < i ==> out[k]@ == atoms[k]@,
        decreases atoms.len() - i,
    {
        out.push(atoms[i].duplicate());
        i += 1;
    }
    assert(atom_views(out@) =~= atom_views(atoms@));
    out
}

} // verus!
