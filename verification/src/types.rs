//! Basic domain types: document identifiers, statuses, dates and errors.

use vstd::prelude::*;
use crate::text::{
    chars_of, decimal, lemma_split_nonempty, owned, parse_u32_digits, push_char, push_str, split,
    spec_all_digits, spec_decimal, spec_digits_value, spec_split, views,
};

verus! {

/// Default data directory of a project.
pub const DEFAULT_DATA_DIR: &'static str = "Datos";

/// Errors reported by the library.
#[derive(Debug)]
pub enum OcError {
    /// The content does not start with a `---` frontmatter block.
    MissingFrontmatter,
    /// A required field is missing or empty.
    MissingField { field: String },
    /// A document identifier is not a dot-separated list of numbers.
    InvalidDocumentId { value: String },
    /// A status is not one of the known statuses.
    InvalidStatus { value: String },
    /// A date is not of the form `YYYY-MM-DD`.
    InvalidDate { value: String },
    /// A text is no semantic version.
    InvalidVersion { value: String },
}

// ─────────────────────────────────────────────────────────────────────────
// DocumentId
// ─────────────────────────────────────────────────────────────────────────

/// Hierarchical document identifier such as `3.1.2`.
#[derive(Debug)]
pub struct DocumentId {
    parts: Vec<u32>,
}

impl View for DocumentId {
    type V = Seq<u32>;

    closed spec fn view(&self) -> Seq<u32> {
        self.parts@
    }
}

/// Numbers of the dot-separated pieces of `s`, when every piece is a
/// non-empty run of digits whose value fits in `u32`.
pub open spec fn spec_parse_id(s: Seq<char>) -> Option<Seq<u32>> {
    let pieces = spec_split(s, '.');
    if forall|i: int| 0 <= i < pieces.len() ==> spec_all_digits(#[trigger] pieces[i])
        && spec_digits_value(pieces[i]) <= u32::MAX {
        Some(pieces.map_values(|p: Seq<char>| spec_digits_value(p) as u32))
    } else {
        None
    }
}

/// Text of an identifier: its numbers joined by dots.
pub open spec fn spec_id_text(parts: Seq<u32>) -> Seq<char>
    decreases parts.len(),
{
    if parts.len() <= 1 {
        if parts.len() == 0 { Seq::empty() } else { spec_decimal(parts[0] as nat) }
    } else {
        spec_id_text(parts.drop_last()) + seq!['.'] + spec_decimal(parts.last() as nat)
    }
}

impl DocumentId {
    #[verifier::type_invariant]
    spec fn inv(self) -> bool {
        self.parts@.len() >= 1
    }

    /// Parses a dot-separated identifier such as `3.1.2`.
    pub fn parse(s: &str) -> (r: Result<DocumentId, OcError>)
        ensures
            r matches Ok(id) ==> spec_parse_id(s@) == Some(id@),
            r is Err ==> spec_parse_id(s@) is None,
            r matches Err(e) ==> e matches OcError::InvalidDocumentId { value } && value@ == s@,
    {
        let chars = chars_of(s);
        let pieces = split(&chars, '.');
        proof {
            lemma_split_nonempty(chars@, '.');
        }
        let mut parts: Vec<u32> = Vec::new();
        let mut i: usize = 0;
        while i < pieces.len()
            invariant
                i <= pieces@.len(),
                views(pieces@) == spec_split(s@, '.'),
                parts@.len() == i,
                forall|j: int| 0 <= j < i ==> spec_all_digits(#[trigger] views(pieces@)[j])
                    && spec_digits_value(views(pieces@)[j]) <= u32::MAX
                    && parts@[j] as nat == spec_digits_value(views(pieces@)[j]),
            decreases pieces@.len() - i,
        {
            match parse_u32_digits(&pieces[i]) {
                Some(v) => {
                    parts.push(v);
                },
                None => {
                    proof {
                        let ps = spec_split(s@, '.');
                        assert(!(spec_all_digits(ps[i as int]) && spec_digits_value(ps[i as int]) <= u32::MAX));
                    }
                    let value = owned(s);
                    return Err(OcError::InvalidDocumentId { value });
                },
            }
            i = i + 1;
        }
        assert(parts@ =~= spec_split(s@, '.').map_values(|p: Seq<char>| spec_digits_value(p) as u32));
        Ok(DocumentId { parts })
    }

    /// First number of the identifier (its module).
    pub fn module(&self) -> (m: u32)
        ensures
            self@.len() >= 1,
            m == self@[0],
    {
        proof {
            use_type_invariant(self);
        }
        self.parts[0]
    }

    /// Number of levels of the identifier.
    pub fn depth(&self) -> (d: usize)
        ensures
            d == self@.len(),
    {
        self.parts.len()
    }

    /// Whether this is the master document `0`.
    pub fn is_master(&self) -> (r: bool)
        ensures
            r == (self@ == seq![0u32]),
    {
        let r = self.parts.len() == 1 && self.parts[0] == 0;
        assert(r ==> self@ =~= seq![0u32]);
        r
    }

    /// Whether two identifiers are equal.
    pub fn same_as(&self, other: &DocumentId) -> (r: bool)
        ensures
            r == (self@ == other@),
    {
        if self.parts.len() != other.parts.len() {
            return false;
        }
        let mut i: usize = 0;
        while i < self.parts.len()
            invariant
                self@.len() == other@.len(),
                i <= self@.len(),
                forall|j: int| 0 <= j < i ==> self@[j] == other@[j],
            decreases self@.len() - i,
        {
            if self.parts[i] != other.parts[i] {
                return false;
            }
            i = i + 1;
        }
        assert(self@ =~= other@);
        true
    }

    /// A copy of this identifier.
    pub fn copy(&self) -> (r: DocumentId)
        ensures
            r@ == self@,
    {
        proof {
            use_type_invariant(self);
        }
        let mut parts: Vec<u32> = Vec::new();
        let mut i: usize = 0;
        while i < self.parts.len()
            invariant
                i <= self@.len(),
                parts@ == self@.subrange(0, i as int),
            decreases self@.len() - i,
        {
            parts.push(self.parts[i]);
            i = i + 1;
        }
        assert(parts@ =~= self@);
        DocumentId { parts }
    }

    /// Text of the identifier: its numbers joined by dots.
    pub fn to_text(&self) -> (s: String)
        ensures
            s@ == spec_id_text(self@),
    {
        let mut s = String::new();
        let mut i: usize = 0;
        while i < self.parts.len()
            invariant
                i <= self@.len(),
                s@ == spec_id_text(self@.subrange(0, i as int)),
            decreases self@.len() - i,
        {
            proof {
                let t = self@.subrange(0, i + 1);
                assert(t.drop_last() =~= self@.subrange(0, i as int));
            }
            if i > 0 {
                push_char(&mut s, '.');
            }
            let d = decimal(self.parts[i] as usize);
            push_str(&mut s, d.as_str());
            proof {
                if i == 0 {
                    assert(s@ =~= spec_decimal(self@[0] as nat));
                }
            }
            i = i + 1;
        }
        assert(self@.subrange(0, self@.len() as int) =~= self@);
        s
    }
}


} // verus!
