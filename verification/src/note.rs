//! The note data model: a text entry with identity and creation timestamp,
//! and the spec-level view the contracts speak of.

use vstd::prelude::*;

verus! {

/// One user-authored note.
pub struct Note {
    /// Globally unique opaque identifier, set once at creation.
    pub id: String,
    /// User content; never empty after a successful creation.
    pub text: String,
    /// Creation timestamp, an RFC 3339 string, immutable.
    pub created_at: String,
    /// Reserved for future edit support; never set by this core.
    pub updated_at: Option<String>,
}

/// The mathematical view of a note: its fields as character sequences.
#[verifier::ext_equal]
pub ghost struct NoteV {
    pub id: Seq<char>,
    pub text: Seq<char>,
    pub created_at: Seq<char>,
    pub updated_at: Option<Seq<char>>,
}

impl View for Note {
    type V = NoteV;

    open spec fn view(&self) -> NoteV {
        NoteV {
            id: self.id@,
            text: self.text@,
            created_at: self.created_at@,
            updated_at: match self.updated_at {
                Some(ref s) => Some(s@),
                None => None,
            },
        }
    }
}

impl Clone for Note {
    fn clone(&self) -> (r: Self)
        ensures
            r@ == self@,
    {
        Note {
            id: self.id.clone(),
            text: self.text.clone(),
            created_at: self.created_at.clone(),
            updated_at: match &self.updated_at {
                Some(s) => Some(s.clone()),
                None => None,
            },
        }
    }
}

/// The views of a sequence of notes, element by element.
pub open spec fn views(s: Seq<Note>) -> Seq<NoteV> {
    s.map_values(|n: Note| n@)
}

/// The identifiers of a collection, in order.
pub open spec fn ids(s: Seq<NoteV>) -> Seq<Seq<char>> {
    s.map_values(|n: NoteV| n.id)
}

/// Whether some note of the collection carries this identifier.
pub open spec fn contains_id(s: Seq<NoteV>, id: Seq<char>) -> bool {
    exists|i: int| 0 <= i < s.len() && s[i].id == id
}

/// Identifiers are pairwise distinct within the collection.
pub open spec fn unique_ids(s: Seq<NoteV>) -> bool {
    forall|i: int, j: int| 0 <= i < j < s.len() ==> s[i].id != s[j].id
}

} // verus!
