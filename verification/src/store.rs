//! The note store core: validation, collection updates, read-time ordering,
//! and loading and saving of the on-disk document. Every operation here is a
//! pure function from the current content to the next one; the shell does the
//! actual file reads and writes under its write lock, and hands the bytes in
//! and out as strings.

use vstd::prelude::*;

use crate::codec::{encode_notes, parse_notes, sp_notes};
use crate::errors::{ErrorKind, NoteError};
use crate::note::{contains_id, views, Note, NoteV};

verus! {

// ---------------------------------------------------------------------------
// Whitespace and trimming.
// ---------------------------------------------------------------------------

/// The white-space characters, as Rust's `char::is_whitespace` lists them.
pub open spec fn is_ws(c: char) -> bool {
    ||| c == ' '
    ||| c == '\t'
    ||| c == '\n'
    ||| c == '\r'
    ||| c as u32 == 0x0b
    ||| c as u32 == 0x0c
    ||| c as u32 == 0x85
    ||| c as u32 == 0xa0
    ||| c as u32 == 0x1680
    ||| (0x2000 <= c as u32 && c as u32 <= 0x200a)
    ||| c as u32 == 0x2028
    ||| c as u32 == 0x2029
    ||| c as u32 == 0x202f
    ||| c as u32 == 0x205f
    ||| c as u32 == 0x3000
}

pub open spec fn trim_front(s: Seq<char>) -> Seq<char>
    decreases s.len(),
{
    if s.len() > 0 && is_ws(s[0]) {
        trim_front(s.drop_first())
    } else {
        s
    }
}

pub open spec fn trim_back(s: Seq<char>) -> Seq<char>
    decreases s.len(),
{
    if s.len() > 0 && is_ws(s.last()) {
        trim_back(s.drop_last())
    } else {
        s
    }
}

/// The text with leading and trailing whitespace removed.
pub open spec fn trimmed(s: Seq<char>) -> Seq<char> {
    trim_back(trim_front(s))
}

fn is_ws_char(c: char) -> (r: bool)
    ensures
        r == is_ws(c),
{
    c == ' ' || c == '\t' || c == '\n' || c == '\r' || c as u32 == 0x0b || c as u32 == 0x0c
        || c as u32 == 0x85 || c as u32 == 0xa0 || c as u32 == 0x1680 || (0x2000 <= c as u32
        && c as u32 <= 0x200a) || c as u32 == 0x2028 || c as u32 == 0x2029 || c as u32 == 0x202f
        || c as u32 == 0x205f || c as u32 == 0x3000
}

/// Trim leading and trailing whitespace from a string slice.
pub fn trim(s: &str) -> (r: &str)
    ensures
        r@ == trimmed(s@),
{
    let n = s.unicode_len();
    let mut a: usize = 0;
    proof {
        assert(s@.skip(0) =~= s@);
    }
    while a < n && is_ws_char(s.get_char(a))
        invariant
            0 <= a <= n,
            n == s@.len(),
            trim_front(s@) == trim_front(s@.skip(a as int)),
        decreases n - a,
    {
        proof {
            assert(s@.skip(a as int)[0] == s@[a as int]);
            assert(s@.skip(a as int).drop_first() =~= s@.skip(a + 1 as int));
        }
        a += 1;
    }
    proof {
        if a < n {
            assert(s@.skip(a as int)[0] == s@[a as int]);
        } else {
            assert(s@.skip(a as int) =~= Seq::<char>::empty());
        }
        assert(trim_front(s@) == s@.skip(a as int));
    }
    let mut b: usize = n;
    proof {
        assert(s@.subrange(a as int, n as int) =~= s@.skip(a as int));
    }
    while b > a && is_ws_char(s.get_char(b - 1))
        invariant
            a <= b <= n,
            n == s@.len(),
            trim_front(s@) == s@.skip(a as int),
            trim_back(s@.skip(a as int)) == trim_back(s@.subrange(a as int, b as int)),
        decreases b,
    {
        proof {
            let cur = s@.subrange(a as int, b as int);
            assert(cur.last() == s@[b - 1]);
            assert(cur.drop_last() =~= s@.subrange(a as int, b - 1));
        }
        b -= 1;
    }
    proof {
        let cur = s@.subrange(a as int, b as int);
        if b > a {
            assert(cur.last() == s@[b - 1]);
            assert(!is_ws(cur.last()));
        }
        assert(trim_back(cur) == cur);
    }
    let r = s.substring_char(a, b);
    proof {
        assert(r@ == trimmed(s@));
    }
    r
}

// ---------------------------------------------------------------------------
// String equality and lexicographic order.
// ---------------------------------------------------------------------------

fn str_eq(a: &str, b: &str) -> (r: bool)
    ensures
        r == (a@ == b@),
{
    let n = a.unicode_len();
    if n != b.unicode_len() {
        return false;
    }
    let mut i: usize = 0;
    while i < n
        invariant
            0 <= i <= n,
            n == a@.len(),
            n == b@.len(),
            forall|k: int| 0 <= k < i ==> a@[k] == b@[k],
        decreases n - i,
    {
        if a.get_char(i) != b.get_char(i) {
            return false;
        }
        i += 1;
    }
    proof {
        assert(a@ =~= b@);
    }
    true
}

/// Lexicographic order on character sequences, by code point.
pub open spec fn lex_le(a: Seq<char>, b: Seq<char>) -> bool
    decreases a.len(),
{
    if a.len() == 0 {
        true
    } else if b.len() == 0 {
        false
    } else if (a[0] as u32) < (b[0] as u32) {
        true
    } else if (a[0] as u32) > (b[0] as u32) {
        false
    } else {
        lex_le(a.drop_first(), b.drop_first())
    }
}

fn str_le_from(a: &str, b: &str, i: usize) -> (r: bool)
    requires
        i <= a@.len(),
        i <= b@.len(),
    ensures
        r == lex_le(a@.skip(i as int), b@.skip(i as int)),
    decreases a@.len() - i,
{
    let na = a.unicode_len();
    let nb = b.unicode_len();
    if i >= na {
        proof {
            assert(a@.skip(i as int).len() == 0);
        }
        return true;
    }
    if i >= nb {
        proof {
            assert(b@.skip(i as int).len() == 0);
        }
        return false;
    }
    let ca = a.get_char(i);
    let cb = b.get_char(i);
    proof {
        assert(a@.skip(i as int)[0] == a@[i as int]);
        assert(b@.skip(i as int)[0] == b@[i as int]);
        assert(a@.skip(i as int).drop_first() =~= a@.skip(i + 1 as int));
        assert(b@.skip(i as int).drop_first() =~= b@.skip(i + 1 as int));
    }
    if (ca as u32) < (cb as u32) {
        true
    } else if (ca as u32) > (cb as u32) {
        false
    } else {
        str_le_from(a, b, i + 1)
    }
}

fn str_le(a: &str, b: &str) -> (r: bool)
    ensures
        r == lex_le(a@, b@),
{
    let r = str_le_from(a, b, 0);
    proof {
        assert(a@.skip(0) =~= a@);
        assert(b@.skip(0) =~= b@);
    }
    r
}

// ---------------------------------------------------------------------------
// Collection operations.
// ---------------------------------------------------------------------------

fn clone_notes(notes: &Vec<Note>) -> (r: Vec<Note>)
    ensures
        views(r@) == views(notes@),
{
    let mut out: Vec<Note> = Vec::new();
    let mut i: usize = 0;
    while i < notes.len()
        invariant
            0 <= i <= notes@.len(),
            views(out@) == views(notes@.subrange(0, i as int)),
        decreases notes@.len() - i,
    {
        let ghost old_out = out@;
        out.push(notes[i].clone());
        proof {
            assert(views(out@) =~= views(old_out).push(notes@[i as int]@));
            assert(views(old_out).push(notes@[i as int]@) =~= views(
                notes@.subrange(0, i + 1 as int),
            ));
        }
        i += 1;
    }
    proof {
        assert(notes@.subrange(0, notes@.len() as int) =~= notes@);
    }
    out
}

/// Append a freshly created note to the collection. Fails, and changes
/// nothing, exactly when the text is empty after trimming.
pub fn create_in(notes: &Vec<Note>, text: &str, id: String, created_at: String) -> (r: Result<
    (Vec<Note>, Note),
    NoteError,
>)
    ensures
        r is Err <==> trimmed(text@).len() == 0,
        r matches Err(e) ==> e.kind == ErrorKind::InvalidInput,
        r matches Ok(p) ==> {
            &&& p.1@.id == id@
            &&& p.1@.text == trimmed(text@)
            &&& p.1@.created_at == created_at@
            &&& p.1@.updated_at is None
            &&& views(p.0@) == views(notes@).push(p.1@)
        },
{
    let t = trim(text);
    if t.unicode_len() == 0 {
        return Err(NoteError::invalid_input());
    }
    let note = Note { id, text: String::from_str(t), created_at, updated_at: None };
    let mut out = clone_notes(notes);
    let returned = note.clone();
    out.push(note);
    proof {
        assert(views(out@) =~= views(notes@).push(returned@));
    }
    Ok((out, returned))
}

/// The collection with every note carrying this identifier removed.
pub open spec fn remove_id(s: Seq<NoteV>, id: Seq<char>) -> Seq<NoteV>
    decreases s.len(),
{
    if s.len() == 0 {
        Seq::empty()
    } else if s[0].id == id {
        remove_id(s.drop_first(), id)
    } else {
        seq![s[0]] + remove_id(s.drop_first(), id)
    }
}

/// Remove the note with this identifier. Fails, and changes nothing, exactly
/// when no note carries it.
pub fn delete_in(notes: &Vec<Note>, id: &str) -> (r: Result<Vec<Note>, NoteError>)
    ensures
        r is Err <==> !contains_id(views(notes@), id@),
        r matches Err(e) ==> e.kind == ErrorKind::NotFound,
        r matches Ok(v) ==> views(v@) == remove_id(views(notes@), id@),
{
    let mut out: Vec<Note> = Vec::new();
    let mut found = false;
    let mut i: usize = 0;
    proof {
        assert(views(out@) =~= Seq::<NoteV>::empty());
        assert(views(notes@).skip(0) =~= views(notes@));
        assert(views(out@) + remove_id(views(notes@), id@) =~= remove_id(views(notes@), id@));
        assert(views(notes@).subrange(0, 0) =~= Seq::<NoteV>::empty());
    }
    while i < notes.len()
        invariant
            0 <= i <= notes@.len(),
            remove_id(views(notes@), id@) == views(out@) + remove_id(
                views(notes@).skip(i as int),
                id@,
            ),
            found == contains_id(views(notes@).subrange(0, i as int), id@),
        decreases notes@.len() - i,
    {
        proof {
            assert(views(notes@).skip(i as int)[0] == notes@[i as int]@);
            assert(views(notes@).skip(i as int).drop_first() =~= views(notes@).skip(i + 1 as int));
        }
        if str_eq(notes[i].id.as_str(), id) {
            found = true;
            proof {
                let pre = views(notes@).subrange(0, i + 1 as int);
                assert(pre[i as int] == notes@[i as int]@);
                assert(contains_id(pre, id@));
            }
        } else {
            let ghost old_out = out@;
            out.push(notes[i].clone());
            proof {
                assert(views(out@) =~= views(old_out).push(notes@[i as int]@));
                assert(views(out@) + remove_id(views(notes@).skip(i + 1 as int), id@) =~= views(
                    old_out,
                ) + (seq![notes@[i as int]@] + remove_id(views(notes@).skip(i + 1 as int), id@)));
            }
            proof {
                let pre = views(notes@).subrange(0, i + 1 as int);
                let pre0 = views(notes@).subrange(0, i as int);
                assert(forall|k: int|
                    0 <= k < pre.len() ==> pre[k] == #[trigger] views(notes@)[k]);
                assert(forall|k: int|
                    0 <= k < pre0.len() ==> pre0[k] == #[trigger] views(notes@)[k]);
                if contains_id(pre, id@) {
                    let w = choose|w: int| 0 <= w < pre.len() && pre[w].id == id@;
                    assert(w != i ==> pre0[w] == pre[w]);
                    assert(notes@[i as int]@.id != id@);
                    assert(contains_id(pre0, id@));
                }
                if contains_id(pre0, id@) {
                    let w = choose|w: int| 0 <= w < pre0.len() && pre0[w].id == id@;
                    assert(pre[w] == pre0[w]);
                    assert(contains_id(pre, id@));
                }
            }
        }
        i += 1;
    }
    proof {
        assert(views(notes@).skip(notes@.len() as int) =~= Seq::<NoteV>::empty());
        assert(views(out@) + Seq::<NoteV>::empty() =~= views(out@));
        assert(views(notes@).subrange(0, notes@.len() as int) =~= views(notes@));
    }
    if found {
        Ok(out)
    } else {
        Err(NoteError::not_found())
    }
}

// ---------------------------------------------------------------------------
// Read-time ordering: most recent first, stable for equal timestamps.
// ---------------------------------------------------------------------------

/// Insert a note into a descending run, after every note at least as recent:
/// a note inserted later never overtakes an equally recent one.
pub open spec fn insert_desc(n: NoteV, s: Seq<NoteV>) -> Seq<NoteV>
    decreases s.len(),
{
    if s.len() == 0 {
        seq![n]
    } else if lex_le(n.created_at, s[0].created_at) {
        seq![s[0]] + insert_desc(n, s.drop_first())
    } else {
        seq![n] + s
    }
}

/// The collection sorted by creation time, most recent first, on-disk order
/// kept between equal timestamps.
pub open spec fn sort_desc(s: Seq<NoteV>) -> Seq<NoteV>
    decreases s.len(),
{
    if s.len() == 0 {
        Seq::empty()
    } else {
        insert_desc(s.last(), sort_desc(s.drop_last()))
    }
}

proof fn lemma_insert_desc_at(n: NoteV, s: Seq<NoteV>, pos: int)
    requires
        0 <= pos <= s.len(),
        forall|k: int| 0 <= k < pos ==> lex_le(n.created_at, #[trigger] s[k].created_at),
        pos < s.len() ==> !lex_le(n.created_at, s[pos as int].created_at),
    ensures
        insert_desc(n, s) == s.insert(pos, n),
    decreases pos,
{
    if pos == 0 {
        if s.len() == 0 {
            assert(insert_desc(n, s) =~= s.insert(0, n));
        } else {
            assert(!lex_le(n.created_at, s[0].created_at));
            assert(insert_desc(n, s) =~= s.insert(0, n));
        }
    } else {
        assert(lex_le(n.created_at, s[0].created_at));
        lemma_insert_desc_at(n, s.drop_first(), pos - 1);
        assert(insert_desc(n, s) == seq![s[0]] + s.drop_first().insert(pos - 1, n));
        assert(seq![s[0]] + s.drop_first().insert(pos - 1, n) =~= s.insert(pos, n));
    }
}

fn insert_note(acc: &mut Vec<Note>, nt: Note)
    ensures
        views(final(acc)@) == insert_desc(nt@, views(old(acc)@)),
{
    let mut pos: usize = 0;
    while pos < acc.len() && str_le(nt.created_at.as_str(), acc[pos].created_at.as_str())
        invariant
            0 <= pos <= acc@.len(),
            acc@ == old(acc)@,
            forall|k: int|
                0 <= k < pos ==> lex_le(nt@.created_at, #[trigger] views(acc@)[k].created_at),
        decreases acc@.len() - pos,
    {
        proof {
            assert(views(acc@)[pos as int] == acc@[pos as int]@);
        }
        pos += 1;
    }
    proof {
        if pos < acc@.len() {
            assert(views(acc@)[pos as int] == acc@[pos as int]@);
        }
        lemma_insert_desc_at(nt@, views(acc@), pos as int);
    }
    let ghost old_acc = acc@;
    acc.insert(pos, nt);
    proof {
        assert(views(acc@) =~= views(old_acc).insert(pos as int, nt@));
    }
}

/// The collection ordered for display: by `created_at` descending, ties kept
/// in on-disk order.
pub fn sorted_by_recency(notes: &Vec<Note>) -> (r: Vec<Note>)
    ensures
        views(r@) == sort_desc(views(notes@)),
{
    let mut out: Vec<Note> = Vec::new();
    let mut i: usize = 0;
    while i < notes.len()
        invariant
            0 <= i <= notes@.len(),
            views(out@) == sort_desc(views(notes@).subrange(0, i as int)),
        decreases notes@.len() - i,
    {
        insert_note(&mut out, notes[i].clone());
        proof {
            let pre = views(notes@).subrange(0, i + 1 as int);
            assert(pre.drop_last() =~= views(notes@).subrange(0, i as int));
            assert(pre.last() == notes@[i as int]@);
        }
        i += 1;
    }
    proof {
        assert(views(notes@).subrange(0, notes@.len() as int) =~= views(notes@));
    }
    out
}

// ---------------------------------------------------------------------------
// Fresh identifiers and timestamps.
// ---------------------------------------------------------------------------

/// Relies on `uuid::Uuid::new_v4` and its `Display` impl: a fresh random
/// version-4 UUID, rendered in the hyphenated form of 36 characters.
#[verifier::external_body]
pub(crate) fn fresh_id() -> (r: String)
    ensures
        r@.len() == 36,
{
    uuid::Uuid::new_v4().to_string()
}

/// Relies on `chrono::Utc::now` and `DateTime::to_rfc3339`: the current time
/// as a non-empty RFC 3339 timestamp.
#[verifier::external_body]
pub(crate) fn now_rfc3339() -> (r: String)
    ensures
        r@.len() > 0,
{
    chrono::Utc::now().to_rfc3339()
}

// ---------------------------------------------------------------------------
// The commands, as functions from the current document to the next one.
// The shell reads the backing file (a missing file is `None`), holds its
// write lock around a whole load-modify-persist cycle, and writes back the
// returned document; an `Err` returns no document, so nothing is written.
// ---------------------------------------------------------------------------

pub open spec fn content_view(c: Option<&str>) -> Option<Seq<char>> {
    match c {
        None => None,
        Some(s) => Some(s@),
    }
}

/// What a document holds: a missing file and a whitespace-only file are an
/// empty collection, anything else must parse.
pub open spec fn loaded(content: Option<Seq<char>>) -> Option<Seq<NoteV>> {
    match content {
        None => Some(Seq::empty()),
        Some(s) => if trimmed(s).len() == 0 {
            Some(Seq::empty())
        } else {
            sp_notes(s)
        },
    }
}

/// Load the collection from the backing file's content.
pub fn load_notes(content: Option<&str>) -> (r: Result<Vec<Note>, NoteError>)
    ensures
        match r {
            Ok(v) => loaded(content_view(content)) == Some(views(v@)),
            Err(e) => loaded(content_view(content)) is None && e.kind == ErrorKind::StorageCorrupt,
        },
{
    match content {
        None => {
            let v: Vec<Note> = Vec::new();
            proof {
                assert(views(v@) =~= Seq::<NoteV>::empty());
            }
            Ok(v)
        },
        Some(raw) => {
            let t = trim(raw);
            if t.unicode_len() == 0 {
                let v: Vec<Note> = Vec::new();
                proof {
                    assert(views(v@) =~= Seq::<NoteV>::empty());
                }
                Ok(v)
            } else {
                parse_notes(raw)
            }
        },
    }
}

/// The list command: the stored collection, most recent first.
pub fn list_notes(content: Option<&str>) -> (r: Result<Vec<Note>, NoteError>)
    ensures
        loaded(content_view(content)) is None ==> (r matches Err(e) && e.kind
            == ErrorKind::StorageCorrupt),
        loaded(content_view(content)) matches Some(ns) ==> (r matches Ok(v) && views(v@)
            == sort_desc(ns)),
{
    let notes = match load_notes(content) {
        Ok(v) => v,
        Err(e) => {
            return Err(e);
        },
    };
    Ok(sorted_by_recency(&notes))
}

/// The create command: validate the text, append a new note with a fresh
/// identifier and the current time, and return the next document together
/// with the created note.
pub fn create_note(content: Option<&str>, text: &str) -> (r: Result<(String, Note), NoteError>)
    ensures
        trimmed(text@).len() == 0 ==> (r matches Err(e) && e.kind == ErrorKind::InvalidInput),
        trimmed(text@).len() > 0 && loaded(content_view(content)) is None ==> (r matches Err(e)
            && e.kind == ErrorKind::StorageCorrupt),
        loaded(content_view(content)) matches Some(ns) ==> (trimmed(text@).len() > 0 ==> (r matches Ok(
            p,
        ) && {
            &&& p.1@.text == trimmed(text@)
            &&& p.1@.updated_at is None
            &&& p.1@.id.len() == 36
            &&& sp_notes(p.0@) == Some(ns.push(p.1@))
        })),
{
    let t = trim(text);
    if t.unicode_len() == 0 {
        return Err(NoteError::invalid_input());
    }
    let notes = match load_notes(content) {
        Ok(v) => v,
        Err(e) => {
            return Err(e);
        },
    };
    let id = fresh_id();
    let created_at = now_rfc3339();
    match create_in(&notes, text, id, created_at) {
        Ok(p) => {
            let (next, note) = p;
            let payload = encode_notes(&next);
            proof {
                crate::codec::lemma_parse_encode_round_trip(views(next@));
            }
            Ok((payload, note))
        },
        Err(e) => {
            // create_in rejects only text that trims to nothing, which was
            // ruled out above: this branch is provably unreachable.
            proof {
                assert(false);
            }
            Err(e)
        },
    }
}

/// The delete command: remove the note with this identifier and return the
/// next document; an unknown identifier fails and returns no document.
pub fn delete_note(content: Option<&str>, id: &str) -> (r: Result<String, NoteError>)
    ensures
        loaded(content_view(content)) is None ==> (r matches Err(e) && e.kind
            == ErrorKind::StorageCorrupt),
        loaded(content_view(content)) matches Some(ns) ==> ((!contains_id(ns, id@) ==> (
        r matches Err(e) && e.kind == ErrorKind::NotFound)) && (contains_id(ns, id@) ==> (
        r matches Ok(c) && sp_notes(c@) == Some(remove_id(ns, id@))))),
{
    let notes = match load_notes(content) {
        Ok(v) => v,
        Err(e) => {
            return Err(e);
        },
    };
    match delete_in(&notes, id) {
        Ok(next) => {
            let payload = encode_notes(&next);
            proof {
                crate::codec::lemma_parse_encode_round_trip(views(next@));
            }
            Ok(payload)
        },
        Err(e) => Err(e),
    }
}

/// What the message of a failed atomic replacement reports: both causes.
pub open spec fn write_failure_message(rename_error: Seq<char>, copy_error: Seq<char>) -> Seq<char> {
    "Failed to finalize notes file. rename error: "@ + rename_error + "; copy error: "@ + copy_error
}

/// The outcome of one atomic-replacement write, decided from what the shell's
/// rename and fallback copy reported: the write succeeded if the rename did,
/// or if the fallback copy did; only both failing fails it, with both causes.
pub fn finalize_save(rename_error: Option<String>, copy_error: Option<String>) -> (r: Result<
    (),
    NoteError,
>)
    requires
        rename_error is None ==> copy_error is None,
    ensures
        r is Ok <==> !(rename_error is Some && copy_error is Some),
        rename_error matches Some(re) ==> (copy_error matches Some(ce) ==> (r matches Err(e)
            && e.kind == ErrorKind::StorageWrite && e.message@ == write_failure_message(re@, ce@))),
{
    match (rename_error, copy_error) {
        (Some(re), Some(ce)) => {
            let mut msg = String::from_str("Failed to finalize notes file. rename error: ");
            msg.append(re.as_str());
            msg.append("; copy error: ");
            msg.append(ce.as_str());
            proof {
                assert(msg@ =~= write_failure_message(re@, ce@));
            }
            Err(NoteError::new(ErrorKind::StorageWrite, msg))
        },
        _ => Ok(()),
    }
}

// ---------------------------------------------------------------------------
// Laws of the store.
// ---------------------------------------------------------------------------

/// A note whose identifier is not yet in the collection keeps the collection's
/// identifiers unique when appended, and differs from every note already
/// there; since every created note gets a fresh identifier, each creation
/// leaves all identifiers pairwise distinct.
pub proof fn lemma_fresh_id_stays_unique(ns: Seq<NoteV>, n: NoteV)
    requires
        crate::note::unique_ids(ns),
        !contains_id(ns, n.id),
    ensures
        crate::note::unique_ids(ns.push(n)),
        forall|i: int| 0 <= i < ns.len() ==> ns[i].id != n.id,
{
    assert forall|i: int| 0 <= i < ns.len() implies ns[i].id != n.id by {
        if ns[i].id == n.id {
            assert(contains_id(ns, n.id));
        }
    }
    let p = ns.push(n);
    assert forall|i: int, j: int| 0 <= i < j < p.len() implies p[i].id != p[j].id by {
        if j < ns.len() {
            assert(p[i] == ns[i] && p[j] == ns[j]);
        } else {
            assert(p[j] == n && p[i] == ns[i]);
        }
    }
}

proof fn lemma_remove_id_absent(ns: Seq<NoteV>, id: Seq<char>)
    requires
        !contains_id(ns, id),
    ensures
        remove_id(ns, id) == ns,
    decreases ns.len(),
{
    if ns.len() > 0 {
        assert(ns[0].id != id);
        assert forall|i: int| 0 <= i < ns.drop_first().len() implies ns.drop_first()[i].id
            != id by {
            assert(ns.drop_first()[i] == ns[i + 1]);
        }
        lemma_remove_id_absent(ns.drop_first(), id);
        assert(seq![ns[0]] + ns.drop_first() =~= ns);
    } else {
        assert(remove_id(ns, id) =~= ns);
    }
}

proof fn lemma_remove_id_gone(ns: Seq<NoteV>, id: Seq<char>)
    ensures
        !contains_id(remove_id(ns, id), id),
    decreases ns.len(),
{
    if ns.len() > 0 {
        lemma_remove_id_gone(ns.drop_first(), id);
        if ns[0].id != id {
            let r = seq![ns[0]] + remove_id(ns.drop_first(), id);
            assert forall|i: int| 0 <= i < r.len() implies r[i].id != id by {
                if i > 0 {
                    assert(r[i] == remove_id(ns.drop_first(), id)[i - 1]);
                    if r[i].id == id {
                        assert(contains_id(remove_id(ns.drop_first(), id), id));
                    }
                }
            }
        }
    }
}

/// Deleting a present identifier removes exactly one note, and the identifier
/// is no longer in the collection afterwards.
pub proof fn lemma_delete_removes_exactly_one(ns: Seq<NoteV>, id: Seq<char>)
    requires
        crate::note::unique_ids(ns),
        contains_id(ns, id),
    ensures
        remove_id(ns, id).len() == ns.len() - 1,
        !contains_id(remove_id(ns, id), id),
    decreases ns.len(),
{
    lemma_remove_id_gone(ns, id);
    let tail = ns.drop_first();
    assert forall|i: int, j: int| 0 <= i < j < tail.len() implies tail[i].id != tail[j].id by {
        assert(tail[i] == ns[i + 1] && tail[j] == ns[j + 1]);
    }
    if ns[0].id == id {
        assert forall|i: int| 0 <= i < tail.len() implies tail[i].id != id by {
            assert(tail[i] == ns[i + 1]);
            assert(ns[0].id != ns[i + 1].id);
        }
        lemma_remove_id_absent(tail, id);
    } else {
        let w = choose|w: int| 0 <= w < ns.len() && ns[w].id == id;
        assert(w != 0);
        assert(tail[w - 1] == ns[w]);
        assert(contains_id(tail, id));
        lemma_delete_removes_exactly_one(tail, id);
    }
}

/// A listing is in descending order: every note is at least as recent as the
/// ones after it.
pub open spec fn sorted_desc(s: Seq<NoteV>) -> bool {
    forall|i: int, j: int|
        0 <= i < j < s.len() ==> lex_le(#[trigger] s[j].created_at, #[trigger] s[i].created_at)
}

proof fn lemma_lex_le_trans(a: Seq<char>, b: Seq<char>, c: Seq<char>)
    requires
        lex_le(a, b),
        lex_le(b, c),
    ensures
        lex_le(a, c),
    decreases a.len(),
{
    if a.len() > 0 {
        assert(b.len() > 0);
        assert(c.len() > 0);
        if (a[0] as u32) == (b[0] as u32) && (b[0] as u32) == (c[0] as u32) {
            lemma_lex_le_trans(a.drop_first(), b.drop_first(), c.drop_first());
        }
    }
}

proof fn lemma_insert_desc_elems(n: NoteV, s: Seq<NoteV>, i: int)
    requires
        0 <= i < insert_desc(n, s).len(),
    ensures
        insert_desc(n, s)[i] == n || exists|j: int| 0 <= j < s.len() && s[j] == insert_desc(n, s)[i],
    decreases s.len(),
{
    if s.len() > 0 && lex_le(n.created_at, s[0].created_at) {
        let r = insert_desc(n, s);
        if i == 0 {
            assert(r[0] == s[0]);
        } else {
            assert(r[i] == insert_desc(n, s.drop_first())[i - 1]);
            lemma_insert_desc_elems(n, s.drop_first(), i - 1);
            if r[i] != n {
                let j = choose|j: int| 0 <= j < s.drop_first().len() && s.drop_first()[j] == r[i];
                assert(s[j + 1] == r[i]);
            }
        }
    }
}

proof fn lemma_insert_desc_sorted(n: NoteV, s: Seq<NoteV>)
    requires
        sorted_desc(s),
    ensures
        sorted_desc(insert_desc(n, s)),
    decreases s.len(),
{
    let r = insert_desc(n, s);
    if s.len() == 0 {
    } else if lex_le(n.created_at, s[0].created_at) {
        let tail = s.drop_first();
        assert forall|i: int, j: int| 0 <= i < j < tail.len() implies lex_le(
            #[trigger] tail[j].created_at,
            #[trigger] tail[i].created_at,
        ) by {
            assert(tail[i] == s[i + 1] && tail[j] == s[j + 1]);
        }
        lemma_insert_desc_sorted(n, tail);
        let rt = insert_desc(n, tail);
        assert forall|i: int, j: int| 0 <= i < j < r.len() implies lex_le(
            #[trigger] r[j].created_at,
            #[trigger] r[i].created_at,
        ) by {
            if i == 0 {
                assert(r[0] == s[0]);
                assert(r[j] == rt[j - 1]);
                lemma_insert_desc_elems(n, tail, j - 1);
                if rt[j - 1] == n {
                } else {
                    let k = choose|k: int| 0 <= k < tail.len() && tail[k] == rt[j - 1];
                    assert(tail[k] == s[k + 1]);
                    assert(lex_le(s[k + 1].created_at, s[0].created_at));
                }
            } else {
                assert(r[i] == rt[i - 1] && r[j] == rt[j - 1]);
            }
        }
    } else {
        lemma_lex_le_total(n.created_at, s[0].created_at);
        assert(lex_le(s[0].created_at, n.created_at));
        assert forall|i: int, j: int| 0 <= i < j < r.len() implies lex_le(
            #[trigger] r[j].created_at,
            #[trigger] r[i].created_at,
        ) by {
            if i == 0 {
                assert(r[0] == n);
                assert(r[j] == s[j - 1]);
                if j - 1 > 0 {
                    assert(lex_le(s[j - 1].created_at, s[0].created_at));
                    lemma_lex_le_trans(s[j - 1].created_at, s[0].created_at, n.created_at);
                }
            } else {
                assert(r[i] == s[i - 1] && r[j] == s[j - 1]);
            }
        }
    }
}

/// Every listing is in descending order of creation time.
pub proof fn lemma_sort_desc_sorted(s: Seq<NoteV>)
    ensures
        sorted_desc(sort_desc(s)),
    decreases s.len(),
{
    if s.len() > 0 {
        lemma_sort_desc_sorted(s.drop_last());
        lemma_insert_desc_sorted(s.last(), sort_desc(s.drop_last()));
    }
}

proof fn lemma_insert_desc_multiset(n: NoteV, s: Seq<NoteV>)
    ensures
        insert_desc(n, s).to_multiset() == s.to_multiset().insert(n),
    decreases s.len(),
{
    broadcast use vstd::seq_lib::group_to_multiset_ensures;

    if s.len() == 0 {
        assert(insert_desc(n, s) =~= Seq::<NoteV>::empty().push(n));
        assert(insert_desc(n, s).to_multiset() =~= s.to_multiset().insert(n));
    } else if lex_le(n.created_at, s[0].created_at) {
        let tail = s.drop_first();
        lemma_insert_desc_multiset(n, tail);
        vstd::seq_lib::lemma_multiset_commutative(seq![s[0]], insert_desc(n, tail));
        vstd::seq_lib::lemma_multiset_commutative(seq![s[0]], tail);
        assert(seq![s[0]] + tail =~= s);
        assert(seq![s[0]] =~= Seq::<NoteV>::empty().push(s[0]));
        assert(seq![s[0]].to_multiset() =~= vstd::multiset::Multiset::<NoteV>::empty().insert(s[0]));
        assert(insert_desc(n, s).to_multiset() =~= s.to_multiset().insert(n));
    } else {
        vstd::seq_lib::lemma_multiset_commutative(seq![n], s);
        assert(seq![n] =~= Seq::<NoteV>::empty().push(n));
        assert(seq![n].to_multiset() =~= vstd::multiset::Multiset::<NoteV>::empty().insert(n));
        assert(insert_desc(n, s).to_multiset() =~= s.to_multiset().insert(n));
    }
}

/// A listing is a permutation of the stored collection: sorting loses no note
/// and invents none.
pub proof fn lemma_sort_desc_permutes(s: Seq<NoteV>)
    ensures
        sort_desc(s).to_multiset() == s.to_multiset(),
    decreases s.len(),
{
    broadcast use vstd::seq_lib::group_to_multiset_ensures;

    if s.len() > 0 {
        lemma_sort_desc_permutes(s.drop_last());
        lemma_insert_desc_multiset(s.last(), sort_desc(s.drop_last()));
        assert(s.drop_last().push(s.last()) =~= s);
        assert(sort_desc(s).to_multiset() =~= s.to_multiset());
    }
}

proof fn lemma_lex_le_refl(a: Seq<char>)
    ensures
        lex_le(a, a),
    decreases a.len(),
{
    if a.len() > 0 {
        lemma_lex_le_refl(a.drop_first());
    }
}

/// Order on timestamps is total: of any two, one is at most the other.
pub proof fn lemma_lex_le_total(a: Seq<char>, b: Seq<char>)
    ensures
        lex_le(a, b) || lex_le(b, a),
    decreases a.len(),
{
    if a.len() > 0 && b.len() > 0 && !((a[0] as u32) < (b[0] as u32)) && !((a[0] as u32) > (
    b[0] as u32)) {
        lemma_lex_le_total(a.drop_first(), b.drop_first());
    }
}

/// A note created strictly later lists first: after creating A and then B
/// with B's timestamp strictly above A's, the listing is B before A.
pub proof fn lemma_list_orders_two(a: NoteV, b: NoteV)
    requires
        !lex_le(b.created_at, a.created_at),
    ensures
        sort_desc(seq![a, b]) == seq![b, a],
{
    let two = seq![a, b];
    let empty = Seq::<NoteV>::empty();
    assert(sort_desc(empty) == empty);
    assert(two.drop_last() =~= seq![a]);
    assert(two.last() == b);
    assert(seq![a].drop_last() =~= empty);
    assert(seq![a].last() == a);
    assert(sort_desc(seq![a]) == insert_desc(a, sort_desc(empty)));
    assert(insert_desc(a, empty) =~= seq![a]);
    assert(insert_desc(b, seq![a]) =~= seq![b, a]);
    assert(sort_desc(two) =~= seq![b, a]);
}

/// Two notes with the same timestamp keep their on-disk order in a listing.
pub proof fn lemma_list_keeps_disk_order_on_tie(a: NoteV, b: NoteV)
    requires
        a.created_at == b.created_at,
    ensures
        sort_desc(seq![a, b]) == seq![a, b],
{
    let two = seq![a, b];
    let empty = Seq::<NoteV>::empty();
    assert(sort_desc(empty) == empty);
    assert(two.drop_last() =~= seq![a]);
    assert(two.last() == b);
    assert(seq![a].drop_last() =~= empty);
    assert(seq![a].last() == a);
    assert(sort_desc(seq![a]) == insert_desc(a, sort_desc(empty)));
    assert(insert_desc(a, empty) =~= seq![a]);
    lemma_lex_le_refl(b.created_at);
    assert(lex_le(b.created_at, a.created_at));
    assert(seq![a].drop_first() =~= empty);
    assert(insert_desc(b, empty) =~= seq![b]);
    assert(insert_desc(b, seq![a]) == seq![a] + insert_desc(b, seq![a].drop_first()));
    assert(insert_desc(b, seq![a]) =~= seq![a, b]);
    assert(sort_desc(two) =~= seq![a, b]);
}

} // verus!
