//! The on-disk format of the note collection: a JSON array of objects with
//! fields `id`, `text`, `created_at` and `updated_at` (nullable), in that
//! order. Encoding and parsing are defined by spec functions and both
//! directions are verified, including the round trip.
//!
//! Inside a string, `"` and `\` are escaped with a backslash, and the line
//! controls `\n`, `\r`, `\t` get their short escapes.

use vstd::prelude::*;

use crate::errors::{ErrorKind, NoteError};
use crate::note::{views, Note, NoteV};

verus! {

// ---------------------------------------------------------------------------
// The encoding, as spec functions.
// ---------------------------------------------------------------------------

/// How one character stands inside an encoded string.
pub open spec fn esc(c: char) -> Seq<char> {
    if c == '"' {
        seq!['\\', '"']
    } else if c == '\\' {
        seq!['\\', '\\']
    } else if c == '\n' {
        seq!['\\', 'n']
    } else if c == '\r' {
        seq!['\\', 'r']
    } else if c == '\t' {
        seq!['\\', 't']
    } else {
        seq![c]
    }
}

/// The body of an encoded string: each character escaped, concatenated.
pub open spec fn enc_str_body(s: Seq<char>) -> Seq<char>
    decreases s.len(),
{
    if s.len() == 0 {
        Seq::empty()
    } else {
        esc(s[0]) + enc_str_body(s.drop_first())
    }
}

/// A full encoded string: the body between double quotes.
pub open spec fn enc_string(s: Seq<char>) -> Seq<char> {
    seq!['"'] + enc_str_body(s) + seq!['"']
}

pub open spec fn lit_null() -> Seq<char> {
    seq!['n', 'u', 'l', 'l']
}

pub open spec fn lit_obj_open() -> Seq<char> {
    seq!['{', '"', 'i', 'd', '"', ':']
}

pub open spec fn lit_text_key() -> Seq<char> {
    seq![',', '"', 't', 'e', 'x', 't', '"', ':']
}

pub open spec fn lit_created_key() -> Seq<char> {
    seq![',', '"', 'c', 'r', 'e', 'a', 't', 'e', 'd', '_', 'a', 't', '"', ':']
}

pub open spec fn lit_updated_key() -> Seq<char> {
    seq![',', '"', 'u', 'p', 'd', 'a', 't', 'e', 'd', '_', 'a', 't', '"', ':']
}

/// A nullable string field: `null`, or an encoded string.
pub open spec fn enc_opt(o: Option<Seq<char>>) -> Seq<char> {
    match o {
        None => lit_null(),
        Some(s) => enc_string(s),
    }
}

/// One note as a JSON object with the four fields in declaration order.
pub open spec fn enc_note(n: NoteV) -> Seq<char> {
    lit_obj_open() + enc_string(n.id) + lit_text_key() + enc_string(n.text) + lit_created_key()
        + enc_string(n.created_at) + lit_updated_key() + enc_opt(n.updated_at) + seq!['}']
}

/// Every further note of the array, each preceded by a comma.
pub open spec fn enc_more(ns: Seq<NoteV>) -> Seq<char>
    decreases ns.len(),
{
    if ns.len() == 0 {
        Seq::empty()
    } else {
        seq![','] + enc_note(ns[0]) + enc_more(ns.drop_first())
    }
}

/// The whole collection as a JSON array.
pub open spec fn enc_notes(ns: Seq<NoteV>) -> Seq<char> {
    if ns.len() == 0 {
        seq!['[', ']']
    } else {
        seq!['['] + enc_note(ns[0]) + enc_more(ns.drop_first()) + seq![']']
    }
}

// ---------------------------------------------------------------------------
// The encoder.
// ---------------------------------------------------------------------------

fn encode_str_body_from(t: &str, i: usize) -> (r: String)
    requires
        i <= t@.len(),
    ensures
        r@ == enc_str_body(t@.skip(i as int)),
    decreases t@.len() - i,
{
    let n = t.unicode_len();
    if i >= n {
        proof {
            assert(t@.skip(i as int) =~= Seq::<char>::empty());
        }
        return String::new();
    }
    let c = t.get_char(i);
    let rest = encode_str_body_from(t, i + 1);
    let mut out: String;
    if c == '"' {
        out = String::from_str("\\\"");
    } else if c == '\\' {
        out = String::from_str("\\\\");
    } else if c == '\n' {
        out = String::from_str("\\n");
    } else if c == '\r' {
        out = String::from_str("\\r");
    } else if c == '\t' {
        out = String::from_str("\\t");
    } else {
        out = String::from_str(t.substring_char(i, i + 1));
    }
    proof {
        reveal_strlit("\\\"");
        reveal_strlit("\\\\");
        reveal_strlit("\\n");
        reveal_strlit("\\r");
        reveal_strlit("\\t");
        assert(t@.skip(i as int)[0] == t@[i as int]);
        assert(t@.subrange(i as int, i + 1 as int) =~= seq![t@[i as int]]);
        assert(out@ =~= esc(t@[i as int]));
    }
    out.append(rest.as_str());
    proof {
        assert(t@.skip(i as int).drop_first() =~= t@.skip(i + 1 as int));
        assert(out@ =~= esc(t@[i as int]) + enc_str_body(t@.skip(i + 1 as int)));
    }
    out
}

fn encode_string(t: &str) -> (r: String)
    ensures
        r@ == enc_string(t@),
{
    let mut out = String::from_str("\"");
    let body = encode_str_body_from(t, 0);
    out.append(body.as_str());
    out.append("\"");
    proof {
        reveal_strlit("\"");
        assert(t@.skip(0) =~= t@);
        assert(out@ =~= enc_string(t@));
    }
    out
}

fn encode_note(nt: &Note) -> (r: String)
    ensures
        r@ == enc_note(nt@),
{
    let mut out = String::from_str("{\"id\":");
    proof {
        reveal_strlit("{\"id\":");
        assert(out@ =~= lit_obj_open());
    }
    let id = encode_string(nt.id.as_str());
    out.append(id.as_str());
    out.append(",\"text\":");
    proof {
        reveal_strlit(",\"text\":");
        assert(out@ =~= lit_obj_open() + enc_string(nt@.id) + lit_text_key());
    }
    let text = encode_string(nt.text.as_str());
    out.append(text.as_str());
    out.append(",\"created_at\":");
    proof {
        reveal_strlit(",\"created_at\":");
        assert(out@ =~= lit_obj_open() + enc_string(nt@.id) + lit_text_key() + enc_string(nt@.text)
            + lit_created_key());
    }
    let created = encode_string(nt.created_at.as_str());
    out.append(created.as_str());
    out.append(",\"updated_at\":");
    proof {
        reveal_strlit(",\"updated_at\":");
    }
    match &nt.updated_at {
        Some(u) => {
            let upd = encode_string(u.as_str());
            out.append(upd.as_str());
        },
        None => {
            out.append("null");
            proof {
                reveal_strlit("null");
                assert(("null")@ =~= lit_null());
            }
        },
    }
    out.append("}");
    proof {
        reveal_strlit("}");
        assert(out@ =~= enc_note(nt@));
    }
    out
}

fn encode_more_from(notes: &Vec<Note>, i: usize) -> (r: String)
    requires
        i <= notes@.len(),
    ensures
        r@ == enc_more(views(notes@).skip(i as int)),
    decreases notes@.len() - i,
{
    if i >= notes.len() {
        proof {
            assert(views(notes@).skip(i as int) =~= Seq::<NoteV>::empty());
        }
        return String::new();
    }
    let mut out = String::from_str(",");
    let piece = encode_note(&notes[i]);
    out.append(piece.as_str());
    let rest = encode_more_from(notes, i + 1);
    out.append(rest.as_str());
    proof {
        reveal_strlit(",");
        assert(views(notes@).skip(i as int)[0] == notes@[i as int]@);
        assert(views(notes@).skip(i as int).drop_first() =~= views(notes@).skip(i + 1 as int));
        assert(out@ =~= seq![','] + enc_note(notes@[i as int]@) + enc_more(
            views(notes@).skip(i + 1 as int),
        ));
    }
    out
}

/// Serialize the whole collection to its on-disk form.
pub fn encode_notes(notes: &Vec<Note>) -> (r: String)
    ensures
        r@ == enc_notes(views(notes@)),
{
    if notes.len() == 0 {
        let r = String::from_str("[]");
        proof {
            reveal_strlit("[]");
            assert(views(notes@).len() == 0);
            assert(r@ =~= enc_notes(views(notes@)));
        }
        return r;
    }
    let mut out = String::from_str("[");
    let first = encode_note(&notes[0]);
    out.append(first.as_str());
    let rest = encode_more_from(notes, 1);
    out.append(rest.as_str());
    out.append("]");
    proof {
        reveal_strlit("[");
        reveal_strlit("]");
        assert(views(notes@)[0] == notes@[0]@);
        assert(views(notes@).skip(1) =~= views(notes@).drop_first());
        assert(out@ =~= enc_notes(views(notes@)));
    }
    out
}

// ---------------------------------------------------------------------------
// Parsing, as spec functions. Each takes the remaining input and returns what
// it read together with the input left over, or `None` on malformed content.
// ---------------------------------------------------------------------------

/// The character an escape shorthand stands for.
pub open spec fn unesc(c: char) -> Option<char> {
    if c == '"' {
        Some('"')
    } else if c == '\\' {
        Some('\\')
    } else if c == 'n' {
        Some('\n')
    } else if c == 'r' {
        Some('\r')
    } else if c == 't' {
        Some('\t')
    } else {
        None
    }
}

/// Read a string body up to and including the closing quote.
pub open spec fn sp_str_body(s: Seq<char>) -> Option<(Seq<char>, Seq<char>)>
    decreases s.len(),
{
    if s.len() == 0 {
        None
    } else if s[0] == '"' {
        Some((Seq::empty(), s.drop_first()))
    } else if s[0] == '\\' {
        if s.len() < 2 {
            None
        } else {
            match unesc(s[1]) {
                None => None,
                Some(d) => match sp_str_body(s.skip(2)) {
                    None => None,
                    Some(p) => Some((seq![d] + p.0, p.1)),
                },
            }
        }
    } else {
        match sp_str_body(s.drop_first()) {
            None => None,
            Some(p) => Some((seq![s[0]] + p.0, p.1)),
        }
    }
}

/// Read a quoted string.
pub open spec fn sp_string(s: Seq<char>) -> Option<(Seq<char>, Seq<char>)> {
    if s.len() > 0 && s[0] == '"' {
        sp_str_body(s.drop_first())
    } else {
        None
    }
}

/// Read an exact literal.
pub open spec fn sp_lit(s: Seq<char>, lit: Seq<char>) -> Option<Seq<char>> {
    if lit.len() <= s.len() && s.subrange(0, lit.len() as int) == lit {
        Some(s.skip(lit.len() as int))
    } else {
        None
    }
}

/// Read a nullable string field.
pub open spec fn sp_opt(s: Seq<char>) -> Option<(Option<Seq<char>>, Seq<char>)> {
    if s.len() > 0 && s[0] == 'n' {
        match sp_lit(s, lit_null()) {
            None => None,
            Some(r) => Some((None, r)),
        }
    } else {
        match sp_string(s) {
            None => None,
            Some(p) => Some((Some(p.0), p.1)),
        }
    }
}

/// Read one note object.
pub open spec fn sp_note(s: Seq<char>) -> Option<(NoteV, Seq<char>)> {
    match sp_lit(s, lit_obj_open()) {
        None => None,
        Some(s1) => match sp_string(s1) {
            None => None,
            Some(p_id) => match sp_lit(p_id.1, lit_text_key()) {
                None => None,
                Some(s3) => match sp_string(s3) {
                    None => None,
                    Some(p_text) => match sp_lit(p_text.1, lit_created_key()) {
                        None => None,
                        Some(s5) => match sp_string(s5) {
                            None => None,
                            Some(p_created) => match sp_lit(p_created.1, lit_updated_key()) {
                                None => None,
                                Some(s7) => match sp_opt(s7) {
                                    None => None,
                                    Some(p_upd) => match sp_lit(p_upd.1, seq!['}']) {
                                        None => None,
                                        Some(s9) => Some(
                                            (
                                                NoteV {
                                                    id: p_id.0,
                                                    text: p_text.0,
                                                    created_at: p_created.0,
                                                    updated_at: p_upd.0,
                                                },
                                                s9,
                                            ),
                                        ),
                                    },
                                },
                            },
                        },
                    },
                },
            },
        },
    }
}

/// Read the remaining notes of the array, up to and including `]`.
pub open spec fn sp_more(s: Seq<char>) -> Option<(Seq<NoteV>, Seq<char>)>
    decreases s.len(),
{
    if s.len() == 0 {
        None
    } else if s[0] == ']' {
        Some((Seq::empty(), s.drop_first()))
    } else if s[0] == ',' {
        match sp_note(s.drop_first()) {
            None => None,
            Some(p) => if p.1.len() < s.len() {
                match sp_more(p.1) {
                    None => None,
                    Some(q) => Some((seq![p.0] + q.0, q.1)),
                }
            } else {
                None
            },
        }
    } else {
        None
    }
}

/// Read a whole document: the collection, with nothing left over.
pub open spec fn sp_notes(s: Seq<char>) -> Option<Seq<NoteV>> {
    if s.len() >= 1 && s[0] == '[' {
        let s1 = s.drop_first();
        if s1.len() >= 1 && s1[0] == ']' {
            if s1.len() == 1 {
                Some(Seq::empty())
            } else {
                None
            }
        } else {
            match sp_note(s1) {
                None => None,
                Some(p) => match sp_more(p.1) {
                    None => None,
                    Some(q) => if q.1.len() == 0 {
                        Some(seq![p.0] + q.0)
                    } else {
                        None
                    },
                },
            }
        }
    } else {
        None
    }
}

// ---------------------------------------------------------------------------
// The parser. Each function reads from character position `i` and mirrors the
// spec parser applied to the input from that position on.
// ---------------------------------------------------------------------------

fn parse_lit(s: &str, i: usize, lit: &str) -> (r: Option<usize>)
    requires
        i <= s@.len(),
    ensures
        match r {
            Some(j) => {
                &&& i <= j <= s@.len()
                &&& j == i + lit@.len()
                &&& sp_lit(s@.skip(i as int), lit@) == Some(s@.skip(j as int))
            },
            None => sp_lit(s@.skip(i as int), lit@) is None,
        },
{
    let n = s.unicode_len();
    let m = lit.unicode_len();
    if m > n - i {
        proof {
            assert(s@.skip(i as int).len() < lit@.len());
        }
        return None;
    }
    let mut k: usize = 0;
    while k < m
        invariant
            0 <= k <= m,
            i + m <= n,
            n == s@.len(),
            m == lit@.len(),
            forall|l: int| 0 <= l < k ==> s@[i + l] == lit@[l],
        decreases m - k,
    {
        let a = s.get_char(i + k);
        let b = lit.get_char(k);
        if a != b {
            proof {
                let rem = s@.skip(i as int);
                assert(rem[k as int] == s@[i + k]);
                assert(lit@.len() <= rem.len());
                assert(rem.subrange(0, lit@.len() as int)[k as int] == rem[k as int]);
                assert(rem.subrange(0, lit@.len() as int) != lit@);
            }
            return None;
        }
        k += 1;
    }
    proof {
        let rem = s@.skip(i as int);
        assert(rem.subrange(0, lit@.len() as int) =~= lit@);
        assert(rem.skip(lit@.len() as int) =~= s@.skip(i + m as int));
    }
    Some(i + m)
}

fn parse_str_body(s: &str, i: usize) -> (r: Option<(String, usize)>)
    requires
        i <= s@.len(),
    ensures
        match r {
            Some(p) => {
                &&& i < p.1 <= s@.len()
                &&& sp_str_body(s@.skip(i as int)) == Some((p.0@, s@.skip(p.1 as int)))
            },
            None => sp_str_body(s@.skip(i as int)) is None,
        },
    decreases s@.len() - i,
{
    let n = s.unicode_len();
    if i >= n {
        proof {
            assert(s@.skip(i as int) =~= Seq::<char>::empty());
        }
        return None;
    }
    let c = s.get_char(i);
    proof {
        assert(s@.skip(i as int)[0] == s@[i as int]);
    }
    if c == '"' {
        proof {
            assert(s@.skip(i as int).drop_first() =~= s@.skip(i + 1 as int));
        }
        return Some((String::new(), i + 1));
    }
    if c == '\\' {
        if i + 1 >= n {
            proof {
                assert(s@.skip(i as int).len() < 2);
            }
            return None;
        }
        let e = s.get_char(i + 1);
        proof {
            assert(s@.skip(i as int)[1] == s@[i + 1]);
        }
        let dec: &str = if e == '"' {
            "\""
        } else if e == '\\' {
            "\\"
        } else if e == 'n' {
            "\n"
        } else if e == 'r' {
            "\r"
        } else if e == 't' {
            "\t"
        } else {
            proof {
                assert(unesc(s@[i + 1]) is None);
            }
            return None;
        };
        proof {
            reveal_strlit("\"");
            reveal_strlit("\\");
            reveal_strlit("\n");
            reveal_strlit("\r");
            reveal_strlit("\t");
            assert(unesc(s@[i + 1]) == Some(dec@[0]));
            assert(dec@ =~= seq![dec@[0]]);
            assert(s@.skip(i as int).skip(2) =~= s@.skip(i + 2 as int));
        }
        match parse_str_body(s, i + 2) {
            None => {
                return None;
            },
            Some(p) => {
                let (t, j) = p;
                let mut out = String::from_str(dec);
                out.append(t.as_str());
                proof {
                    assert(out@ =~= seq![dec@[0]] + t@);
                }
                return Some((out, j));
            },
        }
    }
    proof {
        assert(s@.skip(i as int).drop_first() =~= s@.skip(i + 1 as int));
    }
    match parse_str_body(s, i + 1) {
        None => None,
        Some(p) => {
            let (t, j) = p;
            let mut out = String::from_str(s.substring_char(i, i + 1));
            out.append(t.as_str());
            proof {
                assert(s@.subrange(i as int, i + 1 as int) =~= seq![s@[i as int]]);
                assert(out@ =~= seq![s@[i as int]] + t@);
            }
            Some((out, j))
        },
    }
}

fn parse_string(s: &str, i: usize) -> (r: Option<(String, usize)>)
    requires
        i <= s@.len(),
    ensures
        match r {
            Some(p) => {
                &&& i < p.1 <= s@.len()
                &&& sp_string(s@.skip(i as int)) == Some((p.0@, s@.skip(p.1 as int)))
            },
            None => sp_string(s@.skip(i as int)) is None,
        },
{
    let n = s.unicode_len();
    if i >= n {
        proof {
            assert(s@.skip(i as int).len() == 0);
        }
        return None;
    }
    let c = s.get_char(i);
    proof {
        assert(s@.skip(i as int)[0] == s@[i as int]);
    }
    if c == '"' {
        proof {
            assert(s@.skip(i as int).drop_first() =~= s@.skip(i + 1 as int));
        }
        parse_str_body(s, i + 1)
    } else {
        None
    }
}

fn parse_opt(s: &str, i: usize) -> (r: Option<(Option<String>, usize)>)
    requires
        i <= s@.len(),
    ensures
        match r {
            Some(p) => {
                &&& i < p.1 <= s@.len()
                &&& sp_opt(s@.skip(i as int)) == Some(
                    (
                        match p.0 {
                            Some(t) => Some(t@),
                            None => None,
                        },
                        s@.skip(p.1 as int),
                    ),
                )
            },
            None => sp_opt(s@.skip(i as int)) is None,
        },
{
    let n = s.unicode_len();
    if i < n && s.get_char(i) == 'n' {
        proof {
            assert(s@.skip(i as int)[0] == s@[i as int]);
            reveal_strlit("null");
            assert(("null")@ =~= lit_null());
        }
        match parse_lit(s, i, "null") {
            None => None,
            Some(j) => Some((None, j)),
        }
    } else {
        proof {
            if i < n {
                assert(s@.skip(i as int)[0] == s@[i as int]);
            } else {
                assert(s@.skip(i as int).len() == 0);
            }
        }
        match parse_string(s, i) {
            None => None,
            Some(p) => {
                let (t, j) = p;
                Some((Some(t), j))
            },
        }
    }
}

fn parse_note(s: &str, i: usize) -> (r: Option<(Note, usize)>)
    requires
        i <= s@.len(),
    ensures
        match r {
            Some(p) => {
                &&& i < p.1 <= s@.len()
                &&& sp_note(s@.skip(i as int)) == Some((p.0@, s@.skip(p.1 as int)))
            },
            None => sp_note(s@.skip(i as int)) is None,
        },
{
    proof {
        reveal_strlit("{\"id\":");
        reveal_strlit(",\"text\":");
        reveal_strlit(",\"created_at\":");
        reveal_strlit(",\"updated_at\":");
        reveal_strlit("}");
        assert(("{\"id\":")@ =~= lit_obj_open());
        assert((",\"text\":")@ =~= lit_text_key());
        assert((",\"created_at\":")@ =~= lit_created_key());
        assert((",\"updated_at\":")@ =~= lit_updated_key());
        assert(("}")@ =~= seq!['}']);
    }
    let j1 = match parse_lit(s, i, "{\"id\":") {
        None => {
            return None;
        },
        Some(j) => j,
    };
    let (id, j2) = match parse_string(s, j1) {
        None => {
            return None;
        },
        Some(p) => p,
    };
    let j3 = match parse_lit(s, j2, ",\"text\":") {
        None => {
            return None;
        },
        Some(j) => j,
    };
    let (text, j4) = match parse_string(s, j3) {
        None => {
            return None;
        },
        Some(p) => p,
    };
    let j5 = match parse_lit(s, j4, ",\"created_at\":") {
        None => {
            return None;
        },
        Some(j) => j,
    };
    let (created_at, j6) = match parse_string(s, j5) {
        None => {
            return None;
        },
        Some(p) => p,
    };
    let j7 = match parse_lit(s, j6, ",\"updated_at\":") {
        None => {
            return None;
        },
        Some(j) => j,
    };
    let (updated_at, j8) = match parse_opt(s, j7) {
        None => {
            return None;
        },
        Some(p) => p,
    };
    let j9 = match parse_lit(s, j8, "}") {
        None => {
            return None;
        },
        Some(j) => j,
    };
    let nt = Note { id, text, created_at, updated_at };
    Some((nt, j9))
}

fn parse_more(s: &str, i: usize) -> (r: Option<(Vec<Note>, usize)>)
    requires
        i <= s@.len(),
    ensures
        match r {
            Some(p) => {
                &&& i < p.1 <= s@.len()
                &&& sp_more(s@.skip(i as int)) == Some((views(p.0@), s@.skip(p.1 as int)))
            },
            None => sp_more(s@.skip(i as int)) is None,
        },
    decreases s@.len() - i,
{
    let n = s.unicode_len();
    if i >= n {
        proof {
            assert(s@.skip(i as int).len() == 0);
        }
        return None;
    }
    let c = s.get_char(i);
    proof {
        assert(s@.skip(i as int)[0] == s@[i as int]);
    }
    if c == ']' {
        let out: Vec<Note> = Vec::new();
        proof {
            assert(views(out@) =~= Seq::<NoteV>::empty());
            assert(s@.skip(i as int).drop_first() =~= s@.skip(i + 1 as int));
        }
        return Some((out, i + 1));
    }
    if c == ',' {
        proof {
            assert(s@.skip(i as int).drop_first() =~= s@.skip(i + 1 as int));
        }
        let (nt, j) = match parse_note(s, i + 1) {
            None => {
                return None;
            },
            Some(p) => p,
        };
        proof {
            assert(s@.skip(j as int).len() < s@.skip(i as int).len());
        }
        let (mut rest, k) = match parse_more(s, j) {
            None => {
                return None;
            },
            Some(p) => p,
        };
        let ghost old_rest = rest@;
        rest.insert(0, nt);
        proof {
            assert(rest@ =~= seq![nt] + old_rest);
            assert(views(rest@) =~= seq![nt@] + views(old_rest));
        }
        return Some((rest, k));
    }
    None
}

/// Parse an on-disk document. A malformed document is reported as
/// storage corruption.
pub fn parse_notes(s: &str) -> (r: Result<Vec<Note>, NoteError>)
    ensures
        match r {
            Ok(v) => sp_notes(s@) == Some(views(v@)),
            Err(e) => sp_notes(s@) is None && e.kind == ErrorKind::StorageCorrupt,
        },
{
    let n = s.unicode_len();
    if n < 1 || s.get_char(0) != '[' {
        return Err(NoteError::storage_corrupt());
    }
    proof {
        assert(s@.skip(1)[0] == s@[1] || s@.skip(1).len() == 0);
        assert(s@.skip(1) =~= s@.drop_first());
    }
    if n >= 2 && s.get_char(1) == ']' {
        proof {
            assert(s@.drop_first()[0] == s@[1]);
        }
        if n == 2 {
            let out: Vec<Note> = Vec::new();
            proof {
                assert(views(out@) =~= Seq::<NoteV>::empty());
            }
            return Ok(out);
        } else {
            return Err(NoteError::storage_corrupt());
        }
    }
    proof {
        if s@.drop_first().len() >= 1 {
            assert(s@.drop_first()[0] == s@[1]);
        }
    }
    let (nt, j) = match parse_note(s, 1) {
        None => {
            return Err(NoteError::storage_corrupt());
        },
        Some(p) => p,
    };
    let (mut rest, k) = match parse_more(s, j) {
        None => {
            return Err(NoteError::storage_corrupt());
        },
        Some(p) => p,
    };
    if k != n {
        proof {
            assert(s@.skip(k as int).len() != 0);
        }
        return Err(NoteError::storage_corrupt());
    }
    let ghost old_rest = rest@;
    rest.insert(0, nt);
    proof {
        assert(s@.skip(k as int).len() == 0);
        assert(rest@ =~= seq![nt] + old_rest);
        assert(views(rest@) =~= seq![nt@] + views(old_rest));
    }
    Ok(rest)
}

// ---------------------------------------------------------------------------
// The round trip: parsing an encoded collection gives the collection back.
// ---------------------------------------------------------------------------

proof fn lemma_sp_str_body_round(t: Seq<char>, rest: Seq<char>)
    ensures
        sp_str_body(enc_str_body(t) + seq!['"'] + rest) == Some((t, rest)),
    decreases t.len(),
{
    let s = enc_str_body(t) + seq!['"'] + rest;
    if t.len() == 0 {
        assert(s =~= seq!['"'] + rest);
        assert(s[0] == '"');
        assert(s.drop_first() =~= rest);
        assert(sp_str_body(s) == Some((Seq::<char>::empty(), rest)));
        assert(t =~= Seq::<char>::empty());
    } else {
        let c = t[0];
        let t1 = t.drop_first();
        assert(enc_str_body(t) == esc(c) + enc_str_body(t1));
        lemma_sp_str_body_round(t1, rest);
        let s1 = enc_str_body(t1) + seq!['"'] + rest;
        if c == '"' || c == '\\' || c == '\n' || c == '\r' || c == '\t' {
            let e: char = if c == '"' {
                '"'
            } else if c == '\\' {
                '\\'
            } else if c == '\n' {
                'n'
            } else if c == '\r' {
                'r'
            } else {
                't'
            };
            assert(esc(c) =~= seq!['\\', e]);
            assert(s =~= seq!['\\', e] + s1);
            assert(s[0] == '\\');
            assert(s[1] == e);
            assert(unesc(e) == Some(c));
            assert(s.skip(2) =~= s1);
            assert(sp_str_body(s) == Some((seq![c] + t1, rest)));
            assert(seq![c] + t1 =~= t);
        } else {
            assert(esc(c) =~= seq![c]);
            assert(s =~= seq![c] + s1);
            assert(s[0] == c);
            assert(s.drop_first() =~= s1);
            assert(sp_str_body(s) == Some((seq![c] + t1, rest)));
            assert(seq![c] + t1 =~= t);
        }
    }
}

proof fn lemma_sp_string_round(t: Seq<char>, rest: Seq<char>)
    ensures
        sp_string(enc_string(t) + rest) == Some((t, rest)),
{
    let s = enc_string(t) + rest;
    assert(s[0] == '"');
    assert(s.drop_first() =~= enc_str_body(t) + seq!['"'] + rest);
    lemma_sp_str_body_round(t, rest);
}

proof fn lemma_sp_lit_round(lit: Seq<char>, rest: Seq<char>)
    ensures
        sp_lit(lit + rest, lit) == Some(rest),
{
    let s = lit + rest;
    assert(s.subrange(0, lit.len() as int) =~= lit);
    assert(s.skip(lit.len() as int) =~= rest);
}

proof fn lemma_sp_opt_round(o: Option<Seq<char>>, rest: Seq<char>)
    ensures
        sp_opt(enc_opt(o) + rest) == Some((o, rest)),
{
    let s = enc_opt(o) + rest;
    match o {
        None => {
            assert(s[0] == 'n');
            lemma_sp_lit_round(lit_null(), rest);
        },
        Some(t) => {
            assert(s[0] == '"');
            assert(enc_opt(o) + rest =~= enc_string(t) + rest);
            lemma_sp_string_round(t, rest);
        },
    }
}

proof fn lemma_sp_note_round(n: NoteV, rest: Seq<char>)
    ensures
        sp_note(enc_note(n) + rest) == Some((n, rest)),
        enc_note(n).len() > 0,
        (enc_note(n) + rest)[0] == '{',
{
    let t9 = rest;
    let t8 = seq!['}'] + t9;
    let t7 = enc_opt(n.updated_at) + t8;
    let t6 = lit_updated_key() + t7;
    let t5 = enc_string(n.created_at) + t6;
    let t4 = lit_created_key() + t5;
    let t3 = enc_string(n.text) + t4;
    let t2 = lit_text_key() + t3;
    let t1 = enc_string(n.id) + t2;
    let s = lit_obj_open() + t1;
    assert(enc_note(n) + rest =~= s);
    lemma_sp_lit_round(lit_obj_open(), t1);
    lemma_sp_string_round(n.id, t2);
    lemma_sp_lit_round(lit_text_key(), t3);
    lemma_sp_string_round(n.text, t4);
    lemma_sp_lit_round(lit_created_key(), t5);
    lemma_sp_string_round(n.created_at, t6);
    lemma_sp_lit_round(lit_updated_key(), t7);
    lemma_sp_opt_round(n.updated_at, t8);
    lemma_sp_lit_round(seq!['}'], t9);
    assert(sp_note(s) == Some(
        (NoteV { id: n.id, text: n.text, created_at: n.created_at, updated_at: n.updated_at }, t9),
    ));
    assert(NoteV { id: n.id, text: n.text, created_at: n.created_at, updated_at: n.updated_at }
        =~= n);
    assert(s[0] == '{');
}

proof fn lemma_sp_more_round(ns: Seq<NoteV>, rest: Seq<char>)
    ensures
        sp_more(enc_more(ns) + seq![']'] + rest) == Some((ns, rest)),
    decreases ns.len(),
{
    let s = enc_more(ns) + seq![']'] + rest;
    if ns.len() == 0 {
        assert(s =~= seq![']'] + rest);
        assert(s[0] == ']');
        assert(s.drop_first() =~= rest);
        assert(ns =~= Seq::<NoteV>::empty());
    } else {
        let n0 = ns[0];
        let ns1 = ns.drop_first();
        let tail = enc_more(ns1) + seq![']'] + rest;
        assert(s =~= seq![','] + (enc_note(n0) + tail));
        assert(s[0] == ',');
        assert(s.drop_first() =~= enc_note(n0) + tail);
        lemma_sp_note_round(n0, tail);
        assert(sp_note(s.drop_first()) == Some((n0, tail)));
        assert(tail.len() < s.len());
        lemma_sp_more_round(ns1, rest);
        assert(sp_more(tail) == Some((ns1, rest)));
        assert(seq![n0] + ns1 =~= ns);
    }
}

/// The persistence round trip: a collection encoded to its on-disk form and
/// parsed back is the same collection, note for note and field for field.
#[verifier::rlimit(100)]
#[verifier::spinoff_prover]
pub proof fn lemma_parse_encode_round_trip(ns: Seq<NoteV>)
    ensures
        sp_notes(enc_notes(ns)) == Some(ns),
{
    let s = enc_notes(ns);
    if ns.len() == 0 {
        assert(s =~= seq!['[', ']']);
        assert(s[0] == '[');
        assert(s.drop_first() =~= seq![']']);
        assert(s.drop_first()[0] == ']');
        assert(ns =~= Seq::<NoteV>::empty());
    } else {
        let n0 = ns[0];
        let ns1 = ns.drop_first();
        let tail = enc_more(ns1) + seq![']'];
        assert(s =~= seq!['['] + (enc_note(n0) + tail));
        assert(s[0] == '[');
        assert(s.drop_first() =~= enc_note(n0) + tail);
        lemma_sp_note_round(n0, tail);
        assert(s.drop_first()[0] == '{');
        assert(sp_note(s.drop_first()) == Some((n0, tail)));
        lemma_sp_more_round(ns1, Seq::<char>::empty());
        assert(enc_more(ns1) + seq![']'] + Seq::<char>::empty() =~= tail);
        assert(sp_more(tail) == Some((ns1, Seq::<char>::empty())));
        assert(seq![n0] + ns1 =~= ns);
    }
}

} // verus!
