use jotin::errors::ErrorKind;
use jotin::note::Note;
use jotin::store::{create_note, delete_note, list_notes, load_notes};

fn note(id: &str, text: &str, created_at: &str) -> Note {
    Note {
        id: String::from(id),
        text: String::from(text),
        created_at: String::from(created_at),
        updated_at: None,
    }
}

#[test]
fn create_returns_fresh_unique_ids() {
    let (doc1, a) = create_note(None, "first").unwrap();
    let (doc2, b) = create_note(Some(&doc1), "second").unwrap();
    assert_eq!(a.id.len(), 36);
    assert_eq!(b.id.len(), 36);
    assert_ne!(a.id, b.id);
    assert!(!a.created_at.is_empty());
    let notes = load_notes(Some(&doc2)).unwrap();
    assert_eq!(notes.len(), 2);
    assert_ne!(notes[0].id, notes[1].id);
}

#[test]
fn create_empty_text_fails_with_invalid_input() {
    let r = create_note(None, "");
    assert!(matches!(r, Err(ref e) if e.kind == ErrorKind::InvalidInput));
}

#[test]
fn create_whitespace_text_fails_with_invalid_input() {
    let r = create_note(None, "   ");
    assert!(matches!(r, Err(ref e) if e.kind == ErrorKind::InvalidInput));
    let r2 = create_note(None, " \t\n\u{a0}\u{2003} ");
    assert!(matches!(r2, Err(ref e) if e.kind == ErrorKind::InvalidInput));
}

#[test]
fn create_trims_text() {
    let (doc, n) = create_note(None, "  keep the middle  spaces  ").unwrap();
    assert_eq!(n.text, "keep the middle  spaces");
    let notes = load_notes(Some(&doc)).unwrap();
    assert_eq!(notes[0].text, "keep the middle  spaces");
}

#[test]
fn list_orders_most_recent_first() {
    let a = note("id-a", "older", "2024-01-01T08:00:00+00:00");
    let b = note("id-b", "newer", "2024-03-05T09:30:00+00:00");
    let doc = jotin::codec::encode_notes(&vec![a, b]);
    let listed = list_notes(Some(&doc)).unwrap();
    assert_eq!(listed.len(), 2);
    assert_eq!(listed[0].id, "id-b");
    assert_eq!(listed[1].id, "id-a");
}

#[test]
fn list_after_two_creates_is_newest_first() {
    let (doc1, a) = create_note(None, "A").unwrap();
    let (doc2, b) = create_note(Some(&doc1), "B").unwrap();
    let listed = list_notes(Some(&doc2)).unwrap();
    assert_eq!(listed.len(), 2);
    if b.created_at > a.created_at {
        assert_eq!(listed[0].id, b.id);
        assert_eq!(listed[1].id, a.id);
    } else {
        // Equal timestamps: on-disk order is kept, A was stored first.
        assert_eq!(listed[0].id, a.id);
        assert_eq!(listed[1].id, b.id);
    }
}

#[test]
fn list_keeps_disk_order_between_equal_timestamps() {
    let ts = "2024-06-01T12:00:00+00:00";
    let a = note("id-1", "one", ts);
    let b = note("id-2", "two", ts);
    let c = note("id-3", "three", "2024-06-02T12:00:00+00:00");
    let doc = jotin::codec::encode_notes(&vec![a, b, c]);
    let listed = list_notes(Some(&doc)).unwrap();
    assert_eq!(listed[0].id, "id-3");
    assert_eq!(listed[1].id, "id-1");
    assert_eq!(listed[2].id, "id-2");
}

#[test]
fn delete_unknown_id_fails_with_not_found() {
    let a = note("id-a", "text", "2024-01-01T08:00:00+00:00");
    let doc = jotin::codec::encode_notes(&vec![a]);
    let before = doc.clone();
    let r = delete_note(Some(&doc), "no-such-id");
    assert!(matches!(r, Err(ref e) if e.kind == ErrorKind::NotFound));
    // An error returns no document, so the collection on disk stays as it was.
    assert_eq!(doc, before);
}

#[test]
fn delete_present_id_removes_exactly_one() {
    let a = note("id-a", "one", "2024-01-01T08:00:00+00:00");
    let b = note("id-b", "two", "2024-01-02T08:00:00+00:00");
    let c = note("id-c", "three", "2024-01-03T08:00:00+00:00");
    let doc = jotin::codec::encode_notes(&vec![a, b, c]);
    let next = delete_note(Some(&doc), "id-b").unwrap();
    let listed = list_notes(Some(&next)).unwrap();
    assert_eq!(listed.len(), 2);
    assert!(listed.iter().all(|n| n.id != "id-b"));
}

#[test]
fn round_trip_keeps_every_field() {
    let mut a = note(
        "3f2b8c44-9d1e-4f6a-8b7c-0d5e9a1b2c3d",
        "quotes \" and \\ backslashes\nnew line\ttab\rreturn",
        "2024-01-01T08:00:00.123456+00:00",
    );
    a.updated_at = Some(String::from("2024-02-02T09:00:00+00:00"));
    let b = note("id-b", "plain text with unicode: snowman \u{2603} and \u{1F600}", "2024-01-02T08:00:00+00:00");
    let notes = vec![a, b];
    let doc = jotin::codec::encode_notes(&notes);
    let back = jotin::codec::parse_notes(&doc).unwrap();
    assert_eq!(back.len(), 2);
    for (orig, re) in notes.iter().zip(back.iter()) {
        assert_eq!(orig.id, re.id);
        assert_eq!(orig.text, re.text);
        assert_eq!(orig.created_at, re.created_at);
        assert_eq!(orig.updated_at, re.updated_at);
    }
}

#[test]
fn encode_has_exact_expected_form() {
    let a = note("id-a", "say \"hi\"", "2024-01-01T08:00:00+00:00");
    let doc = jotin::codec::encode_notes(&vec![a]);
    assert_eq!(
        doc,
        "[{\"id\":\"id-a\",\"text\":\"say \\\"hi\\\"\",\"created_at\":\"2024-01-01T08:00:00+00:00\",\"updated_at\":null}]"
    );
}

#[test]
fn encode_empty_collection() {
    let doc = jotin::codec::encode_notes(&Vec::new());
    assert_eq!(doc, "[]");
}

#[test]
fn load_missing_file_is_empty_collection() {
    let notes = load_notes(None).unwrap();
    assert!(notes.is_empty());
}

#[test]
fn load_whitespace_only_is_empty_collection() {
    let notes = load_notes(Some("  \n\t  ")).unwrap();
    assert!(notes.is_empty());
}

#[test]
fn load_malformed_fails_with_storage_corrupt() {
    let r = load_notes(Some("not json at all"));
    assert!(matches!(r, Err(ref e) if e.kind == ErrorKind::StorageCorrupt));
    let r2 = load_notes(Some("[{\"id\":\"a\"}]"));
    assert!(matches!(r2, Err(ref e) if e.kind == ErrorKind::StorageCorrupt));
    let r3 = load_notes(Some("[{\"id\":\"a\",\"text\":\"t\",\"created_at\":\"c\",\"updated_at\":null}] trailing"));
    assert!(matches!(r3, Err(ref e) if e.kind == ErrorKind::StorageCorrupt));
}

#[test]
fn many_creates_all_land_in_the_collection() {
    let mut doc: Option<String> = None;
    for i in 0..12 {
        let text = format!("note number {i}");
        let (next, _) = create_note(doc.as_deref(), &text).unwrap();
        doc = Some(next);
    }
    let listed = list_notes(doc.as_deref()).unwrap();
    assert_eq!(listed.len(), 12);
}

#[test]
fn create_on_corrupt_document_fails_without_writing() {
    let r = create_note(Some("{broken"), "text");
    assert!(matches!(r, Err(ref e) if e.kind == ErrorKind::StorageCorrupt));
}
