use field_align::{DocumentStore, HighlightRange};

fn range(line: usize, start: usize, end: usize) -> HighlightRange {
    HighlightRange { line, start, end }
}

#[test]
fn new_store_answers_nothing() {
    let store = DocumentStore::new();
    assert_eq!(store.request_highlights("file:///a.txt", 0, 0), None);
    assert_eq!(store.request_highlights("", 0, 0), None);
}

#[test]
fn opened_document_is_answered_from_its_index() {
    let mut store = DocumentStore::new();
    store.on_document_text("file:///a.txt", "INSERT;x;y;\n;p;q;\n;r;");
    assert_eq!(
        store.request_highlights("file:///a.txt", 0, 7),
        Some(vec![range(1, 1, 2), range(2, 1, 2)])
    );
    assert_eq!(store.request_highlights("file:///a.txt", 1, 1), Some(vec![range(0, 7, 8)]));
    assert_eq!(store.request_highlights("file:///a.txt", 0, 8), None);
    assert_eq!(store.request_highlights("file:///a.txt", 7, 0), None);
    assert_eq!(store.request_highlights("file:///b.txt", 0, 7), None);
}

#[test]
fn changed_document_is_answered_from_the_new_text_alone() {
    let mut store = DocumentStore::new();
    let uri = "file:///doc.txt";
    store.on_document_text(uri, "INSERT;x;y\n;p;q\n;r;s\n;t;u");
    assert_eq!(
        store.request_highlights(uri, 0, 7),
        Some(vec![range(1, 1, 2), range(2, 1, 2), range(3, 1, 2)])
    );
    store.on_document_text(uri, "UPDATE;long;y\n;pp;q");
    assert_eq!(store.request_highlights(uri, 0, 7), Some(vec![range(1, 1, 3)]));
    // The lines that the new text does not have are gone.
    assert_eq!(store.request_highlights(uri, 2, 1), None);
    assert_eq!(store.request_highlights(uri, 3, 1), None);
    assert_eq!(store.request_highlights(uri, 1, 1), Some(vec![range(0, 7, 11)]));
}

#[test]
fn taking_the_same_text_again_changes_nothing() {
    let mut store = DocumentStore::new();
    let text = "INSERT;x;y\n;p;q";
    store.on_document_text("u", text);
    let first = store.request_highlights("u", 0, 9);
    store.on_document_text("u", text);
    assert_eq!(store.request_highlights("u", 0, 9), first);
    assert_eq!(first, Some(vec![range(1, 3, 4)]));
}

#[test]
fn closed_document_answers_nothing() {
    let mut store = DocumentStore::new();
    store.on_document_text("a", "INSERT;x\n;p");
    store.on_document_text("b", "INSERT;yy\n;qq");
    assert_eq!(store.request_highlights("a", 0, 7), Some(vec![range(1, 1, 2)]));
    store.on_document_closed("a");
    assert_eq!(store.request_highlights("a", 0, 7), None);
    assert_eq!(store.request_highlights("a", 1, 1), None);
    // The other document is answered as before.
    assert_eq!(store.request_highlights("b", 0, 7), Some(vec![range(1, 1, 3)]));
    // Closing again, or closing what was never opened, is accepted.
    store.on_document_closed("a");
    store.on_document_closed("never opened");
    assert_eq!(store.request_highlights("b", 1, 1), Some(vec![range(0, 7, 9)]));
}

#[test]
fn document_can_be_opened_again_after_it_was_closed() {
    let mut store = DocumentStore::new();
    store.on_document_text("a", "INSERT;x\n;p");
    store.on_document_closed("a");
    store.on_document_text("a", "DELETE;k;l\n;1;2");
    assert_eq!(store.request_highlights("a", 0, 9), Some(vec![range(1, 3, 4)]));
}

#[test]
fn documents_are_kept_apart_by_their_uri() {
    let mut store = DocumentStore::new();
    store.on_document_text("file:///one", "INSERT;a\n;1");
    store.on_document_text("file:///one:1", "INSERT;bbb\n;222");
    store.on_document_text("file:///ö", "INSERT;cc\n;33");
    assert_eq!(store.request_highlights("file:///one", 0, 7), Some(vec![range(1, 1, 2)]));
    assert_eq!(store.request_highlights("file:///one:1", 0, 7), Some(vec![range(1, 1, 4)]));
    assert_eq!(store.request_highlights("file:///ö", 0, 7), Some(vec![range(1, 1, 3)]));
    assert_eq!(store.request_highlights("file:///o", 0, 7), None);
}

#[test]
fn empty_document_answers_nothing() {
    let mut store = DocumentStore::new();
    store.on_document_text("a", "");
    assert_eq!(store.request_highlights("a", 0, 0), None);
    assert_eq!(store.request_highlights("a", 5, 5), None);
}
