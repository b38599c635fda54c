//! The store of the open documents: one line index for each document,
//! replaced as a whole when the document changes and dropped when it closes.

use crate::field::{FieldSpan, HighlightRange};
use crate::highlight::{highlight, highlights, is_on_delimiter};
use crate::index::{index_of, IndexModel, LineIndex, RecordModel};
use dashmap::DashMap;
use std::sync::Arc;
use vstd::prelude::*;

verus! {

/// `dashmap::DashMap`, a concurrent hash map. Nothing inside it is seen
/// here; what it holds is named by `stored_indexes`.
#[verifier::external_type_specification]
#[verifier::external_body]
#[verifier::reject_recursive_types(K)]
#[verifier::reject_recursive_types(V)]
#[verifier::reject_recursive_types(S)]
pub struct ExDashMap<K, V, S>(dashmap::DashMap<K, V, S>);

/// What a store of documents is, as a mathematical value: the index of each
/// open document, by the characters of its URI.
pub type StoreModel = Map<Seq<char>, IndexModel>;

/// What a map of documents holds: for the characters of each stored URI the
/// index that is stored under it. Two keys are one where they have the same
/// characters.
pub uninterp spec fn stored_indexes(documents: DashMap<String, Arc<LineIndex>>) -> Map<
    Seq<char>,
    Map<nat, RecordModel>,
>;

/// `DashMap::new`. Believed of it: the new map holds nothing.
#[verifier::external_body]
fn new_documents() -> (created: DashMap<String, Arc<LineIndex>>)
    ensures
        stored_indexes(created) == StoreModel::empty(),
{
    DashMap::new()
}

/// `DashMap::insert`, on a map that the caller alone holds. Believed of it:
/// afterwards the map holds `index` under `uri`, in place of what it held
/// there, and every other entry as before. What the map held under `uri` is
/// dropped.
#[verifier::external_body]
fn put_document(documents: &mut DashMap<String, Arc<LineIndex>>, uri: String, index: Arc<LineIndex>)
    ensures
        stored_indexes(*final(documents)) == stored_indexes(*old(documents)).insert(uri@, index@),
{
    documents.insert(uri, index);
}

/// `DashMap::remove`, on a map that the caller alone holds. Believed of it:
/// afterwards the map holds nothing under `uri`, and every other entry as
/// before. What the map held under `uri` is dropped.
#[verifier::external_body]
fn drop_document(documents: &mut DashMap<String, Arc<LineIndex>>, uri: &str)
    ensures
        stored_indexes(*final(documents)) == stored_indexes(*old(documents)).remove(uri@),
{
    documents.remove(uri);
}

/// `DashMap::get`, with the entry that it finds handed out as another handle
/// to the same index (`Ref::value`, `Arc::clone`). Believed of it: it finds
/// an entry exactly if the map holds one under `uri`, and then it is that
/// entry.
#[verifier::external_body]
fn find_document(documents: &DashMap<String, Arc<LineIndex>>, uri: &str) -> (found: Option<
    Arc<LineIndex>,
>)
    ensures
        match found {
            Some(index) => stored_indexes(*documents).contains_key(uri@) && index@
                == stored_indexes(*documents)[uri@],
            None => !stored_indexes(*documents).contains_key(uri@),
        },
{
    match documents.get(uri) {
        Some(entry) => Some(Arc::clone(entry.value())),
        None => None,
    }
}

/// What a highlight request for the document `uri` answers: what the index
/// of that document answers, and nothing where the store has no such
/// document.
pub open spec fn stored_highlights(
    store: StoreModel,
    uri: Seq<char>,
    line: nat,
    character: nat,
) -> Option<Seq<FieldSpan>> {
    if store.contains_key(uri) {
        highlights(store[uri], line, character)
    } else {
        None
    }
}

/// Once a document is closed, a request for it highlights nothing, whatever
/// the store held for it, and a request for another document is answered as
/// before.
pub proof fn closed_document_highlights_nothing(
    store: StoreModel,
    uri: Seq<char>,
    other: Seq<char>,
    line: nat,
    character: nat,
)
    ensures
        stored_highlights(store.remove(uri), uri, line, character) is None,
        other != uri ==> stored_highlights(store.remove(uri), other, line, character)
            == stored_highlights(store, other, line, character),
{
}

/// Once the text of a document is taken, a request for it is answered from
/// the index of that text alone: nothing of what the store held for the
/// document before enters the answer. A request for another document is
/// answered as before, and taking the same text again changes nothing.
pub proof fn new_text_replaces_index(
    store: StoreModel,
    uri: Seq<char>,
    text: Seq<char>,
    other: Seq<char>,
    line: nat,
    character: nat,
)
    ensures
        stored_highlights(store.insert(uri, index_of(text)), uri, line, character) == highlights(
            index_of(text),
            line,
            character,
        ),
        other != uri ==> stored_highlights(
            store.insert(uri, index_of(text)),
            other,
            line,
            character,
        ) == stored_highlights(store, other, line, character),
        store.insert(uri, index_of(text)).insert(uri, index_of(text)) == store.insert(
            uri,
            index_of(text),
        ),
{
    assert(store.insert(uri, index_of(text)).insert(uri, index_of(text)) =~= store.insert(
        uri,
        index_of(text),
    ));
}

/// The index is that of one text, whole: it holds no line of any other
/// text.
pub open spec fn is_index_of_one_text(index: IndexModel) -> bool {
    exists|text: Seq<char>| index == #[trigger] index_of(text)
}

/// Every index of the store is the index of one text.
pub open spec fn holds_whole_indexes(store: StoreModel) -> bool {
    forall|uri: Seq<char>| #[trigger] store.contains_key(uri) ==> is_index_of_one_text(store[uri])
}

/// The empty store holds whole indexes, and a store that does still does so
/// once a text is taken or a document is closed. Each answer of such a store
/// is what the index of one text answers: no answer draws on two texts.
pub proof fn answers_come_from_one_text(
    store: StoreModel,
    uri: Seq<char>,
    text: Seq<char>,
    line: nat,
    character: nat,
)
    ensures
        holds_whole_indexes(StoreModel::empty()),
        holds_whole_indexes(store) ==> holds_whole_indexes(store.insert(uri, index_of(text))),
        holds_whole_indexes(store) ==> holds_whole_indexes(store.remove(uri)),
        holds_whole_indexes(store) && stored_highlights(store, uri, line, character) is Some
            ==> exists|of: Seq<char>|
            stored_highlights(store, uri, line, character) == highlights(
                #[trigger] index_of(of),
                line,
                character,
            ),
{
    assert(is_index_of_one_text(index_of(text)));
    if holds_whole_indexes(store) && stored_highlights(store, uri, line, character) is Some {
        let of = choose|of: Seq<char>| store[uri] == #[trigger] index_of(of);
        assert(stored_highlights(store, uri, line, character) == highlights(
            index_of(of),
            line,
            character,
        ));
    }
}

/// The line indexes of the open documents, by the URI of each document.
pub struct DocumentStore {
    documents: DashMap<String, Arc<LineIndex>>,
}

impl View for DocumentStore {
    type V = StoreModel;

    closed spec fn view(&self) -> StoreModel {
        stored_indexes(self.documents)
    }
}

impl DocumentStore {
    /// A store without documents.
    pub fn new() -> (store: DocumentStore)
        ensures
            store@ == StoreModel::empty(),
            holds_whole_indexes(store@),
    {
        DocumentStore { documents: new_documents() }
    }

    /// Takes the full text of a document that was opened or changed: builds
    /// its index and puts it in place of the one that the store held for it.
    pub fn on_document_text(&mut self, uri: &str, text: &str)
        ensures
            final(self)@ == old(self)@.insert(uri@, index_of(text@)),
            holds_whole_indexes(old(self)@) ==> holds_whole_indexes(final(self)@),
    {
        proof {
            assert(is_index_of_one_text(index_of(text@)));
        }
        let index = LineIndex::build(text);
        put_document(&mut self.documents, uri.to_owned(), Arc::new(index));
    }

    /// Takes the closing of a document: drops its index.
    pub fn on_document_closed(&mut self, uri: &str)
        ensures
            final(self)@ == old(self)@.remove(uri@),
            holds_whole_indexes(old(self)@) ==> holds_whole_indexes(final(self)@),
    {
        drop_document(&mut self.documents, uri);
    }

    /// Answers a highlight request for the document `uri` from the index
    /// that the store holds for it.
    pub fn request_highlights(&self, uri: &str, line: usize, character: usize) -> (result: Option<
        Vec<HighlightRange>,
    >)
        ensures
            result.deep_view() == stored_highlights(self@, uri@, line as nat, character as nat),
            !self@.contains_key(uri@) ==> result is None,
            self@.contains_key(uri@) && self@[uri@].contains_key(line as nat) && is_on_delimiter(
                self@[uri@][line as nat].content,
                character as nat,
            ) ==> result is None,
    {
        match find_document(&self.documents, uri) {
            Some(index) => highlight(&index, line, character),
            None => None,
        }
    }
}

} // verus!
