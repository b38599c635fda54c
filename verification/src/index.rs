//! The line index of a document: for each indexed line its normalized
//! content and the line of the record header that owns it.

use crate::text::{
    has_delimiter, is_comment, is_header, line_is_comment, line_is_header, lines_of, split_lines,
    DELIMITER,
};
use vstd::prelude::*;

verus! {

/// What an indexed line is, as a mathematical value.
pub struct RecordModel {
    /// The text of the line with one delimiter appended.
    pub content: Seq<char>,
    /// The line of the header that owns the line; a header owns itself.
    pub header_line: nat,
}

/// What a line index is, as a mathematical value: the record of each indexed
/// line, by the number of the line.
pub type IndexModel = Map<nat, RecordModel>;

/// One indexed line.
#[derive(Debug, PartialEq, Eq)]
pub struct LineRecord {
    /// The text of the line with one delimiter appended.
    pub content: Vec<char>,
    /// The line of the header that owns the line; a header owns itself.
    pub header_line: usize,
}

impl View for LineRecord {
    type V = RecordModel;

    open spec fn view(&self) -> RecordModel {
        RecordModel { content: self.content@, header_line: self.header_line as nat }
    }
}

/// A line of text is indexed only if it holds a delimiter and is no comment.
pub open spec fn is_indexable(raw: Seq<char>) -> bool {
    raw.contains(DELIMITER) && !is_comment(raw)
}

/// The content that is kept of a line: its text and one more delimiter,
/// whether or not the text ends with one, so that every field of the line has
/// a delimiter behind it.
pub open spec fn normalized(raw: Seq<char>) -> Seq<char> {
    raw.push(DELIMITER)
}

/// The line opens a record: it is indexable and its content begins, behind
/// leading white space, with an action keyword.
pub open spec fn opens_record(raw: Seq<char>) -> bool {
    is_indexable(raw) && is_header(normalized(raw))
}

/// The header that owns line `l`: the last line at or above `l` that opens a
/// record. The lines above the first header have none.
pub open spec fn owning_header(lines: Seq<Seq<char>>, l: int) -> Option<nat>
    decreases l + 1,
{
    if l < 0 || l >= lines.len() {
        None
    } else if opens_record(lines[l]) {
        Some(l as nat)
    } else {
        owning_header(lines, l - 1)
    }
}

/// The index of a document with the given lines. It holds the indexable
/// lines that have a header at or above them, each with its normalized
/// content and its header. Indexable lines above the first header belong to
/// no record and are left out.
pub open spec fn index_of_lines(lines: Seq<Seq<char>>) -> IndexModel {
    Map::new(
        |l: nat|
            l < lines.len() && is_indexable(lines[l as int]) && owning_header(lines, l as int)
                is Some,
        |l: nat|
            RecordModel {
                content: normalized(lines[l as int]),
                header_line: owning_header(lines, l as int)->0,
            },
    )
}

/// The index of a document with the given text.
pub open spec fn index_of(text: Seq<char>) -> IndexModel {
    index_of_lines(lines_of(text))
}

/// What holds of every index that was built from a text.
///
/// The header of an indexed line lies at or above the line, is indexed and
/// is its own header. All indexed lines from a header down to a line that it
/// owns have that header. A line is its own header exactly if its content
/// begins, behind leading white space, with an action keyword. The content of
/// a line ends with the delimiter that was appended and holds another one
/// before it.
pub open spec fn is_well_formed(index: IndexModel) -> bool {
    &&& forall|l: nat| #[trigger]
        index.contains_key(l) ==> {
            let h = index[l].header_line;
            &&& h <= l
            &&& index.contains_key(h)
            &&& index[h].header_line == h
        }
    &&& forall|l: nat, m: nat|
        #![trigger index.contains_key(l), index.contains_key(m)]
        index.contains_key(l) && index.contains_key(m) && index[l].header_line <= m <= l
            ==> index[m].header_line == index[l].header_line
    &&& forall|l: nat| #[trigger]
        index.contains_key(l) ==> (index[l].header_line == l <==> is_header(index[l].content))
    &&& forall|l: nat| #[trigger]
        index.contains_key(l) ==> {
            let content = index[l].content;
            &&& content.len() >= 2
            &&& content.last() == DELIMITER
            &&& content.drop_last().contains(DELIMITER)
        }
}

/// The header that owns a line opens a record at or above the line, and it
/// owns every line from itself down to that line.
pub proof fn lemma_owning_header(lines: Seq<Seq<char>>, l: int)
    requires
        owning_header(lines, l) is Some,
    ensures
        ({
            let h = owning_header(lines, l)->0;
            &&& 0 <= h <= l < lines.len()
            &&& opens_record(lines[h as int])
            &&& forall|m: int| h <= m <= l ==> owning_header(lines, m) == Some(h)
            &&& forall|m: int| h < m <= l ==> !opens_record(lines[m])
        }),
    decreases l + 1,
{
    if !opens_record(lines[l]) {
        lemma_owning_header(lines, l - 1);
    }
}

/// The index of any lines is well formed.
pub proof fn lemma_index_is_well_formed(lines: Seq<Seq<char>>)
    ensures
        is_well_formed(index_of_lines(lines)),
{
    let index = index_of_lines(lines);
    assert forall|l: nat| #[trigger] index.contains_key(l) implies {
        let h = index[l].header_line;
        &&& h <= l
        &&& index.contains_key(h)
        &&& index[h].header_line == h
        &&& index[l].header_line == l <==> is_header(index[l].content)
        &&& index[l].content.len() >= 2
        &&& index[l].content.last() == DELIMITER
        &&& index[l].content.drop_last().contains(DELIMITER)
    } by {
        lemma_owning_header(lines, l as int);
        assert(index[l].content.drop_last() =~= lines[l as int]);
    }
    assert forall|l: nat, m: nat|
        #![trigger index.contains_key(l), index.contains_key(m)]
        index.contains_key(l) && index.contains_key(m) && index[l].header_line <= m <= l
        implies index[m].header_line == index[l].header_line by {
        lemma_owning_header(lines, l as int);
    }
}

/// The index of any text is well formed: in particular, the header of each
/// indexed line lies at or above the line and is its own header.
pub proof fn index_of_text_is_well_formed(text: Seq<char>)
    ensures
        is_well_formed(index_of(text)),
{
    lemma_index_is_well_formed(lines_of(text));
}

/// Two indexes that were built from one text hold the same lines with the
/// same records.
pub proof fn rebuilt_index_is_same(first: LineIndex, second: LineIndex, text: Seq<char>)
    requires
        first@ == index_of(text),
        second@ == index_of(text),
    ensures
        first@ == second@,
        forall|l: nat| first@.contains_key(l) <==> second@.contains_key(l),
        forall|l: nat| first@.contains_key(l) ==> first@[l] == second@[l],
{
}

/// The index of one document. Line `l` of the document has the slot `l`;
/// the slot of a line that belongs to no record is empty.
#[derive(Debug)]
pub struct LineIndex {
    slots: Vec<Option<LineRecord>>,
}

impl View for LineIndex {
    type V = IndexModel;

    closed spec fn view(&self) -> IndexModel {
        Map::new(
            |l: nat| l < self.slots@.len() && self.slots@[l as int] is Some,
            |l: nat| self.slots@[l as int]->0@,
        )
    }
}

impl LineIndex {
    /// The number of lines of the document that the index was built from.
    pub closed spec fn spec_line_count(&self) -> nat {
        self.slots@.len()
    }

    /// Every indexed line lies below the line count.
    pub proof fn lemma_lines_below_count(&self)
        ensures
            forall|l: nat| #[trigger] self@.contains_key(l) ==> l < self.spec_line_count(),
    {
    }

    /// The number of lines of the document that the index was built from.
    pub fn line_count(&self) -> (n: usize)
        ensures
            n == self.spec_line_count(),
    {
        self.slots.len()
    }

    /// Builds the index of a document from its lines.
    pub fn from_lines(lines: Vec<Vec<char>>) -> (index: LineIndex)
        ensures
            index@ == index_of_lines(lines.deep_view()),
            is_well_formed(index@),
            index.spec_line_count() == lines@.len(),
    {
        let ghost model = lines.deep_view();
        let ghost given = lines@;
        let mut slots: Vec<Option<LineRecord>> = Vec::new();
        let mut header: Option<usize> = None;
        for line in it: lines
            invariant
                it.seq() == given,
                model.len() == given.len(),
                forall|l: int| 0 <= l < given.len() ==> #[trigger] model[l] == given[l]@,
                slots@.len() == it.index(),
                match header {
                    Some(h) => owning_header(model, it.index() - 1) == Some(h as nat),
                    None => owning_header(model, it.index() - 1) is None,
                },
                forall|l: int|
                    0 <= l < it.index() ==> match #[trigger] slots@[l] {
                        Some(record) => is_indexable(model[l]) && owning_header(model, l) is Some
                            && record@.content == normalized(model[l]) && record@.header_line
                            == owning_header(model, l)->0,
                        None => !(is_indexable(model[l]) && owning_header(model, l) is Some),
                    },
        {
            let mut content: Vec<char> = line;
            let slot: Option<LineRecord> = if has_delimiter(&content) && !line_is_comment(
                &content,
            ) {
                content.push(DELIMITER);
                if line_is_header(&content) {
                    header = Some(slots.len());
                }
                match header {
                    Some(h) => Some(LineRecord { content, header_line: h }),
                    None => None,
                }
            } else {
                None
            };
            slots.push(slot);
        }
        let index = LineIndex { slots };
        proof {
            lemma_index_is_well_formed(model);
        }
        index
    }

    /// Builds the index of a document from its text.
    pub fn build(text: &str) -> (index: LineIndex)
        ensures
            index@ == index_of(text@),
            is_well_formed(index@),
            index.spec_line_count() == lines_of(text@).len(),
    {
        LineIndex::from_lines(split_lines(text))
    }

    /// The record of `line`, if the line is indexed.
    pub fn get(&self, line: usize) -> (record: Option<&LineRecord>)
        ensures
            match record {
                Some(r) => self@.contains_key(line as nat) && r@ == self@[line as nat],
                None => !self@.contains_key(line as nat),
            },
    {
        if line < self.slots.len() {
            self.slots[line].as_ref()
        } else {
            None
        }
    }
}

} // verus!
