//! The field highlighter: from a cursor on one line of a record to the
//! field of the same ordinal on the other lines of that record.

use crate::field::{
    delimiter_count, field_ordinal, field_span, is_whole_field, lemma_field_span_is_whole,
    locate_field, ordinal_at, FieldSpan, HighlightRange,
};
use crate::index::{is_well_formed, IndexModel, LineIndex};
use crate::text::DELIMITER;
use vstd::prelude::*;

verus! {

/// How many lines below a header are looked at for its continuation lines.
/// It bounds the cost of one request; a record may be longer.
pub const SCAN_WINDOW: usize = 30;

/// The cursor position `pos` of `content` holds a delimiter. Such a cursor
/// lies between two fields and belongs to neither.
pub open spec fn is_on_delimiter(content: Seq<char>, pos: nat) -> bool {
    pos < content.len() && content[pos as int] == DELIMITER
}

/// The field with the given ordinal on line `l` of the index: none where the
/// line is not indexed, and none where it has too few delimiters.
pub open spec fn line_span(index: IndexModel, l: nat, ordinal: nat) -> Option<
    FieldSpan,
> {
    if index.contains_key(l) {
        field_span(index[l].content, l, ordinal)
    } else {
        None
    }
}

/// The spans that one line gives: one or none.
pub open spec fn span_seq(span: Option<FieldSpan>) -> Seq<FieldSpan> {
    match span {
        Some(s) => seq![s],
        None => Seq::empty(),
    }
}

/// Line `l` is indexed and belongs to another record than that of `header`.
pub open spec fn ends_record(index: IndexModel, header: nat, l: nat) -> bool {
    index.contains_key(l) && index[l].header_line != header
}

/// The fields with the given ordinal on the lines from `l` on that belong to
/// the record of `header`. At most `window` lines are looked at, and the
/// first line of another record ends the scan. Lines that are not indexed
/// are passed over.
pub open spec fn record_spans(
    index: IndexModel,
    header: nat,
    ordinal: nat,
    l: nat,
    window: nat,
) -> Seq<FieldSpan>
    decreases window,
{
    if window == 0 || ends_record(index, header, l) {
        Seq::empty()
    } else {
        span_seq(line_span(index, l, ordinal)) + record_spans(
            index,
            header,
            ordinal,
            l + 1,
            (window - 1) as nat,
        )
    }
}

/// What a highlight request at (`line`, `character`) answers.
///
/// Nothing, where the line is not indexed or the cursor is on a delimiter.
/// Else the ordinal of the field under the cursor is taken. From a header
/// line the answer holds that field of the continuation lines below it; from
/// a continuation line it holds that field of the header line alone. An
/// answer without a span is nothing.
pub open spec fn highlights(index: IndexModel, line: nat, character: nat) -> Option<
    Seq<FieldSpan>,
> {
    if !index.contains_key(line) || is_on_delimiter(index[line].content, character) {
        None
    } else {
        let ordinal = field_ordinal(index[line].content, character);
        let header = index[line].header_line;
        let spans = if header == line {
            record_spans(index, line, ordinal, line + 1, SCAN_WINDOW as nat)
        } else {
            span_seq(line_span(index, header, ordinal))
        };
        if spans.len() == 0 {
            None
        } else {
            Some(spans)
        }
    }
}

/// Where no line from `l` on is indexed, the scan finds nothing.
proof fn lemma_scan_past_end(
    index: IndexModel,
    header: nat,
    ordinal: nat,
    l: nat,
    window: nat,
)
    requires
        forall|k: nat| k >= l ==> !index.contains_key(k),
    ensures
        record_spans(index, header, ordinal, l, window) == Seq::<FieldSpan>::empty(),
    decreases window,
{
    if window > 0 {
        lemma_scan_past_end(index, header, ordinal, l + 1, (window - 1) as nat);
    }
}

/// Line `m` is reached by the scan that starts at line `l` with the given
/// window: it lies in the window and no line from `l` up to it belongs to
/// another record.
pub open spec fn is_scanned(
    index: IndexModel,
    header: nat,
    l: nat,
    window: nat,
    m: nat,
) -> bool {
    &&& l <= m < l + window
    &&& forall|k: nat| l <= k <= m ==> !ends_record(index, header, k)
}

/// What the scan of a record holds: the fields of the lines that it reaches
/// and that have the field, each once, in ascending order of the lines.
pub proof fn lemma_record_spans(
    index: IndexModel,
    header: nat,
    ordinal: nat,
    l: nat,
    window: nat,
)
    ensures
        forall|i: int|
            0 <= i < record_spans(index, header, ordinal, l, window).len() ==> {
                let span = #[trigger] record_spans(index, header, ordinal, l, window)[i];
                &&& is_scanned(index, header, l, window, span.line)
                &&& line_span(index, span.line, ordinal) == Some(span)
            },
        forall|i: int, j: int|
            0 <= i < j < record_spans(index, header, ordinal, l, window).len() ==> (
            #[trigger] record_spans(index, header, ordinal, l, window)[i]).line < (
            #[trigger] record_spans(index, header, ordinal, l, window)[j]).line,
        forall|m: nat|
            is_scanned(index, header, l, window, m) && (#[trigger] line_span(
                index,
                m,
                ordinal,
            )) is Some ==> record_spans(index, header, ordinal, l, window).contains(
                line_span(index, m, ordinal)->0,
            ),
    decreases window,
{
    let spans = record_spans(index, header, ordinal, l, window);
    if window > 0 && !ends_record(index, header, l) {
        let first = span_seq(line_span(index, l, ordinal));
        let rest = record_spans(index, header, ordinal, l + 1, (window - 1) as nat);
        lemma_record_spans(index, header, ordinal, l + 1, (window - 1) as nat);
        if line_span(index, l, ordinal) is Some {
            lemma_field_span_is_whole(index[l].content, l, ordinal);
        }
        assert forall|i: int| 0 <= i < spans.len() implies {
            &&& is_scanned(index, header, l, window, (#[trigger] spans[i]).line)
            &&& line_span(index, spans[i].line, ordinal) == Some(spans[i])
        } by {
            if i >= first.len() {
                assert(spans[i] == rest[i - first.len()]);
            }
        }
        assert forall|i: int, j: int| 0 <= i < j < spans.len() implies (#[trigger] spans[i]).line
            < (#[trigger] spans[j]).line by {
            assert(spans[j] == rest[j - first.len()]);
        }
        assert forall|m: nat|
            is_scanned(index, header, l, window, m) && (#[trigger] line_span(
                index,
                m,
                ordinal,
            )) is Some implies spans.contains(line_span(index, m, ordinal)->0) by {
            let span = line_span(index, m, ordinal)->0;
            if m == l {
                assert(spans[0] == span);
            } else {
                let i = choose|i: int| 0 <= i < rest.len() && rest[i] == span;
                assert(spans[first.len() + i] == span);
            }
        }
    }
}

/// A cursor on a delimiter highlights nothing.
pub proof fn delimiter_cursor_highlights_nothing(
    index: IndexModel,
    line: nat,
    character: nat,
)
    requires
        index.contains_key(line),
        is_on_delimiter(index[line].content, character),
    ensures
        highlights(index, line, character) is None,
{
}

/// A request from a header line highlights only lines of its own record
/// below it. Each highlighted line lies at most `SCAN_WINDOW` lines below the
/// header and has this header, no line of another record lies between the
/// header and it, and the lines ascend. No such line that has the field is
/// left out.
pub proof fn header_highlights_its_record(
    index: IndexModel,
    line: nat,
    character: nat,
)
    requires
        index.contains_key(line),
        index[line].header_line == line,
    ensures
        highlights(index, line, character) matches Some(spans) ==> {
            &&& forall|i: int|
                0 <= i < spans.len() ==> {
                    let at = (#[trigger] spans[i]).line;
                    &&& line < at <= line + SCAN_WINDOW
                    &&& index.contains_key(at)
                    &&& index[at].header_line == line
                    &&& forall|m: nat| line < m <= at ==> !ends_record(index, line, m)
                }
            &&& forall|i: int, j: int|
                0 <= i < j < spans.len() ==> (#[trigger] spans[i]).line < (#[trigger] spans[j]).line
        },
        forall|m: nat|
            !is_on_delimiter(index[line].content, character) && is_scanned(
                index,
                line,
                line + 1,
                SCAN_WINDOW as nat,
                m,
            ) && (#[trigger] line_span(
                index,
                m,
                field_ordinal(index[line].content, character),
            )) is Some ==> highlights(index, line, character) is Some && highlights(
                index,
                line,
                character,
            )->0.contains(line_span(index, m, field_ordinal(index[line].content, character))->0),
{
    let ordinal = field_ordinal(index[line].content, character);
    lemma_record_spans(index, line, ordinal, line + 1, SCAN_WINDOW as nat);
    let scan = record_spans(index, line, ordinal, line + 1, SCAN_WINDOW as nat);
    if highlights(index, line, character) is Some {
        assert forall|i: int| 0 <= i < scan.len() implies {
            let at = (#[trigger] scan[i]).line;
            &&& line < at <= line + SCAN_WINDOW
            &&& index.contains_key(at)
            &&& index[at].header_line == line
            &&& forall|m: nat| line < m <= at ==> !ends_record(index, line, m)
        } by {
            assert(!ends_record(index, line, scan[i].line));
        }
    }
}

/// A request from a continuation line highlights at most its header line:
/// the field of the header with the ordinal of the field under the cursor,
/// and nothing else. It highlights that field unless the cursor is on a
/// delimiter or the header has too few delimiters.
pub proof fn continuation_highlights_its_header(
    index: IndexModel,
    line: nat,
    character: nat,
)
    requires
        is_well_formed(index),
        index.contains_key(line),
        index[line].header_line != line,
    ensures
        ({
            let header = index[line].header_line;
            let ordinal = field_ordinal(index[line].content, character);
            &&& header < line
            &&& index.contains_key(header)
            &&& highlights(index, line, character) is Some <==> !is_on_delimiter(
                index[line].content,
                character,
            ) && ordinal < delimiter_count(index[header].content)
            &&& highlights(index, line, character) matches Some(spans) ==> spans.len() == 1
                && spans[0].line == header && field_span(index[header].content, header, ordinal)
                == Some(spans[0])
        }),
{
    let header = index[line].header_line;
    let ordinal = field_ordinal(index[line].content, character);
    lemma_field_span_is_whole(index[header].content, header, ordinal);
}

/// Every highlighted range is a whole field of its line, the one with the
/// ordinal of the field under the cursor: the line has more delimiters than
/// that ordinal, and the range runs from the start of the field to the
/// delimiter that closes it. A line with too few delimiters gets no range.
pub proof fn highlights_are_whole_fields(index: IndexModel, line: nat, character: nat)
    requires
        index.contains_key(line),
    ensures
        highlights(index, line, character) matches Some(spans) ==> forall|i: int|
            0 <= i < spans.len() ==> {
                let span = #[trigger] spans[i];
                let content = index[span.line].content;
                let ordinal = field_ordinal(index[line].content, character);
                &&& index.contains_key(span.line)
                &&& ordinal < delimiter_count(content)
                &&& is_whole_field(content, ordinal, span.start, span.end)
            },
{
    let ordinal = field_ordinal(index[line].content, character);
    let header = index[line].header_line;
    if highlights(index, line, character) is Some {
        let spans = highlights(index, line, character)->0;
        if header == line {
            lemma_record_spans(index, line, ordinal, line + 1, SCAN_WINDOW as nat);
        }
        assert forall|i: int| 0 <= i < spans.len() implies {
            let span = #[trigger] spans[i];
            let content = index[span.line].content;
            &&& index.contains_key(span.line)
            &&& ordinal < delimiter_count(content)
            &&& is_whole_field(content, ordinal, span.start, span.end)
        } by {
            lemma_field_span_is_whole(index[spans[i].line].content, spans[i].line, ordinal);
        }
    }
}

/// Collects the fields with the given ordinal on the continuation lines of
/// the record whose header is on line `header`.
pub fn scan_record(index: &LineIndex, header: usize, ordinal: usize) -> (ranges: Vec<
    HighlightRange,
>)
    ensures
        ranges.deep_view() == record_spans(
            index@,
            header as nat,
            ordinal as nat,
            header as nat + 1,
            SCAN_WINDOW as nat,
        ),
{
    let count: usize = index.line_count();
    let mut ranges: Vec<HighlightRange> = Vec::new();
    proof {
        index.lemma_lines_below_count();
    }
    if header >= count {
        proof {
            lemma_scan_past_end(
                index@,
                header as nat,
                ordinal as nat,
                header as nat + 1,
                SCAN_WINDOW as nat,
            );
        }
        return ranges;
    }
    let ghost all = record_spans(
        index@,
        header as nat,
        ordinal as nat,
        header as nat + 1,
        SCAN_WINDOW as nat,
    );
    let mut scanned: usize = 0;
    let mut l: usize = header + 1;
    while l < count && scanned < SCAN_WINDOW
        invariant
            count == index.spec_line_count(),
            forall|k: nat| #[trigger] index@.contains_key(k) ==> k < count,
            header < l <= count,
            scanned <= SCAN_WINDOW,
            l == header + 1 + scanned,
            all == record_spans(
                index@,
                header as nat,
                ordinal as nat,
                header as nat + 1,
                SCAN_WINDOW as nat,
            ),
            all == ranges.deep_view() + record_spans(
                index@,
                header as nat,
                ordinal as nat,
                l as nat,
                (SCAN_WINDOW - scanned) as nat,
            ),
        decreases count - l,
    {
        if let Some(record) = index.get(l) {
            if record.header_line != header {
                return ranges;
            }
            if let Some(range) = locate_field(&record.content, l, ordinal) {
                ranges.push(range);
            }
        }
        l = l + 1;
        scanned = scanned + 1;
        assert(all =~= ranges.deep_view() + record_spans(
            index@,
            header as nat,
            ordinal as nat,
            l as nat,
            (SCAN_WINDOW - scanned) as nat,
        ));
    }
    proof {
        if scanned < SCAN_WINDOW {
            lemma_scan_past_end(
                index@,
                header as nat,
                ordinal as nat,
                l as nat,
                (SCAN_WINDOW - scanned) as nat,
            );
        }
    }
    ranges
}

/// Answers a highlight request: the ranges of the field under the cursor on
/// the other lines of the cursor's record, in ascending order of their
/// lines, or nothing. Any line number and any cursor position are accepted.
pub fn highlight(index: &LineIndex, line: usize, character: usize) -> (result: Option<
    Vec<HighlightRange>,
>)
    ensures
        result.deep_view() == highlights(index@, line as nat, character as nat),
        !index@.contains_key(line as nat) ==> result is None,
        index@.contains_key(line as nat) && is_on_delimiter(
            index@[line as nat].content,
            character as nat,
        ) ==> result is None,
{
    let record = match index.get(line) {
        Some(record) => record,
        None => {
            return None;
        },
    };
    if character < record.content.len() && record.content[character] == DELIMITER {
        return None;
    }
    let ordinal: usize = ordinal_at(&record.content, character);
    let ranges: Vec<HighlightRange> = if record.header_line == line {
        scan_record(index, line, ordinal)
    } else {
        let mut single: Vec<HighlightRange> = Vec::new();
        if let Some(header) = index.get(record.header_line) {
            if let Some(range) = locate_field(&header.content, record.header_line, ordinal) {
                single.push(range);
            }
        }
        single
    };
    if ranges.len() == 0 {
        None
    } else {
        Some(ranges)
    }
}

} // verus!
