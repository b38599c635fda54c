//! Fields of one line: counting delimiters and finding the bounds of the
//! field with a given ordinal.

use crate::text::DELIMITER;
use vstd::prelude::*;

verus! {

/// A stretch of characters on one line, as a mathematical value.
pub struct FieldSpan {
    pub line: nat,
    /// The position of the first character of the stretch.
    pub start: nat,
    /// The position just behind the last character of the stretch.
    pub end: nat,
}

/// A stretch of characters on one line: the characters at the positions
/// from `start` up to, and without, `end`.
#[derive(Clone, Copy, Debug, PartialEq, Eq)]
pub struct HighlightRange {
    pub line: usize,
    pub start: usize,
    pub end: usize,
}

impl View for HighlightRange {
    type V = FieldSpan;

    open spec fn view(&self) -> FieldSpan {
        FieldSpan { line: self.line as nat, start: self.start as nat, end: self.end as nat }
    }
}

impl DeepView for HighlightRange {
    type V = FieldSpan;

    open spec fn deep_view(&self) -> FieldSpan {
        self@
    }
}

/// The number of delimiters in `s`.
pub open spec fn delimiter_count(s: Seq<char>) -> nat
    decreases s.len(),
{
    if s.len() == 0 {
        0
    } else if s.last() == DELIMITER {
        delimiter_count(s.drop_last()) + 1
    } else {
        delimiter_count(s.drop_last())
    }
}

/// The ordinal of the field that holds the position `pos` of `content`: the
/// number of delimiters strictly before `pos`. A position behind the end of
/// the line has all the delimiters of the line before it.
pub open spec fn field_ordinal(content: Seq<char>, pos: nat) -> nat {
    if pos < content.len() {
        delimiter_count(content.take(pos as int))
    } else {
        delimiter_count(content)
    }
}

/// Position `p` of `content` holds the delimiter that has exactly `k`
/// delimiters before it.
pub open spec fn is_delimiter_at(content: Seq<char>, k: nat, p: int) -> bool {
    &&& 0 <= p < content.len()
    &&& content[p] == DELIMITER
    &&& delimiter_count(content.take(p)) == k
}

/// The position of the delimiter of `content` that has `k` delimiters before
/// it. It exists where `k < delimiter_count(content)`.
pub open spec fn delimiter_position(content: Seq<char>, k: nat) -> int {
    choose|p: int| is_delimiter_at(content, k, p)
}

/// The field of `content` with the given ordinal, reported on `line`: it
/// begins behind the delimiter that closes the field before it, or at the
/// start of the line, and ends at its own closing delimiter. A line with no
/// more than `ordinal` delimiters has no such field.
pub open spec fn field_span(content: Seq<char>, line: nat, ordinal: nat) -> Option<FieldSpan> {
    if ordinal < delimiter_count(content) {
        Some(
            FieldSpan {
                line,
                start: if ordinal == 0 {
                    0
                } else {
                    (delimiter_position(content, (ordinal - 1) as nat) + 1) as nat
                },
                end: delimiter_position(content, ordinal) as nat,
            },
        )
    } else {
        None
    }
}

/// One more character adds one to the count if it is a delimiter.
pub proof fn lemma_count_step(s: Seq<char>, i: int)
    requires
        0 <= i < s.len(),
    ensures
        delimiter_count(s.take(i + 1)) == delimiter_count(s.take(i)) + if s[i] == DELIMITER {
            1nat
        } else {
            0nat
        },
{
    assert(s.take(i + 1).drop_last() =~= s.take(i));
}

/// A longer prefix holds at least as many delimiters.
pub proof fn lemma_count_monotone(s: Seq<char>, i: int, j: int)
    requires
        0 <= i <= j <= s.len(),
    ensures
        delimiter_count(s.take(i)) <= delimiter_count(s.take(j)) <= delimiter_count(s),
    decreases s.len() - i,
{
    assert(s.take(s.len() as int) =~= s);
    if i < j {
        lemma_count_step(s, i);
        lemma_count_monotone(s, i + 1, j);
    } else if j < s.len() {
        lemma_count_step(s, j);
        lemma_count_monotone(s, j + 1, j + 1);
    }
}

/// At most one position holds the delimiter with `k` delimiters before it.
pub proof fn lemma_delimiter_unique(content: Seq<char>, k: nat, p: int, q: int)
    requires
        is_delimiter_at(content, k, p),
        is_delimiter_at(content, k, q),
    ensures
        p == q,
{
    if p < q {
        lemma_count_step(content, p);
        lemma_count_monotone(content, p + 1, q);
    } else if q < p {
        lemma_count_step(content, q);
        lemma_count_monotone(content, q + 1, p);
    }
}

/// A position that holds the delimiter with `k` delimiters before it is the
/// one that `delimiter_position` names, and the line has more than `k`
/// delimiters.
pub proof fn lemma_delimiter_found(content: Seq<char>, k: nat, p: int)
    requires
        is_delimiter_at(content, k, p),
    ensures
        delimiter_position(content, k) == p,
        k < delimiter_count(content),
{
    lemma_delimiter_unique(content, k, p, delimiter_position(content, k));
    lemma_count_step(content, p);
    lemma_count_monotone(content, p + 1, p + 1);
}

/// Every ordinal below the count of delimiters has its delimiter.
pub proof fn lemma_delimiter_exists(content: Seq<char>, k: nat)
    requires
        k < delimiter_count(content),
    ensures
        is_delimiter_at(content, k, delimiter_position(content, k)),
    decreases content.len(),
{
    let shorter = content.drop_last();
    let last = content.len() - 1;
    if content.last() == DELIMITER && delimiter_count(shorter) == k {
        assert(is_delimiter_at(content, k, last));
    } else {
        lemma_delimiter_exists(shorter, k);
        let p = delimiter_position(shorter, k);
        assert(content.take(p) =~= shorter.take(p));
        assert(is_delimiter_at(content, k, p));
    }
}

/// The positions from `start` up to `end` are exactly the field of `content`
/// with the given ordinal: `ordinal` delimiters stand before `start`, the
/// field begins at the start of the line or directly behind a delimiter, it
/// holds no delimiter, and the delimiter that closes it stands at `end`.
pub open spec fn is_whole_field(content: Seq<char>, ordinal: nat, start: nat, end: nat) -> bool {
    &&& start <= end < content.len()
    &&& delimiter_count(content.take(start as int)) == ordinal
    &&& start == 0 || content[start - 1] == DELIMITER
    &&& forall|i: int| start <= i < end ==> content[i] != DELIMITER
    &&& content[end as int] == DELIMITER
}

/// A line has the field with a given ordinal exactly if it has more
/// delimiters than that, and the span of a field is the whole field: nothing
/// short of its closing delimiter and nothing beyond it.
pub proof fn lemma_field_span_is_whole(content: Seq<char>, line: nat, ordinal: nat)
    ensures
        field_span(content, line, ordinal) is Some <==> ordinal < delimiter_count(content),
        field_span(content, line, ordinal) matches Some(span) ==> span.line == line
            && is_whole_field(content, ordinal, span.start, span.end),
{
    if ordinal < delimiter_count(content) {
        let span = field_span(content, line, ordinal)->0;
        lemma_delimiter_exists(content, ordinal);
        let end = delimiter_position(content, ordinal);
        if ordinal == 0 {
        } else {
            lemma_delimiter_exists(content, (ordinal - 1) as nat);
            let before = delimiter_position(content, (ordinal - 1) as nat);
            lemma_count_step(content, before);
            if end <= before {
                lemma_count_monotone(content, end, before);
            }
        }
        assert forall|i: int| span.start <= i < end implies content[i] != DELIMITER by {
            if content[i] == DELIMITER {
                lemma_count_monotone(content, span.start as int, i);
                lemma_count_step(content, i);
                lemma_count_monotone(content, i + 1, end);
            }
        }
    }
}

/// Counts the delimiters strictly before the position `pos` of `content`.
pub fn ordinal_at(content: &Vec<char>, pos: usize) -> (ordinal: usize)
    ensures
        ordinal == field_ordinal(content@, pos as nat),
{
    let end: usize = if pos < content.len() {
        pos
    } else {
        content.len()
    };
    let mut count: usize = 0;
    let mut i: usize = 0;
    while i < end
        invariant
            i <= end <= content@.len(),
            count <= i,
            count == delimiter_count(content@.take(i as int)),
        decreases end - i,
    {
        proof {
            lemma_count_step(content@, i as int);
        }
        if content[i] == DELIMITER {
            count = count + 1;
        }
        i = i + 1;
    }
    proof {
        assert(content@.take(content@.len() as int) =~= content@);
    }
    count
}

/// Finds the field of `content` with the given ordinal and reports it on
/// `line`; `None` where the line has no more than `ordinal` delimiters.
pub fn locate_field(content: &Vec<char>, line: usize, ordinal: usize) -> (found: Option<
    HighlightRange,
>)
    ensures
        found.deep_view() == field_span(content@, line as nat, ordinal as nat),
        found is Some <==> ordinal < delimiter_count(content@),
        found matches Some(range) ==> range.line == line && is_whole_field(
            content@,
            ordinal as nat,
            range.start as nat,
            range.end as nat,
        ),
{
    let mut seen: usize = 0;
    let mut start: usize = 0;
    let mut i: usize = 0;
    while i < content.len()
        invariant
            i <= content@.len(),
            start <= i,
            seen <= ordinal,
            seen == delimiter_count(content@.take(i as int)),
            seen == 0 ==> start == 0,
            seen > 0 ==> start > 0 && is_delimiter_at(content@, (seen - 1) as nat, start - 1),
        decreases content@.len() - i,
    {
        proof {
            lemma_count_step(content@, i as int);
        }
        if content[i] == DELIMITER {
            if seen == ordinal {
                proof {
                    lemma_delimiter_found(content@, ordinal as nat, i as int);
                    if ordinal > 0 {
                        lemma_delimiter_found(content@, (ordinal - 1) as nat, start - 1);
                    }
                    lemma_field_span_is_whole(content@, line as nat, ordinal as nat);
                }
                return Some(HighlightRange { line, start, end: i });
            }
            seen = seen + 1;
            start = i + 1;
        }
        i = i + 1;
    }
    proof {
        assert(content@.take(content@.len() as int) =~= content@);
    }
    None
}

} // verus!
