//! The character-level grammar of a line: delimiters, comment markers,
//! leading white space and the action keywords that open a record.

use vstd::prelude::*;

verus! {

/// The character that ends every field of a line.
pub const DELIMITER: char = ';';

/// The character that, first on a line after white space, makes it a comment.
pub const COMMENT_MARKER: char = '#';

/// The character that ends a line of a document.
pub const LINE_FEED: char = '\n';

/// The character that, directly before a line feed, belongs to the line end.
pub const CARRIAGE_RETURN: char = '\r';

/// The number of action keywords.
pub const KEYWORD_COUNT: usize = 5;

/// The characters that carry the Unicode property `White_Space`.
pub open spec fn is_space(c: char) -> bool {
    let u = c as u32;
    ||| 0x09 <= u <= 0x0D
    ||| u == 0x20
    ||| u == 0x85
    ||| u == 0xA0
    ||| u == 0x1680
    ||| 0x2000 <= u <= 0x200A
    ||| u == 0x2028
    ||| u == 0x2029
    ||| u == 0x202F
    ||| u == 0x205F
    ||| u == 0x3000
}

/// Tells whether `c` is white space.
pub fn is_whitespace(c: char) -> (b: bool)
    ensures
        b == is_space(c),
{
    let u: u32 = c as u32;
    (0x09 <= u && u <= 0x0D) || u == 0x20 || u == 0x85 || u == 0xA0 || u == 0x1680 || (0x2000 <= u
        && u <= 0x200A) || u == 0x2028 || u == 0x2029 || u == 0x202F || u == 0x205F || u == 0x3000
}

/// The action keywords. A line that begins with one of them, after white
/// space, opens a record.
pub open spec fn keyword(k: int) -> Seq<char> {
    if k == 0 {
        "INSERT_UPDATE"@
    } else if k == 1 {
        "INSERT"@
    } else if k == 2 {
        "UPDATE"@
    } else if k == 3 {
        "DELETE"@
    } else {
        "REMOVE"@
    }
}

/// The number of white space characters that `s` begins with.
pub open spec fn leading_spaces(s: Seq<char>) -> nat
    decreases s.len(),
{
    if s.len() > 0 && is_space(s[0]) {
        1 + leading_spaces(s.drop_first())
    } else {
        0
    }
}

/// `s` without the white space that it begins with.
pub open spec fn trimmed(s: Seq<char>) -> Seq<char> {
    s.skip(leading_spaces(s) as int)
}

/// The first character of `s` behind its leading white space is the comment
/// marker.
pub open spec fn is_comment(s: Seq<char>) -> bool {
    trimmed(s).len() > 0 && trimmed(s)[0] == COMMENT_MARKER
}

/// `s` begins with one of the action keywords.
pub open spec fn starts_with_keyword(s: Seq<char>) -> bool {
    exists|k: int| 0 <= k < KEYWORD_COUNT && #[trigger] keyword(k).is_prefix_of(s)
}

/// `s` begins, behind its leading white space, with an action keyword.
pub open spec fn is_header(s: Seq<char>) -> bool {
    starts_with_keyword(trimmed(s))
}

/// The position of the first line feed of `s`; the length of `s` if it has
/// none.
pub open spec fn line_break(s: Seq<char>) -> nat
    decreases s.len(),
{
    if s.len() == 0 || s[0] == LINE_FEED {
        0
    } else {
        1 + line_break(s.drop_first())
    }
}

/// `s` without the carriage return that it ends with, if it ends with one.
pub open spec fn without_line_end(s: Seq<char>) -> Seq<char> {
    if s.len() > 0 && s.last() == CARRIAGE_RETURN {
        s.drop_last()
    } else {
        s
    }
}

/// The lines of a text. A line feed ends a line, and a carriage return
/// directly before it belongs to the line end. What follows the last line
/// feed is a line of its own unless it is empty, and keeps a carriage return
/// at its end.
pub open spec fn lines_of(text: Seq<char>) -> Seq<Seq<char>>
    decreases text.len(),
{
    if text.len() == 0 {
        Seq::empty()
    } else {
        let n = line_break(text);
        if n < text.len() {
            seq![without_line_end(text.take(n as int))] + lines_of(text.skip(n as int + 1))
        } else {
            seq![text]
        }
    }
}

/// Where the first `n` characters of `s` are white space and the next one,
/// if there is one, is not, `s` begins with exactly `n` of them.
pub proof fn lemma_leading_spaces(s: Seq<char>, n: int)
    requires
        0 <= n <= s.len(),
        forall|j: int| 0 <= j < n ==> is_space(#[trigger] s[j]),
        n < s.len() ==> !is_space(s[n]),
    ensures
        leading_spaces(s) == n,
    decreases n,
{
    if n > 0 {
        lemma_leading_spaces(s.drop_first(), n - 1);
    }
}

/// Where the first `n` characters of `s` hold no line feed and the next
/// one, if there is one, is a line feed, the first line break of `s` is at
/// `n`.
pub proof fn lemma_line_break(s: Seq<char>, n: int)
    requires
        0 <= n <= s.len(),
        forall|j: int| 0 <= j < n ==> #[trigger] s[j] != LINE_FEED,
        n < s.len() ==> s[n] == LINE_FEED,
    ensures
        line_break(s) == n,
    decreases n,
{
    if n > 0 {
        lemma_line_break(s.drop_first(), n - 1);
    }
}

/// The action keyword with the number `k`.
fn keyword_text(k: usize) -> (word: &'static str)
    requires
        k < KEYWORD_COUNT,
    ensures
        word@ == keyword(k as int),
{
    if k == 0 {
        "INSERT_UPDATE"
    } else if k == 1 {
        "INSERT"
    } else if k == 2 {
        "UPDATE"
    } else if k == 3 {
        "DELETE"
    } else {
        "REMOVE"
    }
}

/// The action keywords, in the order of their numbers.
pub fn keywords() -> (words: Vec<&'static str>)
    ensures
        words@.len() == KEYWORD_COUNT,
        forall|k: int| 0 <= k < KEYWORD_COUNT ==> (#[trigger] words@[k])@ == keyword(k),
{
    let mut words: Vec<&'static str> = Vec::new();
    let mut k: usize = 0;
    while k < KEYWORD_COUNT
        invariant
            k <= KEYWORD_COUNT,
            words@.len() == k,
            forall|j: int| 0 <= j < k ==> (#[trigger] words@[j])@ == keyword(j),
        decreases KEYWORD_COUNT - k,
    {
        words.push(keyword_text(k));
        k = k + 1;
    }
    words
}

/// Tells whether `s` holds a delimiter.
pub fn has_delimiter(s: &Vec<char>) -> (b: bool)
    ensures
        b == s@.contains(DELIMITER),
{
    let mut i: usize = 0;
    while i < s.len()
        invariant
            i <= s@.len(),
            forall|j: int| 0 <= j < i ==> s@[j] != DELIMITER,
        decreases s@.len() - i,
    {
        if s[i] == DELIMITER {
            return true;
        }
        i = i + 1;
    }
    false
}

/// Counts the white space characters that `s` begins with.
pub fn skip_spaces(s: &Vec<char>) -> (n: usize)
    ensures
        n == leading_spaces(s@),
        n <= s@.len(),
{
    let mut n: usize = 0;
    while n < s.len() && is_whitespace(s[n])
        invariant
            n <= s@.len(),
            forall|j: int| 0 <= j < n ==> is_space(#[trigger] s@[j]),
        decreases s@.len() - n,
    {
        n = n + 1;
    }
    proof {
        lemma_leading_spaces(s@, n as int);
    }
    n
}

/// Tells whether `word` stands in `s` at the position `from`.
fn has_word_at(s: &Vec<char>, from: usize, word: &str) -> (b: bool)
    requires
        from <= s@.len(),
    ensures
        b == word@.is_prefix_of(s@.skip(from as int)),
{
    let mut i: usize = from;
    for c in it: word.chars()
        invariant
            it.seq() == word@,
            from <= s@.len(),
            i == from + it.index(),
            i <= s@.len(),
            forall|j: int| 0 <= j < it.index() ==> s@[from + j] == word@[j],
    {
        if i >= s.len() || s[i] != c {
            assert(!word@.is_prefix_of(s@.skip(from as int))) by {
                if word@.is_prefix_of(s@.skip(from as int)) {
                    let j = i - from;
                    assert(word@[j] == s@.skip(from as int).subrange(0, word@.len() as int)[j]);
                }
            }
            return false;
        }
        i = i + 1;
    }
    true
}

/// Tells whether `s` is a comment: whether its first character behind the
/// leading white space is the comment marker.
pub fn line_is_comment(s: &Vec<char>) -> (b: bool)
    ensures
        b == is_comment(s@),
{
    let n: usize = skip_spaces(s);
    n < s.len() && s[n] == COMMENT_MARKER
}

/// Tells whether `s` begins, behind its leading white space, with an action
/// keyword.
pub fn line_is_header(s: &Vec<char>) -> (b: bool)
    ensures
        b == is_header(s@),
{
    let n: usize = skip_spaces(s);
    let mut k: usize = 0;
    while k < KEYWORD_COUNT
        invariant
            k <= KEYWORD_COUNT,
            n == leading_spaces(s@),
            n <= s@.len(),
            forall|j: int| 0 <= j < k ==> !(#[trigger] keyword(j)).is_prefix_of(trimmed(s@)),
        decreases KEYWORD_COUNT - k,
    {
        if has_word_at(s, n, keyword_text(k)) {
            return true;
        }
        k = k + 1;
    }
    false
}

/// Splits a text into its lines.
pub fn split_lines(text: &str) -> (lines: Vec<Vec<char>>)
    ensures
        lines.deep_view() == lines_of(text@),
{
    let mut lines: Vec<Vec<char>> = Vec::new();
    let mut current: Vec<char> = Vec::new();
    let ghost mut start: int = 0;
    assert(text@.skip(0) =~= text@);
    for c in it: text.chars()
        invariant
            it.seq() == text@,
            0 <= start <= it.index(),
            current@ == text@.subrange(start, it.index() as int),
            forall|j: int| start <= j < it.index() ==> text@[j] != LINE_FEED,
            lines_of(text@) == lines.deep_view() + lines_of(text@.skip(start)),
    {
        let ghost i = it.index() as int;
        if c == LINE_FEED {
            let ghost rest = text@.skip(start);
            proof {
                lemma_line_break(rest, i - start);
                assert(rest.skip(i - start + 1) =~= text@.skip(i + 1));
            }
            let n: usize = current.len();
            if n > 0 && current[n - 1] == CARRIAGE_RETURN {
                current.pop();
            }
            assert(current@ =~= without_line_end(rest.take(i - start)));
            assert(current.deep_view() =~= current@);
            lines.push(current);
            current = Vec::new();
            proof {
                start = i + 1;
            }
        } else {
            current.push(c);
        }
    }
    if current.len() > 0 {
        proof {
            lemma_line_break(text@.skip(start), text@.len() - start);
            assert(current.deep_view() =~= current@);
        }
        lines.push(current);
    }
    lines
}

} // verus!
