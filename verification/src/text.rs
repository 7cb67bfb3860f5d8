//! Text as a sequence of characters: white space, lines and how lines are
//! put together again.
//!
//! A text is split at every line feed. A carriage return directly before a
//! line feed belongs to the line ending; any other carriage return is part of
//! its line. What follows the last line feed is a line of its own unless it is
//! empty. Lines are joined with a single line feed between them, whatever
//! ending they had before.

use vstd::prelude::*;
use vstd::std_specs::iter::IteratorSpec;

verus! {

/// `String::push` appends the character to the end of the string.
pub assume_specification[ String::push ](s: &mut String, ch: char)
    ensures
        final(s)@ == old(s)@.push(ch),
;

/// Whether `c` has the Unicode property `White_Space`.
pub open spec fn is_whitespace(c: char) -> bool {
    let n = c as u32;
    ||| 0x09 <= n <= 0x0D
    ||| n == 0x20
    ||| n == 0x85
    ||| n == 0xA0
    ||| n == 0x1680
    ||| 0x2000 <= n <= 0x200A
    ||| n == 0x2028
    ||| n == 0x2029
    ||| n == 0x202F
    ||| n == 0x205F
    ||| n == 0x3000
}

/// `line` without its leading white space.
pub open spec fn trim_start(line: Seq<char>) -> Seq<char>
    decreases line.len(),
{
    if line.len() > 0 && is_whitespace(line[0]) {
        trim_start(line.drop_first())
    } else {
        line
    }
}

/// The index of the first line feed in `text`, or the length of `text` if it
/// holds none.
pub open spec fn first_line_feed(text: Seq<char>) -> nat
    decreases text.len(),
{
    if text.len() == 0 || text[0] == '\n' {
        0
    } else {
        1 + first_line_feed(text.drop_first())
    }
}

/// `line` without one carriage return at its end, if it has one there.
pub open spec fn strip_carriage_return(line: Seq<char>) -> Seq<char> {
    if line.len() > 0 && line.last() == '\r' {
        line.drop_last()
    } else {
        line
    }
}

/// The lines of `text`, without their endings.
pub open spec fn split_lines(text: Seq<char>) -> Seq<Seq<char>>
    decreases text.len(),
{
    if text.len() == 0 {
        Seq::empty()
    } else {
        let end = first_line_feed(text);
        if end >= text.len() {
            seq![text]
        } else {
            seq![strip_carriage_return(text.take(end as int))] + split_lines(
                text.skip(end as int + 1),
            )
        }
    }
}

/// The lines with one line feed between each two of them.
pub open spec fn join_lines(lines: Seq<Seq<char>>) -> Seq<char>
    decreases lines.len(),
{
    if lines.len() == 0 {
        Seq::empty()
    } else if lines.len() == 1 {
        lines[0]
    } else {
        lines[0] + seq!['\n'] + join_lines(lines.drop_first())
    }
}

/// What each of `lines` holds.
pub open spec fn line_views(lines: Seq<Vec<char>>) -> Seq<Seq<char>> {
    Seq::new(lines.len(), |i: int| lines[i]@)
}

/// `first_line_feed` is within the text, no line feed stands before it, and
/// one stands at it unless it is the end of the text.
pub proof fn lemma_first_line_feed(text: Seq<char>)
    ensures
        0 <= first_line_feed(text) <= text.len(),
        forall|j: int| 0 <= j < first_line_feed(text) ==> text[j] != '\n',
        first_line_feed(text) < text.len() ==> text[first_line_feed(text) as int] == '\n',
    decreases text.len(),
{
    if text.len() == 0 || text[0] == '\n' {
    } else {
        let rest = text.drop_first();
        lemma_first_line_feed(rest);
        assert forall|j: int| 0 <= j < first_line_feed(text) implies text[j] != '\n' by {
            if j > 0 {
                assert(text[j] == rest[j - 1]);
            }
        }
    }
}

/// An index with the three properties of `lemma_first_line_feed` is the
/// first line feed.
pub proof fn lemma_first_line_feed_is(text: Seq<char>, k: int)
    requires
        0 <= k <= text.len(),
        forall|j: int| 0 <= j < k ==> text[j] != '\n',
        k < text.len() ==> text[k] == '\n',
    ensures
        first_line_feed(text) == k as nat,
    decreases text.len(),
{
    if text.len() == 0 || text[0] == '\n' {
    } else {
        let rest = text.drop_first();
        assert forall|j: int| 0 <= j < k - 1 implies rest[j] != '\n' by {
            assert(rest[j] == text[j + 1]);
        }
        lemma_first_line_feed_is(rest, k - 1);
    }
}

/// Joining one more line to a non-empty list appends a line feed and the line.
pub proof fn lemma_join_lines_push(lines: Seq<Seq<char>>, line: Seq<char>)
    ensures
        join_lines(lines.push(line)) == if lines.len() == 0 {
            line
        } else {
            join_lines(lines) + seq!['\n'] + line
        },
    decreases lines.len(),
{
    let all = lines.push(line);
    if lines.len() == 0 {
        assert(all[0] == line);
    } else {
        let rest = lines.drop_first();
        assert(all.drop_first() =~= rest.push(line));
        lemma_join_lines_push(rest, line);
        assert(all[0] == lines[0]);
        if rest.len() == 0 {
            assert(join_lines(all) =~= join_lines(lines) + seq!['\n'] + line);
        } else {
            assert(join_lines(all) =~= join_lines(lines) + seq!['\n'] + line);
        }
    }
}

/// Whether `c` is white space.
pub fn is_whitespace_char(c: char) -> (b: bool)
    ensures
        b == is_whitespace(c),
{
    let n: u32 = c as u32;
    (0x09 <= n && n <= 0x0D) || n == 0x20 || n == 0x85 || n == 0xA0 || n == 0x1680 || (0x2000 <= n
        && n <= 0x200A) || n == 0x2028 || n == 0x2029 || n == 0x202F || n == 0x205F || n == 0x3000
}

/// The characters of `text`, in order.
pub fn chars_of(text: &str) -> (chars: Vec<char>)
    ensures
        chars@ == text@,
{
    let mut chars: Vec<char> = Vec::new();
    for c in it: text.chars()
        invariant
            chars@ == it.seq().take(it.index() as int),
            it.seq() == text@,
    {
        chars.push(c);
    }
    chars
}

/// Whether two vectors hold the same characters.
pub fn same_chars(a: &Vec<char>, b: &Vec<char>) -> (same: bool)
    ensures
        same == (a@ == b@),
{
    if a.len() != b.len() {
        return false;
    }
    let mut i: usize = 0;
    while i < a.len()
        invariant
            i <= a.len(),
            a.len() == b.len(),
            a@.take(i as int) == b@.take(i as int),
        decreases a.len() - i,
    {
        if a[i] != b[i] {
            return false;
        }
        assert(a@.take(i + 1) =~= a@.take(i as int).push(a@[i as int]));
        assert(b@.take(i + 1) =~= b@.take(i as int).push(b@[i as int]));
        i += 1;
    }
    assert(a@ =~= a@.take(a.len() as int));
    assert(b@ =~= b@.take(b.len() as int));
    true
}

/// Splits `text` into its lines.
pub fn lines_of(text: &Vec<char>) -> (lines: Vec<Vec<char>>)
    ensures
        line_views(lines@) == split_lines(text@),
{
    let mut lines: Vec<Vec<char>> = Vec::new();
    let mut current: Vec<char> = Vec::new();
    let mut start: usize = 0;
    let mut i: usize = 0;
    assert(line_views(lines@) =~= Seq::<Seq<char>>::empty());
    assert(text@.skip(0) =~= text@);
    while i < text.len()
        invariant
            start <= i <= text.len(),
            current@ == text@.subrange(start as int, i as int),
            forall|j: int| start <= j < i ==> text@[j] != '\n',
            split_lines(text@) == line_views(lines@) + split_lines(text@.skip(start as int)),
        decreases text.len() - i,
    {
        let c = text[i];
        if c == '\n' {
            let ghost rest = text@.skip(start as int);
            let ghost done = line_views(lines@);
            let ghost whole = current@;
            proof {
                assert forall|j: int| 0 <= j < i - start implies rest[j] != '\n' by {
                    assert(rest[j] == text@[start + j]);
                }
                lemma_first_line_feed_is(rest, i - start);
                assert(rest.take(i - start) =~= whole);
                assert(rest.skip(i - start + 1) =~= text@.skip(i + 1));
            }
            let n = current.len();
            if n > 0 && current[n - 1] == '\r' {
                current.pop();
            }
            assert(current@ =~= strip_carriage_return(whole));
            lines.push(current);
            assert(line_views(lines@) =~= done.push(strip_carriage_return(whole)));
            current = Vec::new();
            start = i + 1;
            assert(current@ =~= text@.subrange(start as int, i + 1));
        } else {
            current.push(c);
            assert(current@ =~= text@.subrange(start as int, i + 1));
        }
        i += 1;
    }
    let ghost rest = text@.skip(start as int);
    proof {
        assert(rest =~= current@);
        assert forall|j: int| 0 <= j < rest.len() implies rest[j] != '\n' by {
            assert(rest[j] == text@[start + j]);
        }
        lemma_first_line_feed_is(rest, rest.len() as int);
    }
    if current.len() > 0 {
        let ghost done = line_views(lines@);
        lines.push(current);
        assert(line_views(lines@) =~= done.push(rest));
        assert(split_lines(rest) =~= seq![rest]);
    } else {
        assert(line_views(lines@) + split_lines(rest) =~= line_views(lines@));
    }
    lines
}

/// Joins `lines` with one line feed between each two of them.
pub fn joined(lines: &Vec<Vec<char>>) -> (text: String)
    ensures
        text@ == join_lines(line_views(lines@)),
{
    let mut text = String::new();
    let mut i: usize = 0;
    assert(line_views(lines@).take(0) =~= Seq::<Seq<char>>::empty());
    while i < lines.len()
        invariant
            i <= lines.len(),
            text@ == join_lines(line_views(lines@).take(i as int)),
        decreases lines.len() - i,
    {
        let ghost before = text@;
        if i > 0 {
            text.push('\n');
        }
        let line = &lines[i];
        let ghost head = text@;
        let mut k: usize = 0;
        while k < line.len()
            invariant
                k <= line.len(),
                text@ == head + line@.take(k as int),
            decreases line.len() - k,
        {
            text.push(line[k]);
            assert(line@.take(k + 1) =~= line@.take(k as int).push(line@[k as int]));
            k += 1;
        }
        proof {
            assert(line@.take(line.len() as int) =~= line@);
            let done = line_views(lines@).take(i as int);
            assert(line_views(lines@).take(i + 1) =~= done.push(line@));
            lemma_join_lines_push(done, line@);
            if i > 0 {
                assert(head =~= before + seq!['\n']);
            } else {
                assert(head =~= Seq::<char>::empty());
                assert(text@ =~= line@);
            }
        }
        i += 1;
    }
    assert(line_views(lines@).take(lines.len() as int) =~= line_views(lines@));
    text
}

} // verus!
