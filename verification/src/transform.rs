//! The transform engine: rewriting the spindle-speed command of one file.
//!
//! The first line whose text, after leading white space, starts with `S` is
//! the spindle-speed command. It is replaced as a whole by the command for
//! the target speed; every other line passes through as it is, also a later
//! line that starts with `S`. The lines are then joined with line feeds.

use vstd::prelude::*;
use crate::error::SpindleSpeedUpdaterError;
use crate::speed::{command_line, decimal, is_digit, spindle_command};
use crate::text::{
    chars_of, first_line_feed, is_whitespace, is_whitespace_char, join_lines, joined,
    lemma_first_line_feed, lemma_first_line_feed_is, line_views, lines_of, same_chars,
    split_lines, strip_carriage_return, trim_start,
};

verus! {

/// Whether `line` is a spindle-speed command: its first character that is
/// not white space is `S`.
pub open spec fn is_spindle_line(line: Seq<char>) -> bool {
    let trimmed = trim_start(line);
    trimmed.len() > 0 && trimmed[0] == 'S'
}

/// The index of the first spindle-speed command among `lines`, or the number
/// of lines if there is none.
pub open spec fn first_spindle_line(lines: Seq<Seq<char>>) -> nat
    decreases lines.len(),
{
    if lines.len() == 0 || is_spindle_line(lines[0]) {
        0
    } else {
        1 + first_spindle_line(lines.drop_first())
    }
}

/// Whether one of `lines` is a spindle-speed command.
pub open spec fn has_spindle_line(lines: Seq<Seq<char>>) -> bool {
    first_spindle_line(lines) < lines.len()
}

/// `lines` with the first spindle-speed command replaced by the command for
/// `speed`.
pub open spec fn rewritten_lines(lines: Seq<Seq<char>>, speed: u32) -> Seq<Seq<char>> {
    lines.update(first_spindle_line(lines) as int, spindle_command(speed))
}

/// Whether `content` holds a spindle-speed command.
pub open spec fn has_spindle_command(content: Seq<char>) -> bool {
    has_spindle_line(split_lines(content))
}

/// The text that `content` becomes when its spindle-speed command is set to
/// `speed`.
pub open spec fn transformed_content(content: Seq<char>, speed: u32) -> Seq<char> {
    join_lines(rewritten_lines(split_lines(content), speed))
}

/// Whether setting the spindle-speed command of `content` to `speed` replaces
/// the command line by a different text.
pub open spec fn is_changed(content: Seq<char>, speed: u32) -> bool {
    let lines = split_lines(content);
    lines[first_spindle_line(lines) as int] != spindle_command(speed)
}

/// The result of a transform: the new text, and whether the command line had
/// to be replaced by a different one.
#[derive(Debug)]
pub struct Transformed {
    pub content: String,
    pub changed: bool,
}

/// `first_spindle_line` is at most the number of lines, no line before it is
/// a spindle-speed command, and the line at it is one unless there is none.
pub proof fn lemma_first_spindle_line(lines: Seq<Seq<char>>)
    ensures
        first_spindle_line(lines) <= lines.len(),
        forall|j: int| 0 <= j < first_spindle_line(lines) ==> !is_spindle_line(#[trigger] lines[j]),
        first_spindle_line(lines) < lines.len() ==> is_spindle_line(
            lines[first_spindle_line(lines) as int],
        ),
    decreases lines.len(),
{
    if lines.len() == 0 || is_spindle_line(lines[0]) {
    } else {
        let rest = lines.drop_first();
        lemma_first_spindle_line(rest);
        assert forall|j: int| 0 <= j < first_spindle_line(lines) implies !is_spindle_line(
            #[trigger] lines[j],
        ) by {
            if j > 0 {
                assert(lines[j] == rest[j - 1]);
            }
        }
    }
}

/// An index with the three properties of `lemma_first_spindle_line` is the
/// first spindle-speed command.
pub proof fn lemma_first_spindle_line_is(lines: Seq<Seq<char>>, k: int)
    requires
        0 <= k <= lines.len(),
        forall|j: int| 0 <= j < k ==> !is_spindle_line(#[trigger] lines[j]),
        k < lines.len() ==> is_spindle_line(lines[k]),
    ensures
        first_spindle_line(lines) == k as nat,
    decreases lines.len(),
{
    if lines.len() == 0 {
    } else if is_spindle_line(lines[0]) {
        if k > 0 {
            assert(!is_spindle_line(lines[0]));
        }
    } else {
        let rest = lines.drop_first();
        assert forall|j: int| 0 <= j < k - 1 implies !is_spindle_line(#[trigger] rest[j]) by {
            assert(rest[j] == lines[j + 1]);
        }
        lemma_first_spindle_line_is(rest, k - 1);
    }
}

/// Whether none of `lines` holds a line feed.
pub open spec fn free_of_line_feeds(lines: Seq<Seq<char>>) -> bool {
    forall|j: int, k: int|
        0 <= j < lines.len() && 0 <= k < lines[j].len() ==> #[trigger] lines[j][k] != '\n'
}

/// Whether `lines` come back unchanged when they are joined and split again:
/// none but the last ends in a carriage return, which would be taken for a
/// part of the line ending, and the last is not empty, which would make it
/// vanish.
pub open spec fn keeps_its_lines(lines: Seq<Seq<char>>) -> bool {
    &&& lines.len() > 0 ==> lines.last().len() > 0
    &&& forall|j: int|
        0 <= j < lines.len() - 1 ==> strip_carriage_return(#[trigger] lines[j]) == lines[j]
}

/// Every character of a number written in decimal is a digit.
pub proof fn lemma_decimal_is_digits(n: nat)
    ensures
        decimal(n).len() > 0,
        forall|k: int| 0 <= k < decimal(n).len() ==> is_digit(#[trigger] decimal(n)[k]),
    decreases n,
{
    if n >= 10 {
        lemma_decimal_is_digits(n / 10);
    }
}

/// The command line for a speed starts with `S`, ends with `3` and holds no
/// line feed, so it is a spindle-speed command that splitting leaves whole.
pub proof fn lemma_spindle_command_shape(speed: u32)
    ensures
        spindle_command(speed).len() >= 5,
        spindle_command(speed)[0] == 'S',
        spindle_command(speed).last() == '3',
        is_spindle_line(spindle_command(speed)),
        strip_carriage_return(spindle_command(speed)) == spindle_command(speed),
        forall|k: int|
            0 <= k < spindle_command(speed).len() ==> #[trigger] spindle_command(speed)[k] != '\n',
{
    let digits = decimal(speed as nat);
    let command = spindle_command(speed);
    lemma_decimal_is_digits(speed as nat);
    assert(command.len() == digits.len() + 4);
    assert(command[0] == 'S');
    assert(!is_whitespace('S'));
    assert forall|k: int| 0 <= k < command.len() implies #[trigger] command[k] != '\n' by {
        if 1 <= k <= digits.len() {
            assert(command[k] == digits[k - 1]);
            assert(is_digit(digits[k - 1]));
        }
    }
}

/// No line of a text holds a line feed.
pub proof fn lemma_split_lines_free_of_line_feeds(text: Seq<char>)
    ensures
        free_of_line_feeds(split_lines(text)),
    decreases text.len(),
{
    if text.len() == 0 {
    } else {
        lemma_first_line_feed(text);
        let end = first_line_feed(text) as int;
        if end >= text.len() {
        } else {
            let rest = split_lines(text.skip(end + 1));
            lemma_split_lines_free_of_line_feeds(text.skip(end + 1));
            let first = strip_carriage_return(text.take(end));
            let lines = split_lines(text);
            assert(lines =~= seq![first] + rest);
            assert forall|j: int, k: int|
                0 <= j < lines.len() && 0 <= k < lines[j].len() implies #[trigger] lines[j][k]
                != '\n' by {
                if j == 0 {
                    assert(first[k] == text[k]);
                } else {
                    assert(lines[j] == rest[j - 1]);
                }
            }
        }
    }
}

/// A line that is no spindle-speed command does not become one by losing a
/// carriage return at its end.
pub proof fn lemma_strip_keeps_other_lines(line: Seq<char>)
    requires
        !is_spindle_line(line),
    ensures
        !is_spindle_line(strip_carriage_return(line)),
    decreases line.len(),
{
    let stripped = strip_carriage_return(line);
    if line.len() == 0 || line.last() != '\r' {
    } else if line.len() == 1 {
    } else if is_whitespace(line[0]) {
        let rest = line.drop_first();
        assert(stripped.drop_first() =~= strip_carriage_return(rest));
        assert(stripped[0] == line[0]);
        lemma_strip_keeps_other_lines(rest);
    } else {
        assert(stripped[0] == line[0]);
    }
}

/// The text of lines that hold no line feed starts with the first line,
/// which ends at the first line feed of the text or at its end.
proof fn lemma_join_lines_head(lines: Seq<Seq<char>>)
    requires
        lines.len() >= 2,
        free_of_line_feeds(lines),
    ensures
        first_line_feed(join_lines(lines)) == lines[0].len(),
        join_lines(lines).len() > lines[0].len(),
        join_lines(lines).take(lines[0].len() as int) == lines[0],
        join_lines(lines).skip(lines[0].len() as int + 1) == join_lines(lines.drop_first()),
        free_of_line_feeds(lines.drop_first()),
{
    let text = join_lines(lines);
    let head = lines[0];
    let tail = join_lines(lines.drop_first());
    assert(text =~= head + seq!['\n'] + tail);
    assert forall|j: int| 0 <= j < head.len() implies text[j] != '\n' by {
        assert(text[j] == lines[0][j]);
    }
    assert(text[head.len() as int] == '\n');
    lemma_first_line_feed_is(text, head.len() as int);
    assert(text.take(head.len() as int) =~= head);
    assert(text.skip(head.len() as int + 1) =~= tail);
    let rest = lines.drop_first();
    assert forall|j: int, k: int|
        0 <= j < rest.len() && 0 <= k < rest[j].len() implies #[trigger] rest[j][k] != '\n' by {
        assert(rest[j] == lines[j + 1]);
        assert(lines[j + 1][k] != '\n');
    }
}

/// A text that is a single line without a line feed splits into that line,
/// or into nothing if the line is empty.
proof fn lemma_split_single_line(line: Seq<char>)
    requires
        forall|k: int| 0 <= k < line.len() ==> #[trigger] line[k] != '\n',
    ensures
        split_lines(line) == if line.len() > 0 {
            seq![line]
        } else {
            Seq::<Seq<char>>::empty()
        },
{
    lemma_first_line_feed_is(line, line.len() as int);
}

/// Lines that keep their shape come back as they are when joined and split.
pub proof fn lemma_split_join(lines: Seq<Seq<char>>)
    requires
        free_of_line_feeds(lines),
        keeps_its_lines(lines),
    ensures
        split_lines(join_lines(lines)) == lines,
    decreases lines.len(),
{
    if lines.len() == 0 {
        assert(split_lines(join_lines(lines)) =~= lines);
    } else if lines.len() == 1 {
        assert forall|k: int| 0 <= k < lines[0].len() implies #[trigger] lines[0][k] != '\n' by {}
        lemma_split_single_line(lines[0]);
        assert(seq![lines[0]] =~= lines);
    } else {
        let rest = lines.drop_first();
        lemma_join_lines_head(lines);
        assert(rest.last() == lines.last());
        assert forall|j: int| 0 <= j < rest.len() - 1 implies strip_carriage_return(
            #[trigger] rest[j],
        ) == rest[j] by {
            assert(rest[j] == lines[j + 1]);
        }
        lemma_split_join(rest);
        assert(strip_carriage_return(lines[0]) == lines[0]);
        assert(split_lines(join_lines(lines)) =~= seq![lines[0]] + rest);
        assert(seq![lines[0]] + rest =~= lines);
    }
}

/// When lines are joined and split again, a command line among them keeps
/// its place and its text, and stays the first spindle-speed command.
proof fn lemma_command_survives(lines: Seq<Seq<char>>, index: int, speed: u32)
    requires
        free_of_line_feeds(lines),
        0 <= index < lines.len(),
        lines[index] == spindle_command(speed),
        forall|j: int| 0 <= j < index ==> !is_spindle_line(#[trigger] lines[j]),
    ensures
        first_spindle_line(split_lines(join_lines(lines))) == index as nat,
        index < split_lines(join_lines(lines)).len(),
        split_lines(join_lines(lines))[index] == spindle_command(speed),
    decreases lines.len(),
{
    lemma_spindle_command_shape(speed);
    let again = split_lines(join_lines(lines));
    if lines.len() == 1 {
        assert forall|k: int| 0 <= k < lines[0].len() implies #[trigger] lines[0][k] != '\n' by {}
        lemma_split_single_line(lines[0]);
        assert(again[0] == lines[0]);
    } else {
        let rest = lines.drop_first();
        lemma_join_lines_head(lines);
        let tail = split_lines(join_lines(rest));
        assert(again =~= seq![strip_carriage_return(lines[0])] + tail);
        if index == 0 {
            assert(again[0] == spindle_command(speed));
        } else {
            assert(rest[index - 1] == lines[index]);
            assert forall|j: int| 0 <= j < index - 1 implies !is_spindle_line(
                #[trigger] rest[j],
            ) by {
                assert(rest[j] == lines[j + 1]);
            }
            lemma_command_survives(rest, index - 1, speed);
            assert(!is_spindle_line(lines[0]));
            lemma_strip_keeps_other_lines(lines[0]);
            assert(again.drop_first() =~= tail);
            assert(again[index] == tail[index - 1]);
        }
    }
}

/// Of the lines of a file, a transform replaces the first spindle-speed
/// command and nothing else: the result is the join of as many lines as the
/// file has, the line at `index` is the command for the target speed, and
/// every line before and after it is the line of the file. This holds in
/// particular when the line at `index` is the only spindle-speed command.
pub proof fn lemma_only_command_line_changes(content: Seq<char>, speed: u32, index: int)
    requires
        0 <= index < split_lines(content).len(),
        is_spindle_line(split_lines(content)[index]),
        forall|j: int| 0 <= j < index ==> !is_spindle_line(#[trigger] split_lines(content)[j]),
    ensures
        has_spindle_command(content),
        transformed_content(content, speed) == join_lines(
            rewritten_lines(split_lines(content), speed),
        ),
        rewritten_lines(split_lines(content), speed).len() == split_lines(content).len(),
        rewritten_lines(split_lines(content), speed)[index] == spindle_command(speed),
        forall|j: int|
            0 <= j < split_lines(content).len() && j != index ==> #[trigger] rewritten_lines(
                split_lines(content),
                speed,
            )[j] == split_lines(content)[j],
{
    lemma_first_spindle_line_is(split_lines(content), index);
}

/// A second transform with the same speed finds the command of the first and
/// has nothing to change: the text that a transform returns holds a
/// spindle-speed command, and it is the command for that speed.
pub proof fn lemma_second_transform_changes_nothing(content: Seq<char>, speed: u32)
    requires
        has_spindle_command(content),
    ensures
        has_spindle_command(transformed_content(content, speed)),
        !is_changed(transformed_content(content, speed), speed),
{
    let lines = split_lines(content);
    let index = first_spindle_line(lines) as int;
    let rewritten = rewritten_lines(lines, speed);
    lemma_first_spindle_line(lines);
    lemma_split_lines_free_of_line_feeds(content);
    lemma_spindle_command_shape(speed);
    assert forall|j: int, k: int|
        0 <= j < rewritten.len() && 0 <= k < rewritten[j].len() implies #[trigger] rewritten[j][k]
        != '\n' by {
        if j != index {
            assert(rewritten[j] == lines[j]);
            assert(lines[j][k] != '\n');
        }
    }
    assert forall|j: int| 0 <= j < index implies !is_spindle_line(#[trigger] rewritten[j]) by {
        assert(rewritten[j] == lines[j]);
    }
    lemma_command_survives(rewritten, index, speed);
}

/// Transforming is idempotent on every text whose rewritten lines keep their
/// shape: a second transform with the same speed returns the text of the
/// first.
pub proof fn lemma_transform_idempotent(content: Seq<char>, speed: u32)
    requires
        has_spindle_command(content),
        keeps_its_lines(rewritten_lines(split_lines(content), speed)),
    ensures
        has_spindle_command(transformed_content(content, speed)),
        !is_changed(transformed_content(content, speed), speed),
        transformed_content(transformed_content(content, speed), speed) == transformed_content(
            content,
            speed,
        ),
{
    let lines = split_lines(content);
    let index = first_spindle_line(lines) as int;
    let rewritten = rewritten_lines(lines, speed);
    lemma_second_transform_changes_nothing(content, speed);
    lemma_first_spindle_line(lines);
    lemma_split_lines_free_of_line_feeds(content);
    lemma_spindle_command_shape(speed);
    assert forall|j: int, k: int|
        0 <= j < rewritten.len() && 0 <= k < rewritten[j].len() implies #[trigger] rewritten[j][k]
        != '\n' by {
        if j != index {
            assert(rewritten[j] == lines[j]);
            assert(lines[j][k] != '\n');
        }
    }
    lemma_split_join(rewritten);
    assert forall|j: int| 0 <= j < index implies !is_spindle_line(#[trigger] rewritten[j]) by {
        assert(rewritten[j] == lines[j]);
    }
    lemma_first_spindle_line_is(rewritten, index);
    assert(rewritten.update(index, spindle_command(speed)) =~= rewritten);
}

/// Splitting a text and joining its lines never makes it longer. For the
/// text of lines without line feeds, the length stays the same only if the
/// lines keep their shape or are one empty line.
proof fn lemma_rejoined_length(lines: Seq<Seq<char>>)
    requires
        free_of_line_feeds(lines),
    ensures
        join_lines(split_lines(join_lines(lines))).len() <= join_lines(lines).len(),
        join_lines(split_lines(join_lines(lines))).len() == join_lines(lines).len()
            ==> keeps_its_lines(lines) || lines == seq![Seq::<char>::empty()],
    decreases lines.len(),
{
    let text = join_lines(lines);
    if lines.len() == 0 {
        assert(split_lines(text) =~= Seq::<Seq<char>>::empty());
    } else if lines.len() == 1 {
        assert forall|k: int| 0 <= k < lines[0].len() implies #[trigger] lines[0][k] != '\n' by {}
        lemma_split_single_line(lines[0]);
        if lines[0].len() == 0 {
            assert(lines[0] =~= Seq::<char>::empty());
            assert(lines =~= seq![lines[0]]);
        }
    } else {
        let rest = lines.drop_first();
        lemma_join_lines_head(lines);
        lemma_rejoined_length(rest);
        let head = strip_carriage_return(lines[0]);
        let tail = split_lines(join_lines(rest));
        let again = split_lines(text);
        assert(again =~= seq![head] + tail);
        assert(again.drop_first() =~= tail);
        assert(text =~= lines[0] + seq!['\n'] + join_lines(rest));
        if tail.len() == 0 {
            assert(join_lines(again) == head);
        } else {
            assert(join_lines(again) =~= head + seq!['\n'] + join_lines(tail));
            if join_lines(again).len() == text.len() {
                assert(head.len() == lines[0].len());
                assert(head == lines[0]);
                if rest =~= seq![Seq::<char>::empty()] {
                    assert(join_lines(rest) =~= Seq::<char>::empty());
                    assert(tail.len() == 0);
                }
                assert(keeps_its_lines(rest));
                assert(rest.last() == lines.last());
                assert forall|j: int| 0 <= j < lines.len() - 1 implies strip_carriage_return(
                    #[trigger] lines[j],
                ) == lines[j] by {
                    if j > 0 {
                        assert(lines[j] == rest[j - 1]);
                    }
                }
            }
        }
    }
}

/// Transforming is idempotent on no other text: if a second transform with
/// the same speed returns the text of the first, the rewritten lines keep
/// their shape.
pub proof fn lemma_idempotent_only_then(content: Seq<char>, speed: u32)
    requires
        has_spindle_command(content),
        transformed_content(transformed_content(content, speed), speed) == transformed_content(
            content,
            speed,
        ),
    ensures
        keeps_its_lines(rewritten_lines(split_lines(content), speed)),
{
    let lines = split_lines(content);
    let index = first_spindle_line(lines) as int;
    let rewritten = rewritten_lines(lines, speed);
    lemma_first_spindle_line(lines);
    lemma_split_lines_free_of_line_feeds(content);
    lemma_spindle_command_shape(speed);
    assert forall|j: int, k: int|
        0 <= j < rewritten.len() && 0 <= k < rewritten[j].len() implies #[trigger] rewritten[j][k]
        != '\n' by {
        if j != index {
            assert(rewritten[j] == lines[j]);
            assert(lines[j][k] != '\n');
        }
    }
    assert forall|j: int| 0 <= j < index implies !is_spindle_line(#[trigger] rewritten[j]) by {
        assert(rewritten[j] == lines[j]);
    }
    lemma_command_survives(rewritten, index, speed);
    let again = split_lines(join_lines(rewritten));
    assert(again.update(index, spindle_command(speed)) =~= again);
    lemma_rejoined_length(rewritten);
    assert(rewritten[index].len() > 0);
}

/// Whether `line` is a spindle-speed command.
pub fn is_spindle_command(line: &Vec<char>) -> (b: bool)
    ensures
        b == is_spindle_line(line@),
{
    let mut k: usize = 0;
    assert(line@.skip(0) =~= line@);
    while k < line.len() && is_whitespace_char(line[k])
        invariant
            k <= line.len(),
            trim_start(line@) == trim_start(line@.skip(k as int)),
        decreases line.len() - k,
    {
        assert(line@.skip(k as int).drop_first() =~= line@.skip(k + 1));
        k += 1;
    }
    k < line.len() && line[k] == 'S'
}

/// The index of the first spindle-speed command among `lines`, or their
/// number if there is none.
pub fn find_spindle_line(lines: &Vec<Vec<char>>) -> (index: usize)
    ensures
        index == first_spindle_line(line_views(lines@)),
{
    let mut i: usize = 0;
    while i < lines.len()
        invariant
            i <= lines.len(),
            forall|j: int| 0 <= j < i ==> !is_spindle_line(#[trigger] line_views(lines@)[j]),
        decreases lines.len() - i,
    {
        if is_spindle_command(&lines[i]) {
            proof {
                lemma_first_spindle_line_is(line_views(lines@), i as int);
            }
            return i;
        }
        i += 1;
    }
    proof {
        lemma_first_spindle_line_is(line_views(lines@), i as int);
    }
    i
}

/// Sets the spindle-speed command of `content` to `target_speed`.
///
/// Succeeds exactly when `content` holds a spindle-speed command. `changed`
/// tells whether the command line was replaced by a different text; when it
/// is `false` the file already carries the target speed and need not be
/// written.
pub fn transform(content: &str, target_speed: u32) -> (res: Result<
    Transformed,
    SpindleSpeedUpdaterError,
>)
    ensures
        has_spindle_command(content@) ==> (res matches Ok(t) && t.content@ == transformed_content(
            content@,
            target_speed,
        ) && t.changed == is_changed(content@, target_speed)),
        !has_spindle_command(content@) ==> res == Err::<Transformed, SpindleSpeedUpdaterError>(
            SpindleSpeedUpdaterError::NoSpindleCommand,
        ),
{
    let chars = chars_of(content);
    let mut lines = lines_of(&chars);
    let index = find_spindle_line(&lines);
    if index >= lines.len() {
        return Err(SpindleSpeedUpdaterError::NoSpindleCommand);
    }
    let command = command_line(target_speed);
    let changed = !same_chars(&lines[index], &command);
    let ghost before = line_views(lines@);
    lines.set(index, command);
    assert(line_views(lines@) =~= before.update(index as int, spindle_command(target_speed)));
    let content = joined(&lines);
    Ok(Transformed { content, changed })
}

/// Sets the spindle-speed command of `content` to `spindle_speed` and returns
/// the new text, or fails if `content` holds no such command.
pub fn update_spindle_speed_in_content(content: &str, spindle_speed: u32) -> (res: Result<
    String,
    SpindleSpeedUpdaterError,
>)
    ensures
        has_spindle_command(content@) ==> (res matches Ok(text) && text@ == transformed_content(
            content@,
            spindle_speed,
        )),
        !has_spindle_command(content@) ==> res == Err::<String, SpindleSpeedUpdaterError>(
            SpindleSpeedUpdaterError::NoSpindleCommand,
        ),
{
    match transform(content, spindle_speed) {
        Ok(transformed) => Ok(transformed.content),
        Err(error) => Err(error),
    }
}

} // verus!
