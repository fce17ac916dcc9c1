//! The text that a table is stored as: one record per line, a record being a name,
//! the delimiter `::` and a command.

use vstd::prelude::*;

use crate::table::EntryView;

verus! {

/// The delimiter `::` stands at `i` in `s`.
pub open spec fn is_delimiter(s: Seq<char>, i: int) -> bool {
    0 <= i && i + 1 < s.len() && s[i] == ':' && s[i + 1] == ':'
}

/// The place of the first delimiter at or after `i`, or the length of `s` if there is none.
pub open spec fn first_delimiter_from(s: Seq<char>, i: nat) -> nat
    decreases s.len() - i,
{
    if i >= s.len() {
        s.len()
    } else if is_delimiter(s, i as int) {
        i
    } else {
        first_delimiter_from(s, i + 1)
    }
}

/// The place of the first delimiter of `s`, or the length of `s` if there is none.
pub open spec fn first_delimiter(s: Seq<char>) -> nat {
    first_delimiter_from(s, 0)
}

/// The place of the first line break at or after `i`, or the length of `text` if there
/// is none.
pub open spec fn line_end_from(text: Seq<char>, i: nat) -> nat
    decreases text.len() - i,
{
    if i >= text.len() {
        text.len()
    } else if text[i as int] == '\n' {
        i
    } else {
        line_end_from(text, i + 1)
    }
}

/// Where the first line of `text` ends: at its first line break, or at its end.
pub open spec fn line_end(text: Seq<char>) -> nat {
    line_end_from(text, 0)
}

/// The lines of `text`: what stands between its line breaks. A text that ends in a line
/// break has an empty last line.
pub open spec fn split_lines(text: Seq<char>) -> Seq<Seq<char>>
    decreases text.len(),
{
    let p = line_end(text);
    if p >= text.len() {
        seq![text]
    } else {
        seq![text.take(p as int)] + split_lines(text.skip(p as int + 1))
    }
}

/// `line` begins with `name` and the delimiter: it is a record that answers to `name`.
pub open spec fn begins_with_name(line: Seq<char>, name: Seq<char>) -> bool {
    name.len() + 2 <= line.len() && line.take(name.len() as int) == name && is_delimiter(
        line,
        name.len() as int,
    )
}

/// What follows `name` and the delimiter on `line`: the command that the line gives
/// for `name`.
pub open spec fn after_name(line: Seq<char>, name: Seq<char>) -> Seq<char> {
    line.skip(name.len() as int + 2)
}

/// A line of `text` begins with `name` and the delimiter.
pub open spec fn taken_in(text: Seq<char>, name: Seq<char>) -> bool {
    exists|k: int|
        0 <= k < split_lines(text).len() && begins_with_name(#[trigger] split_lines(text)[k], name)
}

/// At most one line of `text` begins with `name` and the delimiter.
pub open spec fn once_in(text: Seq<char>, name: Seq<char>) -> bool {
    forall|j: int, k: int|
        0 <= j < k < split_lines(text).len() ==> !(begins_with_name(
            #[trigger] split_lines(text)[j],
            name,
        ) && begins_with_name(#[trigger] split_lines(text)[k], name))
}

/// What the first of `lines` that begins with `name` and the delimiter holds after
/// them; nothing where no line begins so.
pub open spec fn first_command(lines: Seq<Seq<char>>, name: Seq<char>) -> Option<Seq<char>>
    decreases lines.len(),
{
    if lines.len() == 0 {
        None
    } else {
        match first_command(lines.drop_last(), name) {
            Some(command) => Some(command),
            None => if begins_with_name(lines.last(), name) {
                Some(after_name(lines.last(), name))
            } else {
                None
            },
        }
    }
}

/// The command that `text` holds for `name`: what follows the name and the delimiter on
/// the first line that begins with them.
pub open spec fn command_in(text: Seq<char>, name: Seq<char>) -> Option<Seq<char>> {
    first_command(split_lines(text), name)
}

/// The lines among `lines` that hold a record and do not begin with `name` and the
/// delimiter, in their order.
pub open spec fn records_without(lines: Seq<Seq<char>>, name: Seq<char>) -> Seq<Seq<char>>
    decreases lines.len(),
{
    if lines.len() == 0 {
        lines
    } else if record_of(lines.last()) is Some && !begins_with_name(lines.last(), name) {
        records_without(lines.drop_last(), name).push(lines.last())
    } else {
        records_without(lines.drop_last(), name)
    }
}

/// The text made of `lines`, each closed by a line break.
pub open spec fn text_of_lines(lines: Seq<Seq<char>>) -> Seq<char>
    decreases lines.len(),
{
    if lines.len() == 0 {
        Seq::empty()
    } else {
        lines[0] + seq!['\n'] + text_of_lines(lines.drop_first())
    }
}

/// The record that a line holds: the name before its first delimiter and the command
/// after it. A line without delimiter holds none.
pub open spec fn record_of(line: Seq<char>) -> Option<EntryView> {
    let d = first_delimiter(line);
    if d < line.len() {
        Some(EntryView { name: line.take(d as int), command: line.skip(d as int + 2) })
    } else {
        None
    }
}

/// The table that a list of lines gives: the records of the lines that hold one, in
/// the order of the lines.
pub open spec fn table_of_lines(lines: Seq<Seq<char>>) -> Seq<EntryView>
    decreases lines.len(),
{
    if lines.len() == 0 {
        Seq::empty()
    } else {
        let before = table_of_lines(lines.drop_last());
        match record_of(lines.last()) {
            Some(e) => before.push(e),
            None => before,
        }
    }
}

/// The table that a stored text holds.
pub open spec fn table_of_text(text: Seq<char>) -> Seq<EntryView> {
    table_of_lines(split_lines(text))
}

/// The line that stores an entry: name, delimiter, command.
pub open spec fn record_line(e: EntryView) -> Seq<char> {
    e.name + seq![':', ':'] + e.command
}

/// The text that stores a table: one record per line, each line closed by a line break.
pub open spec fn text_of_table(t: Seq<EntryView>) -> Seq<char>
    decreases t.len(),
{
    if t.len() == 0 {
        Seq::empty()
    } else {
        record_line(t[0]) + seq!['\n'] + text_of_table(t.drop_first())
    }
}

pub(crate) proof fn lemma_first_delimiter(s: Seq<char>, from: nat, d: nat)
    requires
        from <= d <= s.len(),
        forall|j: int| from <= j < d ==> !is_delimiter(s, j),
        d < s.len() ==> is_delimiter(s, d as int),
    ensures
        first_delimiter_from(s, from) == d,
    decreases d - from,
{
    if from < d {
        lemma_first_delimiter(s, from + 1, d);
    }
}

/// Where the first delimiter stands there is one, and none before it.
pub proof fn lemma_delimiter_found(s: Seq<char>)
    ensures
        first_delimiter(s) <= s.len(),
        first_delimiter(s) < s.len() ==> is_delimiter(s, first_delimiter(s) as int),
        forall|j: int| 0 <= j < first_delimiter(s) ==> !is_delimiter(s, j),
{
    lemma_delimiter_found_from(s, 0);
}

proof fn lemma_delimiter_found_from(s: Seq<char>, i: nat)
    ensures
        i <= s.len() ==> i <= first_delimiter_from(s, i) <= s.len(),
        first_delimiter_from(s, i) < s.len() ==> is_delimiter(
            s,
            first_delimiter_from(s, i) as int,
        ),
        forall|j: int| i <= j < first_delimiter_from(s, i) ==> !is_delimiter(s, j),
    decreases s.len() - i,
{
    if i < s.len() && !is_delimiter(s, i as int) {
        lemma_delimiter_found_from(s, i + 1);
    }
}

pub(crate) proof fn lemma_line_end(text: Seq<char>, from: nat, p: nat)
    requires
        from <= p <= text.len(),
        forall|j: int| from <= j < p ==> text[j] != '\n',
        p < text.len() ==> text[p as int] == '\n',
    ensures
        line_end_from(text, from) == p,
    decreases p - from,
{
    if from < p {
        lemma_line_end(text, from + 1, p);
    }
}

/// The place of the first delimiter in `chars[from..to]`, counted from the start of
/// `chars`; `to` if there is none.
pub(crate) fn find_delimiter(chars: &Vec<char>, from: usize, to: usize) -> (d: usize)
    requires
        from <= to <= chars.len(),
    ensures
        from <= d <= to,
        d - from == first_delimiter(chars@.subrange(from as int, to as int)),
{
    let ghost line = chars@.subrange(from as int, to as int);
    let mut i: usize = from;
    while i < to && to - i > 1
        invariant
            from <= i <= to <= chars.len(),
            line == chars@.subrange(from as int, to as int),
            forall|j: int| 0 <= j < i - from ==> !is_delimiter(line, j),
        decreases to - i,
    {
        if chars[i] == ':' && chars[i + 1] == ':' {
            proof {
                assert(is_delimiter(line, i - from));
                lemma_first_delimiter(line, 0, (i - from) as nat);
            }
            return i;
        }
        assert(!is_delimiter(line, i - from));
        i += 1;
    }
    proof {
        lemma_first_delimiter(line, 0, line.len());
    }
    to
}

/// The place of the first line break in `chars[start..]`, counted from the start of
/// `chars`; the length of `chars` if there is none.
pub(crate) fn find_line_end(chars: &Vec<char>, start: usize) -> (p: usize)
    requires
        start <= chars.len(),
    ensures
        start <= p <= chars.len(),
        p - start == line_end(chars@.skip(start as int)),
        forall|j: int| start <= j < p ==> chars@[j] != '\n',
{
    let ghost rest = chars@.skip(start as int);
    let mut i: usize = start;
    while i < chars.len() && chars[i] != '\n'
        invariant
            start <= i <= chars.len(),
            rest == chars@.skip(start as int),
            forall|j: int| start <= j < i ==> chars@[j] != '\n',
        decreases chars.len() - i,
    {
        i += 1;
    }
    proof {
        assert forall|j: int| 0 <= j < i - start implies rest[j] != '\n' by {
            assert(rest[j] == chars@[start + j]);
        }
        lemma_line_end(rest, 0, (i - start) as nat);
    }
    i
}

} // verus!
