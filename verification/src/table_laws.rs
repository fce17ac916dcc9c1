//! What holds of the alias table and of the text that it is stored as.

use vstd::prelude::*;

use crate::format::{
    after_name, begins_with_name, command_in, first_command, first_delimiter, is_delimiter,
    lemma_delimiter_found, lemma_first_delimiter, lemma_line_end, line_end, line_end_from, once_in,
    record_line, record_of, records_without, split_lines, table_of_lines, table_of_text, taken_in,
    text_of_lines, text_of_table,
};
use crate::table::{
    answers_to, at_most_once, has_name, lemma_answers_to_own_name, lemma_has_name_push,
    lemma_lookup_stored_entry, lemma_push_valid, lemma_without_absent, lemma_without_entries,
    lemma_without_gone,
    lemma_without_valid, lookup, valid_entry, valid_name, valid_table, with_entry, without,
    EntryView,
};

verus! {

/// The name's last character is a colon.
pub open spec fn ends_in_colon(name: Seq<char>) -> bool {
    name.len() > 0 && name.last() == ':'
}

/// No line break stands in `line`.
pub open spec fn unbroken(line: Seq<char>) -> bool {
    forall|j: int| 0 <= j < line.len() ==> line[j] != '\n'
}

/// The lines that store the entries of `t`, one for each.
pub open spec fn record_lines(t: Seq<EntryView>) -> Seq<Seq<char>> {
    Seq::new(t.len(), |i: int| record_line(t[i]))
}

// Lines and records

/// A line that holds a record is the line that stores that record.
pub proof fn lemma_record_line_of_record(line: Seq<char>)
    requires
        record_of(line) is Some,
    ensures
        record_line(record_of(line)->0) == line,
{
    lemma_delimiter_found(line);
}

/// A line that begins with a name and the delimiter holds a record.
pub proof fn lemma_begins_is_record(line: Seq<char>, name: Seq<char>)
    requires
        begins_with_name(line, name),
    ensures
        record_of(line) is Some,
{
    lemma_delimiter_found(line);
}

/// On a line that begins with a name and the delimiter, the name being one that can be
/// stored and does not end in a colon, the first delimiter is the one behind the name.
pub proof fn lemma_first_delimiter_behind_name(line: Seq<char>, name: Seq<char>)
    requires
        valid_name(name),
        !ends_in_colon(name),
        begins_with_name(line, name),
    ensures
        first_delimiter(line) == name.len(),
{
    let n = name.len();
    assert forall|j: int| 0 <= j < n implies !is_delimiter(line, j) by {
        assert(line[j] == line.take(n as int)[j]);
        if j + 1 < n {
            assert(line[j + 1] == line.take(n as int)[j + 1]);
            assert(!is_delimiter(name, j));
        } else {
            assert(line[j] == name.last());
        }
    }
    lemma_first_delimiter(line, 0, n);
}

/// A line begins with at most one name that can be stored and does not end in a colon.
pub proof fn lemma_one_name(line: Seq<char>, a: Seq<char>, b: Seq<char>)
    requires
        valid_name(a),
        !ends_in_colon(a),
        valid_name(b),
        !ends_in_colon(b),
        begins_with_name(line, a),
        begins_with_name(line, b),
    ensures
        a == b,
{
    lemma_first_delimiter_behind_name(line, a);
    lemma_first_delimiter_behind_name(line, b);
}

/// An entry whose name does not end in a colon answers, among the names that can be
/// stored and do not end in a colon, to its own name alone.
pub proof fn lemma_answers_to_name(e: EntryView, name: Seq<char>)
    requires
        valid_name(e.name),
        !ends_in_colon(e.name),
        valid_name(name),
        !ends_in_colon(name),
    ensures
        answers_to(e, name) == (e.name == name),
{
    lemma_answers_to_own_name(e);
    if answers_to(e, name) {
        lemma_one_name(record_line(e), e.name, name);
    }
}

/// The record of the line that stores an entry is that entry, where its name does not
/// end in a colon.
pub proof fn lemma_record_of_line(e: EntryView)
    requires
        valid_name(e.name),
        !ends_in_colon(e.name),
    ensures
        record_of(record_line(e)) == Some(e),
{
    let line = record_line(e);
    lemma_answers_to_own_name(e);
    lemma_first_delimiter_behind_name(line, e.name);
    assert(line.take(e.name.len() as int) == e.name);
    assert(line.skip(e.name.len() as int + 2) == e.command);
}

proof fn lemma_line_end_found(text: Seq<char>, i: nat)
    ensures
        i <= text.len() ==> i <= line_end_from(text, i) <= text.len(),
        line_end_from(text, i) < text.len() ==> text[line_end_from(text, i) as int] == '\n',
        forall|j: int| i <= j < line_end_from(text, i) ==> text[j] != '\n',
    decreases text.len() - i,
{
    if i < text.len() && text[i as int] != '\n' {
        lemma_line_end_found(text, i + 1);
    }
}

/// No line of a text holds a line break.
pub proof fn lemma_lines_unbroken(text: Seq<char>)
    ensures
        forall|k: int| 0 <= k < split_lines(text).len() ==> unbroken(#[trigger] split_lines(text)[k]),
    decreases text.len(),
{
    let p = line_end(text);
    lemma_line_end_found(text, 0);
    if p < text.len() {
        let rest = text.skip(p as int + 1);
        lemma_lines_unbroken(rest);
        assert forall|k: int| 0 <= k < split_lines(text).len() implies unbroken(
            #[trigger] split_lines(text)[k],
        ) by {
            if k > 0 {
                assert(split_lines(text)[k] == split_lines(rest)[k - 1]);
            }
        }
    }
}

proof fn lemma_record_valid(line: Seq<char>)
    requires
        unbroken(line),
        record_of(line) is Some,
    ensures
        valid_entry(record_of(line)->0),
{
    let e = record_of(line)->0;
    lemma_delimiter_found(line);
    assert forall|j: int| !is_delimiter(e.name, j) by {
        if is_delimiter(e.name, j) {
            assert(is_delimiter(line, j));
        }
    }
}

proof fn lemma_table_of_lines_valid(lines: Seq<Seq<char>>)
    requires
        forall|k: int| 0 <= k < lines.len() ==> unbroken(#[trigger] lines[k]),
    ensures
        valid_table(table_of_lines(lines)),
    decreases lines.len(),
{
    if lines.len() > 0 {
        let init = lines.drop_last();
        assert forall|k: int| 0 <= k < init.len() implies unbroken(#[trigger] init[k]) by {
            assert(init[k] == lines[k]);
        }
        lemma_table_of_lines_valid(init);
        if record_of(lines.last()) is Some {
            assert(unbroken(lines[lines.len() - 1]));
            lemma_record_valid(lines.last());
            lemma_push_valid(table_of_lines(init), record_of(lines.last())->0);
        }
    }
}

/// The table that a text holds is valid, whatever the text.
pub proof fn lemma_table_of_text_valid(text: Seq<char>)
    ensures
        valid_table(table_of_text(text)),
{
    lemma_lines_unbroken(text);
    lemma_table_of_lines_valid(split_lines(text));
}

/// The empty text holds the empty table.
pub proof fn lemma_empty_text()
    ensures
        table_of_text(Seq::empty()) == Seq::<EntryView>::empty(),
{
    assert(split_lines(Seq::empty()) == seq![Seq::<char>::empty()]);
    reveal_with_fuel(table_of_lines, 2);
}

// The first line that begins with a name

proof fn lemma_first_command_none(lines: Seq<Seq<char>>, name: Seq<char>)
    requires
        forall|k: int| 0 <= k < lines.len() ==> !begins_with_name(#[trigger] lines[k], name),
    ensures
        first_command(lines, name) is None,
    decreases lines.len(),
{
    if lines.len() > 0 {
        let init = lines.drop_last();
        assert forall|k: int| 0 <= k < init.len() implies !begins_with_name(
            #[trigger] init[k],
            name,
        ) by {
            assert(init[k] == lines[k]);
        }
        lemma_first_command_none(init, name);
        assert(!begins_with_name(lines[lines.len() - 1], name));
    }
}

proof fn lemma_first_command_first(lines: Seq<Seq<char>>, name: Seq<char>, k: int)
    requires
        0 <= k < lines.len(),
        begins_with_name(lines[k], name),
        forall|j: int| 0 <= j < k ==> !begins_with_name(#[trigger] lines[j], name),
    ensures
        first_command(lines, name) == Some(after_name(lines[k], name)),
    decreases lines.len(),
{
    let init = lines.drop_last();
    if k == lines.len() - 1 {
        assert forall|j: int| 0 <= j < init.len() implies !begins_with_name(
            #[trigger] init[j],
            name,
        ) by {
            assert(init[j] == lines[j]);
        }
        lemma_first_command_none(init, name);
    } else {
        assert(init[k] == lines[k]);
        assert forall|j: int| 0 <= j < k implies !begins_with_name(#[trigger] init[j], name) by {
            assert(init[j] == lines[j]);
        }
        lemma_first_command_first(init, name, k);
    }
}

/// The command that a text holds for a name is what follows the name and the delimiter
/// on the first line that begins with them.
pub proof fn lemma_command_in_first(text: Seq<char>, name: Seq<char>, k: int)
    requires
        0 <= k < split_lines(text).len(),
        begins_with_name(split_lines(text)[k], name),
        forall|j: int| 0 <= j < k ==> !begins_with_name(#[trigger] split_lines(text)[j], name),
    ensures
        command_in(text, name) == Some(after_name(split_lines(text)[k], name)),
{
    lemma_first_command_first(split_lines(text), name, k);
}

/// A text holds a command for a name just where one of its lines begins with the name
/// and the delimiter.
pub proof fn lemma_command_in_taken(text: Seq<char>, name: Seq<char>)
    ensures
        command_in(text, name) is Some == taken_in(text, name),
{
    lemma_lookup_of_lines(split_lines(text), name);
    lemma_has_name_of_lines(split_lines(text), name);
    lemma_lookup_has_name(table_of_text(text), name);
}

/// Something is stored under a name just where an entry answers to it.
pub proof fn lemma_lookup_has_name(t: Seq<EntryView>, name: Seq<char>)
    ensures
        lookup(t, name) is Some == has_name(t, name),
    decreases t.len(),
{
    if t.len() > 0 {
        lemma_lookup_has_name(t.drop_last(), name);
        lemma_has_name_push(t.drop_last(), t.last(), name);
        assert(t.drop_last().push(t.last()) == t);
    } else {
        assert(!has_name(t, name));
    }
}

// The table that a text holds

proof fn lemma_has_name_of_lines(lines: Seq<Seq<char>>, name: Seq<char>)
    ensures
        has_name(table_of_lines(lines), name) == (exists|k: int|
            0 <= k < lines.len() && begins_with_name(#[trigger] lines[k], name)),
    decreases lines.len(),
{
    let taken = exists|k: int| 0 <= k < lines.len() && begins_with_name(#[trigger] lines[k], name);
    if lines.len() == 0 {
        assert(!has_name(table_of_lines(lines), name));
    } else {
        let init = lines.drop_last();
        let last = lines.last();
        let taken_before = exists|k: int|
            0 <= k < init.len() && begins_with_name(#[trigger] init[k], name);
        lemma_has_name_of_lines(init, name);
        if begins_with_name(last, name) {
            lemma_begins_is_record(last, name);
        }
        if record_of(last) is Some {
            lemma_record_line_of_record(last);
            lemma_has_name_push(table_of_lines(init), record_of(last)->0, name);
        }
        assert(has_name(table_of_lines(lines), name) == (taken_before || begins_with_name(
            last,
            name,
        )));
        if taken_before {
            let k = choose|k: int| 0 <= k < init.len() && begins_with_name(#[trigger] init[k], name);
            assert(begins_with_name(lines[k], name));
        }
        if begins_with_name(last, name) {
            assert(begins_with_name(lines[lines.len() - 1], name));
        }
        if taken {
            let k = choose|k: int|
                0 <= k < lines.len() && begins_with_name(#[trigger] lines[k], name);
            if k < init.len() {
                assert(begins_with_name(init[k], name));
            }
        }
    }
}

proof fn lemma_lookup_of_lines(lines: Seq<Seq<char>>, name: Seq<char>)
    ensures
        lookup(table_of_lines(lines), name) == first_command(lines, name),
    decreases lines.len(),
{
    if lines.len() > 0 {
        let init = lines.drop_last();
        let last = lines.last();
        lemma_lookup_of_lines(init, name);
        if begins_with_name(last, name) {
            lemma_begins_is_record(last, name);
        }
        if record_of(last) is Some {
            lemma_record_line_of_record(last);
            assert(table_of_lines(lines).drop_last() == table_of_lines(init));
        }
    }
}

/// An entry of the table that a text holds answers to a name just where a line of the
/// text begins with the name and the delimiter.
pub proof fn lemma_taken_in(text: Seq<char>, name: Seq<char>)
    ensures
        has_name(table_of_text(text), name) == taken_in(text, name),
{
    lemma_has_name_of_lines(split_lines(text), name);
}

/// What the table that a text holds stores under a name is what follows the name and
/// the delimiter on the first line of the text that begins with them.
pub proof fn lemma_command_in(text: Seq<char>, name: Seq<char>)
    ensures
        lookup(table_of_text(text), name) == command_in(text, name),
{
    lemma_lookup_of_lines(split_lines(text), name);
}

// The text that stores a table

/// The lines of the text that stores a table are the lines of its entries, and an
/// empty line behind the last line break.
pub proof fn lemma_lines_of_text(t: Seq<EntryView>)
    requires
        valid_table(t),
    ensures
        split_lines(text_of_table(t)) == record_lines(t).push(Seq::empty()),
    decreases t.len(),
{
    let text = text_of_table(t);
    if t.len() == 0 {
        assert(split_lines(text) == record_lines(t).push(Seq::empty()));
    } else {
        let line = record_line(t[0]);
        let rest = t.drop_first();
        assert(valid_entry(t[0]));
        assert forall|j: int| 0 <= j < line.len() implies text[j] != '\n' by {
            if j < t[0].name.len() {
                assert(text[j] == t[0].name[j]);
            } else if j >= t[0].name.len() + 2 {
                assert(text[j] == t[0].command[j - t[0].name.len() - 2]);
            }
        }
        assert(text[line.len() as int] == '\n');
        lemma_line_end(text, 0, line.len());
        assert(text.take(line.len() as int) == line);
        assert(text.skip(line.len() as int + 1) == text_of_table(rest));
        assert forall|i: int| 0 <= i < rest.len() implies valid_entry(#[trigger] rest[i]) by {
            assert(rest[i] == t[i + 1]);
        }
        lemma_lines_of_text(rest);
        assert(seq![line] + record_lines(rest).push(Seq::empty()) == record_lines(t).push(
            Seq::empty(),
        ));
    }
}

/// A line of the text that stores a table begins with a name and the delimiter just
/// where an entry of the table answers to the name.
pub proof fn lemma_taken_in_stored(t: Seq<EntryView>, name: Seq<char>)
    requires
        valid_table(t),
    ensures
        taken_in(text_of_table(t), name) == has_name(t, name),
{
    let lines = split_lines(text_of_table(t));
    lemma_lines_of_text(t);
    if has_name(t, name) {
        let i = choose|i: int| 0 <= i < t.len() && answers_to(#[trigger] t[i], name);
        assert(lines[i] == record_line(t[i]));
        assert(begins_with_name(lines[i], name));
    }
    if taken_in(text_of_table(t), name) {
        let k = choose|k: int| 0 <= k < lines.len() && begins_with_name(#[trigger] lines[k], name);
        assert(k < t.len());
        assert(lines[k] == record_line(t[k]));
        assert(answers_to(t[k], name));
    }
}

proof fn lemma_first_command_of_record_lines(t: Seq<EntryView>, name: Seq<char>)
    ensures
        first_command(record_lines(t), name) == lookup(t, name),
    decreases t.len(),
{
    if t.len() > 0 {
        lemma_first_command_of_record_lines(t.drop_last(), name);
        assert(record_lines(t).drop_last() == record_lines(t.drop_last()));
        assert(record_lines(t).last() == record_line(t.last()));
    }
}

/// The text that stores a table holds for each name the command that the table stores
/// under it.
pub proof fn lemma_command_in_stored(t: Seq<EntryView>, name: Seq<char>)
    requires
        valid_table(t),
    ensures
        command_in(text_of_table(t), name) == lookup(t, name),
{
    lemma_lines_of_text(t);
    lemma_first_command_of_record_lines(t, name);
    let lines = record_lines(t).push(Seq::empty());
    assert(lines.drop_last() == record_lines(t));
    assert(!begins_with_name(lines.last(), name));
}

proof fn lemma_table_of_record_lines(t: Seq<EntryView>)
    requires
        valid_table(t),
        forall|i: int| 0 <= i < t.len() ==> !ends_in_colon(#[trigger] t[i].name),
    ensures
        table_of_lines(record_lines(t)) == t,
    decreases t.len(),
{
    if t.len() == 0 {
        assert(table_of_lines(record_lines(t)) == t);
    } else {
        let init = t.drop_last();
        let e = t.last();
        assert(valid_entry(t[t.len() - 1]));
        assert(!ends_in_colon(t[t.len() - 1].name));
        assert forall|i: int| 0 <= i < init.len() implies valid_entry(#[trigger] init[i]) by {
            assert(valid_entry(t[i]));
        }
        assert forall|i: int| 0 <= i < init.len() implies !ends_in_colon(
            #[trigger] init[i].name,
        ) by {
            assert(!ends_in_colon(t[i].name));
        }
        lemma_table_of_record_lines(init);
        lemma_record_of_line(e);
        assert(record_lines(t).drop_last() == record_lines(init));
        assert(record_lines(t).last() == record_line(e));
        assert(init.push(e) == t);
    }
}

/// A table that is stored and read again is the same table, entry for entry and in the
/// same order, where no name ends in a colon.
pub proof fn lemma_round_trip(t: Seq<EntryView>)
    requires
        valid_table(t),
        forall|i: int| 0 <= i < t.len() ==> !ends_in_colon(#[trigger] t[i].name),
    ensures
        table_of_text(text_of_table(t)) == t,
{
    lemma_lines_of_text(t);
    lemma_table_of_record_lines(t);
    let lines = record_lines(t).push(Seq::empty());
    assert(lines.drop_last() == record_lines(t));
    assert(record_of(lines.last()) is None);
}

/// A table that is stored and read again answers to the same names and gives the same
/// commands for them, whatever its names.
pub proof fn lemma_round_trip_lookup(t: Seq<EntryView>, name: Seq<char>)
    requires
        valid_table(t),
    ensures
        has_name(table_of_text(text_of_table(t)), name) == has_name(t, name),
        lookup(table_of_text(text_of_table(t)), name) == lookup(t, name),
{
    lemma_taken_in(text_of_table(t), name);
    lemma_taken_in_stored(t, name);
    lemma_command_in(text_of_table(t), name);
    lemma_command_in_stored(t, name);
}

// Storing and taking out

/// After an entry is stored, it is the one entry that answers to its name.
pub proof fn lemma_with_entry_once(t: Seq<EntryView>, e: EntryView)
    ensures
        has_name(with_entry(t, e), e.name),
        at_most_once(with_entry(t, e), e.name),
        forall|i: int|
            0 <= i < with_entry(t, e).len() && answers_to(#[trigger] with_entry(t, e)[i], e.name)
                ==> i == with_entry(t, e).len() - 1,
{
    let u = with_entry(t, e);
    let kept = without(t, e.name);
    lemma_answers_to_own_name(e);
    assert(answers_to(u[kept.len() as int], e.name));
    assert forall|i: int| 0 <= i < u.len() && answers_to(#[trigger] u[i], e.name) implies i
        == u.len() - 1 by {
        if i < kept.len() {
            lemma_without_entries(t, e.name, i);
        }
    }
}

/// Taking out one name leaves what is stored under another as it was, where no entry
/// answers to both.
pub proof fn lemma_lookup_without_other(t: Seq<EntryView>, removed: Seq<char>, name: Seq<char>)
    requires
        forall|i: int|
            0 <= i < t.len() ==> !(answers_to(#[trigger] t[i], removed) && answers_to(t[i], name)),
    ensures
        lookup(without(t, removed), name) == lookup(t, name),
    decreases t.len(),
{
    if t.len() > 0 {
        let init = t.drop_last();
        assert forall|i: int| 0 <= i < init.len() implies !(answers_to(
            #[trigger] init[i],
            removed,
        ) && answers_to(init[i], name)) by {
            assert(init[i] == t[i]);
        }
        lemma_lookup_without_other(init, removed, name);
        assert(!(answers_to(t[t.len() - 1], removed) && answers_to(t[t.len() - 1], name)));
        if !answers_to(t.last(), removed) {
            assert(without(t, removed).drop_last() == without(init, removed));
        }
    }
}

/// After a name is taken out, it gives nothing, and every other name what it gave
/// before, the names being such as can be stored and do not end in a colon.
pub proof fn lemma_lookup_without(t: Seq<EntryView>, removed: Seq<char>, name: Seq<char>)
    requires
        valid_name(removed),
        !ends_in_colon(removed),
        valid_name(name),
        !ends_in_colon(name),
    ensures
        lookup(without(t, removed), name) == if name == removed {
            None
        } else {
            lookup(t, name)
        },
{
    if name == removed {
        lemma_without_gone(t, removed);
        lemma_lookup_has_name(without(t, removed), name);
    } else {
        assert forall|i: int| 0 <= i < t.len() implies !(answers_to(#[trigger] t[i], removed)
            && answers_to(t[i], name)) by {
            if answers_to(t[i], removed) && answers_to(t[i], name) {
                lemma_one_name(record_line(t[i]), removed, name);
            }
        }
        lemma_lookup_without_other(t, removed, name);
    }
}

/// After an entry is stored, its name gives its command, and every other name what it
/// gave before, the names being such as can be stored and do not end in a colon.
pub proof fn lemma_lookup_with_entry(t: Seq<EntryView>, e: EntryView, name: Seq<char>)
    requires
        valid_name(e.name),
        !ends_in_colon(e.name),
        valid_name(name),
        !ends_in_colon(name),
    ensures
        lookup(with_entry(t, e), name) == if name == e.name {
            Some(e.command)
        } else {
            lookup(t, name)
        },
{
    if name == e.name {
        lemma_lookup_stored_entry(t, e);
    } else {
        let kept = without(t, e.name);
        lemma_lookup_without(t, e.name, name);
        lemma_answers_to_name(e, name);
        assert(with_entry(t, e).drop_last() == kept);
    }
}

// What the stored text holds after an alias is added or removed

/// The text that stores a table is made of the lines of its entries.
pub proof fn lemma_text_of_record_lines(t: Seq<EntryView>)
    ensures
        text_of_table(t) == text_of_lines(record_lines(t)),
    decreases t.len(),
{
    if t.len() > 0 {
        lemma_text_of_record_lines(t.drop_first());
        assert(record_lines(t).drop_first() == record_lines(t.drop_first()));
    }
}

proof fn lemma_record_lines_without(lines: Seq<Seq<char>>, name: Seq<char>)
    ensures
        record_lines(without(table_of_lines(lines), name)) == records_without(lines, name),
    decreases lines.len(),
{
    if lines.len() == 0 {
        assert(record_lines(without(table_of_lines(lines), name)) == records_without(lines, name));
    } else {
        let init = lines.drop_last();
        let last = lines.last();
        let kept = without(table_of_lines(init), name);
        lemma_record_lines_without(init, name);
        if record_of(last) is Some {
            let e = record_of(last)->0;
            lemma_record_line_of_record(last);
            assert(table_of_lines(lines).drop_last() == table_of_lines(init));
            if !answers_to(e, name) {
                assert(record_lines(kept.push(e)) == record_lines(kept).push(last));
            }
        }
    }
}

/// After a name is removed from a stored text, the new text is made of the lines of the
/// old that hold a record and do not begin with the name and the delimiter, each as it
/// was and in the same order.
pub proof fn lemma_text_after_remove(text: Seq<char>, name: Seq<char>)
    ensures
        text_of_table(without(table_of_text(text), name)) == text_of_lines(
            records_without(split_lines(text), name),
        ),
{
    lemma_text_of_record_lines(without(table_of_text(text), name));
    lemma_record_lines_without(split_lines(text), name);
}

/// After an entry is added to a stored text, the new text is made of the lines of the
/// old that hold a record and do not begin with the entry's name and the delimiter,
/// each as it was and in the same order, and behind them the line of the entry.
pub proof fn lemma_text_after_add(text: Seq<char>, e: EntryView)
    ensures
        text_of_table(with_entry(table_of_text(text), e)) == text_of_lines(
            records_without(split_lines(text), e.name).push(record_line(e)),
        ),
{
    let kept = without(table_of_text(text), e.name);
    lemma_text_of_record_lines(kept.push(e));
    lemma_record_lines_without(split_lines(text), e.name);
    assert(record_lines(kept.push(e)) == record_lines(kept).push(record_line(e)));
}

proof fn lemma_records_without_record_lines(t: Seq<EntryView>, name: Seq<char>)
    ensures
        records_without(record_lines(t), name) == record_lines(without(t, name)),
    decreases t.len(),
{
    if t.len() == 0 {
        assert(records_without(record_lines(t), name) == record_lines(without(t, name)));
    } else {
        let init = t.drop_last();
        let e = t.last();
        lemma_records_without_record_lines(init, name);
        assert(record_lines(t).drop_last() == record_lines(init));
        assert(record_lines(t).last() == record_line(e));
        lemma_answers_to_own_name(e);
        lemma_begins_is_record(record_line(e), e.name);
        if !answers_to(e, name) {
            assert(record_lines(without(init, name).push(e)) == record_lines(
                without(init, name),
            ).push(record_line(e)));
        }
    }
}

proof fn lemma_records_without_stored(t: Seq<EntryView>, name: Seq<char>)
    requires
        valid_table(t),
    ensures
        records_without(split_lines(text_of_table(t)), name) == record_lines(without(t, name)),
{
    lemma_lines_of_text(t);
    lemma_records_without_record_lines(t, name);
    let lines = record_lines(t).push(Seq::empty());
    assert(lines.drop_last() == record_lines(t));
    assert(record_of(lines.last()) is None);
}

/// Removing a name from the text that stores a table gives the text that stores the
/// table without the name: the records of other names stay as they are, and where no
/// entry answers to the name the text stays as it is.
pub proof fn lemma_stored_after_remove(t: Seq<EntryView>, name: Seq<char>)
    requires
        valid_table(t),
    ensures
        text_of_table(without(table_of_text(text_of_table(t)), name)) == text_of_table(
            without(t, name),
        ),
        !has_name(t, name) ==> text_of_table(without(table_of_text(text_of_table(t)), name))
            == text_of_table(t),
{
    lemma_text_after_remove(text_of_table(t), name);
    lemma_records_without_stored(t, name);
    lemma_text_of_record_lines(without(t, name));
    if !has_name(t, name) {
        lemma_without_absent(t, name);
    }
}

/// Adding an entry to the text that stores a table gives the text that stores the table
/// with the entry.
pub proof fn lemma_stored_after_add(t: Seq<EntryView>, e: EntryView)
    requires
        valid_table(t),
    ensures
        text_of_table(with_entry(table_of_text(text_of_table(t)), e)) == text_of_table(
            with_entry(t, e),
        ),
{
    lemma_text_after_add(text_of_table(t), e);
    lemma_records_without_stored(t, e.name);
    lemma_text_of_record_lines(with_entry(t, e));
    assert(record_lines(with_entry(t, e)) == record_lines(without(t, e.name)).push(
        record_line(e),
    ));
}

/// After an entry is added to a stored text, a line of the new text begins with its
/// name and the delimiter, one line alone does, and the text holds the entry's command
/// for its name.
pub proof fn lemma_added_is_found(text: Seq<char>, e: EntryView)
    requires
        valid_entry(e),
    ensures
        taken_in(text_of_table(with_entry(table_of_text(text), e)), e.name),
        once_in(text_of_table(with_entry(table_of_text(text), e)), e.name),
        command_in(text_of_table(with_entry(table_of_text(text), e)), e.name) == Some(e.command),
{
    let t = table_of_text(text);
    let u = with_entry(t, e);
    let lines = split_lines(text_of_table(u));
    lemma_table_of_text_valid(text);
    lemma_without_valid(t, e.name);
    lemma_push_valid(without(t, e.name), e);
    lemma_with_entry_once(t, e);
    lemma_taken_in_stored(u, e.name);
    lemma_command_in_stored(u, e.name);
    lemma_lookup_stored_entry(t, e);
    lemma_lines_of_text(u);
    assert forall|j: int, k: int| 0 <= j < k < lines.len() implies !(begins_with_name(
        #[trigger] lines[j],
        e.name,
    ) && begins_with_name(#[trigger] lines[k], e.name)) by {
        if begins_with_name(lines[j], e.name) && begins_with_name(lines[k], e.name) {
            assert(lines[j] == record_line(u[j]));
            assert(answers_to(u[j], e.name));
            assert(j == u.len() - 1);
            assert(k == u.len());
        }
    }
}

proof fn lemma_records_without_from(lines: Seq<Seq<char>>, name: Seq<char>, i: int)
    requires
        0 <= i < records_without(lines, name).len(),
    ensures
        exists|j: int| 0 <= j < lines.len() && lines[j] == records_without(lines, name)[i],
    decreases lines.len(),
{
    if lines.len() > 0 {
        let init = lines.drop_last();
        if i < records_without(init, name).len() {
            lemma_records_without_from(init, name, i);
            let j = choose|j: int| 0 <= j < init.len() && init[j] == records_without(init, name)[i];
            assert(lines[j] == records_without(lines, name)[i]);
        } else {
            assert(lines[lines.len() - 1] == records_without(lines, name)[i]);
        }
    }
}

proof fn lemma_records_without_once(lines: Seq<Seq<char>>, removed: Seq<char>, name: Seq<char>)
    requires
        forall|j: int, k: int|
            0 <= j < k < lines.len() ==> !(begins_with_name(#[trigger] lines[j], name)
                && begins_with_name(#[trigger] lines[k], name)),
    ensures
        forall|j: int, k: int|
            0 <= j < k < records_without(lines, removed).len() ==> !(begins_with_name(
                #[trigger] records_without(lines, removed)[j],
                name,
            ) && begins_with_name(#[trigger] records_without(lines, removed)[k], name)),
    decreases lines.len(),
{
    if lines.len() > 0 {
        let init = lines.drop_last();
        let kept = records_without(lines, removed);
        assert forall|j: int, k: int| 0 <= j < k < init.len() implies !(begins_with_name(
            #[trigger] init[j],
            name,
        ) && begins_with_name(#[trigger] init[k], name)) by {
            assert(init[j] == lines[j] && init[k] == lines[k]);
        }
        lemma_records_without_once(init, removed, name);
        assert forall|j: int, k: int| 0 <= j < k < kept.len() implies !(begins_with_name(
            #[trigger] kept[j],
            name,
        ) && begins_with_name(#[trigger] kept[k], name)) by {
            if k == records_without(init, removed).len() {
                if begins_with_name(kept[j], name) && begins_with_name(kept[k], name) {
                    lemma_records_without_from(init, removed, j);
                    let i = choose|i: int|
                        0 <= i < init.len() && init[i] == records_without(init, removed)[j];
                    assert(begins_with_name(lines[i], name));
                    assert(begins_with_name(lines[lines.len() - 1], name));
                }
            } else {
                assert(kept[j] == records_without(init, removed)[j]);
                assert(kept[k] == records_without(init, removed)[k]);
            }
        }
    }
}

/// A name with which at most one line of a stored text begins still has at most one
/// after another alias is removed.
pub proof fn lemma_once_after_remove(text: Seq<char>, removed: Seq<char>, name: Seq<char>)
    requires
        once_in(text, name),
    ensures
        once_in(text_of_table(without(table_of_text(text), removed)), name),
{
    let kept = without(table_of_text(text), removed);
    let lines = split_lines(text_of_table(kept));
    lemma_table_of_text_valid(text);
    lemma_without_valid(table_of_text(text), removed);
    lemma_lines_of_text(kept);
    lemma_record_lines_without(split_lines(text), removed);
    lemma_records_without_once(split_lines(text), removed, name);
    assert forall|j: int, k: int| 0 <= j < k < lines.len() implies !(begins_with_name(
        #[trigger] lines[j],
        name,
    ) && begins_with_name(#[trigger] lines[k], name)) by {
        if k < record_lines(kept).len() {
            assert(lines[j] == records_without(split_lines(text), removed)[j]);
            assert(lines[k] == records_without(split_lines(text), removed)[k]);
        }
    }
}

/// A name with which at most one line of a stored text begins still has at most one
/// after an entry is added that does not answer to it.
pub proof fn lemma_once_after_add(text: Seq<char>, e: EntryView, name: Seq<char>)
    requires
        valid_entry(e),
        once_in(text, name),
        !answers_to(e, name),
    ensures
        once_in(text_of_table(with_entry(table_of_text(text), e)), name),
{
    let kept = without(table_of_text(text), e.name);
    let u = kept.push(e);
    let lines = split_lines(text_of_table(u));
    lemma_table_of_text_valid(text);
    lemma_without_valid(table_of_text(text), e.name);
    lemma_push_valid(kept, e);
    lemma_lines_of_text(u);
    lemma_record_lines_without(split_lines(text), e.name);
    lemma_records_without_once(split_lines(text), e.name, name);
    assert forall|j: int, k: int| 0 <= j < k < lines.len() implies !(begins_with_name(
        #[trigger] lines[j],
        name,
    ) && begins_with_name(#[trigger] lines[k], name)) by {
        if k < kept.len() {
            assert(lines[j] == record_line(kept[j]));
            assert(lines[k] == record_line(kept[k]));
            assert(record_lines(kept)[j] == records_without(split_lines(text), e.name)[j]);
            assert(record_lines(kept)[k] == records_without(split_lines(text), e.name)[k]);
        } else if k == kept.len() {
            assert(lines[k] == record_line(e));
        }
    }
}

/// After a name is removed from a stored text, no line of the new text begins with the
/// name and the delimiter.
pub proof fn lemma_removed_is_gone(text: Seq<char>, name: Seq<char>)
    ensures
        !taken_in(text_of_table(without(table_of_text(text), name)), name),
        command_in(text_of_table(without(table_of_text(text), name)), name) is None,
{
    let t = table_of_text(text);
    lemma_table_of_text_valid(text);
    lemma_without_valid(t, name);
    lemma_without_gone(t, name);
    lemma_taken_in_stored(without(t, name), name);
    lemma_command_in_taken(text_of_table(without(t, name)), name);
}

} // verus!
