//! The alias table: an ordered list of entries. An entry is looked up by what its
//! stored line begins with: it answers to a name where the line begins with that
//! name and the delimiter `::`.

use vstd::prelude::*;
use vstd::string::*;

use crate::format::{
    after_name, begins_with_name, find_delimiter, find_line_end, is_delimiter,
    lemma_delimiter_found, record_line, record_of, split_lines, table_of_lines, table_of_text,
    text_of_table,
};
use crate::text::{chars_of, string_of};

verus! {

/// An alias as plain values: a name and the command that it stands for.
pub struct EntryView {
    pub name: Seq<char>,
    pub command: Seq<char>,
}

/// A name that can be stored: without line break and without delimiter.
pub open spec fn valid_name(name: Seq<char>) -> bool {
    &&& forall|i: int| 0 <= i < name.len() ==> name[i] != '\n'
    &&& forall|i: int| !is_delimiter(name, i)
}

/// A command that can be stored: without line break.
pub open spec fn valid_command(command: Seq<char>) -> bool {
    forall|i: int| 0 <= i < command.len() ==> command[i] != '\n'
}

/// An entry whose name and command can both be stored.
pub open spec fn valid_entry(e: EntryView) -> bool {
    valid_name(e.name) && valid_command(e.command)
}

/// A table as it is kept: every entry can be stored.
pub open spec fn valid_table(t: Seq<EntryView>) -> bool {
    forall|i: int| 0 <= i < t.len() ==> valid_entry(#[trigger] t[i])
}

/// The entry answers to `name`: the line that stores it begins with `name` and the
/// delimiter. An entry answers to its own name; one whose name ends in a colon, or
/// whose command begins with one, answers to a second name as well.
pub open spec fn answers_to(e: EntryView, name: Seq<char>) -> bool {
    begins_with_name(record_line(e), name)
}

/// The command that the entry gives for `name`: what follows the name and the
/// delimiter on the line that stores it.
pub open spec fn command_for(e: EntryView, name: Seq<char>) -> Seq<char> {
    after_name(record_line(e), name)
}

/// Some entry of `t` answers to `name`.
pub open spec fn has_name(t: Seq<EntryView>, name: Seq<char>) -> bool {
    exists|i: int| 0 <= i < t.len() && answers_to(#[trigger] t[i], name)
}

/// No two entries of `t` answer to `name`.
pub open spec fn at_most_once(t: Seq<EntryView>, name: Seq<char>) -> bool {
    forall|i: int, j: int|
        0 <= i < j < t.len() ==> !(answers_to(#[trigger] t[i], name) && answers_to(
            #[trigger] t[j],
            name,
        ))
}

/// The command stored under `name`: what the first entry that answers to `name` gives
/// for it, and nothing where no entry answers.
pub open spec fn lookup(t: Seq<EntryView>, name: Seq<char>) -> Option<Seq<char>>
    decreases t.len(),
{
    if t.len() == 0 {
        None
    } else {
        match lookup(t.drop_last(), name) {
            Some(command) => Some(command),
            None => if answers_to(t.last(), name) {
                Some(command_for(t.last(), name))
            } else {
                None
            },
        }
    }
}

/// `t` without the entries that answer to `name`, the others in their order.
pub open spec fn without(t: Seq<EntryView>, name: Seq<char>) -> Seq<EntryView>
    decreases t.len(),
{
    if t.len() == 0 {
        t
    } else if answers_to(t.last(), name) {
        without(t.drop_last(), name)
    } else {
        without(t.drop_last(), name).push(t.last())
    }
}

/// `t` with `e` stored: every entry that answers to the name of `e` leaves, and `e`
/// goes to the end.
pub open spec fn with_entry(t: Seq<EntryView>, e: EntryView) -> Seq<EntryView> {
    without(t, e.name).push(e)
}

/// An alias: a short name bound to a shell command. The name holds neither a line
/// break nor `::`, the command no line break.
#[derive(Debug, PartialEq, Eq)]
pub struct AliasEntry {
    name: String,
    command: String,
}

impl View for AliasEntry {
    type V = EntryView;

    closed spec fn view(&self) -> EntryView {
        EntryView { name: self.name@, command: self.command@ }
    }
}

impl AliasEntry {
    /// What holds of every entry: its name and its command can be stored.
    #[verifier::type_invariant]
    pub open spec fn well_formed(self) -> bool {
        valid_entry(self@)
    }

    /// The entry that binds `name` to `command`, where both can be stored.
    pub fn new(name: &str, command: &str) -> (r: Option<AliasEntry>)
        ensures
            match r {
                Some(e) => e@.name == name@ && e@.command == command@ && valid_entry(e@),
                None => !(valid_name(name@) && valid_command(command@)),
            },
    {
        let n = chars_of(name);
        let c = chars_of(command);
        if !no_line_break(&n) || !no_line_break(&c) {
            return None;
        }
        let d = find_delimiter(&n, 0, n.len());
        proof {
            assert(n@.subrange(0, n.len() as int) == n@);
            lemma_delimiter_found(n@);
        }
        if d < n.len() {
            return None;
        }
        Some(AliasEntry { name: name.to_owned(), command: command.to_owned() })
    }

    /// The alias's name.
    pub fn name(&self) -> (name: &str)
        ensures
            name@ == self@.name,
    {
        self.name.as_str()
    }

    /// The command that the alias stands for.
    pub fn command(&self) -> (command: &str)
        ensures
            command@ == self@.command,
    {
        self.command.as_str()
    }

    /// The characters of the line that stores the entry.
    fn line(&self) -> (line: Vec<char>)
        ensures
            line@ == record_line(self@),
    {
        let mut line = chars_of(self.name.as_str());
        line.push(':');
        line.push(':');
        let command = chars_of(self.command.as_str());
        let mut i: usize = 0;
        while i < command.len()
            invariant
                i <= command.len(),
                command@ == self.command@,
                line@ == self.name@ + seq![':', ':'] + command@.take(i as int),
            decreases command.len() - i,
        {
            line.push(command[i]);
            i += 1;
        }
        assert(command@.take(i as int) == command@);
        line
    }
}

impl Clone for AliasEntry {
    fn clone(&self) -> (e: AliasEntry)
        ensures
            e@ == self@,
    {
        proof {
            use_type_invariant(self);
        }
        AliasEntry { name: self.name.clone(), command: self.command.clone() }
    }
}

/// Whether no line break stands in `chars`.
fn no_line_break(chars: &Vec<char>) -> (ok: bool)
    ensures
        ok == valid_command(chars@),
{
    let mut i: usize = 0;
    while i < chars.len()
        invariant
            i <= chars.len(),
            forall|j: int| 0 <= j < i ==> chars@[j] != '\n',
        decreases chars.len() - i,
    {
        if chars[i] == '\n' {
            return false;
        }
        i += 1;
    }
    true
}

/// Whether `line` begins with `name` and the delimiter.
fn begins_with(line: &Vec<char>, name: &Vec<char>) -> (b: bool)
    ensures
        b == begins_with_name(line@, name@),
{
    let n = name.len();
    if line.len() < 2 || line.len() - 2 < n {
        return false;
    }
    if line[n] != ':' || line[n + 1] != ':' {
        return false;
    }
    let mut i: usize = 0;
    while i < n
        invariant
            i <= n,
            n == name.len(),
            n + 2 <= line.len(),
            forall|j: int| 0 <= j < i ==> line@[j] == name@[j],
        decreases n - i,
    {
        if line[i] != name[i] {
            assert(line@.take(n as int)[i as int] != name@[i as int]);
            return false;
        }
        i += 1;
    }
    assert(line@.take(n as int) == name@);
    true
}

/// The alias table: entries in the order in which they were added.
#[derive(Debug, PartialEq, Eq)]
pub struct AliasTable {
    entries: Vec<AliasEntry>,
}

impl View for AliasTable {
    type V = Seq<EntryView>;

    closed spec fn view(&self) -> Seq<EntryView> {
        views(self.entries@)
    }
}

/// The entries of a list as plain values.
pub open spec fn views(entries: Seq<AliasEntry>) -> Seq<EntryView> {
    Seq::new(entries.len(), |i: int| entries[i]@)
}

impl AliasTable {
    /// What holds of every table: each of its entries can be stored.
    #[verifier::type_invariant]
    pub open spec fn well_formed(self) -> bool {
        valid_table(self@)
    }

    /// The table without entries.
    pub fn new() -> (table: AliasTable)
        ensures
            table@ == Seq::<EntryView>::empty(),
    {
        let table = AliasTable { entries: Vec::new() };
        assert(table@ == Seq::<EntryView>::empty());
        table
    }

    /// The number of entries.
    pub fn len(&self) -> (n: usize)
        ensures
            n == self@.len(),
    {
        self.entries.len()
    }

    /// Whether an entry answers to `name`.
    pub fn contains(&self, name: &str) -> (found: bool)
        ensures
            found == has_name(self@, name@),
    {
        let name = chars_of(name);
        match first_answer(&self.entries, &name) {
            Some(i) => {
                assert(self@[i as int] == self.entries@[i as int]@);
                true
            },
            None => {
                assert forall|j: int| 0 <= j < self@.len() implies !answers_to(
                    #[trigger] self@[j],
                    name@,
                ) by {
                    assert(self@[j] == self.entries@[j]@);
                }
                false
            },
        }
    }

    /// The command stored under `name`: what follows the name and the delimiter on the
    /// line of the first entry that answers to `name`.
    pub fn get(&self, name: &str) -> (r: Option<String>)
        ensures
            match r {
                Some(command) => lookup(self@, name@) == Some(command@),
                None => lookup(self@, name@) is None,
            },
    {
        let name = chars_of(name);
        match first_answer(&self.entries, &name) {
            Some(i) => {
                let line = self.entries[i].line();
                proof {
                    assert forall|j: int| 0 <= j < i implies !answers_to(
                        #[trigger] self@[j],
                        name@,
                    ) by {
                        assert(self@[j] == self.entries@[j]@);
                    }
                    assert(self@[i as int] == self.entries@[i as int]@);
                    lemma_lookup_first(self@, name@, i as int);
                }
                Some(string_of(&line, name.len() + 2, line.len()))
            },
            None => {
                proof {
                    assert forall|j: int| 0 <= j < self@.len() implies !answers_to(
                        #[trigger] self@[j],
                        name@,
                    ) by {
                        assert(self@[j] == self.entries@[j]@);
                    }
                    lemma_lookup_none(self@, name@);
                }
                None
            },
        }
    }

    /// The entries in their order.
    pub fn entries(&self) -> (entries: &Vec<AliasEntry>)
        ensures
            views(entries@) == self@,
    {
        &self.entries
    }

    /// Takes out every entry that answers to `name`. Says whether there was one; a
    /// table without such an entry stays as it is.
    pub fn delete(&mut self, name: &str) -> (removed: bool)
        ensures
            final(self)@ == without(old(self)@, name@),
            removed == has_name(old(self)@, name@),
            !removed ==> final(self)@ == old(self)@,
            !has_name(final(self)@, name@),
            valid_table(final(self)@),
    {
        proof {
            use_type_invariant(&*self);
            lemma_without_valid(self@, name@);
            lemma_without_gone(self@, name@);
            if !has_name(self@, name@) {
                lemma_without_absent(self@, name@);
            }
        }
        let (kept, removed) = remaining(&self.entries, name);
        self.entries = kept;
        removed
    }

    /// Stores `entry`: every entry that answers to its name leaves first, and `entry`
    /// goes to the end. Its name then gives its command.
    pub fn put(&mut self, entry: AliasEntry)
        ensures
            final(self)@ == with_entry(old(self)@, entry@),
            lookup(final(self)@, entry@.name) == Some(entry@.command),
            valid_table(final(self)@),
    {
        proof {
            use_type_invariant(&*self);
            use_type_invariant(&entry);
            lemma_without_valid(self@, entry@.name);
            lemma_push_valid(without(self@, entry@.name), entry@);
            lemma_lookup_stored_entry(self@, entry@);
        }
        let (mut kept, _) = remaining(&self.entries, entry.name());
        let ghost before = kept@;
        kept.push(entry);
        assert(views(kept@) == views(before).push(entry@));
        self.entries = kept;
    }

    /// Reads a stored text: each line with a delimiter is a record, its name what stands
    /// before the first delimiter and its command what follows it. Other lines are passed
    /// over.
    pub fn parse(text: &str) -> (table: AliasTable)
        ensures
            table@ == table_of_text(text@),
            valid_table(table@),
    {
        let chars = chars_of(text);
        let mut entries: Vec<AliasEntry> = Vec::new();
        let ghost mut done: Seq<Seq<char>> = Seq::empty();
        let mut start: usize = 0;
        proof {
            assert(text@.skip(0) == text@);
            assert(done + split_lines(text@) == split_lines(text@));
            assert(views(entries@) == Seq::<EntryView>::empty());
        }
        loop
            invariant
                chars@ == text@,
                start <= chars.len(),
                split_lines(text@) == done + split_lines(text@.skip(start as int)),
                views(entries@) == table_of_lines(done),
                valid_table(views(entries@)),
            decreases chars.len() - start,
        {
            let ghost rest = text@.skip(start as int);
            let end = find_line_end(&chars, start);
            let d = find_delimiter(&chars, start, end);
            let ghost line = text@.subrange(start as int, end as int);
            proof {
                if end < chars.len() {
                    assert(rest.take(end - start) == line);
                    assert(rest.skip(end - start + 1) == text@.skip(end + 1));
                    assert(done + (seq![line] + split_lines(text@.skip(end + 1))) == done.push(
                        line,
                    ) + split_lines(text@.skip(end + 1)));
                } else {
                    assert(rest == line);
                    assert(done + seq![line] == done.push(line));
                }
                assert(done.push(line).drop_last() == done);
                lemma_delimiter_found(line);
            }
            if d < end {
                let name = string_of(&chars, start, d);
                let command = string_of(&chars, d + 2, end);
                proof {
                    assert(name@ == line.take(d - start));
                    assert(command@ == line.skip(d - start + 2));
                    assert forall|j: int| !is_delimiter(name@, j) by {
                        if is_delimiter(name@, j) {
                            assert(is_delimiter(line, j));
                        }
                    }
                    assert forall|j: int| 0 <= j < name@.len() implies name@[j] != '\n' by {
                        assert(name@[j] == chars@[start + j]);
                    }
                    assert forall|j: int| 0 <= j < command@.len() implies command@[j] != '\n' by {
                        assert(command@[j] == chars@[d + 2 + j]);
                    }
                }
                let ghost record = EntryView { name: name@, command: command@ };
                assert(record_of(line) == Some(record));
                let entry = AliasEntry { name, command };
                let ghost before = entries@;
                proof {
                    lemma_push_valid(views(before), entry@);
                }
                entries.push(entry);
                assert(views(entries@) == views(before).push(record));
            } else {
                assert(record_of(line) is None);
            }
            proof {
                done = done.push(line);
            }
            if end == chars.len() {
                return AliasTable { entries };
            }
            start = end + 1;
        }
    }

    /// The text that stores the table: for each entry, in order, its name, `::`, its
    /// command and a line break.
    pub fn serialize(&self) -> (text: String)
        ensures
            text@ == text_of_table(self@),
    {
        let mut text = String::new();
        let mut i: usize = 0;
        proof {
            assert(self@.skip(0) == self@);
            assert(text@ + text_of_table(self@) == text_of_table(self@));
        }
        while i < self.entries.len()
            invariant
                i <= self.entries.len(),
                text@ + text_of_table(self@.skip(i as int)) == text_of_table(self@),
            decreases self.entries.len() - i,
        {
            let ghost before = text@;
            let ghost e = self@[i as int];
            proof {
                reveal_strlit("::");
                assert(self@.skip(i as int).drop_first() == self@.skip(i + 1));
                assert(self@.skip(i as int)[0] == e);
                assert("::"@ == seq![':', ':']);
            }
            text.append(self.entries[i].name());
            text.append("::");
            text.append(self.entries[i].command());
            text.push('\n');
            proof {
                assert(text@ == before + (record_line(e) + seq!['\n']));
                assert(text@ + text_of_table(self@.skip(i + 1)) == before + text_of_table(
                    self@.skip(i as int),
                ));
            }
            i += 1;
        }
        assert(text_of_table(self@.skip(i as int)) == Seq::<char>::empty());
        assert(text@ + Seq::<char>::empty() == text@);
        text
    }
}

/// The place of the first entry that answers to `name`, if there is one.
fn first_answer(entries: &Vec<AliasEntry>, name: &Vec<char>) -> (r: Option<usize>)
    ensures
        match r {
            Some(i) => i < entries.len() && answers_to(entries@[i as int]@, name@) && forall|
                j: int,
            |
                0 <= j < i ==> !answers_to(#[trigger] entries@[j]@, name@),
            None => forall|j: int|
                0 <= j < entries.len() ==> !answers_to(#[trigger] entries@[j]@, name@),
        },
{
    let mut i: usize = 0;
    while i < entries.len()
        invariant
            i <= entries.len(),
            forall|j: int| 0 <= j < i ==> !answers_to(#[trigger] entries@[j]@, name@),
        decreases entries.len() - i,
    {
        let line = entries[i].line();
        if begins_with(&line, name) {
            return Some(i);
        }
        i += 1;
    }
    None
}

/// The entries of `entries` that do not answer to `name`, and whether one did.
fn remaining(entries: &Vec<AliasEntry>, name: &str) -> (r: (Vec<AliasEntry>, bool))
    ensures
        views(r.0@) == without(views(entries@), name@),
        r.1 == has_name(views(entries@), name@),
{
    let target = chars_of(name);
    let mut kept: Vec<AliasEntry> = Vec::new();
    let mut removed = false;
    let mut i: usize = 0;
    proof {
        assert(!has_name(views(entries@.take(0)), name@));
    }
    while i < entries.len()
        invariant
            i <= entries.len(),
            target@ == name@,
            views(kept@) == without(views(entries@.take(i as int)), name@),
            removed == has_name(views(entries@.take(i as int)), name@),
        decreases entries.len() - i,
    {
        let ghost before = views(entries@.take(i as int));
        let ghost now = views(entries@.take(i + 1));
        proof {
            assert(now.drop_last() == before);
            assert(now.last() == entries@[i as int]@);
            lemma_has_name_push(before, entries@[i as int]@, name@);
            assert(now == before.push(entries@[i as int]@));
        }
        let line = entries[i].line();
        if begins_with(&line, &target) {
            removed = true;
        } else {
            let ghost kept_before = kept@;
            kept.push(entries[i].clone());
            assert(views(kept@) == views(kept_before).push(entries@[i as int]@));
        }
        i += 1;
    }
    assert(entries@.take(i as int) == entries@);
    (kept, removed)
}

/// A name is answered in `t.push(e)` just where it is answered in `t` or by `e`.
pub proof fn lemma_has_name_push(t: Seq<EntryView>, e: EntryView, name: Seq<char>)
    ensures
        has_name(t.push(e), name) == (has_name(t, name) || answers_to(e, name)),
{
    if has_name(t, name) {
        let i = choose|i: int| 0 <= i < t.len() && answers_to(#[trigger] t[i], name);
        assert(answers_to(t.push(e)[i], name));
    }
    if answers_to(e, name) {
        assert(answers_to(t.push(e)[t.len() as int], name));
    }
    if has_name(t.push(e), name) {
        let i = choose|i: int| 0 <= i < t.push(e).len() && answers_to(#[trigger] t.push(e)[i], name);
        if i < t.len() {
            assert(answers_to(t[i], name));
        }
    }
}

/// Where no entry answers to a name, nothing is stored under it.
pub proof fn lemma_lookup_none(t: Seq<EntryView>, name: Seq<char>)
    requires
        forall|j: int| 0 <= j < t.len() ==> !answers_to(#[trigger] t[j], name),
    ensures
        lookup(t, name) is None,
    decreases t.len(),
{
    if t.len() > 0 {
        let init = t.drop_last();
        assert forall|j: int| 0 <= j < init.len() implies !answers_to(#[trigger] init[j], name) by {
            assert(init[j] == t[j]);
        }
        lemma_lookup_none(init, name);
        assert(!answers_to(t[t.len() - 1], name));
    }
}

/// What is stored under a name is what the first entry that answers to it gives.
pub proof fn lemma_lookup_first(t: Seq<EntryView>, name: Seq<char>, i: int)
    requires
        0 <= i < t.len(),
        answers_to(t[i], name),
        forall|j: int| 0 <= j < i ==> !answers_to(#[trigger] t[j], name),
    ensures
        lookup(t, name) == Some(command_for(t[i], name)),
    decreases t.len(),
{
    let init = t.drop_last();
    if i == t.len() - 1 {
        assert forall|j: int| 0 <= j < init.len() implies !answers_to(#[trigger] init[j], name) by {
            assert(init[j] == t[j]);
        }
        lemma_lookup_none(init, name);
    } else {
        assert(init[i] == t[i]);
        assert forall|j: int| 0 <= j < i implies !answers_to(#[trigger] init[j], name) by {
            assert(init[j] == t[j]);
        }
        lemma_lookup_first(init, name, i);
    }
}

/// Each entry that is left after a name is taken out was in the table and does not
/// answer to the name.
pub proof fn lemma_without_entries(t: Seq<EntryView>, name: Seq<char>, i: int)
    requires
        0 <= i < without(t, name).len(),
    ensures
        !answers_to(without(t, name)[i], name),
        exists|j: int| 0 <= j < t.len() && t[j] == without(t, name)[i],
    decreases t.len(),
{
    if t.len() > 0 {
        let init = t.drop_last();
        if !answers_to(t.last(), name) && i == without(init, name).len() {
            assert(t[t.len() - 1] == without(t, name)[i]);
        } else {
            lemma_without_entries(init, name, i);
            let j = choose|j: int| 0 <= j < init.len() && init[j] == without(init, name)[i];
            assert(t[j] == without(t, name)[i]);
        }
    }
}

/// After a name is taken out, no entry answers to it.
pub proof fn lemma_without_gone(t: Seq<EntryView>, name: Seq<char>)
    ensures
        !has_name(without(t, name), name),
{
    let kept = without(t, name);
    assert forall|i: int| 0 <= i < kept.len() implies !answers_to(#[trigger] kept[i], name) by {
        lemma_without_entries(t, name, i);
    }
}

/// A valid table with one more valid entry is valid.
pub proof fn lemma_push_valid(t: Seq<EntryView>, e: EntryView)
    requires
        valid_table(t),
        valid_entry(e),
    ensures
        valid_table(t.push(e)),
{
    let u = t.push(e);
    assert forall|i: int| 0 <= i < u.len() implies valid_entry(#[trigger] u[i]) by {
        if i < t.len() {
            assert(valid_entry(t[i]));
        }
    }
}

/// Taking a name out of a valid table leaves a valid table.
pub proof fn lemma_without_valid(t: Seq<EntryView>, name: Seq<char>)
    requires
        valid_table(t),
    ensures
        valid_table(without(t, name)),
{
    let kept = without(t, name);
    assert forall|i: int| 0 <= i < kept.len() implies valid_entry(#[trigger] kept[i]) by {
        lemma_without_entries(t, name, i);
        let j = choose|j: int| 0 <= j < t.len() && t[j] == kept[i];
        assert(valid_entry(t[j]));
    }
}

/// Taking out a name to which no entry answers leaves the table as it is.
pub proof fn lemma_without_absent(t: Seq<EntryView>, name: Seq<char>)
    requires
        !has_name(t, name),
    ensures
        without(t, name) == t,
    decreases t.len(),
{
    if t.len() > 0 {
        lemma_has_name_push(t.drop_last(), t.last(), name);
        assert(t.drop_last().push(t.last()) == t);
        lemma_without_absent(t.drop_last(), name);
    }
}

/// An entry answers to its own name and gives its command for it.
pub proof fn lemma_answers_to_own_name(e: EntryView)
    ensures
        answers_to(e, e.name),
        command_for(e, e.name) == e.command,
{
    let line = record_line(e);
    assert(line.take(e.name.len() as int) == e.name);
    assert(line.skip(e.name.len() as int + 2) == e.command);
}

/// After an entry is stored, its name gives its command.
pub proof fn lemma_lookup_stored_entry(t: Seq<EntryView>, e: EntryView)
    ensures
        lookup(with_entry(t, e), e.name) == Some(e.command),
{
    let kept = without(t, e.name);
    lemma_answers_to_own_name(e);
    assert forall|j: int| 0 <= j < kept.len() implies !answers_to(
        #[trigger] with_entry(t, e)[j],
        e.name,
    ) by {
        lemma_without_entries(t, e.name, j);
    }
    lemma_lookup_first(with_entry(t, e), e.name, kept.len() as int);
}

} // verus!
