//! Adding, removing and resolving aliases on a table.

use vstd::prelude::*;
use vstd::string::*;

use crate::error::ErrorKind;
use crate::subst::{expand, expansion, subs_view, SubstitutionError, SubstitutionMap};
use crate::table::{
    has_name, lemma_without_absent, lookup, valid_table, with_entry, without, AliasEntry,
    AliasTable, EntryView,
};

verus! {

/// How an attempt to add an alias ended.
#[derive(Debug, Clone, Copy, PartialEq, Eq, Structural)]
pub enum AddOutcome {
    /// The name was new and the entry was added.
    Added,
    /// The name was taken; the old entry left and the new one was added.
    Replaced,
    /// The name was taken and the table was left as it was.
    Cancelled,
}

/// How an attempt to remove an alias ended.
#[derive(Debug, Clone, Copy, PartialEq, Eq, Structural)]
pub enum RemoveOutcome {
    /// The entry was taken out.
    Removed,
    /// No entry had the name; nothing changed.
    NotFound,
}

/// Why an alias could not be resolved.
#[derive(Debug, PartialEq, Eq)]
pub enum ResolveError {
    /// No entry answers to the name.
    AliasNotFound,
    /// The stored command holds `**` and no substitutions were given; carries the command.
    UnresolvedPlaceholder(String),
}

impl ResolveError {
    /// The kind of failure that this is.
    pub fn kind(&self) -> (kind: ErrorKind)
        ensures
            kind == match *self {
                ResolveError::AliasNotFound => ErrorKind::AliasNotFound,
                ResolveError::UnresolvedPlaceholder(_) => ErrorKind::UnresolvedPlaceholder,
            },
    {
        match self {
            ResolveError::AliasNotFound => ErrorKind::AliasNotFound,
            ResolveError::UnresolvedPlaceholder(_) => ErrorKind::UnresolvedPlaceholder,
        }
    }
}

/// The table after an attempt to add `e`: as before where the name is taken and
/// overwriting was declined, else with `e` stored.
pub open spec fn after_add(t: Seq<EntryView>, e: EntryView, overwrite: bool) -> Seq<EntryView> {
    if has_name(t, e.name) && !overwrite {
        t
    } else {
        with_entry(t, e)
    }
}

/// How an attempt to add an entry named `name` ends.
pub open spec fn add_outcome(t: Seq<EntryView>, name: Seq<char>, overwrite: bool) -> AddOutcome {
    if !has_name(t, name) {
        AddOutcome::Added
    } else if overwrite {
        AddOutcome::Replaced
    } else {
        AddOutcome::Cancelled
    }
}

/// What resolving `name` gives: the stored command, expanded.
pub enum Resolution {
    /// The command to run.
    Command(Seq<char>),
    /// No entry answers to the name.
    NotFound,
    /// The stored command, which holds `**` while no substitutions were given.
    Unresolved(Seq<char>),
}

/// What resolving `name` on `t` gives.
pub open spec fn resolution(
    t: Seq<EntryView>,
    name: Seq<char>,
    subs: Option<Map<char, Seq<char>>>,
) -> Resolution {
    match lookup(t, name) {
        None => Resolution::NotFound,
        Some(command) => match expansion(command, subs) {
            Some(out) => Resolution::Command(out),
            None => Resolution::Unresolved(command),
        },
    }
}

/// Looks aliases up in a table and changes it.
#[derive(Debug, PartialEq, Eq)]
pub struct AliasResolver {
    table: AliasTable,
}

impl View for AliasResolver {
    type V = Seq<EntryView>;

    closed spec fn view(&self) -> Seq<EntryView> {
        self.table@
    }
}

impl AliasResolver {
    /// A resolver on `table`.
    pub fn new(table: AliasTable) -> (resolver: AliasResolver)
        ensures
            resolver@ == table@,
    {
        AliasResolver { table }
    }

    /// Whether adding an alias named `name` needs the caller's word to overwrite: whether
    /// an entry answers to `name`.
    pub fn conflicts(&self, name: &str) -> (taken: bool)
        ensures
            taken == has_name(self@, name@),
    {
        self.table.contains(name)
    }

    /// Adds `entry`. Where an entry answers to its name, `overwrite` decides: with it
    /// every such entry leaves and the new one goes to the end, without it nothing
    /// changes. Unless nothing changed, the name then gives the new command.
    pub fn add_or_replace(&mut self, entry: AliasEntry, overwrite: bool) -> (outcome: AddOutcome)
        ensures
            final(self)@ == after_add(old(self)@, entry@, overwrite),
            outcome == add_outcome(old(self)@, entry@.name, overwrite),
            outcome == AddOutcome::Added ==> final(self)@ == old(self)@.push(entry@),
            outcome != AddOutcome::Cancelled ==> lookup(final(self)@, entry@.name) == Some(
                entry@.command,
            ),
            valid_table(final(self)@),
    {
        proof {
            use_type_invariant(&self.table);
        }
        let taken = self.table.contains(entry.name());
        if taken && !overwrite {
            return AddOutcome::Cancelled;
        }
        proof {
            if !taken {
                lemma_without_absent(self@, entry@.name);
            }
        }
        self.table.put(entry);
        if taken {
            AddOutcome::Replaced
        } else {
            AddOutcome::Added
        }
    }

    /// Removes the alias `name`: every entry that answers to it leaves. Where there is
    /// none, nothing changes.
    pub fn remove(&mut self, name: &str) -> (outcome: RemoveOutcome)
        ensures
            final(self)@ == without(old(self)@, name@),
            !has_name(final(self)@, name@),
            outcome == if has_name(old(self)@, name@) {
                RemoveOutcome::Removed
            } else {
                RemoveOutcome::NotFound
            },
            outcome == RemoveOutcome::NotFound ==> final(self)@ == old(self)@,
            valid_table(final(self)@),
    {
        if self.table.delete(name) {
            RemoveOutcome::Removed
        } else {
            RemoveOutcome::NotFound
        }
    }

    /// The command that `name` stands for, its placeholders filled from `subs`.
    pub fn resolve(&self, name: &str, subs: Option<&SubstitutionMap>) -> (r: Result<
        String,
        ResolveError,
    >)
        ensures
            match r {
                Ok(command) => resolution(self@, name@, subs_view(subs)) == Resolution::Command(
                    command@,
                ),
                Err(ResolveError::AliasNotFound) => resolution(self@, name@, subs_view(subs))
                    == Resolution::NotFound,
                Err(ResolveError::UnresolvedPlaceholder(command)) => resolution(
                    self@,
                    name@,
                    subs_view(subs),
                ) == Resolution::Unresolved(command@),
            },
    {
        match self.table.get(name) {
            None => Err(ResolveError::AliasNotFound),
            Some(command) => match expand(command.as_str(), subs) {
                Ok(out) => Ok(out),
                Err(SubstitutionError::UnresolvedPlaceholder(t)) => Err(
                    ResolveError::UnresolvedPlaceholder(t),
                ),
            },
        }
    }

    /// The table, for display.
    pub fn list(&self) -> (table: &AliasTable)
        ensures
            table@ == self@,
    {
        &self.table
    }

    /// Gives the table back.
    pub fn into_table(self) -> (table: AliasTable)
        ensures
            table@ == self@,
    {
        self.table
    }
}

} // verus!
