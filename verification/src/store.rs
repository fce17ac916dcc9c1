//! Where the table is stored, and what a read of that place means.

use vstd::prelude::*;
use vstd::string::*;

use crate::error::ErrorKind;
use crate::format::table_of_text;
use crate::table::{valid_table, AliasTable, EntryView};
use crate::table_laws::lemma_empty_text;

verus! {

/// Where the table of one user is stored.
#[derive(Debug, PartialEq, Eq)]
pub struct StoreConfig {
    /// The user's home directory.
    pub home: String,
}

/// The directory that holds the stored table, for a home directory.
pub open spec fn dir_of(home: Seq<char>) -> Seq<char> {
    home + "/.config"@
}

/// The file that holds the stored table, for a home directory.
pub open spec fn path_of(home: Seq<char>) -> Seq<char> {
    dir_of(home) + "/eaconfig"@
}

/// How an attempt to read the stored table ended.
#[derive(Debug, PartialEq, Eq)]
pub enum ReadOutcome {
    /// The file was read; carries its text.
    Found(String),
    /// There is no file: nothing was stored yet.
    Missing,
    /// The file is there and could not be read.
    Failed,
}

/// The stored text that a read stands for: a missing file stands for the empty text,
/// and a failed read for none.
pub open spec fn text_read(outcome: ReadOutcome) -> Option<Seq<char>> {
    match outcome {
        ReadOutcome::Found(text) => Some(text@),
        ReadOutcome::Missing => Some(Seq::empty()),
        ReadOutcome::Failed => None,
    }
}

impl StoreConfig {
    /// The directory that holds the stored table. It is made before the table is
    /// written, if it is not there.
    pub fn dir(&self) -> (dir: String)
        ensures
            dir@ == dir_of(self.home@),
    {
        let mut dir = self.home.clone();
        dir.append("/.config");
        dir
    }

    /// The file that holds the stored table.
    pub fn path(&self) -> (path: String)
        ensures
            path@ == path_of(self.home@),
    {
        let mut path = self.dir();
        path.append("/eaconfig");
        path
    }
}

impl ReadOutcome {
    /// The stored text. A missing file is no failure: it gives the empty text.
    pub fn into_text(self) -> (r: Result<String, ErrorKind>)
        ensures
            match r {
                Ok(text) => text_read(self) == Some(text@),
                Err(kind) => text_read(self) is None && kind == ErrorKind::Io,
            },
    {
        match self {
            ReadOutcome::Found(text) => Ok(text),
            ReadOutcome::Missing => Ok(String::new()),
            ReadOutcome::Failed => Err(ErrorKind::Io),
        }
    }
}

/// The table that a read gives. A missing file gives the empty table; only a failed
/// read is an error.
pub fn load(outcome: ReadOutcome) -> (r: Result<AliasTable, ErrorKind>)
    ensures
        match r {
            Ok(table) => text_read(outcome) matches Some(text) && table@ == table_of_text(text)
                && valid_table(table@),
            Err(kind) => text_read(outcome) is None && kind == ErrorKind::Io,
        },
        outcome is Missing ==> (r matches Ok(table) && table@ == Seq::<EntryView>::empty()),
{
    match outcome.into_text() {
        Ok(text) => {
            proof {
                lemma_empty_text();
            }
            Ok(AliasTable::parse(text.as_str()))
        },
        Err(kind) => Err(kind),
    }
}

} // verus!
