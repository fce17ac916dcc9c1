//! What one invocation asks for, decided from its parsed arguments.

use vstd::prelude::*;
use vstd::string::*;

use crate::error::ErrorKind;
use crate::resolver::{AddOutcome, AliasResolver, ResolveError};
use crate::subst::{
    expand, expansion, owned_subs_view, parse_subs, SubstitutionError, SubstitutionMap,
};
use crate::format::{
    command_in, record_line, records_without, split_lines, taken_in, text_of_lines,
};
use crate::table::{valid_entry, AliasEntry, AliasTable, EntryView};
use crate::table_laws::{
    lemma_added_is_found, lemma_command_in, lemma_removed_is_gone, lemma_taken_in,
    lemma_text_after_add, lemma_text_after_remove,
};
use crate::text::chars_of;

verus! {

/// The parsed command line of one invocation.
#[derive(Debug, Default)]
pub struct Cli {
    /// The alias to add, remove or run.
    pub alias: Option<String>,
    /// The command to store under the alias.
    pub cmd: Option<String>,
    /// Whether the alias is to be removed.
    pub remove: bool,
    /// Whether the aliases are to be listed.
    pub list: bool,
    /// The raw substitutions, `x=<value>,y=<value>...`.
    pub subs: Option<String>,
}

/// A `Cli` as plain values.
pub struct CliView {
    pub alias: Option<Seq<char>>,
    pub cmd: Option<Seq<char>>,
    pub remove: bool,
    pub list: bool,
    pub subs: Option<Seq<char>>,
}

/// The characters of an optional string.
pub open spec fn opt_view(s: Option<String>) -> Option<Seq<char>> {
    match s {
        Some(s) => Some(s@),
        None => None,
    }
}

impl View for Cli {
    type V = CliView;

    open spec fn view(&self) -> CliView {
        CliView {
            alias: opt_view(self.alias),
            cmd: opt_view(self.cmd),
            remove: self.remove,
            list: self.list,
            subs: opt_view(self.subs),
        }
    }
}

/// The one operation that an invocation performs.
#[derive(Debug, PartialEq, Eq)]
pub enum Request {
    /// Delete the alias.
    Remove { alias: String },
    /// Show the stored aliases.
    List,
    /// Store the command under the alias.
    Add { alias: String, command: String },
    /// Resolve the alias and run its command.
    Run { alias: String, subs: Option<String> },
}

/// A `Request` as plain values.
pub enum RequestView {
    Remove { alias: Seq<char> },
    List,
    Add { alias: Seq<char>, command: Seq<char> },
    Run { alias: Seq<char>, subs: Option<Seq<char>> },
}

impl View for Request {
    type V = RequestView;

    open spec fn view(&self) -> RequestView {
        match *self {
            Request::Remove { alias } => RequestView::Remove { alias: alias@ },
            Request::List => RequestView::List,
            Request::Add { alias, command } => RequestView::Add {
                alias: alias@,
                command: command@,
            },
            Request::Run { alias, subs } => RequestView::Run { alias: alias@, subs: opt_view(subs) },
        }
    }
}

/// Arguments that cannot be acted on.
#[derive(Debug, Clone, Copy, PartialEq, Eq, Structural)]
pub enum UsageError {
    /// Removal was asked for and no alias given.
    NoAliasToRemove,
    /// No alias was given where one is needed.
    NoOperation,
    /// The alias holds `::` or a line break, or the command a line break.
    InvalidEntry,
    /// A field of the substitutions is empty and so has no key.
    MalformedSubstitutions,
}

/// Why an invocation failed before anything was run.
#[derive(Debug, PartialEq, Eq)]
pub enum CliError {
    /// The arguments cannot be acted on.
    Usage(UsageError),
    /// No alias of the name is stored.
    AliasNotFound,
    /// The stored command holds `**` and no substitutions were given; carries the command.
    UnresolvedPlaceholder(String),
}

/// A `CliError` as plain values.
pub enum Failure {
    Usage(UsageError),
    AliasNotFound,
    Unresolved(Seq<char>),
}

impl View for CliError {
    type V = Failure;

    open spec fn view(&self) -> Failure {
        match *self {
            CliError::Usage(e) => Failure::Usage(e),
            CliError::AliasNotFound => Failure::AliasNotFound,
            CliError::UnresolvedPlaceholder(command) => Failure::Unresolved(command@),
        }
    }
}

/// What a failure tells the user.
pub open spec fn message_of(failure: Failure) -> Seq<char> {
    match failure {
        Failure::Usage(UsageError::NoAliasToRemove) => "Error! Please provide an alias to remove."@,
        Failure::Usage(UsageError::NoOperation) => "Invalid input. Try using the -h or --help flags."@,
        Failure::Usage(UsageError::InvalidEntry) =>
            "Error! An alias cannot hold '::' or a line break, nor a command a line break."@,
        Failure::Usage(UsageError::MalformedSubstitutions) =>
            "Error! Each substitution needs a key, in the form x=<value>."@,
        Failure::AliasNotFound => "Alias not found! List aliases with the -l flag."@,
        Failure::Unresolved(command) =>
            "Error!\nThere are substitutions you must make for any variables following **\nThe command for this alias is: "@
                + command,
    }
}

/// What is shown for a failure: its message, and for an alias that was not found the
/// stored text below it, to choose from.
pub open spec fn report_of(failure: Failure, config: Seq<char>) -> Seq<char> {
    match failure {
        Failure::AliasNotFound => message_of(failure) + "\n"@ + config,
        _ => message_of(failure),
    }
}

/// The kind of a failure.
pub open spec fn kind_of(failure: Failure) -> ErrorKind {
    match failure {
        Failure::Usage(_) => ErrorKind::InvalidUsage,
        Failure::AliasNotFound => ErrorKind::AliasNotFound,
        Failure::Unresolved(_) => ErrorKind::UnresolvedPlaceholder,
    }
}

impl CliError {
    /// What is shown for this failure, `config` being the stored text: the message, and
    /// for an alias that was not found the stored text on the lines below it.
    pub fn report(&self, config: &str) -> (report: String)
        ensures
            report@ == report_of(self@, config@),
    {
        let mut report = self.message();
        match self {
            CliError::AliasNotFound => {
                report.append("\n");
                report.append(config);
            },
            _ => {},
        }
        report
    }

    /// The kind of failure that this is.
    pub fn kind(&self) -> (kind: ErrorKind)
        ensures
            kind == kind_of(self@),
    {
        match self {
            CliError::Usage(_) => ErrorKind::InvalidUsage,
            CliError::AliasNotFound => ErrorKind::AliasNotFound,
            CliError::UnresolvedPlaceholder(_) => ErrorKind::UnresolvedPlaceholder,
        }
    }

    /// What this failure tells the user.
    pub fn message(&self) -> (message: String)
        ensures
            message@ == message_of(self@),
    {
        match self {
            CliError::Usage(UsageError::NoAliasToRemove) => {
                "Error! Please provide an alias to remove.".to_owned()
            },
            CliError::Usage(UsageError::NoOperation) => {
                "Invalid input. Try using the -h or --help flags.".to_owned()
            },
            CliError::Usage(UsageError::InvalidEntry) => {
                "Error! An alias cannot hold '::' or a line break, nor a command a line break.".to_owned()
            },
            CliError::Usage(UsageError::MalformedSubstitutions) => {
                "Error! Each substitution needs a key, in the form x=<value>.".to_owned()
            },
            CliError::AliasNotFound => "Alias not found! List aliases with the -l flag.".to_owned(),
            CliError::UnresolvedPlaceholder(command) => {
                let mut message =
                    "Error!\nThere are substitutions you must make for any variables following **\nThe command for this alias is: ".to_owned();
                message.append(command.as_str());
                message
            },
        }
    }
}

/// The operation that the arguments ask for. Removal goes before listing, listing before
/// adding, and an alias alone is run.
pub open spec fn requested(cli: CliView) -> Result<RequestView, UsageError> {
    if cli.remove {
        match cli.alias {
            Some(alias) => Ok(RequestView::Remove { alias }),
            None => Err(UsageError::NoAliasToRemove),
        }
    } else if cli.list {
        Ok(RequestView::List)
    } else if cli.cmd is Some {
        match cli.alias {
            Some(alias) => Ok(RequestView::Add { alias, command: cli.cmd->0 }),
            None => Err(UsageError::NoOperation),
        }
    } else {
        match cli.alias {
            Some(alias) => Ok(RequestView::Run { alias, subs: cli.subs }),
            None => Err(UsageError::NoOperation),
        }
    }
}

/// An answer to the question whether an existing alias is to be overwritten.
#[derive(Debug, Clone, Copy, PartialEq, Eq, Structural)]
pub enum Answer {
    /// Overwrite: the old entry goes and the new one is added.
    Overwrite,
    /// Leave the table as it is.
    Cancel,
    /// Not an answer: the question is put again.
    AskAgain,
}

/// How a line typed at the prompt is read: `y` or `n`, in either case, each followed by
/// the line's newline.
pub open spec fn answer_of(line: Seq<char>) -> Answer {
    if line.len() == 2 && line[1] == '\n' && (line[0] == 'y' || line[0] == 'Y') {
        Answer::Overwrite
    } else if line.len() == 2 && line[1] == '\n' && (line[0] == 'n' || line[0] == 'N') {
        Answer::Cancel
    } else {
        Answer::AskAgain
    }
}

/// Reads one line typed at the overwrite prompt.
pub fn read_answer(line: &str) -> (answer: Answer)
    ensures
        answer == answer_of(line@),
{
    let chars = chars_of(line);
    if chars.len() != 2 || chars[1] != '\n' {
        Answer::AskAgain
    } else if chars[0] == 'y' || chars[0] == 'Y' {
        Answer::Overwrite
    } else if chars[0] == 'n' || chars[0] == 'N' {
        Answer::Cancel
    } else {
        Answer::AskAgain
    }
}

/// What is to be done next while an alias is added.
#[derive(Debug, PartialEq, Eq)]
pub enum AddStep {
    /// Ask whether the existing alias is to be overwritten, and come back with the answer.
    Ask,
    /// Write this text as the new stored table; the alias is then added.
    Store(String),
    /// Leave the stored table as it is: overwriting was declined.
    Stop,
    /// Report the failure; nothing is written.
    Fail(CliError),
}

/// An `AddStep` as plain values.
pub enum AddStepView {
    Ask,
    Store(Seq<char>),
    Stop,
    Fail(Failure),
}

impl View for AddStep {
    type V = AddStepView;

    open spec fn view(&self) -> AddStepView {
        match *self {
            AddStep::Ask => AddStepView::Ask,
            AddStep::Store(text) => AddStepView::Store(text@),
            AddStep::Stop => AddStepView::Stop,
            AddStep::Fail(e) => AddStepView::Fail(e@),
        }
    }
}

/// The substitutions that an invocation gives: none, or the map that its raw argument
/// means. An argument that means none is a usage error.
pub open spec fn given_subs(raw: Option<Seq<char>>) -> Result<
    Option<Map<char, Seq<char>>>,
    Failure,
> {
    match raw {
        None => Ok(None),
        Some(raw) => match parse_subs(raw) {
            Some(subs) => Ok(Some(subs)),
            None => Err(Failure::Usage(UsageError::MalformedSubstitutions)),
        },
    }
}

/// What `line` expands to under raw substitutions.
pub open spec fn expanded(line: Seq<char>, raw: Option<Seq<char>>) -> Result<Seq<char>, Failure> {
    match given_subs(raw) {
        Err(failure) => Err(failure),
        Ok(subs) => match expansion(line, subs) {
            Some(out) => Ok(out),
            None => Err(Failure::Unresolved(line)),
        },
    }
}

/// The command that an invocation runs, given the stored text: what follows the alias
/// and the delimiter on the first line that begins with them, its placeholders filled
/// in. The substitutions are read before the alias is looked up, and an alias with
/// which no line begins is not found.
pub open spec fn full_cmd(cli: CliView, config: Seq<char>) -> Result<Seq<char>, Failure> {
    match cli.alias {
        None => Err(Failure::Usage(UsageError::NoOperation)),
        Some(alias) => match given_subs(cli.subs) {
            Err(failure) => Err(failure),
            Ok(subs) => match command_in(config, alias) {
                None => Err(Failure::AliasNotFound),
                Some(command) => match expansion(command, subs) {
                    Some(out) => Ok(out),
                    None => Err(Failure::Unresolved(command)),
                },
            },
        },
    }
}

/// The entry that an invocation adds: its alias bound to its command, where both are
/// given and can be stored.
pub open spec fn given_entry(cli: CliView) -> Result<EntryView, Failure> {
    if cli.alias is Some && cli.cmd is Some {
        let e = EntryView { name: cli.alias->0, command: cli.cmd->0 };
        if valid_entry(e) {
            Ok(e)
        } else {
            Err(Failure::Usage(UsageError::InvalidEntry))
        }
    } else {
        Err(Failure::Usage(UsageError::NoOperation))
    }
}

/// The stored text after an invocation's alias is added: the lines of the old text that
/// hold a record and do not begin with the alias and the delimiter, each as it was, and
/// behind them the line of the new entry; each line closed by a line break.
pub open spec fn config_with_alias(cli: CliView, config: Seq<char>) -> Result<Seq<char>, Failure> {
    match given_entry(cli) {
        Err(failure) => Err(failure),
        Ok(e) => Ok(
            text_of_lines(records_without(split_lines(config), e.name).push(record_line(e))),
        ),
    }
}

/// The stored text after an invocation's alias is removed: the lines of the old text
/// that hold a record and do not begin with the alias and the delimiter, each as it
/// was and closed by a line break.
pub open spec fn config_without_alias(cli: CliView, config: Seq<char>) -> Result<
    Seq<char>,
    Failure,
> {
    match cli.alias {
        None => Err(Failure::Usage(UsageError::NoAliasToRemove)),
        Some(alias) => Ok(text_of_lines(records_without(split_lines(config), alias))),
    }
}

/// A line of the stored text begins with the invocation's alias and the delimiter.
pub open spec fn alias_taken(cli: CliView, config: Seq<char>) -> bool {
    cli.alias matches Some(alias) && taken_in(config, alias)
}

/// The first step of adding an invocation's alias: what cannot be stored fails, a taken
/// name is asked about, and a new name is stored at once.
pub open spec fn first_add_step(cli: CliView, config: Seq<char>) -> AddStepView {
    match config_with_alias(cli, config) {
        Err(failure) => AddStepView::Fail(failure),
        Ok(text) => if alias_taken(cli, config) {
            AddStepView::Ask
        } else {
            AddStepView::Store(text)
        },
    }
}

/// The step that follows the answer `line` to the overwrite question.
pub open spec fn add_step_after(cli: CliView, config: Seq<char>, line: Seq<char>) -> AddStepView {
    match answer_of(line) {
        Answer::AskAgain => AddStepView::Ask,
        Answer::Cancel => AddStepView::Stop,
        Answer::Overwrite => match config_with_alias(cli, config) {
            Err(failure) => AddStepView::Fail(failure),
            Ok(text) => AddStepView::Store(text),
        },
    }
}

impl Cli {
    /// Decides which operation this invocation performs.
    pub fn request(&self) -> (r: Result<Request, UsageError>)
        ensures
            match r {
                Ok(request) => requested(self@) == Ok::<RequestView, UsageError>(request@),
                Err(e) => requested(self@) == Err::<RequestView, UsageError>(e),
            },
    {
        if self.remove {
            match &self.alias {
                Some(alias) => Ok(Request::Remove { alias: alias.clone() }),
                None => Err(UsageError::NoAliasToRemove),
            }
        } else if self.list {
            Ok(Request::List)
        } else if let Some(command) = &self.cmd {
            match &self.alias {
                Some(alias) => Ok(Request::Add { alias: alias.clone(), command: command.clone() }),
                None => Err(UsageError::NoOperation),
            }
        } else {
            match &self.alias {
                Some(alias) => Ok(Request::Run { alias: alias.clone(), subs: self.subs.clone() }),
                None => Err(UsageError::NoOperation),
            }
        }
    }

    /// Whether this invocation's alias is taken: whether a line of the stored text
    /// `config` begins with the alias and the delimiter.
    pub fn alias_exists(&self, config: &str) -> (found: bool)
        ensures
            found == alias_taken(self@, config@),
    {
        match &self.alias {
            Some(alias) => {
                proof {
                    lemma_taken_in(config@, alias@);
                }
                AliasResolver::new(AliasTable::parse(config)).conflicts(alias.as_str())
            },
            None => false,
        }
    }

    /// Reads this invocation's substitutions, if it has any.
    pub fn substitutions(&self) -> (r: Result<Option<SubstitutionMap>, CliError>)
        ensures
            match r {
                Ok(subs) => given_subs(self@.subs) == Ok::<Option<Map<char, Seq<char>>>, Failure>(
                    owned_subs_view(subs),
                ),
                Err(e) => given_subs(self@.subs) == Err::<Option<Map<char, Seq<char>>>, Failure>(
                    e@,
                ),
            },
    {
        match &self.subs {
            None => Ok(None),
            Some(raw) => match SubstitutionMap::parse(raw.as_str()) {
                Some(subs) => Ok(Some(subs)),
                None => Err(CliError::Usage(UsageError::MalformedSubstitutions)),
            },
        }
    }

    /// Fills the placeholders of `line` from this invocation's substitutions.
    pub fn expand_subs(&self, line: &str) -> (r: Result<String, CliError>)
        ensures
            match r {
                Ok(out) => expanded(line@, self@.subs) == Ok::<Seq<char>, Failure>(out@),
                Err(e) => expanded(line@, self@.subs) == Err::<Seq<char>, Failure>(e@),
            },
    {
        match self.substitutions() {
            Err(e) => Err(e),
            Ok(subs) => match expand(line, subs.as_ref()) {
                Ok(out) => Ok(out),
                Err(SubstitutionError::UnresolvedPlaceholder(t)) => Err(
                    CliError::UnresolvedPlaceholder(t),
                ),
            },
        }
    }

    /// The command to run: what follows this invocation's alias and the delimiter on the
    /// first line of the stored text `config` that begins with them, its placeholders
    /// filled from the substitutions.
    pub fn get_full_cmd(&self, config: &str) -> (r: Result<String, CliError>)
        ensures
            match r {
                Ok(command) => full_cmd(self@, config@) == Ok::<Seq<char>, Failure>(command@),
                Err(e) => full_cmd(self@, config@) == Err::<Seq<char>, Failure>(e@),
            },
    {
        let alias = match &self.alias {
            None => return Err(CliError::Usage(UsageError::NoOperation)),
            Some(alias) => alias,
        };
        let subs = match self.substitutions() {
            Err(e) => return Err(e),
            Ok(subs) => subs,
        };
        let resolver = AliasResolver::new(AliasTable::parse(config));
        proof {
            lemma_command_in(config@, alias@);
        }
        match resolver.resolve(alias.as_str(), subs.as_ref()) {
            Ok(command) => Ok(command),
            Err(ResolveError::AliasNotFound) => Err(CliError::AliasNotFound),
            Err(ResolveError::UnresolvedPlaceholder(command)) => Err(
                CliError::UnresolvedPlaceholder(command),
            ),
        }
    }

    /// The entry that this invocation adds.
    pub fn entry(&self) -> (r: Result<AliasEntry, CliError>)
        ensures
            match r {
                Ok(entry) => given_entry(self@) == Ok::<EntryView, Failure>(entry@),
                Err(e) => given_entry(self@) == Err::<EntryView, Failure>(e@),
            },
    {
        match (&self.alias, &self.cmd) {
            (Some(alias), Some(command)) => match AliasEntry::new(
                alias.as_str(),
                command.as_str(),
            ) {
                Some(entry) => Ok(entry),
                None => Err(CliError::Usage(UsageError::InvalidEntry)),
            },
            _ => Err(CliError::Usage(UsageError::NoOperation)),
        }
    }

    /// The stored text after this invocation's alias is added to `config`: every line
    /// that begins with the alias and the delimiter leaves, the other records stay as they
    /// are, and the new record goes to the end. The alias is then taken and gives the
    /// new command.
    pub fn add_alias(&self, config: &str) -> (r: Result<String, CliError>)
        ensures
            match r {
                Ok(text) => config_with_alias(self@, config@) == Ok::<Seq<char>, Failure>(text@),
                Err(e) => config_with_alias(self@, config@) == Err::<Seq<char>, Failure>(e@),
            },
            r matches Ok(text) ==> alias_taken(self@, text@) && command_in(
                text@,
                self@.alias->0,
            ) == self@.cmd,
    {
        match self.entry() {
            Err(e) => Err(e),
            Ok(entry) => {
                let mut resolver = AliasResolver::new(AliasTable::parse(config));
                proof {
                    lemma_text_after_add(config@, entry@);
                    lemma_added_is_found(config@, entry@);
                }
                resolver.add_or_replace(entry, true);
                Ok(resolver.list().serialize())
            },
        }
    }

    /// The first step of adding this invocation's alias to `config`: what cannot be
    /// stored fails, a taken name is asked about, and a new name is stored at once.
    pub fn start_add(&self, config: &str) -> (step: AddStep)
        ensures
            step@ == first_add_step(self@, config@),
    {
        match self.entry() {
            Err(e) => AddStep::Fail(e),
            Ok(entry) => {
                let mut resolver = AliasResolver::new(AliasTable::parse(config));
                proof {
                    lemma_text_after_add(config@, entry@);
                    lemma_taken_in(config@, entry@.name);
                }
                match resolver.add_or_replace(entry, false) {
                    AddOutcome::Cancelled => AddStep::Ask,
                    _ => AddStep::Store(resolver.list().serialize()),
                }
            },
        }
    }

    /// The step after the user answered the overwrite question with `line`: on `y` the
    /// new text is stored, on `n` nothing is, and anything else is asked about again.
    pub fn answer_add(&self, config: &str, line: &str) -> (step: AddStep)
        ensures
            step@ == add_step_after(self@, config@, line@),
    {
        match read_answer(line) {
            Answer::AskAgain => AddStep::Ask,
            Answer::Cancel => AddStep::Stop,
            Answer::Overwrite => match self.add_alias(config) {
                Err(e) => AddStep::Fail(e),
                Ok(text) => AddStep::Store(text),
            },
        }
    }

    /// The stored text after this invocation's alias is removed from `config`: every
    /// line that begins with the alias and the delimiter leaves, and the other records
    /// stay as they are. The alias is then not taken.
    pub fn remove_alias(&self, config: &str) -> (r: Result<String, CliError>)
        ensures
            match r {
                Ok(text) => config_without_alias(self@, config@) == Ok::<Seq<char>, Failure>(
                    text@,
                ),
                Err(e) => config_without_alias(self@, config@) == Err::<Seq<char>, Failure>(e@),
            },
            r matches Ok(text) ==> !alias_taken(self@, text@),
    {
        match &self.alias {
            None => Err(CliError::Usage(UsageError::NoAliasToRemove)),
            Some(alias) => {
                let mut resolver = AliasResolver::new(AliasTable::parse(config));
                proof {
                    lemma_text_after_remove(config@, alias@);
                    lemma_removed_is_gone(config@, alias@);
                }
                resolver.remove(alias.as_str());
                Ok(resolver.list().serialize())
            },
        }
    }
}

/// What listing shows: where the aliases are stored, and the stored text as it is.
pub open spec fn listing_of(path: Seq<char>, config: Seq<char>) -> Seq<char> {
    "Aliases stored at "@ + path + ":\n\n"@ + config + "\n"@
}

/// What listing shows for the text `config` stored at `path`.
pub fn listing(path: &str, config: &str) -> (out: String)
    ensures
        out@ == listing_of(path@, config@),
{
    let mut out = "Aliases stored at ".to_owned();
    out.append(path);
    out.append(":\n\n");
    out.append(config);
    out.append("\n");
    out
}

} // verus!
