use easy_alias::error::ErrorKind;
use easy_alias::resolver::{AddOutcome, AliasResolver, RemoveOutcome, ResolveError};
use easy_alias::subst::SubstitutionMap;
use easy_alias::table::{AliasEntry, AliasTable};

fn entry(name: &str, command: &str) -> AliasEntry {
    AliasEntry::new(name, command).expect("an entry that can be stored")
}

#[test]
fn added_alias_resolves_with_substitutions() {
    let mut resolver = AliasResolver::new(AliasTable::new());
    assert_eq!(resolver.add_or_replace(entry("greet", "echo **n"), false), AddOutcome::Added);
    let subs = SubstitutionMap::parse("n=world").unwrap();
    assert_eq!(resolver.resolve("greet", Some(&subs)), Ok("echo world".to_string()));
}

#[test]
fn confirmed_overwrite_replaces_the_entry() {
    let mut resolver = AliasResolver::new(AliasTable::new());
    assert_eq!(resolver.add_or_replace(entry("greet", "echo hi"), false), AddOutcome::Added);
    assert!(resolver.conflicts("greet"));
    assert_eq!(resolver.add_or_replace(entry("greet", "echo bye"), true), AddOutcome::Replaced);
    assert_eq!(resolver.resolve("greet", None), Ok("echo bye".to_string()));
    let named: Vec<&AliasEntry> =
        resolver.list().entries().iter().filter(|e| e.name() == "greet").collect();
    assert_eq!(named.len(), 1);
    assert_eq!(resolver.list().len(), 1);
}

#[test]
fn declined_overwrite_changes_nothing() {
    let mut resolver = AliasResolver::new(AliasTable::parse("greet::echo hi\nls::ls -l\n"));
    assert_eq!(resolver.add_or_replace(entry("greet", "echo bye"), false), AddOutcome::Cancelled);
    assert_eq!(resolver.resolve("greet", None), Ok("echo hi".to_string()));
    assert_eq!(resolver.into_table().serialize(), "greet::echo hi\nls::ls -l\n");
}

#[test]
fn unknown_alias_is_not_found_and_the_list_is_empty() {
    let resolver = AliasResolver::new(AliasTable::new());
    assert_eq!(resolver.resolve("greet", None), Err(ResolveError::AliasNotFound));
    assert_eq!(resolver.list().len(), 0);
    assert!(resolver.list().entries().is_empty());
    assert!(!resolver.conflicts("greet"));
}

#[test]
fn stored_command_with_marker_needs_substitutions() {
    let resolver = AliasResolver::new(AliasTable::parse("greet::echo **n\n"));
    assert_eq!(
        resolver.resolve("greet", None),
        Err(ResolveError::UnresolvedPlaceholder("echo **n".to_string()))
    );
}

#[test]
fn remove_reports_whether_there_was_an_entry() {
    let mut resolver = AliasResolver::new(AliasTable::parse("a::1\nb::2\n"));
    assert_eq!(resolver.remove("z"), RemoveOutcome::NotFound);
    assert_eq!(resolver.list().serialize(), "a::1\nb::2\n");
    assert_eq!(resolver.remove("a"), RemoveOutcome::Removed);
    assert_eq!(resolver.list().serialize(), "b::2\n");
    assert_eq!(resolver.remove("a"), RemoveOutcome::NotFound);
    assert_eq!(resolver.list().serialize(), "b::2\n");
    assert_eq!(resolver.resolve("a", None), Err(ResolveError::AliasNotFound));
}

#[test]
fn resolve_errors_have_their_kinds() {
    assert_eq!(ResolveError::AliasNotFound.kind(), ErrorKind::AliasNotFound);
    assert_eq!(
        ResolveError::UnresolvedPlaceholder("x".to_string()).kind(),
        ErrorKind::UnresolvedPlaceholder
    );
}

#[test]
fn exit_codes_are_distinct_and_not_zero() {
    let kinds = [
        ErrorKind::Io,
        ErrorKind::AliasNotFound,
        ErrorKind::UnresolvedPlaceholder,
        ErrorKind::InvalidUsage,
        ErrorKind::ChildProcess,
    ];
    for (i, a) in kinds.iter().enumerate() {
        assert_ne!(a.exit_code(), 0);
        for b in kinds.iter().skip(i + 1) {
            assert_ne!(a.exit_code(), b.exit_code());
        }
    }
    assert_eq!(ErrorKind::InvalidUsage.exit_code(), 2);
    assert_eq!(ErrorKind::AliasNotFound.exit_code(), 3);
    assert_eq!(ErrorKind::UnresolvedPlaceholder.exit_code(), 4);
    assert_eq!(ErrorKind::Io.exit_code(), 5);
    assert_eq!(ErrorKind::ChildProcess.exit_code(), 6);
}
