use easy_alias::table::{AliasEntry, AliasTable};

fn entry(name: &str, command: &str) -> AliasEntry {
    AliasEntry::new(name, command).expect("an entry that can be stored")
}

fn pairs(table: &AliasTable) -> Vec<(String, String)> {
    table
        .entries()
        .iter()
        .map(|e| (e.name().to_string(), e.command().to_string()))
        .collect()
}

fn pair(name: &str, command: &str) -> (String, String) {
    (name.to_string(), command.to_string())
}

#[test]
fn entry_keeps_name_and_command() {
    let e = entry("greet", "echo hi :: there");
    assert_eq!(e.name(), "greet");
    assert_eq!(e.command(), "echo hi :: there");
    assert_eq!(e.clone(), e);
}

#[test]
fn entry_refuses_what_cannot_be_stored() {
    assert!(AliasEntry::new("a::b", "x").is_none());
    assert!(AliasEntry::new("::", "x").is_none());
    assert!(AliasEntry::new("a\nb", "x").is_none());
    assert!(AliasEntry::new("a", "x\ny").is_none());
    assert!(AliasEntry::new("a", "\n").is_none());
    assert!(AliasEntry::new("", "").is_some());
    assert!(AliasEntry::new("a:b", "::").is_some());
    assert!(AliasEntry::new("a:", "x").is_some());
}

#[test]
fn new_table_is_empty() {
    let table = AliasTable::new();
    assert_eq!(table.len(), 0);
    assert_eq!(table.serialize(), "");
    assert!(!table.contains("greet"));
    assert_eq!(table.get("greet").as_deref(), None);
}

#[test]
fn put_appends_in_order() {
    let mut table = AliasTable::new();
    table.put(entry("b", "2"));
    table.put(entry("a", "1"));
    assert_eq!(pairs(&table), vec![pair("b", "2"), pair("a", "1")]);
    assert_eq!(table.serialize(), "b::2\na::1\n");
    assert_eq!(table.get("a").as_deref(), Some("1"));
    assert_eq!(table.get("b").as_deref(), Some("2"));
    assert!(table.contains("a"));
    assert!(!table.contains("c"));
}

#[test]
fn put_of_a_taken_name_moves_it_to_the_end() {
    let mut table = AliasTable::new();
    table.put(entry("a", "1"));
    table.put(entry("b", "2"));
    table.put(entry("a", "3"));
    assert_eq!(pairs(&table), vec![pair("b", "2"), pair("a", "3")]);
    assert_eq!(table.len(), 2);
}

#[test]
fn delete_takes_the_entry_out() {
    let mut table = AliasTable::parse("a::1\nb::2\nc::3\n");
    assert!(table.delete("b"));
    assert_eq!(pairs(&table), vec![pair("a", "1"), pair("c", "3")]);
    assert!(!table.contains("b"));
}

#[test]
fn delete_of_an_unknown_name_changes_nothing() {
    let mut table = AliasTable::parse("a::1\nb::2\n");
    assert!(!table.delete("z"));
    assert_eq!(pairs(&table), vec![pair("a", "1"), pair("b", "2")]);
    assert!(!table.delete("a:"));
    assert!(!table.delete(""));
    assert_eq!(table.serialize(), "a::1\nb::2\n");
}

#[test]
fn names_are_case_sensitive_and_whole() {
    let table = AliasTable::parse("build::make\nbuild2::make all\nBuild::MAKE\n");
    assert_eq!(table.get("build").as_deref(), Some("make"));
    assert_eq!(table.get("build2").as_deref(), Some("make all"));
    assert_eq!(table.get("Build").as_deref(), Some("MAKE"));
    assert_eq!(table.get("buil").as_deref(), None);
}

#[test]
fn parse_splits_at_the_first_delimiter() {
    let table = AliasTable::parse("greet::echo a::b::c\n");
    assert_eq!(pairs(&table), vec![pair("greet", "echo a::b::c")]);
    let colons = AliasTable::parse("a:::x\n");
    assert_eq!(pairs(&colons), vec![pair("a", ":x")]);
}

#[test]
fn parse_passes_over_lines_without_delimiter() {
    let table = AliasTable::parse("\nnot a record\na::1\n\n: :\nb::2");
    assert_eq!(pairs(&table), vec![pair("a", "1"), pair("b", "2")]);
}

#[test]
fn parse_keeps_every_record_and_the_first_answers() {
    let mut table = AliasTable::parse("a::1\nb::2\na::3\n");
    assert_eq!(pairs(&table), vec![pair("a", "1"), pair("b", "2"), pair("a", "3")]);
    assert_eq!(table.get("a").as_deref(), Some("1"));
    assert_eq!(table.serialize(), "a::1\nb::2\na::3\n");
    assert!(table.delete("a"));
    assert_eq!(table.serialize(), "b::2\n");
}

#[test]
fn parse_takes_empty_name_and_empty_command() {
    let table = AliasTable::parse("::\nx::\n");
    assert_eq!(pairs(&table), vec![pair("", ""), pair("x", "")]);
    assert_eq!(table.get("").as_deref(), Some(""));
}

#[test]
fn stored_and_read_again_is_the_same_table() {
    let mut table = AliasTable::new();
    table.put(entry("greet", "echo **n"));
    table.put(entry("ls", "ls -la :: | wc"));
    table.put(entry("", "empty name"));
    table.put(entry("x", ""));
    table.put(entry("greet", "echo bye"));
    table.delete("ls");
    table.put(entry("ünï", "echo ☃"));
    let text = table.serialize();
    assert_eq!(text, "::empty name\nx::\ngreet::echo bye\nünï::echo ☃\n");
    let again = AliasTable::parse(&text);
    assert_eq!(pairs(&again), pairs(&table));
    assert_eq!(again, table);
    assert_eq!(again.serialize(), text);
}

#[test]
fn name_that_ends_in_a_colon_is_found_again() {
    let mut table = AliasTable::new();
    table.put(entry("a:", "x"));
    assert!(table.contains("a:"));
    assert_eq!(table.get("a:").as_deref(), Some("x"));
    let text = table.serialize();
    assert_eq!(text, "a:::x\n");
    let mut again = AliasTable::parse(&text);
    assert!(again.contains("a:"));
    assert_eq!(again.get("a:").as_deref(), Some("x"));
    assert_eq!(again.serialize(), text);
    assert_eq!(pairs(&again), vec![pair("a", ":x")]);
    assert!(again.delete("a:"));
    assert_eq!(again.len(), 0);
}

#[test]
fn entry_answers_to_every_name_that_its_line_begins_with() {
    let table = AliasTable::parse("a:::x\n");
    assert_eq!(table.get("a").as_deref(), Some(":x"));
    assert_eq!(table.get("a:").as_deref(), Some("x"));
    assert_eq!(table.get("a::"), None);
    assert_eq!(table.get(""), None);
    let nested = AliasTable::parse("a::b::c\n");
    assert_eq!(nested.get("a").as_deref(), Some("b::c"));
    assert_eq!(nested.get("a::b").as_deref(), Some("c"));
    assert!(nested.contains("a::b"));
    assert!(!nested.contains("a::b::c"));
}

#[test]
fn put_takes_out_every_entry_that_answers_to_the_name() {
    let mut table = AliasTable::parse("a::y\na:::x\nb::z\n");
    assert_eq!(table.get("a").as_deref(), Some("y"));
    assert_eq!(table.get("a:").as_deref(), Some("x"));
    table.put(entry("a", "new"));
    assert_eq!(table.serialize(), "b::z\na::new\n");
    assert_eq!(table.get("a:"), None);
    let mut other = AliasTable::parse("a::y\na:::x\nb::z\n");
    other.put(entry("a:", "new"));
    assert_eq!(other.serialize(), "a::y\nb::z\na:::new\n");
    assert_eq!(other.get("a").as_deref(), Some("y"));
    assert_eq!(other.get("a:").as_deref(), Some("new"));
}

#[test]
fn names_side_by_side_survive_other_changes() {
    let mut table = AliasTable::new();
    table.put(entry("a", "y"));
    table.put(entry("a:", "x"));
    table.put(entry("b", "z"));
    let again = AliasTable::parse(&table.serialize());
    assert_eq!(again.get("a").as_deref(), Some("y"));
    assert_eq!(again.get("a:").as_deref(), Some("x"));
    assert_eq!(again.get("b").as_deref(), Some("z"));
    assert_eq!(again.serialize(), "a::y\na:::x\nb::z\n");
}
