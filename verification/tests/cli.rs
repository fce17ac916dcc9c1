use easy_alias::cli::{
    listing, read_answer, AddStep, Answer, Cli, CliError, Request, UsageError,
};
use easy_alias::error::ErrorKind;

fn cli(alias: Option<&str>, cmd: Option<&str>, subs: Option<&str>) -> Cli {
    Cli {
        alias: alias.map(str::to_string),
        cmd: cmd.map(str::to_string),
        remove: false,
        list: false,
        subs: subs.map(str::to_string),
    }
}

#[test]
fn removal_goes_first() {
    let mut args = cli(Some("greet"), Some("echo hi"), None);
    args.remove = true;
    args.list = true;
    assert_eq!(args.request(), Ok(Request::Remove { alias: "greet".to_string() }));
    args.alias = None;
    assert_eq!(args.request(), Err(UsageError::NoAliasToRemove));
}

#[test]
fn listing_goes_before_adding_and_running() {
    let mut args = cli(Some("greet"), Some("echo hi"), None);
    args.list = true;
    assert_eq!(args.request(), Ok(Request::List));
    assert_eq!(Cli { list: true, ..Cli::default() }.request(), Ok(Request::List));
}

#[test]
fn alias_with_command_is_added_and_alias_alone_is_run() {
    assert_eq!(
        cli(Some("greet"), Some("echo hi"), Some("n=1")).request(),
        Ok(Request::Add { alias: "greet".to_string(), command: "echo hi".to_string() })
    );
    assert_eq!(
        cli(Some("greet"), None, Some("n=1")).request(),
        Ok(Request::Run { alias: "greet".to_string(), subs: Some("n=1".to_string()) })
    );
    assert_eq!(
        cli(Some("greet"), None, None).request(),
        Ok(Request::Run { alias: "greet".to_string(), subs: None })
    );
}

#[test]
fn nothing_given_is_a_usage_error() {
    assert_eq!(Cli::default().request(), Err(UsageError::NoOperation));
    assert_eq!(cli(None, Some("echo hi"), None).request(), Err(UsageError::NoOperation));
    assert_eq!(cli(None, None, Some("a=1")).request(), Err(UsageError::NoOperation));
}

#[test]
fn answers_are_y_or_n_with_the_line_break() {
    assert_eq!(read_answer("y\n"), Answer::Overwrite);
    assert_eq!(read_answer("Y\n"), Answer::Overwrite);
    assert_eq!(read_answer("n\n"), Answer::Cancel);
    assert_eq!(read_answer("N\n"), Answer::Cancel);
    for other in ["", "y", "n", "\n", "yes\n", "y \n", " y\n", "y\r\n", "yn", "x\n", "y\n\n"] {
        assert_eq!(read_answer(other), Answer::AskAgain);
    }
}

#[test]
fn alias_exists_looks_for_the_whole_name() {
    let config = "build2::make all\ngreet::echo hi\n";
    assert!(cli(Some("greet"), None, None).alias_exists(config));
    assert!(cli(Some("build2"), None, None).alias_exists(config));
    assert!(!cli(Some("build"), None, None).alias_exists(config));
    assert!(!cli(Some("gree"), None, None).alias_exists(config));
    assert!(!cli(Some("greet"), None, None).alias_exists(""));
    assert!(!cli(None, None, None).alias_exists(config));
}

#[test]
fn add_then_run_with_substitutions() {
    let config = cli(Some("greet"), Some("echo **n"), None).add_alias("").unwrap();
    assert_eq!(config, "greet::echo **n\n");
    assert_eq!(
        cli(Some("greet"), None, Some("n=world")).get_full_cmd(&config),
        Ok("echo world".to_string())
    );
}

#[test]
fn add_again_overwrites_and_keeps_one_entry() {
    let first = cli(Some("greet"), Some("echo hi"), None).add_alias("ls::ls -l\n").unwrap();
    assert_eq!(first, "ls::ls -l\ngreet::echo hi\n");
    let again = cli(Some("greet"), Some("echo bye"), None);
    assert!(again.alias_exists(&first));
    let second = again.add_alias(&first).unwrap();
    assert_eq!(second, "ls::ls -l\ngreet::echo bye\n");
    assert_eq!(cli(Some("greet"), None, None).get_full_cmd(&second), Ok("echo bye".to_string()));
    assert_eq!(second.matches("greet::").count(), 1);
}

#[test]
fn run_of_an_unknown_alias_is_not_found() {
    let args = cli(Some("greet"), None, None);
    assert_eq!(args.get_full_cmd(""), Err(CliError::AliasNotFound));
    assert_eq!(args.get_full_cmd("other::x\n"), Err(CliError::AliasNotFound));
    assert_eq!(
        cli(Some("greet"), None, Some("n=1")).get_full_cmd(""),
        Err(CliError::AliasNotFound)
    );
}

#[test]
fn substitutions_are_read_before_the_alias_is_looked_up() {
    assert_eq!(
        cli(Some("greet"), None, Some("")).get_full_cmd(""),
        Err(CliError::Usage(UsageError::MalformedSubstitutions))
    );
}

#[test]
fn substitutions_of_an_invocation() {
    assert!(cli(None, None, None).substitutions().unwrap().is_none());
    let subs = cli(None, None, Some("a=1")).substitutions().unwrap().unwrap();
    assert_eq!(subs.get('a'), Some("1"));
    assert_eq!(
        cli(None, None, Some("a=1,")).substitutions().unwrap_err(),
        CliError::Usage(UsageError::MalformedSubstitutions)
    );
}

#[test]
fn entry_of_an_invocation() {
    let entry = cli(Some("greet"), Some("echo hi"), None).entry().unwrap();
    assert_eq!(entry.name(), "greet");
    assert_eq!(entry.command(), "echo hi");
    assert_eq!(
        cli(Some("a::b"), Some("x"), None).entry(),
        Err(CliError::Usage(UsageError::InvalidEntry))
    );
    assert_eq!(
        cli(Some("a"), None, None).entry(),
        Err(CliError::Usage(UsageError::NoOperation))
    );
}

#[test]
fn run_gives_the_whole_command_after_the_first_delimiter() {
    let args = cli(Some("greet"), None, None);
    assert_eq!(args.get_full_cmd("greet::echo a::b\n"), Ok("echo a::b".to_string()));
}

#[test]
fn run_without_substitutions_refuses_a_marker() {
    assert_eq!(
        cli(Some("greet"), None, None).get_full_cmd("greet::echo **n\n"),
        Err(CliError::UnresolvedPlaceholder("echo **n".to_string()))
    );
}

#[test]
fn run_refuses_substitutions_with_an_empty_field() {
    for raw in ["", "n=world,", ",n=world"] {
        assert_eq!(
            cli(Some("greet"), None, Some(raw)).get_full_cmd("greet::echo **n\n"),
            Err(CliError::Usage(UsageError::MalformedSubstitutions))
        );
    }
}

#[test]
fn run_without_alias_is_a_usage_error() {
    assert_eq!(
        cli(None, None, None).get_full_cmd("greet::echo hi\n"),
        Err(CliError::Usage(UsageError::NoOperation))
    );
}

#[test]
fn expand_subs_fills_from_the_raw_substitutions() {
    let args = cli(None, None, Some("a=1\\,2,b=hello"));
    assert_eq!(args.expand_subs("x **a y **b z **c"), Ok("x 1,2 y hello z **c".to_string()));
    assert_eq!(cli(None, None, None).expand_subs("plain"), Ok("plain".to_string()));
    assert_eq!(
        cli(None, None, None).expand_subs("**a"),
        Err(CliError::UnresolvedPlaceholder("**a".to_string()))
    );
}

#[test]
fn add_refuses_what_cannot_be_stored() {
    for (alias, cmd) in [("a::b", "x"), ("a\nb", "x"), ("a", "x\ny")] {
        assert_eq!(
            cli(Some(alias), Some(cmd), None).add_alias(""),
            Err(CliError::Usage(UsageError::InvalidEntry))
        );
    }
    assert_eq!(
        cli(Some("a"), None, None).add_alias(""),
        Err(CliError::Usage(UsageError::NoOperation))
    );
    assert_eq!(
        cli(None, Some("x"), None).add_alias(""),
        Err(CliError::Usage(UsageError::NoOperation))
    );
}

#[test]
fn remove_alias_rewrites_the_text() {
    let config = "a::1\nb::2\nc::3\n";
    assert_eq!(cli(Some("b"), None, None).remove_alias(config), Ok("a::1\nc::3\n".to_string()));
    assert_eq!(cli(Some("z"), None, None).remove_alias(config), Ok(config.to_string()));
    assert_eq!(cli(Some("a"), None, None).remove_alias(""), Ok(String::new()));
    assert_eq!(
        cli(None, None, None).remove_alias(config),
        Err(CliError::Usage(UsageError::NoAliasToRemove))
    );
}

#[test]
fn errors_have_kinds_and_messages() {
    let missing = CliError::Usage(UsageError::NoAliasToRemove);
    assert_eq!(missing.kind(), ErrorKind::InvalidUsage);
    assert_eq!(missing.message(), "Error! Please provide an alias to remove.");
    let nothing = CliError::Usage(UsageError::NoOperation);
    assert_eq!(nothing.kind(), ErrorKind::InvalidUsage);
    assert_eq!(nothing.message(), "Invalid input. Try using the -h or --help flags.");
    assert_eq!(CliError::Usage(UsageError::InvalidEntry).kind(), ErrorKind::InvalidUsage);
    assert_eq!(
        CliError::Usage(UsageError::InvalidEntry).message(),
        "Error! An alias cannot hold '::' or a line break, nor a command a line break."
    );
    assert_eq!(
        CliError::Usage(UsageError::MalformedSubstitutions).kind(),
        ErrorKind::InvalidUsage
    );
    assert_eq!(
        CliError::Usage(UsageError::MalformedSubstitutions).message(),
        "Error! Each substitution needs a key, in the form x=<value>."
    );
    assert_eq!(CliError::AliasNotFound.kind(), ErrorKind::AliasNotFound);
    assert_eq!(
        CliError::AliasNotFound.message(),
        "Alias not found! List aliases with the -l flag."
    );
    let unresolved = CliError::UnresolvedPlaceholder("echo **n".to_string());
    assert_eq!(unresolved.kind(), ErrorKind::UnresolvedPlaceholder);
    assert_eq!(
        unresolved.message(),
        "Error!\nThere are substitutions you must make for any variables following **\nThe command for this alias is: echo **n"
    );
}

#[test]
fn listing_shows_the_place_and_the_text() {
    assert_eq!(
        listing("/home/u/.config/eaconfig", "a::1\nb::2\n"),
        "Aliases stored at /home/u/.config/eaconfig:\n\na::1\nb::2\n\n"
    );
    assert_eq!(listing("p", ""), "Aliases stored at p:\n\n\n");
}

#[test]
fn unknown_alias_is_reported_with_the_stored_text() {
    let e = CliError::AliasNotFound;
    assert_eq!(
        e.report("ls::ls -l\ngreet::echo hi\n"),
        "Alias not found! List aliases with the -l flag.\nls::ls -l\ngreet::echo hi\n"
    );
    assert_eq!(e.report(""), "Alias not found! List aliases with the -l flag.\n");
    let args = cli(Some("greet"), None, None);
    let failure = args.get_full_cmd("").unwrap_err();
    assert_eq!(failure, CliError::AliasNotFound);
    assert_eq!(failure.report(""), format!("{}\n", failure.message()));
}

#[test]
fn other_failures_are_reported_by_their_message() {
    for e in [
        CliError::Usage(UsageError::NoAliasToRemove),
        CliError::Usage(UsageError::NoOperation),
        CliError::Usage(UsageError::InvalidEntry),
        CliError::Usage(UsageError::MalformedSubstitutions),
        CliError::UnresolvedPlaceholder("echo **n".to_string()),
    ] {
        assert_eq!(e.report("a::1\n"), e.message());
    }
}

#[test]
fn taken_name_is_asked_about_until_answered() {
    let config = "greet::echo hi\nls::ls -l\n";
    let args = cli(Some("greet"), Some("echo bye"), None);
    assert_eq!(args.start_add(config), AddStep::Ask);
    assert_eq!(args.answer_add(config, "maybe\n"), AddStep::Ask);
    assert_eq!(args.answer_add(config, ""), AddStep::Ask);
    assert_eq!(args.answer_add(config, "n\n"), AddStep::Stop);
    assert_eq!(
        args.answer_add(config, "y\n"),
        AddStep::Store("ls::ls -l\ngreet::echo bye\n".to_string())
    );
    assert_eq!(
        args.answer_add(config, "Y\n"),
        AddStep::Store("ls::ls -l\ngreet::echo bye\n".to_string())
    );
}

#[test]
fn new_name_is_stored_without_asking() {
    let args = cli(Some("greet"), Some("echo hi"), None);
    assert_eq!(args.start_add(""), AddStep::Store("greet::echo hi\n".to_string()));
    assert_eq!(
        args.start_add("ls::ls -l\n"),
        AddStep::Store("ls::ls -l\ngreet::echo hi\n".to_string())
    );
}

#[test]
fn what_cannot_be_stored_fails_before_any_question() {
    let config = "greet::echo hi\n";
    let broken = cli(Some("greet"), Some("echo\nbye"), None);
    assert_eq!(
        broken.start_add(config),
        AddStep::Fail(CliError::Usage(UsageError::InvalidEntry))
    );
    assert_eq!(
        broken.answer_add(config, "y\n"),
        AddStep::Fail(CliError::Usage(UsageError::InvalidEntry))
    );
    assert_eq!(broken.answer_add(config, "n\n"), AddStep::Stop);
    assert_eq!(
        cli(None, Some("x"), None).start_add(config),
        AddStep::Fail(CliError::Usage(UsageError::NoOperation))
    );
}

#[test]
fn alias_that_ends_in_a_colon_exists_where_a_line_begins_with_it() {
    let args = cli(Some("a:"), None, None);
    assert!(args.alias_exists("a:::x\n"));
    assert!(!args.alias_exists("a::x\n"));
    assert!(cli(Some("a"), None, None).alias_exists("a:::x\n"));
}

#[test]
fn alias_that_ends_in_a_colon_exists_after_it_was_added() {
    let add = cli(Some("a:"), Some("x"), None);
    let config = add.add_alias("").unwrap();
    assert_eq!(config, "a:::x\n");
    assert!(add.alias_exists(&config));
    assert_eq!(cli(Some("a:"), None, None).get_full_cmd(&config), Ok("x".to_string()));
}

#[test]
fn alias_that_ends_in_a_colon_is_resolved_from_the_first_line() {
    let args = cli(Some("a:"), None, None);
    assert_eq!(args.get_full_cmd("a:::x\na:::y\n"), Ok("x".to_string()));
    assert_eq!(args.get_full_cmd("a::x\n"), Err(CliError::AliasNotFound));
    assert_eq!(cli(Some("a"), None, None).get_full_cmd("a:::x\n"), Ok(":x".to_string()));
}

#[test]
fn alias_that_ends_in_a_colon_is_removed() {
    let args = cli(Some("a:"), None, None);
    assert_eq!(args.remove_alias("b::1\na:::x\nc::2\n"), Ok("b::1\nc::2\n".to_string()));
    assert!(!args.alias_exists(&args.remove_alias("a:::x\n").unwrap()));
}

#[test]
fn alias_that_ends_in_a_colon_is_asked_about_and_kept_once() {
    let config = "a:::x\n";
    let args = cli(Some("a:"), Some("x"), None);
    assert_eq!(args.start_add(config), AddStep::Ask);
    assert_eq!(args.answer_add(config, "n\n"), AddStep::Stop);
    assert_eq!(args.answer_add(config, "y\n"), AddStep::Store("a:::x\n".to_string()));
}

#[test]
fn removal_drops_every_line_that_begins_with_the_alias() {
    let args = cli(Some("a"), None, None);
    assert_eq!(
        args.remove_alias("a::1\nb::2\na::3\nab::4\na:::5\n"),
        Ok("b::2\nab::4\n".to_string())
    );
}

#[test]
fn other_records_stay_as_they_are() {
    let config = "a::1\nb::2\na::3\nb:::4\n";
    assert_eq!(cli(Some("z"), None, None).remove_alias(config), Ok(config.to_string()));
    assert_eq!(
        cli(Some("z"), Some("9"), None).add_alias(config),
        Ok("a::1\nb::2\na::3\nb:::4\nz::9\n".to_string())
    );
}

#[test]
fn lines_without_delimiter_are_not_written_again() {
    assert_eq!(
        cli(Some("z"), None, None).remove_alias("stray\na::1\n\n"),
        Ok("a::1\n".to_string())
    );
}

#[test]
fn alias_with_a_delimiter_is_looked_up_by_what_lines_begin_with() {
    let args = cli(Some("a::b"), None, None);
    assert!(args.alias_exists("a::b::c\n"));
    assert_eq!(args.get_full_cmd("a::b::c\n"), Ok("c".to_string()));
    assert_eq!(args.remove_alias("a::b::c\nx::y\n"), Ok("x::y\n".to_string()));
}
