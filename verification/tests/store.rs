use easy_alias::error::ErrorKind;
use easy_alias::store::{load, ReadOutcome, StoreConfig};

#[test]
fn table_is_stored_under_the_home_directory() {
    let config = StoreConfig { home: "/home/u".to_string() };
    assert_eq!(config.dir(), "/home/u/.config");
    assert_eq!(config.path(), "/home/u/.config/eaconfig");
}

#[test]
fn missing_file_is_an_empty_table() {
    assert_eq!(ReadOutcome::Missing.into_text(), Ok(String::new()));
    let table = load(ReadOutcome::Missing).unwrap();
    assert_eq!(table.len(), 0);
}

#[test]
fn found_text_is_read() {
    let text = "greet::echo hi\n".to_string();
    assert_eq!(ReadOutcome::Found(text.clone()).into_text(), Ok(text.clone()));
    let table = load(ReadOutcome::Found(text)).unwrap();
    assert_eq!(table.get("greet").as_deref(), Some("echo hi"));
    assert_eq!(table.len(), 1);
}

#[test]
fn failed_read_is_an_io_error() {
    assert_eq!(ReadOutcome::Failed.into_text(), Err(ErrorKind::Io));
    assert_eq!(load(ReadOutcome::Failed), Err(ErrorKind::Io));
}
