use poll_backend::config::sqlite_path_from_url;

#[test]
fn sqlite_url_paths() {
    assert_eq!(sqlite_path_from_url("sqlite:./poll.db").as_deref(), Some("./poll.db"));
    assert_eq!(sqlite_path_from_url("sqlite://data/poll.db").as_deref(), Some("data/poll.db"));
    assert_eq!(sqlite_path_from_url("sqlite:////tmp/poll.db").as_deref(), Some("tmp/poll.db"));
    assert_eq!(sqlite_path_from_url("sqlite:///tmp/poll.db").as_deref(), Some("/tmp/poll.db"));
}

#[test]
fn non_sqlite_or_empty_urls_have_no_path() {
    assert_eq!(sqlite_path_from_url("sqlite:"), None);
    assert_eq!(sqlite_path_from_url("sqlite://"), None);
    assert_eq!(sqlite_path_from_url("postgres://localhost/poll"), None);
    assert_eq!(sqlite_path_from_url(""), None);
}
