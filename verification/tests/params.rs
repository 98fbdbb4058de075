use fauxmail::escape::html_escape;
use fauxmail::params::{compute_list_params, ListParams, SortColumn, SortDir};
use fauxmail::store::sqlite_file_path;

fn base_params() -> ListParams {
    ListParams { page: None, limit: None, sort: None, dir: None, q: None }
}

#[test]
fn default_list_params() {
    let (limit, offset, col, dir, like) = compute_list_params(&base_params());
    assert_eq!(limit, 50);
    assert_eq!(offset, 0);
    assert!(matches!(col, SortColumn::ReceivedAt));
    assert!(matches!(dir, SortDir::Desc));
    assert!(like.is_none());
    assert_eq!(col.sql_name(), "received_at");
    assert_eq!(dir.sql_name(), "DESC");
}

#[test]
fn paging_is_clamped() {
    let p = ListParams { page: Some(3), limit: Some(500), ..base_params() };
    let (limit, offset, _, _, _) = compute_list_params(&p);
    assert_eq!(limit, 200);
    assert_eq!(offset, 400);

    let p = ListParams { page: Some(0), limit: Some(0), ..base_params() };
    let (limit, offset, _, _, _) = compute_list_params(&p);
    assert_eq!(limit, 1);
    assert_eq!(offset, 0);
}

#[test]
fn sort_and_direction_are_recognised() {
    let p = ListParams {
        sort: Some(b"subject".to_vec()),
        dir: Some(b"asc".to_vec()),
        ..base_params()
    };
    let (_, _, col, dir, _) = compute_list_params(&p);
    assert!(matches!(col, SortColumn::Subject));
    assert!(matches!(dir, SortDir::Asc));
    assert_eq!(col.sql_name(), "subject");
    assert_eq!(dir.sql_name(), "ASC");

    let p = ListParams { sort: Some(b"from".to_vec()), ..base_params() };
    let (_, _, col, _, _) = compute_list_params(&p);
    assert_eq!(col.sql_name(), "from_addr");

    let p = ListParams { sort: Some(b"to".to_vec()), ..base_params() };
    let (_, _, col, _, _) = compute_list_params(&p);
    assert_eq!(col.sql_name(), "to_recipients");

    let p = ListParams { sort: Some(b"bogus".to_vec()), ..base_params() };
    let (_, _, col, _, _) = compute_list_params(&p);
    assert_eq!(col.sql_name(), "received_at");
}

#[test]
fn like_pattern_wraps_trimmed_query() {
    let p = ListParams { q: Some(b"  Alpha  ".to_vec()), ..base_params() };
    let (_, _, _, _, like) = compute_list_params(&p);
    assert_eq!(like, Some(b"%Alpha%".to_vec()));

    let p = ListParams { q: Some(b"   ".to_vec()), ..base_params() };
    let (_, _, _, _, like) = compute_list_params(&p);
    assert!(like.is_none());
}

#[test]
fn html_escape_replaces_markup_bytes() {
    assert_eq!(html_escape(b"a < b & c > d"), b"a &lt; b &amp; c &gt; d".to_vec());
    assert_eq!(html_escape(b"plain"), b"plain".to_vec());
    assert_eq!(html_escape(b""), b"".to_vec());
    assert_eq!(html_escape(b"&&"), b"&amp;&amp;".to_vec());
}

#[test]
fn sqlite_paths_are_extracted() {
    assert_eq!(
        sqlite_file_path(b"sqlite://fauxmail.db"),
        Some(b"fauxmail.db".to_vec())
    );
    assert_eq!(
        sqlite_file_path(b"sqlite://data/mail.db?mode=rwc"),
        Some(b"data/mail.db".to_vec())
    );
    assert_eq!(sqlite_file_path(b"sqlite://:memory:"), None);
    assert_eq!(sqlite_file_path(b"postgres://host/db"), None);
    assert_eq!(sqlite_file_path(b"sqlite://"), None);
    // The scheme prefix is stripped repeatedly, as the URL normalisation has
    // always done.
    assert_eq!(
        sqlite_file_path(b"sqlite://sqlite://x.db"),
        Some(b"x.db".to_vec())
    );
}
