use macarons::store::{delete_condemned, list_allowed, list_domains, preview, StorageError};
use macarons::whitelist::{compile, match_nothing};
use rusqlite::Connection;

fn open_store() -> Connection {
    let conn = Connection::open_in_memory().unwrap();
    conn.execute(
        "create table cookies (host_key text not null, name text, value text)",
        (),
    )
    .unwrap();
    conn
}

fn add_cookie(conn: &Connection, host: &str, name: &str) {
    conn.execute(
        "insert into cookies (host_key, name, value) values (?1, ?2, 'v')",
        (host, name),
    )
    .unwrap();
}

fn scenario_store() -> Connection {
    let conn = open_store();
    add_cookie(&conn, "evil.net", "tracker");
    add_cookie(&conn, "a.com", "session");
    add_cookie(&conn, "a.com", "prefs");
    add_cookie(&conn, "b.com", "session");
    add_cookie(&conn, "evil.net", "beacon");
    conn
}

#[test]
fn listed_domains_are_distinct_and_sorted() {
    let conn = scenario_store();
    let hosts = list_domains(&conn).unwrap();
    assert_eq!(
        hosts,
        vec!["a.com".to_string(), "b.com".to_string(), "evil.net".to_string()]
    );
}

#[test]
fn preview_and_execute_on_trusted_sites() {
    let mut conn = scenario_store();
    let w = compile(&vec!["a\\.com$".to_string(), "b\\.com$".to_string()]).unwrap();
    let allowed = list_allowed(&conn, &w).unwrap();
    assert_eq!(allowed, vec!["a.com".to_string(), "b.com".to_string()]);

    let condemned = preview(&conn, &allowed).unwrap();
    assert_eq!(condemned.len(), 2);
    assert!(condemned.iter().all(|d| d == "evil.net"));

    let removed = delete_condemned(&mut conn, &allowed).unwrap();
    assert_eq!(removed, 2);
    assert_eq!(
        list_domains(&conn).unwrap(),
        vec!["a.com".to_string(), "b.com".to_string()]
    );

    let removed_again = delete_condemned(&mut conn, &allowed).unwrap();
    assert_eq!(removed_again, 0);
    assert_eq!(
        list_domains(&conn).unwrap(),
        vec!["a.com".to_string(), "b.com".to_string()]
    );
}

#[test]
fn single_row_per_domain_preview_and_execute() {
    let mut conn = open_store();
    add_cookie(&conn, "a.com", "session");
    add_cookie(&conn, "b.com", "session");
    add_cookie(&conn, "evil.net", "tracker");
    let w = compile(&vec!["a\\.com$".to_string(), "b\\.com$".to_string()]).unwrap();
    let allowed = list_allowed(&conn, &w).unwrap();
    assert_eq!(allowed, vec!["a.com".to_string(), "b.com".to_string()]);
    assert_eq!(preview(&conn, &allowed).unwrap(), vec!["evil.net".to_string()]);
    assert_eq!(delete_condemned(&mut conn, &allowed).unwrap(), 1);
    assert_eq!(delete_condemned(&mut conn, &allowed).unwrap(), 0);
}

#[test]
fn preview_reports_exactly_what_execute_removes() {
    let mut conn = scenario_store();
    let w = compile(&vec!["b\\.com$".to_string()]).unwrap();
    let allowed = list_allowed(&conn, &w).unwrap();

    let before = list_domains(&conn).unwrap();
    let mut previewed: Vec<String> = preview(&conn, &allowed).unwrap();
    previewed.sort();
    previewed.dedup();

    delete_condemned(&mut conn, &allowed).unwrap();
    let after = list_domains(&conn).unwrap();

    let gone: Vec<String> = before
        .iter()
        .filter(|d| !after.contains(d))
        .cloned()
        .collect();
    assert_eq!(previewed, gone);
    assert_eq!(previewed, vec!["a.com".to_string(), "evil.net".to_string()]);
}

#[test]
fn missing_whitelist_condemns_every_row() {
    let mut conn = scenario_store();
    let w = match_nothing();
    let allowed = list_allowed(&conn, &w).unwrap();
    assert!(allowed.is_empty());

    let mut condemned = preview(&conn, &allowed).unwrap();
    condemned.sort();
    assert_eq!(
        condemned,
        vec![
            "a.com".to_string(),
            "a.com".to_string(),
            "b.com".to_string(),
            "evil.net".to_string(),
            "evil.net".to_string()
        ]
    );

    let removed = delete_condemned(&mut conn, &allowed).unwrap();
    assert_eq!(removed, 5);
    assert!(list_domains(&conn).unwrap().is_empty());
}

#[test]
fn empty_store_yields_empty_listings_and_zero_deletes() {
    let mut conn = open_store();
    let w = compile(&vec![".*".to_string()]).unwrap();
    assert!(list_domains(&conn).unwrap().is_empty());
    assert!(list_allowed(&conn, &w).unwrap().is_empty());
    assert!(preview(&conn, &Vec::new()).unwrap().is_empty());
    assert_eq!(delete_condemned(&mut conn, &Vec::new()).unwrap(), 0);
}

#[test]
fn failed_delete_leaves_the_store_unchanged() {
    let mut conn = scenario_store();
    conn.execute(
        "create trigger guard before delete on cookies \
         when old.host_key = 'evil.net' \
         begin select raise(abort, 'injected fault'); end",
        (),
    )
    .unwrap();
    let before = list_domains(&conn).unwrap();

    let result = delete_condemned(&mut conn, &vec!["a.com".to_string()]);
    assert!(matches!(result, Err(StorageError::Write(_))));
    assert_eq!(list_domains(&conn).unwrap(), before);
}

#[test]
fn domains_with_quotes_are_bound_safely() {
    let mut conn = open_store();
    add_cookie(&conn, "o'hara.com", "session");
    add_cookie(&conn, "evil.net", "tracker");
    let allowed = vec!["o'hara.com".to_string()];

    let condemned = preview(&conn, &allowed).unwrap();
    assert_eq!(condemned, vec!["evil.net".to_string()]);

    let removed = delete_condemned(&mut conn, &allowed).unwrap();
    assert_eq!(removed, 1);
    assert_eq!(list_domains(&conn).unwrap(), vec!["o'hara.com".to_string()]);
}

#[test]
fn read_and_write_failures_are_distinguished() {
    let mut bare = Connection::open_in_memory().unwrap();
    assert!(matches!(list_domains(&bare), Err(StorageError::Read(_))));
    assert!(matches!(
        preview(&bare, &Vec::new()),
        Err(StorageError::Read(_))
    ));
    let w = match_nothing();
    assert!(matches!(
        list_allowed(&bare, &w),
        Err(StorageError::Read(_))
    ));
    assert!(matches!(
        delete_condemned(&mut bare, &Vec::new()),
        Err(StorageError::Write(_))
    ));
}
