//! The statement that answers a query.

use sqsearch::db::{estimate_specifity, prepare_query, MIGRATION};

fn memory_db() -> rusqlite::Connection {
    let conn = rusqlite::Connection::open_in_memory().unwrap();
    let tables = MIGRATION.split("CREATE TRIGGER").next().unwrap();
    conn.execute_batch(tables).unwrap();
    conn
}

#[test]
fn check_query() {
    let (query, params) = prepare_query(&["a", "long", "b"]).unwrap();
    assert_eq!(
        query,
        [
            "SELECT DISTINCT s0.id, s0.name, s1.name, s2.name FROM suffix_array",
            "CROSS JOIN files AS s1",
            "CROSS JOIN files AS s0",
            "CROSS JOIN files AS s2 WHERE",
            "suffix_array.suffix >= ? AND suffix_array.suffix < ?",
            "AND s1.id = suffix_array.id",
            "AND s0.id = s1.parent_id",
            "AND LOWER(CAST(s0.name AS TEXT)) LIKE LOWER(?)",
            "AND s2.parent_id = s1.id",
            "AND LOWER(CAST(s2.name AS TEXT)) LIKE LOWER(?)"
        ]
        .join(" ")
    );
    assert_eq!(params, vec!["long", "long\u{10ffff}", "%a%", "%b%"]);

    let conn = memory_db();
    let mut stmt = conn.prepare_cached(&format!("EXPLAIN QUERY PLAN {query}")).unwrap();
    let plan: Vec<String> = stmt
        .query_map(rusqlite::params_from_iter(params), |row| row.get(3))
        .unwrap()
        .map(|row| row.unwrap())
        .collect();
    assert_eq!(
        plan,
        vec![
            "SEARCH suffix_array USING PRIMARY KEY (suffix>? AND suffix<?)",
            "SEARCH s1 USING INTEGER PRIMARY KEY (rowid=?)",
            "SEARCH s0 USING INTEGER PRIMARY KEY (rowid=?)",
            "SEARCH s2 USING COVERING INDEX sqlite_autoindex_files_1 (parent_id=?)",
            "USE TEMP B-TREE FOR DISTINCT"
        ]
    );
}

#[test]
fn specifity_is_the_length_in_bytes() {
    assert_eq!(estimate_specifity(&["", "abc", "한국"]), vec![0, 3, 6]);
}

#[test]
fn no_segments_no_query() {
    assert!(prepare_query(&[]).is_none());
}

#[test]
fn single_segment() {
    let (query, params) = prepare_query(&["x"]).unwrap();
    assert_eq!(
        query,
        "SELECT DISTINCT s0.id, s0.name FROM suffix_array CROSS JOIN files AS s0 WHERE \
        suffix_array.suffix >= ? AND suffix_array.suffix < ? AND s0.id = suffix_array.id"
    );
    assert_eq!(params, vec!["x", "x\u{10ffff}"]);
}

#[test]
fn last_of_the_longest_segments_is_looked_up() {
    let (query, params) = prepare_query(&["ab", "cd", ""]).unwrap();
    assert!(query.contains("s1.id = suffix_array.id"));
    assert_eq!(params, vec!["cd", "cd\u{10ffff}", "%ab%"]);
    assert!(!query.contains("s2.name AS TEXT"));
    assert!(query.ends_with("s2.parent_id = s1.id"));
}

#[test]
fn text_does_not_depend_on_what_segments_say() {
    let (a, _) = prepare_query(&["ab", "'; --", ""]).unwrap();
    let (b, _) = prepare_query(&["xy", "cdefg", ""]).unwrap();
    assert_eq!(a, b);
}

#[test]
fn every_query_can_be_prepared() {
    let conn = memory_db();
    for segments in [&["a"][..], &["", ""], &["a", "bb", "ccc", "dd", "e", ""], &["x"; 12]] {
        let (query, params) = prepare_query(segments).unwrap();
        let stmt = conn.prepare(&query).unwrap();
        assert_eq!(stmt.parameter_count(), params.len());
        assert_eq!(stmt.column_count(), segments.len() + 1);
    }
}
