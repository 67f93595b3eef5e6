//! The suffixes of names.

use sqsearch::gen_suffixes_vtab::{
    Column, Constraint, SuffixesVtab, COLUMN_STRING, COLUMN_SUFFIX, DECLARATION,
};

fn rows(name: &[u8]) -> Vec<(String, Vec<u8>)> {
    let mut cursor = SuffixesVtab.open();
    assert!(cursor.eof());
    cursor.filter(name);
    let mut rows = vec![];
    while !cursor.eof() {
        assert_eq!(cursor.rowid(), rows.len() as i64);
        let suffix = match cursor.column(COLUMN_SUFFIX) {
            Column::Text(suffix) => suffix.to_string(),
            Column::Blob(_) => panic!("not text"),
        };
        let string = match cursor.column(COLUMN_STRING) {
            Column::Blob(string) => string.to_vec(),
            Column::Text(_) => panic!("not a name"),
        };
        rows.push((suffix, string));
        cursor.next();
    }
    rows
}

fn assert_suffixes(keyword: &str, suffixes: Vec<&str>) {
    let results: Vec<String> = rows(keyword.as_bytes()).into_iter().map(|row| row.0).collect();
    assert_eq!(suffixes, results);
}

#[test]
fn list_suffixes() {
    assert_suffixes("test", vec!["test", "est", "st", "t"]);
    assert_suffixes("한국어", vec!["한국어", "국어", "어"]);
}

#[test]
fn joins() {
    let conn = rusqlite::Connection::open_in_memory().unwrap();
    conn.execute("CREATE TABLE suffixes (suffix TEXT, string BLOB)", ()).unwrap();
    let mut stmt =
        conn.prepare_cached("INSERT INTO suffixes (suffix, string) VALUES (?1, ?2)").unwrap();
    for name in ["test", "한국어"] {
        for (suffix, string) in rows(name.as_bytes()) {
            stmt.execute((suffix, string)).unwrap();
        }
    }

    let mut stmt = conn.prepare_cached("SELECT * from suffixes").unwrap();
    let mut results: Vec<(String, String)> = stmt
        .query_map((), |row| {
            let string: Vec<u8> = row.get(1)?;
            Ok((row.get(0)?, String::from_utf8(string).unwrap()))
        })
        .unwrap()
        .map(|row| row.unwrap())
        .collect();
    results.sort();

    let mut expected: Vec<(String, String)> = vec![
        ("test".into(), "test".into()),
        ("est".into(), "test".into()),
        ("st".into(), "test".into()),
        ("t".into(), "test".into()),
        ("한국어".into(), "한국어".into()),
        ("국어".into(), "한국어".into()),
        ("어".into(), "한국어".into()),
    ];
    expected.sort();

    assert_eq!(results, expected);
}

#[test]
fn empty_name_has_no_suffixes() {
    assert_suffixes("", vec![]);
}

#[test]
fn name_that_is_no_text_has_no_suffixes() {
    assert!(rows(b"a\xffb").is_empty());
    assert!(rows(b"\xed\xa0\x80").is_empty());
    assert!(rows("\u{fffd}".as_bytes()).len() == 1);
}

#[test]
fn suffixes_of_a_name_are_distinct() {
    let mut lower: Vec<String> =
        rows(b"aAaA").into_iter().map(|row| row.0.to_ascii_lowercase()).collect();
    assert_eq!(lower.len(), 4);
    lower.sort();
    lower.dedup();
    assert_eq!(lower.len(), 4);
}

#[test]
fn cursor_starts_over() {
    let mut cursor = SuffixesVtab.open();
    cursor.filter(b"ab");
    cursor.next();
    cursor.rewind(b"x", "xyz".to_string());
    assert!(!cursor.eof());
    assert_eq!(cursor.rowid(), 0);
    assert!(matches!(cursor.column(COLUMN_SUFFIX), Column::Text("xyz")));
    assert!(matches!(cursor.column(COLUMN_STRING), Column::Blob(b"x")));
}

#[test]
fn first_usable_name_is_taken() {
    let constraint = |column: i32, equals: bool, usable: bool| Constraint { column, equals, usable };
    let vtab = SuffixesVtab;
    assert_eq!(vtab.best_index(&[]), None);
    assert_eq!(vtab.best_index(&[constraint(COLUMN_SUFFIX, true, true)]), None);
    assert_eq!(
        vtab.best_index(&[
            constraint(COLUMN_STRING, false, true),
            constraint(COLUMN_STRING, true, false),
            constraint(COLUMN_STRING, true, true),
            constraint(COLUMN_STRING, true, true),
        ]),
        Some(2)
    );
}

#[test]
fn columns_are_declared_in_order() {
    let conn = rusqlite::Connection::open_in_memory().unwrap();
    conn.execute(DECLARATION, ()).unwrap();
    let stmt = conn.prepare("SELECT * FROM x").unwrap();
    assert_eq!(stmt.column_name(COLUMN_SUFFIX as usize).unwrap(), "suffix");
    assert_eq!(stmt.column_name(COLUMN_STRING as usize).unwrap(), "string");
}
