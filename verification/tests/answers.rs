//! Answers to queries.

use sqsearch::db;
use sqsearch::db::path::ENTRY_SQL;
use sqsearch::db::{Error, Failure, FailureKind};
use sqsearch::gen_suffixes_vtab::{Column, SuffixesVtab, COLUMN_SUFFIX};
use sqsearch::queryer::{
    do_query, parse_message, read_message, Answer, AnswerAction, Format, QueryArgs, Row,
};

fn failure(e: rusqlite::Error) -> Failure {
    Failure { kind: FailureKind::Other, text: e.to_string() }
}

fn add(conn: &rusqlite::Connection, name: &[u8], p_id: i64) -> i64 {
    conn.execute("INSERT INTO files (name, parent_id) VALUES(?1, ?2)", (name, p_id)).unwrap();
    let id = conn.last_insert_rowid();
    let mut cursor = SuffixesVtab.open();
    cursor.filter(name);
    while !cursor.eof() {
        if let Column::Text(suffix) = cursor.column(COLUMN_SUFFIX) {
            conn.execute("INSERT INTO suffix_array VALUES(?1, ?2)", (suffix, id)).unwrap();
        }
        cursor.next();
    }
    id
}

fn stuff() -> rusqlite::Connection {
    let conn = rusqlite::Connection::open_in_memory().unwrap();
    let tables = db::MIGRATION.split("CREATE TRIGGER").next().unwrap();
    conn.execute_batch(tables).unwrap();
    let root = add(&conn, b"", 1);
    assert_eq!(root, db::ROOT_ID);
    let stuff = add(&conn, b"stuff", root);
    for subject in ["chemistry", "linalg", "physics"] {
        let dir = add(&conn, subject.as_bytes(), stuff);
        add(&conn, b"notes.pdf", dir);
        add(&conn, b"results.md", dir);
    }
    conn
}

fn answer(conn: &rusqlite::Connection, msg: &str) -> Vec<String> {
    let mut answer = do_query(Format::Paths, msg.to_string());
    let mut lines = vec![];
    let mut rows: Vec<Row> = vec![];
    loop {
        answer = match answer.action() {
            AnswerAction::Print(line) => {
                lines.push(line);
                answer.printed()
            }
            AnswerAction::Query(sql, params) => {
                let mut stmt = conn.prepare(&sql).unwrap();
                let columns = stmt.column_count();
                rows = stmt
                    .query_map(rusqlite::params_from_iter(params), |row| {
                        let below =
                            (2..columns).map(|i| row.get(i).unwrap()).collect::<Vec<Vec<u8>>>();
                        Ok(Row { id: row.get(0)?, below })
                    })
                    .unwrap()
                    .map(|row| row.unwrap())
                    .collect();
                rows.reverse();
                answer.queried(Ok(()))
            }
            AnswerAction::NextRow => answer.row(Ok(rows.pop())),
            AnswerAction::Lookup(id) => {
                let mut stmt = conn.prepare_cached(ENTRY_SQL).unwrap();
                answer.entry(
                    stmt.query_one((id,), |row| Ok((row.get(0)?, row.get(1)?))).map_err(failure),
                )
            }
            AnswerAction::Done => return lines,
        };
    }
}

fn items(conn: &rusqlite::Connection, msg: &str) -> Vec<String> {
    let lines = answer(conn, msg);
    assert_eq!(lines[0], format!("BEGIN {msg}"));
    assert_eq!(lines[lines.len() - 1], format!("END {msg}"));
    let mut items: Vec<String> = lines[1..lines.len() - 1]
        .iter()
        .map(|line| line.strip_prefix("ITEM ").unwrap().to_string())
        .collect();
    items.sort();
    items
}

#[test]
fn directory_and_name() {
    assert_eq!(items(&stuff(), "chem/not"), vec!["stuff/chemistry/notes.pdf"]);
    assert_eq!(items(&stuff(), "STUFF/Chem/RESULT"), vec!["stuff/chemistry/results.md"]);
}

#[test]
fn trailing_separator_lists_a_directory() {
    assert_eq!(
        items(&stuff(), "chem/"),
        vec!["stuff/chemistry/notes.pdf", "stuff/chemistry/results.md"]
    );
}

#[test]
fn substring_of_a_name() {
    assert_eq!(
        items(&stuff(), "ote"),
        vec!["stuff/chemistry/notes.pdf", "stuff/linalg/notes.pdf", "stuff/physics/notes.pdf"]
    );
    assert_eq!(items(&stuff(), "nothing"), Vec::<String>::new());
}

#[test]
fn count_limits_the_paths() {
    let conn = stuff();
    assert_eq!(items(&conn, "COUNT 2 s").len(), 2);
    assert_eq!(items(&conn, "COUNT +1 s").len(), 1);
    assert_eq!(items(&conn, "COUNT 100 notes").len(), 3);
    assert_eq!(items(&conn, "COUNT 0 notes").len(), 3);
    assert_eq!(items(&conn, "COUNT x notes").len(), 0);
    assert_eq!(items(&conn, "COUNT 5").len(), 0);
    assert_eq!(items(&conn, "COUNT  5 notes").len(), 0);
}

fn listed(conn: &rusqlite::Connection, msg: &str) -> Vec<String> {
    let lines = answer(conn, msg);
    lines[1..lines.len() - 1].to_vec()
}

#[test]
fn count_takes_the_first_paths() {
    let conn = stuff();
    for query in ["s", "notes", "stuff/", "chem/not", "nothing"] {
        let all = listed(&conn, query);
        for n in 1..12 {
            let expected = &all[..all.len().min(n)];
            assert_eq!(listed(&conn, &format!("COUNT {n} {query}")), expected);
        }
    }
    assert_eq!(answer(&conn, "COUNT x s"), vec!["BEGIN COUNT x s", "END COUNT x s"]);
}

#[test]
fn each_chain_of_files_is_listed_once() {
    let conn = stuff();
    let dir = add(&conn, b"banana", db::ROOT_ID);
    add(&conn, b"ananas", dir);
    add(&conn, b"Ananas", dir);
    assert_eq!(items(&conn, "an"), vec!["banana", "banana/Ananas", "banana/ananas"]);
    assert_eq!(items(&conn, "an/an"), vec!["banana/Ananas", "banana/ananas"]);
    assert_eq!(items(&conn, "/anana"), vec!["banana", "banana/Ananas", "banana/ananas"]);
    assert_eq!(items(&conn, "").len(), 13);
}

#[test]
fn name_that_is_no_text_is_found_below_its_directory_only() {
    let conn = stuff();
    let dir = add(&conn, b"odd\xff", db::ROOT_ID);
    add(&conn, b"plain", dir);
    assert_eq!(items(&conn, "odd"), Vec::<String>::new());
    assert_eq!(items(&conn, "plain"), vec!["odd\u{fffd}/plain"]);
}

#[test]
fn messages_are_understood() {
    assert_eq!(parse_message("chem/not"), Some((usize::MAX, "chem/not")));
    assert_eq!(parse_message("COUNT"), Some((usize::MAX, "COUNT")));
    assert_eq!(parse_message("count 5 a"), Some((usize::MAX, "count 5 a")));
    assert_eq!(parse_message("COUNT 12 a b/c"), Some((12, "a b/c")));
    assert_eq!(parse_message("COUNT 12 "), Some((12, "")));
    assert_eq!(parse_message("COUNT 12"), None);
    assert_eq!(parse_message("COUNT -1 a"), None);
    assert_eq!(parse_message("COUNT 99999999999999999999 a"), None);
    assert_eq!(parse_message(""), Some((usize::MAX, "")));
}

#[test]
fn lines_of_input() {
    assert_eq!(read_message("chem/\n"), "chem/");
    assert_eq!(read_message("chem/\n\n"), "chem/");
    assert_eq!(read_message("chem/"), "chem/");
    assert_eq!(read_message(""), "");
}

#[test]
fn lines_of_output() {
    let format = QueryArgs { format: Format::Paths }.format;
    assert_eq!(format.begin("q"), "BEGIN q");
    assert_eq!(format.end("q"), "END q");
    assert_eq!(format.path(b"a/b\xff"), "ITEM a/b\u{fffd}");
    assert_eq!(format.error(&Error::NoFile), "ERROR No files matching the criteria exist");
}

fn failed(kind: FailureKind) -> Failure {
    Failure { kind, text: "reason".to_string() }
}

fn lines(answer: Answer) -> Vec<String> {
    let mut answer = answer;
    let mut lines = vec![];
    while let AnswerAction::Print(line) = answer.action() {
        lines.push(line);
        answer = answer.printed();
    }
    assert!(matches!(answer.action(), AnswerAction::Done));
    lines
}

#[test]
fn errors_are_reported() {
    let begun = || do_query(Format::Paths, "a".to_string()).printed();
    let expected = vec!["ERROR Misc DB errror: reason", "END a"];
    assert_eq!(lines(begun().queried(Err(failed(FailureKind::Other)))), expected);
    assert_eq!(lines(begun().queried(Ok(())).row(Err(failed(FailureKind::Other)))), expected);
    let row = Row { id: 5, below: vec![] };
    let looking = begun().queried(Ok(())).row(Ok(Some(row)));
    assert!(matches!(looking.action(), AnswerAction::Lookup(5)));
    assert_eq!(lines(looking.entry(Err(failed(FailureKind::NoRows)))), expected);
}

#[test]
fn interruptions_are_not_reported() {
    let begun = || do_query(Format::Paths, "a".to_string()).printed();
    assert_eq!(lines(begun().queried(Err(failed(FailureKind::Interrupted)))), vec!["END a"]);
    let rows = begun().queried(Ok(()));
    assert_eq!(lines(rows.row(Err(failed(FailureKind::Interrupted)))), vec!["END a"]);
}

#[test]
fn paths_are_looked_up_step_by_step() {
    let row = Row { id: 5, below: vec![b"x".to_vec()] };
    let answer = do_query(Format::Paths, "a/b".to_string())
        .printed()
        .queried(Ok(()))
        .row(Ok(Some(row)))
        .entry(Ok((b"low".to_vec(), 4)));
    assert!(matches!(answer.action(), AnswerAction::Lookup(4)));
    let answer = answer.entry(Ok((b"high".to_vec(), 1)));
    assert!(matches!(answer.action(), AnswerAction::Print(line) if line == "ITEM high/low/x"));
}
