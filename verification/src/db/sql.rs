//! The part of SQL that the requests are written in: how statements are written, and what
//! they do to the table of files.

use vstd::prelude::*;
use vstd::string::*;

use crate::db::path::ENTRY_SQL;
use crate::db::table::{
    comes_to, finds, has_fh, is_empty, is_entry, is_entry_with, lemma_one_entry, orphaned, removes,
    sound, taken, Row, Table,
};
use crate::db::{answer, sql_of, values_of, yields_of, Ask, Bound, Error, Failure, Yield};
use crate::text::{decimal, joined};

verus! {

/// A column of the table of files.
pub enum Column {
    Id,
    FileHandle,
    Name,
    ParentId,
}

impl Column {
    /// The column as it is written.
    pub open spec fn text(self) -> Seq<char> {
        match self {
            Column::Id => "id"@,
            Column::FileHandle => "file_handle"@,
            Column::Name => "name"@,
            Column::ParentId => "parent_id"@,
        }
    }

    /// What a row has in the column.
    pub open spec fn of(self, id: i64, row: Row) -> Bound {
        match self {
            Column::Id => Bound::Int(id),
            Column::FileHandle => Bound::Blob(row.fh),
            Column::Name => Bound::Blob(row.name),
            Column::ParentId => Bound::Int(row.parent),
        }
    }
}

/// A column is, or becomes, the value with the number.
pub struct Equal {
    pub column: Column,
    pub value: nat,
}

impl Equal {
    /// As it is written.
    pub open spec fn text(self) -> Seq<char> {
        self.column.text() + " = ?"@ + decimal(self.value)
    }

    /// It is so of a row. Values are counted from 1.
    pub open spec fn holds(self, values: Seq<Bound>, id: i64, row: Row) -> bool {
        &&& 1 <= self.value <= values.len()
        &&& self.column.of(id, row) == values[self.value - 1]
    }
}

/// The texts of a list.
pub open spec fn equal_texts(list: Seq<Equal>) -> Seq<Seq<char>> {
    list.map_values(|e: Equal| e.text())
}

/// All of a list are so of a row.
pub open spec fn all_equal(list: Seq<Equal>, values: Seq<Bound>, id: i64, row: Row) -> bool {
    forall|i: int| 0 <= i < list.len() ==> (#[trigger] list[i]).holds(values, id, row)
}

/// A statement.
pub enum Sql {
    /// The identifiers of the rows of which all is so.
    Select { equals: Seq<Equal> },
    /// A new row, with the values in their order in the columns.
    Insert { columns: Seq<Column> },
    /// The rows of which all is so are removed.
    Delete { equals: Seq<Equal> },
    /// In the rows of which all is so, columns become other values.
    Update { sets: Seq<Equal>, equals: Seq<Equal> },
}

/// The texts of columns.
pub open spec fn column_texts(columns: Seq<Column>) -> Seq<Seq<char>> {
    columns.map_values(|c: Column| c.text())
}

/// The texts of the first `n` values.
pub open spec fn value_texts(n: nat) -> Seq<Seq<char>> {
    Seq::new(n, |i: int| "?"@ + decimal((i + 1) as nat))
}

/// A new row is added to the table, or the table has a row with its parent and name, or its
/// parent is not there. It gets an identifier of its own, which is 1 in an empty table, and
/// may be its own parent.
pub open spec fn adds(t: Table, row: Row, x: Result<i64, Failure>, t2: Table) -> bool {
    if exists|id: i64| is_entry(t, row.name, row.parent, id) {
        taken(x) && t2 == t
    } else {
        match x {
            Ok(id) => {
                &&& !t.contains_key(id)
                &&& is_empty(t) ==> id == 1
                &&& t.contains_key(row.parent) || row.parent == id
                &&& t2 == t.insert(id, row)
            },
            Err(_) => {
                &&& orphaned(x)
                &&& !t.contains_key(row.parent)
                &&& !(is_empty(t) && row.parent == 1)
                &&& t2 == t
            },
        }
    }
}

/// A row is replaced, or another row has the parent and the name, or the parent is not
/// there.
pub open spec fn replaces(t: Table, id: i64, row: Row, x: Result<i64, Failure>, t2: Table) -> bool {
    if exists|other: i64| other != id && is_entry(t, row.name, row.parent, other) {
        taken(x) && t2 == t
    } else if !t.contains_key(row.parent) {
        orphaned(x) && t2 == t
    } else {
        x == Ok::<i64, Failure>(1) && t2 == t.insert(id, row)
    }
}

/// The row has the values in the columns.
pub open spec fn has_values(columns: Seq<Column>, values: Seq<Bound>, row: Row) -> bool {
    &&& columns.len() == values.len()
    &&& forall|i: int|
        0 <= i < columns.len() ==> #[trigger] columns[i] !is Id && columns[i].of(0, row)
            == values[i]
    &&& columns.contains(Column::FileHandle)
    &&& columns.contains(Column::Name)
    &&& columns.contains(Column::ParentId)
}

/// The row is the other one but for the columns that become other values.
pub open spec fn becomes(
    sets: Seq<Equal>,
    values: Seq<Bound>,
    id: i64,
    old: Row,
    new: Row,
) -> bool {
    &&& all_equal(sets, values, id, new)
    &&& forall|c: Column|
        (forall|i: int| 0 <= i < sets.len() ==> #[trigger] sets[i].column != c) ==> #[trigger] c.of(
            id,
            old,
        ) == c.of(id, new)
}

impl Sql {
    /// The statement as it is written.
    pub open spec fn text(self) -> Seq<char> {
        match self {
            Sql::Select { equals } => "SELECT id FROM files WHERE "@ + joined(
                equal_texts(equals),
                " AND "@,
            ),
            Sql::Insert { columns } => "INSERT INTO files ("@ + joined(column_texts(columns), ", "@)
                + ") VALUES("@ + joined(value_texts(columns.len()), ", "@) + ")"@,
            Sql::Delete { equals } => "DELETE FROM files WHERE "@ + joined(
                equal_texts(equals),
                " AND "@,
            ),
            Sql::Update { sets, equals } => "UPDATE files SET "@ + joined(equal_texts(sets), ", "@)
                + " WHERE "@ + joined(equal_texts(equals), " AND "@),
        }
    }

    /// What number the statement comes to.
    pub open spec fn yields(self) -> Yield {
        match self {
            Sql::Select { .. } => Yield::OneRow,
            Sql::Insert { .. } => Yield::RowId,
            _ => Yield::Changes,
        }
    }

    /// The statement with these values, of which it finds at most one row unless it selects,
    /// can come to `x` and turn the table `t` into `t2`.
    pub open spec fn does(
        self,
        values: Seq<Bound>,
        t: Table,
        x: Result<i64, Failure>,
        t2: Table,
    ) -> bool {
        match self {
            Sql::Select { equals } => t2 == t && finds(
                |id: i64| t.contains_key(id) && all_equal(equals, values, id, t[id]),
                x,
            ),
            Sql::Insert { columns } => exists|row: Row| #[trigger]
                has_values(columns, values, row) && adds(t, row, x, t2),
            Sql::Delete { equals } => removes(
                t,
                |id: i64| t.contains_key(id) && all_equal(equals, values, id, t[id]),
                x,
                t2,
            ),
            Sql::Update { sets, equals } => if exists|id: i64| #[trigger]
                t.contains_key(id) && all_equal(equals, values, id, t[id]) {
                exists|id: i64, row: Row|
                    t.contains_key(id) && all_equal(equals, values, id, t[id]) && #[trigger]
                    becomes(sets, values, id, t[id], row) && replaces(t, id, row, x, t2)
            } else {
                x == Ok::<i64, Failure>(0) && t2 == t
            },
        }
    }
}

/// The statement is that of the request.
pub open spec fn is_statement_of(sql: Sql, ask: Ask) -> bool {
    &&& sql.text() == sql_of(ask)
    &&& sql.yields() == yields_of(ask)
    &&& forall|t: Table, x: Result<i64, Failure>, t2: Table|
        sound(t) ==> (#[trigger] sql.does(values_of(ask), t, x, t2) <==> comes_to(t, ask, x, t2))
}

/// One condition.
proof fn lemma_joined1(a: Seq<char>, separator: Seq<char>)
    ensures
        joined(seq![a], separator) == a,
{
}

/// Two conditions.
proof fn lemma_joined2(a: Seq<char>, b: Seq<char>, separator: Seq<char>)
    ensures
        joined(seq![a, b], separator) == a + separator + b,
{
    reveal_with_fuel(joined, 3);
    assert(seq![a, b].drop_last() =~= seq![a]);
}

/// Three conditions.
proof fn lemma_joined3(a: Seq<char>, b: Seq<char>, c: Seq<char>, separator: Seq<char>)
    ensures
        joined(seq![a, b, c], separator) == a + separator + b + separator + c,
{
    assert(seq![a, b, c].drop_last() =~= seq![a, b]);
    lemma_joined2(a, b, separator);
}

/// The statement that looks up a directory does what is asked.
proof fn lemma_get_dir_id(fh: Seq<u8>)
    ensures
        exists|sql: Sql| #[trigger] is_statement_of(sql, Ask::GetDirId { fh }),
{
    let ask = Ask::GetDirId { fh };
    let equals = seq![Equal { column: Column::FileHandle, value: 1 }];
    let sql = Sql::Select { equals };
    let values = values_of(ask);
    reveal_strlit("SELECT id FROM files WHERE file_handle = ?1");
    reveal_strlit("SELECT id FROM files WHERE ");
    reveal_strlit("file_handle");
    reveal_strlit(" = ?");
    assert(equal_texts(equals) =~= seq![equals[0].text()]);
    lemma_joined1(equals[0].text(), " AND "@);
    assert(sql.text() =~= sql_of(ask));
    assert forall|t: Table, x: Result<i64, Failure>, t2: Table| sound(t) implies (
    #[trigger] sql.does(values, t, x, t2) <==> comes_to(t, ask, x, t2)) by {
        let a = |id: i64| t.contains_key(id) && all_equal(equals, values, id, t[id]);
        let b = |id: i64| has_fh(t, fh, id);
        assert forall|id: i64| #[trigger] a(id) == b(id) by {
            if t.contains_key(id) && all_equal(equals, values, id, t[id]) {
                assert(equals[0].holds(values, id, t[id]));
            }
        }
        assert(a =~= b);
    }
    assert(is_statement_of(sql, ask));
}

/// The statement that looks up an entry does what is asked.
proof fn lemma_get_dirent_id(name: Seq<u8>, p_id: i64)
    ensures
        exists|sql: Sql| #[trigger] is_statement_of(sql, Ask::GetDirentId { name, p_id }),
{
    let ask = Ask::GetDirentId { name, p_id };
    let equals = seq![
        Equal { column: Column::Name, value: 1 },
        Equal { column: Column::ParentId, value: 2 },
    ];
    let sql = Sql::Select { equals };
    let values = values_of(ask);
    reveal_strlit("SELECT id FROM files WHERE name = ?1 AND parent_id = ?2");
    reveal_strlit("SELECT id FROM files WHERE ");
    reveal_strlit("name");
    reveal_strlit("parent_id");
    reveal_strlit(" = ?");
    reveal_strlit(" AND ");
    assert(equal_texts(equals) =~= seq![equals[0].text(), equals[1].text()]);
    lemma_joined2(equals[0].text(), equals[1].text(), " AND "@);
    assert(sql.text() =~= sql_of(ask));
    assert forall|t: Table, x: Result<i64, Failure>, t2: Table| sound(t) implies (
    #[trigger] sql.does(values, t, x, t2) <==> comes_to(t, ask, x, t2)) by {
        let a = |id: i64| t.contains_key(id) && all_equal(equals, values, id, t[id]);
        let b = |id: i64| is_entry(t, name, p_id, id);
        assert forall|id: i64| #[trigger] a(id) == b(id) by {
            if t.contains_key(id) && all_equal(equals, values, id, t[id]) {
                assert(equals[0].holds(values, id, t[id]));
                assert(equals[1].holds(values, id, t[id]));
            }
        }
        assert(a =~= b);
    }
    assert(is_statement_of(sql, ask));
}

/// The statement that adds an entry does what is asked.
proof fn lemma_create(fh: Seq<u8>, name: Seq<u8>, p_id: i64)
    ensures
        exists|sql: Sql| #[trigger] is_statement_of(sql, Ask::Create { fh, name, p_id }),
{
    let ask = Ask::Create { fh, name, p_id };
    let columns = seq![Column::FileHandle, Column::Name, Column::ParentId];
    let sql = Sql::Insert { columns };
    let values = values_of(ask);
    reveal_strlit("INSERT INTO files (file_handle, name, parent_id) VALUES(?1, ?2, ?3)");
    reveal_strlit("INSERT INTO files (");
    reveal_strlit("file_handle");
    reveal_strlit("name");
    reveal_strlit("parent_id");
    reveal_strlit(") VALUES(");
    reveal_strlit(")");
    reveal_strlit("?");
    reveal_strlit(", ");
    assert(column_texts(columns) =~= seq!["file_handle"@, "name"@, "parent_id"@]);
    lemma_joined3("file_handle"@, "name"@, "parent_id"@, ", "@);
    let (v1, v2, v3) = ("?"@ + decimal(1), "?"@ + decimal(2), "?"@ + decimal(3));
    assert(value_texts(3) =~= seq![v1, v2, v3]);
    lemma_joined3(v1, v2, v3, ", "@);
    assert(sql.text() =~= sql_of(ask));
    let row = Row { fh, name, parent: p_id };
    assert(columns[0] == Column::FileHandle);
    assert(columns[1] == Column::Name);
    assert(columns[2] == Column::ParentId);
    assert(has_values(columns, values, row));
    assert forall|t: Table, x: Result<i64, Failure>, t2: Table| sound(t) implies (
    #[trigger] sql.does(values, t, x, t2) <==> comes_to(t, ask, x, t2)) by {
        assert forall|other: Row| #[trigger] has_values(columns, values, other) implies other
            == row by {
            assert(columns[0].of(0, other) == values[0]);
            assert(columns[1].of(0, other) == values[1]);
            assert(columns[2].of(0, other) == values[2]);
        }
        assert(adds(t, row, x, t2) <==> comes_to(t, ask, x, t2));
    }
    assert(is_statement_of(sql, ask));
}

/// The statement that removes an entry does what is asked.
proof fn lemma_delete(fh: Seq<u8>, name: Seq<u8>, p_id: i64)
    ensures
        exists|sql: Sql| #[trigger] is_statement_of(sql, Ask::Delete { fh, name, p_id }),
{
    let ask = Ask::Delete { fh, name, p_id };
    let equals = seq![
        Equal { column: Column::FileHandle, value: 1 },
        Equal { column: Column::Name, value: 2 },
        Equal { column: Column::ParentId, value: 3 },
    ];
    let sql = Sql::Delete { equals };
    let values = values_of(ask);
    reveal_strlit("DELETE FROM files WHERE file_handle = ?1 AND name = ?2 AND parent_id = ?3");
    reveal_strlit("DELETE FROM files WHERE ");
    reveal_strlit("file_handle");
    reveal_strlit("name");
    reveal_strlit("parent_id");
    reveal_strlit(" = ?");
    reveal_strlit(" AND ");
    let (a, b, c) = (equals[0].text(), equals[1].text(), equals[2].text());
    assert(equal_texts(equals) =~= seq![a, b, c]);
    lemma_joined3(a, b, c, " AND "@);
    assert(sql.text() =~= sql_of(ask));
    assert forall|t: Table, x: Result<i64, Failure>, t2: Table| sound(t) implies (
    #[trigger] sql.does(values, t, x, t2) <==> comes_to(t, ask, x, t2)) by {
        let a = |id: i64| t.contains_key(id) && all_equal(equals, values, id, t[id]);
        let b = |id: i64| is_entry_with(t, fh, name, p_id, id);
        assert forall|id: i64| #[trigger] a(id) == b(id) by {
            if t.contains_key(id) && all_equal(equals, values, id, t[id]) {
                assert(equals[0].holds(values, id, t[id]));
                assert(equals[1].holds(values, id, t[id]));
                assert(equals[2].holds(values, id, t[id]));
            }
        }
        assert(a =~= b);
    }
    assert(is_statement_of(sql, ask));
}

/// The statement that removes a row does what is asked.
proof fn lemma_delete_with_id(id: i64)
    ensures
        exists|sql: Sql| #[trigger] is_statement_of(sql, Ask::DeleteWithId { id }),
{
    let ask = Ask::DeleteWithId { id };
    let equals = seq![Equal { column: Column::Id, value: 1 }];
    let sql = Sql::Delete { equals };
    let values = values_of(ask);
    reveal_strlit("DELETE FROM files WHERE id = ?1");
    reveal_strlit("DELETE FROM files WHERE ");
    reveal_strlit("id");
    reveal_strlit(" = ?");
    assert(equal_texts(equals) =~= seq![equals[0].text()]);
    lemma_joined1(equals[0].text(), " AND "@);
    assert(sql.text() =~= sql_of(ask));
    assert forall|t: Table, x: Result<i64, Failure>, t2: Table| sound(t) implies (
    #[trigger] sql.does(values, t, x, t2) <==> comes_to(t, ask, x, t2)) by {
        let a = |other: i64| t.contains_key(other) && all_equal(equals, values, other, t[other]);
        let b = |other: i64| t.contains_key(other) && other == id;
        assert forall|other: i64| #[trigger] a(other) == b(other) by {
            if t.contains_key(other) && all_equal(equals, values, other, t[other]) {
                assert(equals[0].holds(values, other, t[other]));
            }
        }
        assert(a =~= b);
    }
    assert(is_statement_of(sql, ask));
}

/// The text of the statement that moves an entry.
proof fn lemma_update_text(sets: Seq<Equal>, equals: Seq<Equal>, ask: Ask)
    requires
        ask is Update,
        sets == seq![
            Equal { column: Column::Name, value: 1 },
            Equal { column: Column::ParentId, value: 2 },
        ],
        equals == seq![
            Equal { column: Column::FileHandle, value: 3 },
            Equal { column: Column::Name, value: 4 },
            Equal { column: Column::ParentId, value: 5 },
        ],
    ensures
        (Sql::Update { sets, equals }).text() == sql_of(ask),
{
    reveal_strlit(
        "UPDATE files SET name = ?1, parent_id = ?2 WHERE file_handle = ?3 AND name = ?4 AND parent_id = ?5",
    );
    reveal_strlit("UPDATE files SET ");
    reveal_strlit(" WHERE ");
    reveal_strlit("file_handle");
    reveal_strlit("name");
    reveal_strlit("parent_id");
    reveal_strlit(" = ?");
    reveal_strlit(", ");
    reveal_strlit(" AND ");
    let (a, b) = (sets[0].text(), sets[1].text());
    let (c, d, e) = (equals[0].text(), equals[1].text(), equals[2].text());
    assert(equal_texts(sets) =~= seq![a, b]);
    assert(equal_texts(equals) =~= seq![c, d, e]);
    lemma_joined2(a, b, ", "@);
    lemma_joined3(c, d, e, " AND "@);
    assert((Sql::Update { sets, equals }).text() =~= sql_of(ask));
}

/// The statement that moves an entry does what is asked.
proof fn lemma_update_statement(
    fh: Seq<u8>,
    old_name: Seq<u8>,
    old_p_id: i64,
    new_name: Seq<u8>,
    new_p_id: i64,
)
    ensures
        exists|sql: Sql| #[trigger]
            is_statement_of(sql, Ask::Update { fh, old_name, old_p_id, new_name, new_p_id }),
{
    let ask = Ask::Update { fh, old_name, old_p_id, new_name, new_p_id };
    let sets = seq![
        Equal { column: Column::Name, value: 1 },
        Equal { column: Column::ParentId, value: 2 },
    ];
    let equals = seq![
        Equal { column: Column::FileHandle, value: 3 },
        Equal { column: Column::Name, value: 4 },
        Equal { column: Column::ParentId, value: 5 },
    ];
    let sql = Sql::Update { sets, equals };
    let values = values_of(ask);
    lemma_update_text(sets, equals, ask);
    assert forall|t: Table, x: Result<i64, Failure>, t2: Table| sound(t) implies (
    #[trigger] sql.does(values, t, x, t2) <==> comes_to(t, ask, x, t2)) by {
        assert forall|id: i64| #[trigger]
            t.contains_key(id) && all_equal(equals, values, id, t[id]) <==> is_entry_with(
                t,
                fh,
                old_name,
                old_p_id,
                id,
            ) by {
            if t.contains_key(id) && all_equal(equals, values, id, t[id]) {
                assert(equals[0].holds(values, id, t[id]));
                assert(equals[1].holds(values, id, t[id]));
                assert(equals[2].holds(values, id, t[id]));
            }
        }
        if exists|id: i64| is_entry_with(t, fh, old_name, old_p_id, id) {
            let id = choose|id: i64| is_entry_with(t, fh, old_name, old_p_id, id);
            let row = Row { fh: t[id].fh, name: new_name, parent: new_p_id };
            assert forall|other: i64| is_entry_with(t, fh, old_name, old_p_id, other) implies other
                == id by {
                lemma_one_entry(t, old_name, old_p_id, id, other);
            }
            assert(becomes(sets, values, id, t[id], row)) by {
                assert(sets[0].column == Column::Name);
                assert(sets[1].column == Column::ParentId);
            }
            assert forall|other: Row| #[trigger]
                becomes(sets, values, id, t[id], other) implies other == row by {
                assert(sets[0].holds(values, id, other));
                assert(sets[1].holds(values, id, other));
                assert(Column::FileHandle.of(id, t[id]) == Column::FileHandle.of(id, other));
            }
            assert(t.contains_key(id) && all_equal(equals, values, id, t[id]));
            if sql.does(values, t, x, t2) {
                let (other, new) = choose|other: i64, new: Row|
                    t.contains_key(other) && all_equal(equals, values, other, t[other])
                        && #[trigger] becomes(sets, values, other, t[other], new) && replaces(
                        t,
                        other,
                        new,
                        x,
                        t2,
                    );
                assert(is_entry_with(t, fh, old_name, old_p_id, other));
            }
        }
    }
    assert(is_statement_of(sql, ask));
}

/// The statement of every request, as it is written and with the values that go with it,
/// does to the table what is asked, and comes to the number that is wanted.
pub proof fn law_statements(ask: Ask)
    ensures
        exists|sql: Sql| #[trigger] is_statement_of(sql, ask),
{
    match ask {
        Ask::GetDirId { fh } => lemma_get_dir_id(fh),
        Ask::GetDirentId { name, p_id } => lemma_get_dirent_id(name, p_id),
        Ask::Create { fh, name, p_id } => lemma_create(fh, name, p_id),
        Ask::Delete { fh, name, p_id } => lemma_delete(fh, name, p_id),
        Ask::DeleteWithId { id } => lemma_delete_with_id(id),
        Ask::Update { fh, old_name, old_p_id, new_name, new_p_id } => lemma_update_statement(
            fh,
            old_name,
            old_p_id,
            new_name,
            new_p_id,
        ),
    }
}

/// What the answers to requests tell: a lookup succeeds exactly if there is one row, an
/// entry is added exactly if the statement added it, and one is removed exactly if one row
/// was, and moved exactly if some was. A name that is taken is told from all other failures,
/// and every other failure is handed on.
pub proof fn law_answers(ask: Ask, x: Result<i64, Failure>)
    ensures
        ({
            let r = answer(ask, x);
            let lookup = ask is GetDirId || ask is GetDirentId;
            let removal = ask is Delete || ask is DeleteWithId;
            let writes = ask is Create || ask is Update;
            &&& lookup || ask is Create ==> (r is Ok <==> x is Ok) && (x is Ok ==> r->Ok_0
                == x->Ok_0)
            &&& removal ==> (r is Ok <==> x == Ok::<i64, Failure>(1))
            &&& ask is Update ==> (r is Ok <==> x is Ok && x->Ok_0 != 0)
            &&& r == Err::<i64, Error>(Error::NoFile) <==> if lookup {
                x is Err && x->Err_0.kind is NoRows
            } else {
                x == Ok::<i64, Failure>(0) && !(ask is Create)
            }
            &&& r == Err::<i64, Error>(Error::ManyFiles) <==> if lookup {
                x is Err && x->Err_0.kind is ManyRows
            } else {
                removal && x is Ok && x->Ok_0 != 0 && x->Ok_0 != 1
            }
            &&& r == Err::<i64, Error>(Error::NameTaken) <==> {
                &&& writes
                &&& x is Err
                &&& x->Err_0.kind is Unique
            }
            &&& r is Err ==> r->Err_0 is NoFile || r->Err_0 is ManyFiles || r->Err_0 is NameTaken
                || (x is Err && r->Err_0 == Error::SQLite(x->Err_0))
        }),
{
}

/// A column, with or without the name that the table has in the statement.
pub struct Field {
    pub column: Column,
    pub qualified: bool,
}

impl Field {
    /// As it is written.
    pub open spec fn text(self) -> Seq<char> {
        if self.qualified {
            "f."@ + self.column.text()
        } else {
            self.column.text()
        }
    }
}

/// The texts of fields.
pub open spec fn field_texts(fields: Seq<Field>) -> Seq<Seq<char>> {
    fields.map_values(|f: Field| f.text())
}

/// A statement that reads columns of the rows in which one column is a value.
pub struct Lookup {
    pub fields: Seq<Field>,
    pub key: Field,
    pub value: nat,
}

impl Lookup {
    /// As it is written.
    pub open spec fn text(self) -> Seq<char> {
        "SELECT "@ + joined(field_texts(self.fields), ", "@) + " FROM files AS f WHERE "@
            + self.key.text() + " = ?"@ + decimal(self.value)
    }

    /// The row with the identifier is found, and this is read of it.
    pub open spec fn reads(self, values: Seq<Bound>, t: Table, id: i64, read: Seq<Bound>) -> bool {
        &&& t.contains_key(id)
        &&& (Equal { column: self.key.column, value: self.value }).holds(values, id, t[id])
        &&& read.len() == self.fields.len()
        &&& forall|i: int|
            0 <= i < read.len() ==> #[trigger] read[i] == self.fields[i].column.of(id, t[id])
    }
}

/// The statement for an entry finds just the row with the identifier that it is given, and
/// reads its name and its parent.
pub proof fn law_entry_statement()
    ensures
        exists|lookup: Lookup|
            {
                &&& #[trigger] lookup.text() == ENTRY_SQL@
                &&& forall|wanted: i64, t: Table, id: i64, read: Seq<Bound>| #[trigger]
                    lookup.reads(seq![Bound::Int(wanted)], t, id, read) <==> {
                        &&& id == wanted
                        &&& t.contains_key(wanted)
                        &&& read == seq![Bound::Blob(t[wanted].name), Bound::Int(t[wanted].parent)]
                    }
            },
{
    let name = Field { column: Column::Name, qualified: true };
    let parent = Field { column: Column::ParentId, qualified: false };
    let key = Field { column: Column::Id, qualified: true };
    let fields = seq![name, parent];
    let lookup = Lookup { fields, key, value: 1 };
    reveal_strlit("SELECT f.name, parent_id FROM files AS f WHERE f.id = ?1");
    reveal_strlit("SELECT ");
    reveal_strlit(" FROM files AS f WHERE ");
    reveal_strlit("f.");
    reveal_strlit("id");
    reveal_strlit("name");
    reveal_strlit("parent_id");
    reveal_strlit(" = ?");
    reveal_strlit(", ");
    assert(field_texts(fields) =~= seq![name.text(), parent.text()]);
    lemma_joined2(name.text(), parent.text(), ", "@);
    assert(lookup.text() =~= ENTRY_SQL@);
    assert forall|wanted: i64, t: Table, id: i64, read: Seq<Bound>| #[trigger]
        lookup.reads(seq![Bound::Int(wanted)], t, id, read) <==> {
            &&& id == wanted
            &&& t.contains_key(wanted)
            &&& read == seq![Bound::Blob(t[wanted].name), Bound::Int(t[wanted].parent)]
        } by {
        if lookup.reads(seq![Bound::Int(wanted)], t, id, read) {
            assert(read[0] == fields[0].column.of(id, t[id]));
            assert(read[1] == fields[1].column.of(id, t[id]));
            assert(read =~= seq![Bound::Blob(t[wanted].name), Bound::Int(t[wanted].parent)]);
        }
    }
}

} // verus!
