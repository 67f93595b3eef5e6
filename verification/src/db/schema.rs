//! How the tables and triggers of the database are written, and what they keep.

use vstd::prelude::*;
use vstd::string::*;

use crate::db::collation::fold_text;
use crate::db::sql::{column_texts, Column};
use crate::db::suffix_index::{after_delete, after_insert, after_update, generated, SuffixRow};
use crate::db::table::{sound, Row, Table};
use crate::db::{Bound, MIGRATION};
use crate::text::joined;

verus! {

/// A part of what is written about the table of files.
pub enum Part {
    /// The column by which rows are told apart.
    Key(Column),
    /// A column of bytes.
    Bytes(Column),
    /// A column with the identifier of another row, with which a row is removed.
    Parent(Column),
    /// No two rows have the same in all these columns.
    Unique(Seq<Column>),
}

impl Part {
    /// As it is written.
    pub open spec fn text(self) -> Seq<char> {
        match self {
            Part::Key(c) => c.text() + " INTEGER PRIMARY KEY"@,
            Part::Bytes(c) => c.text() + " BLOB"@,
            Part::Parent(c) => c.text() + " INTEGER REFERENCES files(id) ON DELETE CASCADE"@,
            Part::Unique(columns) => "UNIQUE("@ + joined(column_texts(columns), ", "@) + ")"@,
        }
    }

    /// The table keeps it.
    pub open spec fn is_kept(self, t: Table) -> bool {
        match self {
            Part::Key(c) => c is Id,
            Part::Bytes(c) => c is FileHandle || c is Name,
            Part::Parent(c) => forall|id: i64| #[trigger]
                t.contains_key(id) ==> c.of(id, t[id]) is Int && t.contains_key(
                    c.of(id, t[id])->Int_0,
                ),
            Part::Unique(columns) => forall|a: i64, b: i64| #[trigger]
                t.contains_key(a) && #[trigger] t.contains_key(b) && same_in(
                    columns,
                    a,
                    t[a],
                    b,
                    t[b],
                ) ==> a == b,
        }
    }
}

/// Two rows have the same in all these columns.
pub open spec fn same_in(columns: Seq<Column>, a: i64, x: Row, b: i64, y: Row) -> bool {
    forall|i: int| 0 <= i < columns.len() ==> (#[trigger] columns[i]).of(a, x) == columns[i].of(
        b,
        y,
    )
}

/// The texts of parts.
pub open spec fn part_texts(parts: Seq<Part>) -> Seq<Seq<char>> {
    parts.map_values(|p: Part| p.text())
}

/// The row before a change, or the one after it.
pub enum Which {
    Old,
    New,
}

impl Which {
    /// As it is written.
    pub open spec fn text(self) -> Seq<char> {
        match self {
            Which::Old => "OLD"@,
            Which::New => "NEW"@,
        }
    }
}

/// The identifier and the name of a row.
pub struct Named {
    pub id: i64,
    pub name: Seq<u8>,
}

/// What a trigger does.
pub enum Deed {
    /// The suffixes of the name of the row are added.
    Add(Which),
    /// The suffixes of the name of the row are removed.
    Drop(Which),
}

impl Deed {
    /// As it is written.
    pub open spec fn text(self) -> Seq<char> {
        match self {
            Deed::Add(w) => "INSERT INTO suffix_array SELECT suffix, "@ + w.text()
                + ".id FROM gen_suffixes("@ + w.text() + ".name); "@,
            Deed::Drop(w) =>
                "DELETE FROM suffix_array WHERE suffix IN (SELECT suffix FROM gen_suffixes("@
                + w.text() + ".name)) AND id = "@ + w.text() + ".id; "@,
        }
    }

    /// The table of suffixes after it. Suffixes are equal without regard to case.
    pub open spec fn done(self, s: Set<SuffixRow>, old: Named, new: Named) -> Set<SuffixRow> {
        let w = match self {
            Deed::Add(w) => w,
            Deed::Drop(w) => w,
        };
        let row = match w {
            Which::Old => old,
            Which::New => new,
        };
        match self {
            Deed::Add(_) => Set::new(
                |r: SuffixRow|
                    s.contains(r) || (r.id == row.id && generated(row.name).contains(r.suffix)),
            ),
            Deed::Drop(_) => Set::new(
                |r: SuffixRow|
                    s.contains(r) && !(r.id == row.id && exists|other: Seq<char>| #[trigger]
                        generated(row.name).contains(other) && fold_text(other) == fold_text(
                            r.suffix,
                        )),
            ),
        }
    }
}

/// A change to a row.
pub enum Occasion {
    Insert,
    Delete,
    Update,
}

impl Occasion {
    /// As it is written.
    pub open spec fn text(self) -> Seq<char> {
        match self {
            Occasion::Insert => "INSERT"@,
            Occasion::Delete => "DELETE"@,
            Occasion::Update => "UPDATE"@,
        }
    }
}

/// A trigger: what is done after a change to a row, or only if the name has changed.
pub struct Trigger {
    pub name: Seq<char>,
    pub occasion: Occasion,
    pub renamed_only: bool,
    pub deeds: Seq<Deed>,
}

/// The texts of deeds, one after the other.
pub open spec fn deeds_text(deeds: Seq<Deed>) -> Seq<char>
    decreases deeds.len(),
{
    if deeds.len() == 0 {
        Seq::empty()
    } else {
        deeds_text(deeds.drop_last()) + deeds.last().text()
    }
}

/// The table of suffixes after all deeds.
pub open spec fn all_done(
    deeds: Seq<Deed>,
    s: Set<SuffixRow>,
    old: Named,
    new: Named,
) -> Set<SuffixRow>
    decreases deeds.len(),
{
    if deeds.len() == 0 {
        s
    } else {
        deeds.last().done(all_done(deeds.drop_last(), s, old, new), old, new)
    }
}

impl Trigger {
    /// As it is written.
    pub open spec fn text(self) -> Seq<char> {
        "CREATE TRIGGER "@ + self.name + " AFTER "@ + self.occasion.text() + " ON files "@ + (
        if self.renamed_only {
            "WHEN OLD.name != NEW.name "@
        } else {
            Seq::empty()
        }) + "BEGIN "@ + deeds_text(self.deeds) + "END;"@
    }

    /// The table of suffixes after the change.
    pub open spec fn fired(self, s: Set<SuffixRow>, old: Named, new: Named) -> Set<SuffixRow> {
        if self.renamed_only && old.name == new.name {
            s
        } else {
            all_done(self.deeds, s, old, new)
        }
    }
}

/// The tables and triggers.
pub struct Schema {
    pub parts: Seq<Part>,
    pub add: Trigger,
    pub drop: Trigger,
    pub change: Trigger,
}

impl Schema {
    /// As it is written: the table of files, an index on it, the table of suffixes, in which
    /// case makes no difference and no suffix of a file is twice, and the triggers.
    pub open spec fn text(self) -> Seq<char> {
        "CREATE TABLE files ("@ + joined(part_texts(self.parts), ","@) + ");"@
            + "CREATE INDEX fanotify_lookup_idx ON files(file_handle, name);"@
            + "CREATE TABLE suffix_array (suffix TEXT COLLATE NOCASE,id INTEGER,\
            PRIMARY KEY (suffix, id)) WITHOUT ROWID;"@
            + self.add.text() + self.drop.text() + self.change.text()
    }

    /// What is kept of the table of files is what is taken to be kept, and the triggers keep
    /// the table of suffixes as they are taken to.
    pub open spec fn is_kept(self) -> bool {
        &&& forall|t: Table| #[trigger]
            sound(t) <==> forall|i: int|
                0 <= i < self.parts.len() ==> (#[trigger] self.parts[i]).is_kept(t)
        &&& self.add.occasion is Insert
        &&& self.drop.occasion is Delete
        &&& self.change.occasion is Update
        &&& forall|s: Set<SuffixRow>, old: Named, new: Named| #[trigger]
            self.add.fired(s, old, new) == after_insert(s, new.id, new.name)
        &&& forall|s: Set<SuffixRow>, old: Named, new: Named| #[trigger]
            self.drop.fired(s, old, new) == after_delete(s, old.id, old.name)
        &&& forall|s: Set<SuffixRow>, old: Named, new: Named|
            old.id == new.id ==> #[trigger] self.change.fired(s, old, new) == after_update(
                s,
                new.id,
                old.name,
                new.name,
            )
    }
}

/// The parts of the table of files.
spec fn file_parts() -> Seq<Part> {
    seq![
        Part::Key(Column::Id),
        Part::Bytes(Column::FileHandle),
        Part::Bytes(Column::Name),
        Part::Parent(Column::ParentId),
        Part::Unique(seq![Column::ParentId, Column::Name]),
    ]
}

/// The tables and triggers of the database.
spec fn schema() -> Schema {
    Schema {
        parts: file_parts(),
        add: Trigger {
            name: "add_suffixes"@,
            occasion: Occasion::Insert,
            renamed_only: false,
            deeds: seq![Deed::Add(Which::New)],
        },
        drop: Trigger {
            name: "delete_suffixes"@,
            occasion: Occasion::Delete,
            renamed_only: false,
            deeds: seq![Deed::Drop(Which::Old)],
        },
        change: Trigger {
            name: "update_suffixes"@,
            occasion: Occasion::Update,
            renamed_only: true,
            deeds: seq![Deed::Drop(Which::Old), Deed::Add(Which::New)],
        },
    }
}

/// The table of files.
spec fn files_text() -> Seq<char> {
    "CREATE TABLE files (id INTEGER PRIMARY KEY,file_handle BLOB,name \
        BLOB,parent_id INTEGER REFERENCES files(id) ON DELETE \
        CASCADE,UNIQUE(parent_id, name));"@
}

/// The index on the table of files.
spec fn index_text() -> Seq<char> {
    "CREATE INDEX fanotify_lookup_idx ON files(file_handle, name);"@
}

/// The table of suffixes.
spec fn suffixes_text() -> Seq<char> {
    "CREATE TABLE suffix_array (suffix TEXT COLLATE NOCASE,id \
        INTEGER,PRIMARY KEY (suffix, id)) WITHOUT ROWID;"@
}

/// The trigger that adds suffixes.
spec fn add_text() -> Seq<char> {
    "CREATE TRIGGER add_suffixes AFTER INSERT ON files BEGIN INSERT INTO \
        suffix_array SELECT suffix, NEW.id FROM gen_suffixes(NEW.name); END;"@
}

/// The trigger that removes suffixes.
spec fn drop_text() -> Seq<char> {
    "CREATE TRIGGER delete_suffixes AFTER DELETE ON files BEGIN DELETE FROM \
        suffix_array WHERE suffix IN (SELECT suffix FROM \
        gen_suffixes(OLD.name)) AND id = OLD.id; END;"@
}

/// The trigger that changes suffixes.
spec fn change_text() -> Seq<char> {
    "CREATE TRIGGER update_suffixes AFTER UPDATE ON files WHEN OLD.name != \
        NEW.name BEGIN DELETE FROM suffix_array WHERE suffix IN (SELECT suffix \
        FROM gen_suffixes(OLD.name)) AND id = OLD.id; INSERT INTO suffix_array \
        SELECT suffix, NEW.id FROM gen_suffixes(NEW.name); END;"@
}

/// The tables and triggers, one after the other.
proof fn lemma_pieces()
    ensures
        MIGRATION@ == files_text() + index_text() + suffixes_text() + add_text() + drop_text()
            + change_text(),
{
    reveal_strlit(
    "CREATE TABLE files (\
        id INTEGER PRIMARY KEY,\
        file_handle BLOB,\
        name BLOB,\
        parent_id INTEGER REFERENCES files(id) ON DELETE CASCADE,\
        UNIQUE(parent_id, name)\
    );\
    CREATE INDEX fanotify_lookup_idx ON files(file_handle, name);\
    CREATE TABLE suffix_array (\
        suffix TEXT COLLATE NOCASE,\
        id INTEGER,\
        PRIMARY KEY (suffix, id)\
    ) WITHOUT ROWID;\
    CREATE TRIGGER add_suffixes AFTER INSERT ON files BEGIN \
        INSERT INTO suffix_array \
        SELECT suffix, NEW.id FROM gen_suffixes(NEW.name); \
    END;\
    CREATE TRIGGER delete_suffixes AFTER DELETE ON files BEGIN \
        DELETE FROM suffix_array \
        WHERE suffix IN (SELECT suffix FROM gen_suffixes(OLD.name)) \
        AND id = OLD.id; \
    END;\
    CREATE TRIGGER update_suffixes AFTER UPDATE ON files WHEN OLD.name != NEW.name BEGIN \
        DELETE FROM suffix_array \
        WHERE suffix IN (SELECT suffix FROM gen_suffixes(OLD.name)) \
        AND id = OLD.id; \
        INSERT INTO suffix_array \
        SELECT suffix, NEW.id FROM gen_suffixes(NEW.name); \
    END;",
    );
    reveal_strlit(
        "CREATE TABLE files (id INTEGER PRIMARY KEY,file_handle BLOB,name \
        BLOB,parent_id INTEGER REFERENCES files(id) ON DELETE \
        CASCADE,UNIQUE(parent_id, name));",
    );
    reveal_strlit("CREATE INDEX fanotify_lookup_idx ON files(file_handle, name);");
    reveal_strlit(
        "CREATE TABLE suffix_array (suffix TEXT COLLATE NOCASE,id \
        INTEGER,PRIMARY KEY (suffix, id)) WITHOUT ROWID;",
    );
    reveal_strlit(
        "CREATE TRIGGER add_suffixes AFTER INSERT ON files BEGIN INSERT INTO \
        suffix_array SELECT suffix, NEW.id FROM gen_suffixes(NEW.name); END;",
    );
    reveal_strlit(
        "CREATE TRIGGER delete_suffixes AFTER DELETE ON files BEGIN DELETE FROM \
        suffix_array WHERE suffix IN (SELECT suffix FROM \
        gen_suffixes(OLD.name)) AND id = OLD.id; END;",
    );
    reveal_strlit(
        "CREATE TRIGGER update_suffixes AFTER UPDATE ON files WHEN OLD.name != \
        NEW.name BEGIN DELETE FROM suffix_array WHERE suffix IN (SELECT suffix \
        FROM gen_suffixes(OLD.name)) AND id = OLD.id; INSERT INTO suffix_array \
        SELECT suffix, NEW.id FROM gen_suffixes(NEW.name); END;",
    );
}

/// The text of the table of files.
proof fn lemma_files_text()
    ensures
        "CREATE TABLE files ("@ + joined(part_texts(file_parts()), ","@) + ");"@ == files_text(),
{
    reveal_with_fuel(joined, 6);
    reveal_strlit(
        "CREATE TABLE files (id INTEGER PRIMARY KEY,file_handle BLOB,name \
        BLOB,parent_id INTEGER REFERENCES files(id) ON DELETE \
        CASCADE,UNIQUE(parent_id, name));",
    );
    reveal_strlit("CREATE TABLE files (");
    reveal_strlit(");");
    reveal_strlit(",");
    reveal_strlit(", ");
    reveal_strlit("id");
    reveal_strlit("file_handle");
    reveal_strlit("name");
    reveal_strlit("parent_id");
    reveal_strlit(" INTEGER PRIMARY KEY");
    reveal_strlit(" BLOB");
    reveal_strlit(" INTEGER REFERENCES files(id) ON DELETE CASCADE");
    reveal_strlit("UNIQUE(");
    reveal_strlit(")");
    let parts = file_parts();
    let (a, b, c) = (parts[0].text(), parts[1].text(), parts[2].text());
    let (d, e) = (parts[3].text(), parts[4].text());
    let texts = part_texts(parts);
    assert(texts =~= seq![a, b, c, d, e]);
    assert(texts.drop_last() =~= seq![a, b, c, d]);
    assert(seq![a, b, c, d].drop_last() =~= seq![a, b, c]);
    assert(seq![a, b, c].drop_last() =~= seq![a, b]);
    assert(seq![a, b].drop_last() =~= seq![a]);
    let columns = seq![Column::ParentId, Column::Name];
    assert(column_texts(columns) =~= seq!["parent_id"@, "name"@]);
    assert(seq!["parent_id"@, "name"@].drop_last() =~= seq!["parent_id"@]);
    assert("CREATE TABLE files ("@ + joined(texts, ","@) + ");"@ =~= files_text());
}

/// The texts of the triggers.
proof fn lemma_triggers_text()
    ensures
        schema().add.text() == add_text(),
        schema().drop.text() == drop_text(),
        schema().change.text() == change_text(),
{
    reveal_with_fuel(deeds_text, 3);
    reveal_strlit(
        "CREATE TRIGGER add_suffixes AFTER INSERT ON files BEGIN INSERT INTO \
        suffix_array SELECT suffix, NEW.id FROM gen_suffixes(NEW.name); END;",
    );
    reveal_strlit(
        "CREATE TRIGGER delete_suffixes AFTER DELETE ON files BEGIN DELETE FROM \
        suffix_array WHERE suffix IN (SELECT suffix FROM \
        gen_suffixes(OLD.name)) AND id = OLD.id; END;",
    );
    reveal_strlit(
        "CREATE TRIGGER update_suffixes AFTER UPDATE ON files WHEN OLD.name != \
        NEW.name BEGIN DELETE FROM suffix_array WHERE suffix IN (SELECT suffix \
        FROM gen_suffixes(OLD.name)) AND id = OLD.id; INSERT INTO suffix_array \
        SELECT suffix, NEW.id FROM gen_suffixes(NEW.name); END;",
    );
    reveal_strlit("add_suffixes");
    reveal_strlit("delete_suffixes");
    reveal_strlit("update_suffixes");
    reveal_strlit("CREATE TRIGGER ");
    reveal_strlit(" AFTER ");
    reveal_strlit(" ON files ");
    reveal_strlit("WHEN OLD.name != NEW.name ");
    reveal_strlit("BEGIN ");
    reveal_strlit("END;");
    reveal_strlit("INSERT");
    reveal_strlit("DELETE");
    reveal_strlit("UPDATE");
    reveal_strlit("OLD");
    reveal_strlit("NEW");
    reveal_strlit("INSERT INTO suffix_array SELECT suffix, ");
    reveal_strlit(".id FROM gen_suffixes(");
    reveal_strlit(".name); ");
    reveal_strlit("DELETE FROM suffix_array WHERE suffix IN (SELECT suffix FROM gen_suffixes(");
    reveal_strlit(".name)) AND id = ");
    reveal_strlit(".id; ");
    let (add, drop) = (Deed::Add(Which::New), Deed::Drop(Which::Old));
    assert(seq![add].drop_last() =~= Seq::<Deed>::empty());
    assert(seq![drop].drop_last() =~= Seq::<Deed>::empty());
    assert(seq![drop, add].drop_last() =~= seq![drop]);
    assert(deeds_text(seq![add]) =~= add.text());
    assert(deeds_text(seq![drop]) =~= drop.text());
    assert(deeds_text(seq![drop, add]) =~= drop.text() + add.text());
    assert(schema().add.text() =~= add_text());
    assert(schema().drop.text() =~= drop_text());
    assert(schema().change.text() =~= change_text());
}

/// What is written about the table of files is kept by just the tables that keep the
/// constraints.
proof fn lemma_parts_kept(t: Table)
    ensures
        sound(t) <==> forall|i: int|
            0 <= i < file_parts().len() ==> (#[trigger] file_parts()[i]).is_kept(t),
{
    let parts = file_parts();
    let columns = seq![Column::ParentId, Column::Name];
    assert forall|a: i64, b: i64| #[trigger] same_in(columns, a, t[a], b, t[b]) <==> t[a].parent
        == t[b].parent && t[a].name == t[b].name by {
        if same_in(columns, a, t[a], b, t[b]) {
            assert(columns[0].of(a, t[a]) == columns[0].of(b, t[b]));
            assert(columns[1].of(a, t[a]) == columns[1].of(b, t[b]));
        }
    }
    if forall|i: int| 0 <= i < parts.len() ==> (#[trigger] parts[i]).is_kept(t) {
        assert(parts[3].is_kept(t));
        assert(parts[4].is_kept(t));
        assert forall|a: i64, b: i64|
            t.contains_key(a) && t.contains_key(b) && #[trigger] t[a].parent
                == #[trigger] t[b].parent && t[a].name == t[b].name implies a == b by {
            assert(same_in(columns, a, t[a], b, t[b]));
        }
        assert forall|a: i64| t.contains_key(a) implies t.contains_key(#[trigger] t[a].parent) by {
            assert(Column::ParentId.of(a, t[a]) == Bound::Int(t[a].parent));
        }
    }
    if sound(t) {
        assert(parts[3].is_kept(t));
        assert(parts[4].is_kept(t)) by {
            assert forall|a: i64, b: i64| #[trigger]
                t.contains_key(a) && #[trigger] t.contains_key(b) && same_in(
                    columns,
                    a,
                    t[a],
                    b,
                    t[b],
                ) implies a == b by {
                assert(t[a].parent == t[b].parent);
            }
        }
    }
}

/// The tables and triggers that are set up keep what the laws on the tables take them to
/// keep: no two entries of a directory have one name and every parent is there, and the
/// suffixes of a name are added with it, removed with it, and changed with it.
pub proof fn law_schema()
    ensures
        exists|schema: Schema| #[trigger] schema.text() == MIGRATION@ && schema.is_kept(),
{
    let it = schema();
    lemma_pieces();
    lemma_files_text();
    lemma_triggers_text();
    assert(it.text() == MIGRATION@);
    assert forall|t: Table| #[trigger] sound(t) <==> forall|i: int|
        0 <= i < it.parts.len() ==> (#[trigger] it.parts[i]).is_kept(t) by {
        lemma_parts_kept(t);
    }
    reveal_with_fuel(all_done, 3);
    let (add, drop) = (Deed::Add(Which::New), Deed::Drop(Which::Old));
    assert(seq![add].drop_last() =~= Seq::<Deed>::empty());
    assert(seq![drop].drop_last() =~= Seq::<Deed>::empty());
    assert(seq![drop, add].drop_last() =~= seq![drop]);
    assert forall|s: Set<SuffixRow>, old: Named, new: Named| #[trigger]
        it.add.fired(s, old, new) == after_insert(s, new.id, new.name) by {
        assert(it.add.fired(s, old, new) =~= after_insert(s, new.id, new.name));
    }
    assert forall|s: Set<SuffixRow>, old: Named, new: Named| #[trigger]
        it.drop.fired(s, old, new) == after_delete(s, old.id, old.name) by {
        assert(it.drop.fired(s, old, new) =~= after_delete(s, old.id, old.name));
    }
    assert forall|s: Set<SuffixRow>, old: Named, new: Named| old.id == new.id implies
        #[trigger] it.change.fired(s, old, new) == after_update(s, new.id, old.name, new.name) by {
        let less = drop.done(s, old, new);
        assert(less =~= after_delete(s, old.id, old.name));
        assert(add.done(less, old, new) =~= after_insert(less, new.id, new.name));
    }
    assert(it.is_kept());
}

} // verus!
