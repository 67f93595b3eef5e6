//! What the triggers do to the table of suffixes.

use vstd::prelude::*;
use vstd::utf8::valid_utf8;

use crate::db::collation::fold_text;
use crate::db::table::{comes_to, Row, Table};
use crate::db::{Ask, Failure};
use crate::gen_suffixes_vtab::{suffixes, text_of};

verus! {

/// A row of the table of suffixes: a suffix of the name of a file, and the file.
pub struct SuffixRow {
    pub suffix: Seq<char>,
    pub id: i64,
}

/// The suffixes that are generated for a name; none for a name that is not valid UTF-8.
pub open spec fn generated(name: Seq<u8>) -> Seq<Seq<char>> {
    suffixes(text_of(name))
}

/// The rows for all suffixes of all names, and no others.
pub open spec fn index(t: Table) -> Set<SuffixRow> {
    Set::new(
        |row: SuffixRow| t.contains_key(row.id) && generated(t[row.id].name).contains(row.suffix),
    )
}

/// After a file was added: a row for each suffix of its name is added.
pub open spec fn after_insert(s: Set<SuffixRow>, id: i64, name: Seq<u8>) -> Set<SuffixRow> {
    Set::new(
        |row: SuffixRow| s.contains(row) || (row.id == id && generated(name).contains(row.suffix)),
    )
}

/// After a file was removed: its rows whose suffixes are those of its name, without
/// regard to case, are removed.
pub open spec fn after_delete(s: Set<SuffixRow>, id: i64, name: Seq<u8>) -> Set<SuffixRow> {
    Set::new(
        |row: SuffixRow|
            s.contains(row) && !(row.id == id && exists|other: Seq<char>| #[trigger]
                generated(name).contains(other) && fold_text(other) == fold_text(row.suffix)),
    )
}

/// After a file was changed: its rows change only with its name.
pub open spec fn after_update(
    s: Set<SuffixRow>,
    id: i64,
    old_name: Seq<u8>,
    new_name: Seq<u8>,
) -> Set<SuffixRow> {
    if old_name == new_name {
        s
    } else {
        after_insert(after_delete(s, id, old_name), id, new_name)
    }
}

/// The triggers keep the table of suffixes in step with the table of files: where it held
/// the suffixes of all names before a file is added, changed or removed, it does so
/// after. Moving a file to another directory under the same name leaves it as it is.
pub proof fn law_triggers(t: Table, id: i64, row: Row)
    ensures
        !t.contains_key(id) ==> after_insert(index(t), id, row.name) == index(t.insert(id, row)),
        t.contains_key(id) ==> {
            &&& after_delete(index(t), id, t[id].name) == index(t.remove(id))
            &&& after_update(index(t), id, t[id].name, row.name) == index(t.insert(id, row))
            &&& t[id].name == row.name ==> index(t.insert(id, row)) == index(t)
        },
{
    if t.contains_key(id) {
        let gone = after_delete(index(t), id, t[id].name);
        assert forall|r: SuffixRow| gone.contains(r) == index(t.remove(id)).contains(r) by {
            if r.id == id && index(t).contains(r) {
                assert(generated(t[id].name).contains(r.suffix));
            }
        }
        assert(gone =~= index(t.remove(id)));
        assert(after_update(index(t), id, t[id].name, row.name) =~= index(t.insert(id, row)));
    } else {
        assert(after_insert(index(t), id, row.name) =~= index(t.insert(id, row)));
    }
}

/// After the files in `gone` were removed, one after the other.
pub open spec fn after_deletes(s: Set<SuffixRow>, t: Table, gone: Seq<i64>) -> Set<SuffixRow>
    decreases gone.len(),
{
    if gone.len() == 0 {
        s
    } else {
        after_delete(after_deletes(s, t, gone.drop_last()), gone.last(), t[gone.last()].name)
    }
}

/// After the files in `changed` were changed, one after the other.
pub open spec fn after_updates(
    s: Set<SuffixRow>,
    t: Table,
    t2: Table,
    changed: Seq<i64>,
) -> Set<SuffixRow>
    decreases changed.len(),
{
    if changed.len() == 0 {
        s
    } else {
        let id = changed.last();
        after_update(after_updates(s, t, t2, changed.drop_last()), id, t[id].name, t2[id].name)
    }
}

/// After the files in `added` were added, one after the other.
pub open spec fn after_inserts(s: Set<SuffixRow>, t2: Table, added: Seq<i64>) -> Set<SuffixRow>
    decreases added.len(),
{
    if added.len() == 0 {
        s
    } else {
        after_insert(after_inserts(s, t2, added.drop_last()), added.last(), t2[added.last()].name)
    }
}

/// A table has turned into another one, and the triggers have run for every file that was
/// removed, changed and added, in whatever order.
pub open spec fn triggered(
    t: Table,
    t2: Table,
    gone: Seq<i64>,
    changed: Seq<i64>,
    added: Seq<i64>,
) -> bool {
    &&& forall|id: i64| gone.contains(id) <==> t.contains_key(id) && !t2.contains_key(id)
    &&& forall|id: i64| added.contains(id) <==> t2.contains_key(id) && !t.contains_key(id)
    &&& forall|id: i64| changed.contains(id) ==> t.contains_key(id) && t2.contains_key(id)
    &&& forall|id: i64|
        t.contains_key(id) && t2.contains_key(id) && t[id] != t2[id] ==> changed.contains(id)
}

/// The table of suffixes after a request.
pub open spec fn after_request(
    s: Set<SuffixRow>,
    t: Table,
    t2: Table,
    gone: Seq<i64>,
    changed: Seq<i64>,
    added: Seq<i64>,
) -> Set<SuffixRow> {
    after_inserts(after_updates(after_deletes(s, t, gone), t, t2, changed), t2, added)
}

/// What is in a sequence is the last element or before it.
proof fn lemma_last_or_before(ids: Seq<i64>, id: i64)
    requires
        ids.len() > 0,
    ensures
        ids.contains(id) <==> id == ids.last() || ids.drop_last().contains(id),
{
    if ids.contains(id) && id != ids.last() {
        let i = choose|i: int| 0 <= i < ids.len() && ids[i] == id;
        assert(ids.drop_last()[i] == id);
    }
    if ids.drop_last().contains(id) {
        let i = choose|i: int| 0 <= i < ids.drop_last().len() && ids.drop_last()[i] == id;
        assert(ids[i] == id);
    }
}

proof fn lemma_deletes(t: Table, gone: Seq<i64>, row: SuffixRow)
    ensures
        after_deletes(index(t), t, gone).contains(row) <==> index(t).contains(row)
            && !gone.contains(row.id),
    decreases gone.len(),
{
    if gone.len() > 0 {
        lemma_deletes(t, gone.drop_last(), row);
        lemma_last_or_before(gone, row.id);
        if row.id == gone.last() && index(t).contains(row) {
            assert(generated(t[row.id].name).contains(row.suffix));
        }
    }
}

proof fn lemma_updates(
    s: Set<SuffixRow>,
    t: Table,
    t2: Table,
    changed: Seq<i64>,
    row: SuffixRow,
)
    requires
        forall|r: SuffixRow|
            changed.contains(r.id) ==> (#[trigger] s.contains(r) <==> generated(
                t[r.id].name,
            ).contains(r.suffix)),
    ensures
        after_updates(s, t, t2, changed).contains(row) <==> if changed.contains(row.id) {
            generated(t2[row.id].name).contains(row.suffix)
        } else {
            s.contains(row)
        },
    decreases changed.len(),
{
    if changed.len() > 0 {
        let before = changed.drop_last();
        let id = changed.last();
        assert forall|r: SuffixRow| before.contains(r.id) implies (#[trigger] s.contains(r)
            <==> generated(t[r.id].name).contains(r.suffix)) by {
            lemma_last_or_before(changed, r.id);
        }
        lemma_updates(s, t, t2, before, row);
        lemma_last_or_before(changed, row.id);
        if row.id == id {
            assert(s.contains(row) <==> generated(t[id].name).contains(row.suffix));
            if !before.contains(id) && s.contains(row) {
                assert(generated(t[id].name).contains(row.suffix));
            }
        }
    }
}

proof fn lemma_inserts(s: Set<SuffixRow>, t2: Table, added: Seq<i64>, row: SuffixRow)
    ensures
        after_inserts(s, t2, added).contains(row) <==> s.contains(row) || (added.contains(row.id)
            && generated(t2[row.id].name).contains(row.suffix)),
    decreases added.len(),
{
    if added.len() > 0 {
        lemma_inserts(s, t2, added.drop_last(), row);
        lemma_last_or_before(added, row.id);
    }
}

/// The table of suffixes stays in step with the table of files over every request, also
/// where many files are removed along with one: where it held the suffixes of all names
/// before the request, it does so once the triggers have run.
pub proof fn law_requests_keep_index(
    t: Table,
    ask: Ask,
    x: Result<i64, Failure>,
    t2: Table,
    gone: Seq<i64>,
    changed: Seq<i64>,
    added: Seq<i64>,
)
    requires
        comes_to(t, ask, x, t2),
        triggered(t, t2, gone, changed, added),
    ensures
        after_request(index(t), t, t2, gone, changed, added) == index(t2),
        t2 == t ==> after_request(index(t), t, t2, gone, changed, added) == index(t),
{
    let left = after_deletes(index(t), t, gone);
    let s = after_updates(left, t, t2, changed);
    assert forall|r: SuffixRow| changed.contains(r.id) implies (#[trigger] left.contains(r)
        <==> generated(t[r.id].name).contains(r.suffix)) by {
        lemma_deletes(t, gone, r);
    }
    assert forall|r: SuffixRow|
        after_inserts(s, t2, added).contains(r) == index(t2).contains(r) by {
        lemma_deletes(t, gone, r);
        lemma_updates(left, t, t2, changed, r);
        lemma_inserts(s, t2, added, r);
    }
    assert(after_inserts(s, t2, added) =~= index(t2));
}

/// A database with nothing but the root directory has no suffixes, for the root directory
/// has no name; nor do files whose names are not valid UTF-8.
pub proof fn law_no_suffixes(t: Table)
    requires
        forall|id: i64| #[trigger]
            t.contains_key(id) ==> t[id].name.len() == 0 || !valid_utf8(t[id].name),
    ensures
        index(t) == Set::<SuffixRow>::empty(),
{
    assert forall|r: SuffixRow| !index(t).contains(r) by {
        if t.contains_key(r.id) {
            let name = t[r.id].name;
            assert(text_of(name) =~= Seq::<char>::empty());
            assert(generated(name) =~= Seq::<Seq<char>>::empty());
        }
    }
    assert(index(t) =~= Set::<SuffixRow>::empty());
}

} // verus!
