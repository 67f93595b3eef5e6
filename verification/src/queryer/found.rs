//! The rows of a query, and the files that an answer lists.

use vstd::prelude::*;
use vstd::utf8::decode_utf8;

use crate::db::collation::LAST_CHAR;
use crate::db::meaning::law_best_level;
use crate::db::path::{leads, path_through, pushed};
use crate::db::query::{best_level, specifities};
use crate::db::results::{
    asks_for_text, finds_rows, is_found, is_match, is_query, is_searchable,
    law_query_finds,
};
use crate::db::suffix_index::index;
use crate::db::table::{below, climbs, sound, Table};
use crate::db::ROOT_ID;
use crate::queryer::listing::{answers, first_of, law_paths_listed, paths_of};
use crate::queryer::{begin_line, end_line, item_line, segments, wanted, Chain};
use crate::watcher::tree::rooted;

verus! {

/// The columns of a statement that has found these rows: the identifier of the first, and
/// the names of those below it. The name of the first goes with its identifier.
pub open spec fn chain_of(t: Table, ids: Seq<i64>) -> Chain {
    Chain {
        id: ids[0],
        below: Seq::new((ids.len() - 1) as nat, |i: int| t[ids[i + 1]].name),
    }
}

/// The statement for a query has these rows, where the table of suffixes is in step: what
/// the conditions hold of, and nothing twice. The order is left open.
pub open spec fn query_rows(t: Table, segs: Seq<Seq<char>>, rows: Seq<Chain>) -> bool {
    &&& rows.no_duplicates()
    &&& forall|row: Chain| #[trigger]
        rows.contains(row) <==> exists|ids: Seq<i64>| #[trigger]
            finds_rows(t, index(t), segs, ids) && row == chain_of(t, ids)
}

/// All names in the table are text without a zero character.
pub open spec fn all_searchable(t: Table) -> bool {
    forall|id: i64| #[trigger] t.contains_key(id) ==> is_searchable(t[id].name)
}

proof fn lemma_finds(t: Table, segs: Seq<Seq<char>>, ids: Seq<i64>)
    requires
        is_query(segs),
        all_searchable(t),
    ensures
        finds_rows(t, index(t), segs, ids) <==> is_found(t, segs, ids),
        asks_for_text(segs) && (forall|id: i64| #[trigger]
            t.contains_key(id) ==> !decode_utf8(t[id].name).contains(LAST_CHAR)) ==> (is_found(
            t,
            segs,
            ids,
        ) <==> is_match(t, segs, ids)),
{
    if forall|i: int| 0 <= i < ids.len() ==> t.contains_key(#[trigger] ids[i]) {
        law_query_finds(t, segs, ids);
        law_best_level(specifities(segs));
        if ids.len() == segs.len() {
            assert(t.contains_key(ids[best_level(specifities(segs))]));
        }
    }
}

/// The first file and the names below it tell which files they are.
proof fn lemma_one_chain(t: Table, segs: Seq<Seq<char>>, a: Seq<i64>, b: Seq<i64>, n: int)
    requires
        sound(t),
        is_match(t, segs, a),
        is_match(t, segs, b),
        chain_of(t, a) == chain_of(t, b),
        0 <= n < segs.len(),
    ensures
        a[n] == b[n],
    decreases n,
{
    if n > 0 {
        lemma_one_chain(t, segs, a, b, n - 1);
        assert(chain_of(t, a).below[n - 1] == t[a[n]].name);
        assert(chain_of(t, b).below[n - 1] == t[b[n]].name);
        assert(t[a[n]].parent == t[b[n]].parent);
    }
}

/// The rows of a query are, each once, those of the chains of files whose names contain the
/// segments, and different chains have different rows. Names must be text. A chain is left
/// out only where the segment that is looked up among the suffixes is not found there: never
/// where some segment is not empty and no name holds the greatest character.
pub proof fn law_query_rows(t: Table, segs: Seq<Seq<char>>, rows: Seq<Chain>)
    requires
        sound(t),
        is_query(segs),
        all_searchable(t),
        query_rows(t, segs, rows),
    ensures
        rows.no_duplicates(),
        forall|row: Chain| #[trigger]
            rows.contains(row) <==> exists|ids: Seq<i64>| #[trigger]
                is_found(t, segs, ids) && row == chain_of(t, ids),
        forall|a: Seq<i64>, b: Seq<i64>| #[trigger]
            is_found(t, segs, a) && #[trigger] is_found(t, segs, b) && chain_of(t, a) == chain_of(
                t,
                b,
            ) ==> a == b,
        asks_for_text(segs) && (forall|id: i64| #[trigger]
            t.contains_key(id) ==> !decode_utf8(t[id].name).contains(LAST_CHAR)) ==> forall|
            row: Chain,
        | #[trigger]
            rows.contains(row) <==> exists|ids: Seq<i64>| #[trigger]
                is_match(t, segs, ids) && row == chain_of(t, ids),
{
    assert forall|row: Chain| #[trigger]
        rows.contains(row) <==> exists|ids: Seq<i64>| #[trigger]
            is_found(t, segs, ids) && row == chain_of(t, ids) by {
        if rows.contains(row) {
            let ids = choose|ids: Seq<i64>| #[trigger]
                finds_rows(t, index(t), segs, ids) && row == chain_of(t, ids);
            lemma_finds(t, segs, ids);
            assert(is_found(t, segs, ids));
        }
        if exists|ids: Seq<i64>| #[trigger] is_found(t, segs, ids) && row == chain_of(t, ids) {
            let ids = choose|ids: Seq<i64>| #[trigger]
                is_found(t, segs, ids) && row == chain_of(t, ids);
            lemma_finds(t, segs, ids);
            assert(finds_rows(t, index(t), segs, ids));
        }
    }
    assert forall|a: Seq<i64>, b: Seq<i64>| #[trigger]
        is_found(t, segs, a) && #[trigger] is_found(t, segs, b) && chain_of(t, a) == chain_of(
            t,
            b,
        ) implies a == b by {
        assert forall|n: int| 0 <= n < segs.len() implies a[n] == b[n] by {
            lemma_one_chain(t, segs, a, b, n);
        }
        assert(a =~= b);
    }
    if asks_for_text(segs) && (forall|id: i64| #[trigger]
        t.contains_key(id) ==> !decode_utf8(t[id].name).contains(LAST_CHAR)) {
        assert forall|row: Chain| #[trigger]
            rows.contains(row) <==> exists|ids: Seq<i64>| #[trigger]
                is_match(t, segs, ids) && row == chain_of(t, ids) by {
            if exists|ids: Seq<i64>| #[trigger] is_match(t, segs, ids) && row == chain_of(t, ids) {
                let ids = choose|ids: Seq<i64>| #[trigger]
                    is_match(t, segs, ids) && row == chain_of(t, ids);
                lemma_finds(t, segs, ids);
                assert(is_found(t, segs, ids));
            }
            if rows.contains(row) {
                let ids = choose|ids: Seq<i64>| #[trigger]
                    is_found(t, segs, ids) && row == chain_of(t, ids);
                assert(is_match(t, segs, ids));
            }
        }
    }
}

/// The path of a file from the root directory.
pub open spec fn file_path(t: Table, id: i64) -> Seq<u8> {
    path_through(choose|names: Seq<Seq<u8>>| leads(t, names, id))
}

/// There are names that lead to every file of a tree.
proof fn lemma_names_lead(t: Table, id: i64, n: nat) -> (names: Seq<Seq<u8>>)
    requires
        rooted(t),
        t.contains_key(id),
        climbs(t, ROOT_ID, id, n),
    ensures
        leads(t, names, id),
    decreases n,
{
    reveal_with_fuel(climbs, 2);
    let name = t[id].name;
    if t[id].parent == ROOT_ID {
        seq![name]
    } else {
        let up = lemma_names_lead(t, t[id].parent, (n - 1) as nat);
        assert(up.push(name).drop_last() =~= up);
        up.push(name)
    }
}

/// No other names lead to a file.
proof fn lemma_names_unique(t: Table, a: Seq<Seq<u8>>, b: Seq<Seq<u8>>, id: i64)
    requires
        leads(t, a, id),
        leads(t, b, id),
    ensures
        a == b,
    decreases a.len(),
{
    if t[id].parent == ROOT_ID {
        assert(a =~= b);
    } else {
        lemma_names_unique(t, a.drop_last(), b.drop_last(), t[id].parent);
        assert(a =~= a.drop_last().push(a.last()));
        assert(b =~= b.drop_last().push(b.last()));
    }
}

/// The names that lead to a file.
proof fn lemma_file_path(t: Table, id: i64) -> (names: Seq<Seq<u8>>)
    requires
        rooted(t),
        t.contains_key(id),
    ensures
        leads(t, names, id),
        file_path(t, id) == path_through(names),
{
    assert(below(t, ROOT_ID, id));
    let n = choose|n: nat| climbs(t, ROOT_ID, id, n);
    let some = lemma_names_lead(t, id, n);
    assert(leads(t, some, id));
    choose|names: Seq<Seq<u8>>| leads(t, names, id)
}

/// The path of a file is that of its directory with its name below it.
proof fn lemma_path_step(t: Table, id: i64)
    requires
        rooted(t),
        t[ROOT_ID].name.len() == 0,
        t.contains_key(id),
        t.contains_key(t[id].parent),
    ensures
        file_path(t, id) == pushed(file_path(t, t[id].parent), t[id].name),
{
    reveal_with_fuel(path_through, 3);
    let names = lemma_file_path(t, id);
    let up = lemma_file_path(t, t[id].parent);
    if t[id].parent == ROOT_ID {
        assert(up.drop_last() =~= Seq::<Seq<u8>>::empty());
        assert(file_path(t, ROOT_ID) =~= Seq::<u8>::empty());
        assert(names.drop_last() =~= Seq::<Seq<u8>>::empty());
    } else {
        lemma_names_unique(t, names.drop_last(), up, t[id].parent);
    }
}

/// The path that an answer puts together is that of the last file.
proof fn lemma_same_path(t: Table, ids: Seq<i64>, names: Seq<Seq<u8>>)
    requires
        rooted(t),
        t[ROOT_ID].name.len() == 0,
        ids.len() > 0,
        forall|i: int| 0 <= i < ids.len() ==> t.contains_key(#[trigger] ids[i]),
        forall|i: int| 0 < i < ids.len() ==> t[#[trigger] ids[i]].parent == ids[i - 1],
        leads(t, names, ids[0]),
    ensures
        path_through(names + chain_of(t, ids).below) == file_path(t, ids.last()),
    decreases ids.len(),
{
    let whole = names + chain_of(t, ids).below;
    if ids.len() == 1 {
        assert(whole =~= names);
        let others = lemma_file_path(t, ids[0]);
        lemma_names_unique(t, names, others, ids[0]);
    } else {
        let before = ids.drop_last();
        assert(before.last() == ids[ids.len() - 2]);
        assert(t.contains_key(before.last()));
        lemma_same_path(t, before, names);
        lemma_path_step(t, ids.last());
        assert(whole.drop_last() =~= names + chain_of(t, before).below);
        assert(whole.last() == t[ids.last()].name);
    }
}

/// All chains of files that a query finds, each once.
pub open spec fn all_found(t: Table, segs: Seq<Seq<char>>, chains: Seq<Seq<i64>>) -> bool {
    &&& chains.no_duplicates()
    &&& forall|ids: Seq<i64>| #[trigger] chains.contains(ids) <==> is_found(t, segs, ids)
}

/// The lines of the paths of the last files of all chains.
pub open spec fn lines_of(t: Table, chains: Seq<Seq<i64>>) -> Seq<Seq<char>> {
    Seq::new(chains.len(), |i: int| item_line(file_path(t, chains[i].last())))
}

/// The answer to a message lists the paths of the files that the query finds, one for each
/// chain of files that it finds: as many as are wanted, or all if there are fewer. The table
/// is a tree below a root directory without a name, and names are text.
pub proof fn law_answer_lists_found(msg: Seq<char>, t: Table, rows: Seq<Chain>)
    requires
        sound(t),
        rooted(t),
        t[ROOT_ID].name.len() == 0,
        all_searchable(t),
        wanted(msg) matches Some((count, query)) && count > 0 && is_query(segments(query))
            && query_rows(t, segments(query), rows),
    ensures
        ({
            let (count, query) = wanted(msg)->0;
            exists|chains: Seq<Seq<i64>>| #[trigger]
                all_found(t, segments(query), chains) && answers(
                    msg,
                    rows,
                    t,
                    seq![begin_line(msg)] + first_of(lines_of(t, chains), count as int)
                        + seq![end_line(msg)],
                )
        }),
{
    let (count, query) = wanted(msg)->0;
    let segs = segments(query);
    law_query_rows(t, segs, rows);
    let chains = Seq::new(
        rows.len(),
        |i: int| choose|ids: Seq<i64>| #[trigger]
            is_found(t, segs, ids) && rows[i] == chain_of(t, ids),
    );
    let names = Seq::new(
        rows.len(),
        |i: int| choose|names: Seq<Seq<u8>>| leads(t, names, rows[i].id),
    );
    assert forall|i: int| 0 <= i < rows.len() implies {
        &&& is_found(t, segs, #[trigger] chains[i])
        &&& rows[i] == chain_of(t, chains[i])
        &&& leads(t, names[i], rows[i].id)
        &&& paths_of(rows, names)[i] == lines_of(t, chains)[i]
    } by {
        assert(rows.contains(rows[i]));
        assert(is_found(t, segs, chains[i]) && rows[i] == chain_of(t, chains[i]));
        assert(t.contains_key(chains[i][0]));
        let some = lemma_file_path(t, rows[i].id);
        assert(leads(t, some, rows[i].id));
        lemma_same_path(t, chains[i], names[i]);
    }
    assert forall|ids: Seq<i64>| #[trigger] chains.contains(ids) <==> is_found(t, segs, ids) by {
        if chains.contains(ids) {
            let i = choose|i: int| 0 <= i < chains.len() && chains[i] == ids;
            assert(is_found(t, segs, chains[i]));
        }
        if is_found(t, segs, ids) {
            assert(rows.contains(chain_of(t, ids)));
            let i = choose|i: int| 0 <= i < rows.len() && rows[i] == chain_of(t, ids);
            assert(is_found(t, segs, chains[i]));
            assert(chains[i] == ids);
        }
    }
    assert forall|i: int, j: int|
        0 <= i < chains.len() && 0 <= j < chains.len() && i != j implies chains[i] != chains[j] by {
        assert(rows[i] == chain_of(t, chains[i]));
        assert(rows[j] == chain_of(t, chains[j]));
    }
    assert(all_found(t, segs, chains));
    assert forall|i: int| 0 <= i < rows.len() implies leads(
        t,
        #[trigger] names[i],
        rows[i].id,
    ) by {
        assert(is_found(t, segs, chains[i]));
    }
    law_paths_listed(msg, rows, names, t);
    assert(paths_of(rows, names) =~= lines_of(t, chains));
}

} // verus!
