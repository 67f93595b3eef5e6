//! The table of files as a tree below the root directory.

use vstd::prelude::*;

use crate::db::table::{
    below, climbs, is_empty, is_entry, is_entry_with, lemma_one_entry, sound, without, Row, Table,
};
use crate::db::{Error, ROOT_ID};
use crate::watcher::effect::{
    cleared, found, in_the_way, is_new, is_source, law_moved_entry, located, moved, Known,
};
use crate::watcher::task::Spot;

verus! {

/// All rows are below the root directory, which is its own parent.
pub open spec fn rooted(t: Table) -> bool {
    &&& t.contains_key(ROOT_ID)
    &&& t[ROOT_ID].parent == ROOT_ID
    &&& forall|id: i64| #[trigger] t.contains_key(id) ==> below(t, ROOT_ID, id)
}

/// Nothing but the root directory is below itself: what goes round in a circle never
/// reaches the root directory.
proof fn lemma_no_circle(t: Table, c: i64, y: i64, m: nat, n: nat)
    requires
        rooted(t),
        t.contains_key(c),
        c != ROOT_ID,
        below(t, c, t[c].parent),
        climbs(t, c, y, m),
    ensures
        !climbs(t, ROOT_ID, y, n),
    decreases n,
{
    if y == ROOT_ID {
        lemma_root_stays(t, c, m);
    } else if n > 0 && t.contains_key(y) {
        let up = if y == c {
            choose|k: nat| climbs(t, c, t[c].parent, k)
        } else {
            (m - 1) as nat
        };
        lemma_no_circle(t, c, t[y].parent, up, (n - 1) as nat);
    }
}

/// Going up from the root directory leads nowhere else.
proof fn lemma_root_stays(t: Table, c: i64, m: nat)
    requires
        rooted(t),
        c != ROOT_ID,
    ensures
        !climbs(t, c, ROOT_ID, m),
    decreases m,
{
    if m > 0 {
        lemma_root_stays(t, c, (m - 1) as nat);
    }
}

/// Nothing is left without the root directory.
proof fn lemma_without_root(t: Table)
    requires
        rooted(t),
    ensures
        is_empty(without(t, ROOT_ID)),
{
    assert forall|id: i64| !#[trigger] without(t, ROOT_ID).contains_key(id) by {
        if t.contains_key(id) {
            assert(below(t, ROOT_ID, id));
        }
    }
}

/// No directory is below one of its entries, but for the root directory.
proof fn lemma_not_below_entry(t: Table, c: i64)
    requires
        rooted(t),
        t.contains_key(c),
        c != ROOT_ID,
    ensures
        !below(t, c, t[c].parent),
{
    if below(t, c, t[c].parent) {
        assert(climbs(t, c, c, 0));
        assert(below(t, ROOT_ID, c));
        let n = choose|n: nat| climbs(t, ROOT_ID, c, n);
        lemma_no_circle(t, c, c, 0, n);
    }
}

/// A change in a directory that is known is written: in a table that is a tree below the
/// root directory, a move to a known directory succeeds.
pub proof fn law_known_directory(
    t: Table,
    fh: Seq<u8>,
    from: Option<Known>,
    to: Known,
    r: Result<(), Error>,
    t2: Table,
)
    requires
        sound(t),
        rooted(t),
        t.contains_key(to.p_id),
        moved(t, fh, from, Some(to), r, t2),
    ensures
        r is Ok,
        exists|id: i64| is_entry_with(t2, fh, to.name, to.p_id, id),
{
    if exists|id: i64| in_the_way(t, fh, from, to, id) {
        let c = choose|id: i64| in_the_way(t, fh, from, to, id);
        if c == ROOT_ID {
            lemma_without_root(t);
        } else {
            lemma_not_below_entry(t, c);
            assert(cleared(t, fh, from, to).contains_key(to.p_id));
        }
    }
    law_moved_entry(t, fh, from, Some(to), t2);
}

/// Going up is possible in a larger table, too.
proof fn lemma_climbs_larger(t: Table, t2: Table, top: i64, id: i64, n: nat)
    requires
        forall|x: i64| #[trigger]
            t.contains_key(x) ==> t2.contains_key(x) && t2[x].parent == t[x].parent,
        climbs(t, top, id, n),
    ensures
        climbs(t2, top, id, n),
    decreases n,
{
    if id != top {
        lemma_climbs_larger(t, t2, top, t[id].parent, (n - 1) as nat);
    }
}

/// Going up from one row to a second, and from there to a third.
proof fn lemma_climbs_on(t: Table, third: i64, second: i64, first: i64, n: nat, m: nat)
    requires
        climbs(t, second, first, n),
        climbs(t, third, second, m),
    ensures
        below(t, third, first),
    decreases n,
{
    if first == second {
        assert(below(t, third, first));
    } else {
        lemma_climbs_on(t, third, second, t[first].parent, (n - 1) as nat, m);
        let k = choose|k: nat| climbs(t, third, t[first].parent, k);
        assert(climbs(t, third, first, k + 1));
    }
}

/// Going up from a row that is not below `s` is not affected by what happens to what is.
proof fn lemma_climbs_beside(t: Table, t2: Table, s: i64, top: i64, id: i64, n: nat)
    requires
        forall|x: i64| #[trigger]
            t.contains_key(x) && !below(t, s, x) ==> t2.contains_key(x) && t2[x].parent
                == t[x].parent,
        !below(t, s, id),
        climbs(t, top, id, n),
    ensures
        climbs(t2, top, id, n),
    decreases n,
{
    if id != top {
        let p = t[id].parent;
        assert(!below(t, s, p)) by {
            if below(t, s, p) {
                let k = choose|k: nat| climbs(t, s, p, k);
                assert(climbs(t, s, id, k + 1));
            }
        }
        lemma_climbs_beside(t, t2, s, top, p, (n - 1) as nat);
    }
}

/// Going up to `s` is not affected by what happens to `s`.
proof fn lemma_climbs_to(t: Table, s: i64, row: Row, id: i64, n: nat)
    requires
        climbs(t, s, id, n),
    ensures
        climbs(t.insert(s, row), s, id, n),
    decreases n,
{
    if id != s {
        lemma_climbs_to(t, s, row, t[id].parent, (n - 1) as nat);
    }
}

/// What is left of a tree is a tree.
proof fn lemma_without_rooted(t: Table, c: i64)
    requires
        rooted(t),
        c != ROOT_ID,
    ensures
        rooted(without(t, c)),
{
    let t2 = without(t, c);
    assert(!below(t, c, ROOT_ID)) by {
        if below(t, c, ROOT_ID) {
            let m = choose|m: nat| climbs(t, c, ROOT_ID, m);
            lemma_root_stays(t, c, m);
        }
    }
    assert forall|id: i64| #[trigger] t2.contains_key(id) implies below(t2, ROOT_ID, id) by {
        assert(t.contains_key(id));
        assert(below(t, ROOT_ID, id));
        let n = choose|n: nat| climbs(t, ROOT_ID, id, n);
        lemma_climbs_beside(t, t2, c, ROOT_ID, id, n);
    }
}

/// A tree stays a tree when a row gets another parent that is not below it.
proof fn lemma_moved_rooted(t: Table, s: i64, row: Row)
    requires
        rooted(t),
        t.contains_key(s),
        s != ROOT_ID,
        t.contains_key(row.parent),
        !below(t, s, row.parent),
    ensures
        rooted(t.insert(s, row)),
{
    let t2 = t.insert(s, row);
    let p = row.parent;
    assert(climbs(t, s, s, 0));
    assert forall|x: i64| #[trigger] t.contains_key(x) && !below(t, s, x) implies t2.contains_key(x)
        && t2[x].parent == t[x].parent by {}
    assert(below(t, ROOT_ID, p));
    let n = choose|n: nat| climbs(t, ROOT_ID, p, n);
    lemma_climbs_beside(t, t2, s, ROOT_ID, p, n);
    assert(climbs(t2, ROOT_ID, s, n + 1));
    assert forall|id: i64| #[trigger] t2.contains_key(id) implies below(t2, ROOT_ID, id) by {
        assert(t.contains_key(id));
        assert(below(t, ROOT_ID, id));
        if below(t, s, id) {
            let k = choose|k: nat| climbs(t, s, id, k);
            lemma_climbs_to(t, s, row, id, k);
            lemma_climbs_on(t2, ROOT_ID, s, id, k, n + 1);
        } else {
            let k = choose|k: nat| climbs(t, ROOT_ID, id, k);
            lemma_climbs_beside(t, t2, s, ROOT_ID, id, k);
        }
    }
}

/// A tree stays a tree when a row is added.
proof fn lemma_added_rooted(t: Table, id: i64, row: Row)
    requires
        rooted(t),
        !t.contains_key(id),
        t.contains_key(row.parent),
    ensures
        rooted(t.insert(id, row)),
{
    let t2 = t.insert(id, row);
    assert forall|x: i64| #[trigger] t2.contains_key(x) implies below(t2, ROOT_ID, x) by {
        if x == id {
            assert(below(t, ROOT_ID, row.parent));
            let n = choose|n: nat| climbs(t, ROOT_ID, row.parent, n);
            lemma_climbs_larger(t, t2, ROOT_ID, row.parent, n);
            assert(climbs(t2, ROOT_ID, id, n + 1));
        } else {
            assert(t.contains_key(x));
            assert(below(t, ROOT_ID, x));
            let n = choose|n: nat| climbs(t, ROOT_ID, x, n);
            lemma_climbs_larger(t, t2, ROOT_ID, x, n);
        }
    }
}

/// The table stays a tree below the root directory, whatever moves to a known directory or
/// nowhere, as long as it is not the root directory, and no directory moves to somewhere
/// below itself.
pub proof fn law_tree_kept(
    t: Table,
    fh: Seq<u8>,
    from: Option<Known>,
    to: Option<Known>,
    r: Result<(), Error>,
    t2: Table,
)
    requires
        sound(t),
        rooted(t),
        moved(t, fh, from, to, r, t2),
        !is_source(t, fh, from, ROOT_ID),
        to matches Some(to) ==> {
            &&& t.contains_key(to.p_id)
            &&& forall|id: i64| #[trigger] is_source(t, fh, from, id) ==> !below(t, id, to.p_id)
        },
    ensures
        rooted(t2),
{
    match to {
        None => {
            if exists|id: i64| is_source(t, fh, from, id) {
                lemma_without_rooted(t, choose|id: i64| is_source(t, fh, from, id));
            }
        },
        Some(to) => {
            law_known_directory(t, fh, from, to, r, t2);
            let t1 = cleared(t, fh, from, to);
            let row = Row { fh, name: to.name, parent: to.p_id };
            if in_the_way(t, fh, from, to, ROOT_ID) {
                let c = choose|id: i64| in_the_way(t, fh, from, to, id);
                lemma_one_entry(t, to.name, to.p_id, ROOT_ID, c);
                lemma_without_root(t);
                assert forall|id: i64| !is_source(t1, fh, from, id) by {
                    assert(!t1.contains_key(id));
                }
                assert(t2 =~= map![ROOT_ID => row]);
                law_root_is_tree(row);
            } else {
                if exists|id: i64| in_the_way(t, fh, from, to, id) {
                    let c = choose|id: i64| in_the_way(t, fh, from, to, id);
                    lemma_without_rooted(t, c);
                    lemma_not_below_entry(t, c);
                }
                assert(rooted(t1) && t1.contains_key(to.p_id));
                if exists|id: i64| is_source(t1, fh, from, id) {
                    let s = choose|id: i64| is_source(t1, fh, from, id);
                    assert(t1.contains_key(s));
                    assert(is_source(t, fh, from, s));
                    assert(!below(t1, s, to.p_id)) by {
                        if below(t1, s, to.p_id) {
                            let n = choose|n: nat| climbs(t1, s, to.p_id, n);
                            lemma_climbs_larger(t1, t, s, to.p_id, n);
                        }
                    }
                    lemma_moved_rooted(t1, s, row);
                } else {
                    let id = choose|id: i64|
                        is_new(t1, to.p_id, id) && t2 == #[trigger] t1.insert(id, row);
                    lemma_added_rooted(t1, id, row);
                }
            }
        },
    }
}

/// The table stays a tree below the root directory, whatever is discovered.
pub proof fn law_tree_kept_by_discovery(
    t: Table,
    fh: Seq<u8>,
    at: Spot,
    r: Result<(), Error>,
    t2: Table,
)
    requires
        rooted(t),
        found(t, fh, at, r, t2),
    ensures
        rooted(t2),
{
    if t2 != t {
        let dir = choose|dir: Known| #[trigger]
            located(t, Some(at), Some(dir)) && r is Ok && if exists|id: i64|
                is_entry(t, dir.name, dir.p_id, id) {
                t2 == t
            } else {
                exists|id: i64|
                    !t.contains_key(id) && t2 == #[trigger] t.insert(
                        id,
                        Row { fh, name: dir.name, parent: dir.p_id },
                    )
            };
        let row = Row { fh, name: dir.name, parent: dir.p_id };
        let id = choose|id: i64| !t.contains_key(id) && t2 == #[trigger] t.insert(id, row);
        assert(t.contains_key(dir.p_id));
        lemma_added_rooted(t, id, row);
    }
}

/// The root directory alone is a tree.
pub proof fn law_root_is_tree(row: Row)
    requires
        row.parent == ROOT_ID,
    ensures
        rooted(map![ROOT_ID => row]),
        sound(map![ROOT_ID => row]),
{
    let t = map![ROOT_ID => row];
    assert(climbs(t, ROOT_ID, ROOT_ID, 0));
    assert forall|id: i64| #[trigger] t.contains_key(id) implies below(t, ROOT_ID, id) by {
        assert(id == ROOT_ID);
    }
}

} // verus!
