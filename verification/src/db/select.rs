//! The part of SQL that path queries are written in: how statements are written, and which
//! rows they have.

use vstd::prelude::*;
use vstd::string::*;
use vstd::utf8::decode_utf8;

use crate::db::collation::{fold_text, matches_pattern, precedes_nocase};
use crate::db::meaning::{
    all_hold, condition_params, holds, law_best_level, law_params_follow_conditions,
    lemma_steps_reach, params_in_order,
};
use crate::db::query::{
    all_steps, best_level, condition_text, condition_texts, conditions, conditions_of, level,
    name_columns, params, query_text, specifities, step_conditions, steps, table_text, tables_of,
    Condition, Step,
};
use crate::db::results::{entries_of, entry_of, finds_rows};
use crate::db::sql::Column;
use crate::db::suffix_index::{index, SuffixRow};
use crate::db::table::Table;
use crate::db::Bound;
use crate::queryer::found::{all_searchable, chain_of, query_rows};
use crate::queryer::Chain;
use crate::text::{decimal, joined, lemma_joined_front};

verus! {

/// A table that a statement reads. The table of files is read once for each level, under
/// another name.
pub enum Source {
    Suffixes,
    Files(nat),
}

impl Source {
    /// As it is written.
    pub open spec fn text(self) -> Seq<char> {
        match self {
            Source::Suffixes => "suffix_array"@,
            Source::Files(i) => "files AS s"@ + decimal(i),
        }
    }
}

/// A column of one of the tables.
pub enum Ref {
    /// The file that a suffix belongs to.
    Owner,
    /// A column of the table of files of a level.
    Files(nat, Column),
}

/// Rows of all the tables: one of suffixes, and for each level one of files.
pub struct Pick {
    pub suffix: SuffixRow,
    pub ids: Map<nat, i64>,
}

impl Ref {
    /// As it is written.
    pub open spec fn text(self) -> Seq<char> {
        match self {
            Ref::Owner => "suffix_array.id"@,
            Ref::Files(i, column) => "s"@ + decimal(i) + "."@ + column.text(),
        }
    }

    /// What the rows have in the column.
    pub open spec fn of(self, pick: Pick, t: Table) -> Bound {
        match self {
            Ref::Owner => Bound::Int(pick.suffix.id),
            Ref::Files(i, column) => column.of(pick.ids[i], t[pick.ids[i]]),
        }
    }

    /// The column is of a table that is read.
    pub open spec fn is_read(self, sources: Seq<Source>) -> bool {
        match self {
            Ref::Owner => sources.contains(Source::Suffixes),
            Ref::Files(i, _) => sources.contains(Source::Files(i)),
        }
    }
}

/// A condition on rows of all the tables.
pub enum Test {
    /// The suffix does not come before the next value, without regard to case.
    AtLeast,
    /// The suffix comes before the next value, without regard to case.
    Before,
    /// Two columns are equal.
    Same(Ref, Ref),
    /// The name of a level matches the next value as a pattern, without regard to case.
    Like(nat),
}

impl Test {
    /// As it is written.
    pub open spec fn text(self) -> Seq<char> {
        match self {
            Test::AtLeast => "suffix_array.suffix >= ?"@,
            Test::Before => "suffix_array.suffix < ?"@,
            Test::Same(a, b) => a.text() + " = "@ + b.text(),
            Test::Like(i) => "LOWER(CAST(s"@ + decimal(i) + ".name AS TEXT)) LIKE LOWER(?)"@,
        }
    }

    /// How many values it takes.
    pub open spec fn takes(self) -> nat {
        match self {
            Test::Same(_, _) => 0,
            _ => 1,
        }
    }

    /// It is so of the rows, with the values that it takes.
    pub open spec fn holds(self, values: Seq<Seq<char>>, pick: Pick, t: Table) -> bool {
        match self {
            Test::AtLeast => !precedes_nocase(pick.suffix.suffix, values[0]),
            Test::Before => precedes_nocase(pick.suffix.suffix, values[0]),
            Test::Same(a, b) => a.of(pick, t) == b.of(pick, t),
            Test::Like(i) => matches_pattern(
                fold_text(values[0]),
                fold_text(decode_utf8(t[pick.ids[i]].name)),
            ),
        }
    }

    /// It is about tables that are read.
    pub open spec fn is_read(self, sources: Seq<Source>) -> bool {
        match self {
            Test::Same(a, b) => a.is_read(sources) && b.is_read(sources),
            Test::Like(i) => sources.contains(Source::Files(i)),
            _ => sources.contains(Source::Suffixes),
        }
    }
}

/// All tests are so of the rows. Each takes the values after those that the tests before it
/// take, and none is left over.
pub open spec fn all_so(
    tests: Seq<Test>,
    values: Seq<Seq<char>>,
    pick: Pick,
    t: Table,
) -> bool
    decreases tests.len(),
{
    if tests.len() == 0 {
        values.len() == 0
    } else {
        let n = values.len() - tests.last().takes();
        &&& n >= 0
        &&& tests.last().holds(values.skip(n), pick, t)
        &&& all_so(tests.drop_last(), values.take(n), pick, t)
    }
}

/// The texts of columns.
pub open spec fn ref_texts(refs: Seq<Ref>) -> Seq<Seq<char>> {
    refs.map_values(|r: Ref| r.text())
}

/// The texts of tables.
pub open spec fn source_texts(sources: Seq<Source>) -> Seq<Seq<char>> {
    sources.map_values(|s: Source| s.text())
}

/// The texts of tests.
pub open spec fn test_texts(tests: Seq<Test>) -> Seq<Seq<char>> {
    tests.map_values(|s: Test| s.text())
}

/// A statement for the columns of all rows of the tables of which all tests are so.
pub struct Select {
    pub columns: Seq<Ref>,
    pub sources: Seq<Source>,
    pub tests: Seq<Test>,
}

impl Select {
    /// The statement as it is written.
    pub open spec fn text(self) -> Seq<char> {
        "SELECT DISTINCT "@ + joined(ref_texts(self.columns), ", "@) + " FROM "@ + joined(
            source_texts(self.sources),
            " CROSS JOIN "@,
        ) + " WHERE "@ + joined(test_texts(self.tests), " AND "@)
    }

    /// The statement can be run: no table is read twice under one name, and everything is
    /// about tables that are read.
    pub open spec fn is_sound(self) -> bool {
        &&& self.sources.no_duplicates()
        &&& forall|i: int|
            0 <= i < self.columns.len() ==> (#[trigger] self.columns[i]).is_read(self.sources)
        &&& forall|i: int|
            0 <= i < self.tests.len() ==> (#[trigger] self.tests[i]).is_read(self.sources)
    }

    /// The rows are of the tables that are read.
    pub open spec fn is_pick(self, t: Table, s: Set<SuffixRow>, pick: Pick) -> bool {
        &&& self.sources.contains(Source::Suffixes) ==> s.contains(pick.suffix)
        &&& forall|i: nat| #[trigger]
            pick.ids.contains_key(i) <==> self.sources.contains(Source::Files(i))
        &&& forall|i: nat| #[trigger]
            pick.ids.contains_key(i) ==> t.contains_key(pick.ids[i])
    }

    /// The columns of the rows.
    pub open spec fn columns_of(self, pick: Pick, t: Table) -> Seq<Bound> {
        self.columns.map_values(|r: Ref| r.of(pick, t))
    }

    /// The statement with these values has these rows: no two of them are equal.
    pub open spec fn has_rows(
        self,
        values: Seq<Seq<char>>,
        t: Table,
        s: Set<SuffixRow>,
        rows: Seq<Seq<Bound>>,
    ) -> bool {
        &&& rows.no_duplicates()
        &&& forall|row: Seq<Bound>| #[trigger]
            rows.contains(row) <==> exists|pick: Pick| #[trigger]
                self.is_pick(t, s, pick) && all_so(self.tests, values, pick, t) && row
                    == self.columns_of(pick, t)
    }
}

/// What is read of a row of a query: the identifier in the first column, and the names from
/// the third on.
pub open spec fn chain_in(row: Seq<Bound>) -> Chain {
    Chain { id: row[0]->Int_0, below: row.skip(2).map_values(|b: Bound| b->Blob_0) }
}

/// What is read of all rows.
pub open spec fn chains_in(rows: Seq<Seq<Bound>>) -> Seq<Chain> {
    rows.map_values(|row: Seq<Bound>| chain_in(row))
}

/// The tests of a condition.
spec fn tests_of(c: Condition) -> Seq<Test> {
    match c {
        Condition::Prefix => seq![Test::AtLeast, Test::Before],
        Condition::Suffix(i) => seq![Test::Same(Ref::Files(i as nat, Column::Id), Ref::Owner)],
        Condition::InDirectory(i) => seq![
            Test::Same(
                Ref::Files(i as nat, Column::ParentId),
                Ref::Files((i - 1) as nat, Column::Id),
            ),
        ],
        Condition::DirectoryOf(i) => seq![
            Test::Same(
                Ref::Files(i as nat, Column::Id),
                Ref::Files((i + 1) as nat, Column::ParentId),
            ),
        ],
        Condition::Contains(i) => seq![Test::Like(i as nat)],
    }
}

/// The tests of all conditions.
spec fn tests_of_all(list: Seq<Condition>) -> Seq<Test>
    decreases list.len(),
{
    if list.len() == 0 {
        Seq::empty()
    } else {
        tests_of_all(list.drop_last()) + tests_of(list.last())
    }
}

/// The condition is on levels that there are.
spec fn in_levels(c: Condition, n: int) -> bool {
    match c {
        Condition::Prefix => true,
        Condition::Suffix(i) => 0 <= i < n,
        Condition::InDirectory(i) => 0 < i < n,
        Condition::DirectoryOf(i) => 0 <= i < n - 1,
        Condition::Contains(i) => 0 <= i < n,
    }
}

/// The text of a condition is that of its tests.
proof fn lemma_condition_text(c: Condition, n: int)
    requires
        in_levels(c, n),
    ensures
        tests_of(c).len() > 0,
        joined(test_texts(tests_of(c)), " AND "@) == condition_text(c),
{
    reveal_with_fuel(joined, 3);
    let tests = tests_of(c);
    match c {
        Condition::Prefix => {
            reveal_strlit("suffix_array.suffix >= ? AND suffix_array.suffix < ?");
            reveal_strlit("suffix_array.suffix >= ?");
            reveal_strlit("suffix_array.suffix < ?");
            reveal_strlit(" AND ");
            assert(test_texts(tests).drop_last() =~= seq![tests[0].text()]);
            assert(joined(test_texts(tests), " AND "@) =~= condition_text(c));
        },
        Condition::Suffix(i) => {
            reveal_strlit(".id = suffix_array.id");
            reveal_strlit("suffix_array.id");
            reveal_strlit(".");
            reveal_strlit("id");
            reveal_strlit(" = ");
            assert(joined(test_texts(tests), " AND "@) =~= condition_text(c));
        },
        Condition::InDirectory(i) => {
            reveal_strlit(".parent_id = ");
            reveal_strlit(".id");
            reveal_strlit(".");
            reveal_strlit("id");
            reveal_strlit("parent_id");
            reveal_strlit(" = ");
            assert(joined(test_texts(tests), " AND "@) =~= condition_text(c));
        },
        Condition::DirectoryOf(i) => {
            reveal_strlit(".id = ");
            reveal_strlit(".parent_id");
            reveal_strlit(".");
            reveal_strlit("id");
            reveal_strlit("parent_id");
            reveal_strlit(" = ");
            assert(joined(test_texts(tests), " AND "@) =~= condition_text(c));
        },
        Condition::Contains(i) => {
            reveal_strlit("LOWER(CAST(");
            reveal_strlit("LOWER(CAST(s");
            reveal_strlit("s");
            reveal_strlit(".name AS TEXT)) LIKE LOWER(?)");
            assert(joined(test_texts(tests), " AND "@) =~= condition_text(c));
        },
    }
}

/// Joining two lists.
proof fn lemma_joined_both(a: Seq<Seq<char>>, b: Seq<Seq<char>>, separator: Seq<char>)
    requires
        a.len() > 0,
        b.len() > 0,
    ensures
        joined(a + b, separator) == joined(a, separator) + separator + joined(b, separator),
    decreases b.len(),
{
    let all = a + b;
    assert(all.last() == b.last());
    assert(all.drop_last() =~= a + b.drop_last());
    if b.len() == 1 {
        assert(all.drop_last() =~= a);
    } else {
        lemma_joined_both(a, b.drop_last(), separator);
        assert(joined(all, separator) =~= joined(a, separator) + separator + (joined(
            b.drop_last(),
            separator,
        ) + separator + b.last()));
    }
}

/// The text of conditions is that of their tests.
proof fn lemma_tests_text(list: Seq<Condition>, n: int)
    requires
        list.len() > 0,
        forall|i: int| 0 <= i < list.len() ==> in_levels(#[trigger] list[i], n),
    ensures
        tests_of_all(list).len() > 0,
        joined(test_texts(tests_of_all(list)), " AND "@) == joined(condition_texts(list), " AND "@),
    decreases list.len(),
{
    let front = list.drop_last();
    let last = list.last();
    assert(in_levels(list[list.len() - 1], n));
    lemma_condition_text(last, n);
    if front.len() == 0 {
        assert(tests_of_all(list) =~= tests_of(last));
        assert(condition_texts(list) =~= seq![condition_text(last)]);
    } else {
        assert forall|i: int| 0 <= i < front.len() implies in_levels(#[trigger] front[i], n) by {
            assert(in_levels(list[i], n));
        }
        lemma_tests_text(front, n);
        let (a, b) = (test_texts(tests_of_all(front)), test_texts(tests_of(last)));
        assert(test_texts(tests_of_all(list)) =~= a + b);
        lemma_joined_both(a, b, " AND "@);
        assert(condition_texts(list).drop_last() =~= condition_texts(front));
    }
}

/// The conditions hold exactly if their tests are so, with the values that go with them.
proof fn lemma_tests_hold(
    list: Seq<Condition>,
    segs: Seq<Seq<char>>,
    pick: Pick,
    t: Table,
    ids: Seq<i64>,
)
    requires
        forall|i: int| 0 <= i < list.len() ==> in_levels(#[trigger] list[i], ids.len() as int),
        forall|i: int| 0 <= i < ids.len() ==> pick.ids[i as nat] == #[trigger] ids[i],
        forall|i: int| 0 <= i < ids.len() ==> t.contains_key(#[trigger] ids[i]),
        all_searchable(t),
    ensures
        all_so(tests_of_all(list), params_in_order(segs, list), pick, t) <==> all_hold(
            list,
            segs,
            pick.suffix.suffix,
            pick.suffix.id,
            entries_of(t, ids),
        ),
    decreases list.len(),
{
    let rows = entries_of(t, ids);
    let (suffix, owner) = (pick.suffix.suffix, pick.suffix.id);
    if list.len() > 0 {
        let front = list.drop_last();
        let last = list.last();
        let n = ids.len() as int;
        assert(in_levels(list[list.len() - 1], n));
        assert forall|i: int| 0 <= i < front.len() implies in_levels(#[trigger] front[i], n) by {
            assert(in_levels(list[i], n));
        }
        lemma_tests_hold(front, segs, pick, t, ids);
        let before = params_in_order(segs, front);
        let own = condition_params(segs, last);
        let values = params_in_order(segs, list);
        assert(values == before + own);
        let tests = tests_of_all(list);
        let k = before.len() as int;
        assert(values.take(k) =~= before);
        assert(values.skip(k) =~= own);
        match last {
            Condition::Prefix => {
                reveal_with_fuel(all_so, 3);
                let first = tests.drop_last();
                assert(first.drop_last() =~= tests_of_all(front));
                assert(tests.last() == Test::Before);
                assert(first.last() == Test::AtLeast);
                assert(values.skip(k + 1) =~= seq![own[1]]);
                assert(values.take(k + 1).skip(k) =~= seq![own[0]]);
                assert(values.take(k + 1).take(k) =~= before);
            },
            Condition::Suffix(i) => {
                assert(tests.drop_last() =~= tests_of_all(front));
                assert(values.take(values.len() as int) =~= before);
                assert(rows[i] == entry_of(t, ids[i]));
                assert(pick.ids[i as nat] == ids[i]);
            },
            Condition::InDirectory(i) => {
                assert(tests.drop_last() =~= tests_of_all(front));
                assert(values.take(values.len() as int) =~= before);
                assert(rows[i] == entry_of(t, ids[i]));
                assert(rows[i - 1] == entry_of(t, ids[i - 1]));
                assert(pick.ids[i as nat] == ids[i]);
                assert(pick.ids[(i - 1) as nat] == ids[i - 1]);
            },
            Condition::DirectoryOf(i) => {
                assert(tests.drop_last() =~= tests_of_all(front));
                assert(values.take(values.len() as int) =~= before);
                assert(rows[i] == entry_of(t, ids[i]));
                assert(rows[i + 1] == entry_of(t, ids[i + 1]));
                assert(pick.ids[i as nat] == ids[i]);
                assert(pick.ids[(i + 1) as nat] == ids[i + 1]);
            },
            Condition::Contains(i) => {
                assert(tests.drop_last() =~= tests_of_all(front));
                assert(rows[i] == entry_of(t, ids[i]));
                assert(pick.ids[i as nat] == ids[i]);
                assert(t.contains_key(ids[i]));
            },
        }
        assert(all_so(tests, values, pick, t) <==> holds(last, segs, suffix, owner, rows) && all_so(
            tests_of_all(front),
            before,
            pick,
            t,
        ));
        if all_hold(front, segs, suffix, owner, rows) && holds(last, segs, suffix, owner, rows) {
            assert forall|i: int| 0 <= i < list.len() implies holds(
                #[trigger] list[i],
                segs,
                suffix,
                owner,
                rows,
            ) by {
                if i < front.len() {
                    assert(list[i] == front[i]);
                }
            }
        }
        if all_hold(list, segs, suffix, owner, rows) {
            assert(holds(list[list.len() - 1], segs, suffix, owner, rows));
            assert forall|i: int| 0 <= i < front.len() implies holds(
                #[trigger] front[i],
                segs,
                suffix,
                owner,
                rows,
            ) by {
                assert(list[i] == front[i]);
            }
        }
    }
}

/// All conditions are on levels that there are.
proof fn lemma_in_levels(segs: Seq<Seq<char>>, taken: Seq<Step>)
    requires
        segs.len() > 0,
        forall|k: int|
            0 <= k < taken.len() ==> {
                &&& (#[trigger] taken[k]).below ==> 0 < taken[k].index < segs.len()
                &&& !taken[k].below ==> 0 <= taken[k].index < segs.len() - 1
            },
    ensures
        conditions_of(segs, taken).len() > 0,
        forall|i: int|
            0 <= i < conditions_of(segs, taken).len() ==> in_levels(
                #[trigger] conditions_of(segs, taken)[i],
                segs.len() as int,
            ),
    decreases taken.len(),
{
    law_best_level(specifities(segs));
    if taken.len() > 0 {
        let front = taken.drop_last();
        assert forall|k: int| 0 <= k < front.len() implies {
            &&& (#[trigger] front[k]).below ==> 0 < front[k].index < segs.len()
            &&& !front[k].below ==> 0 <= front[k].index < segs.len() - 1
        } by {
            assert(front[k] == taken[k]);
        }
        lemma_in_levels(segs, front);
        let last = taken[taken.len() - 1];
        let (a, b) = (conditions_of(segs, front), step_conditions(segs, last));
        let list = conditions_of(segs, taken);
        assert(list =~= a + b);
        assert forall|i: int| 0 <= i < list.len() implies in_levels(
            #[trigger] list[i],
            segs.len() as int,
        ) by {
            if i < a.len() {
                assert(list[i] == a[i]);
            } else {
                assert(list[i] == b[i - a.len()]);
            }
        }
    }
}

/// The tables that are read.
spec fn sources_of(segs: Seq<Seq<char>>, taken: Seq<Step>) -> Seq<Source> {
    seq![Source::Suffixes, Source::Files(best_level(specifities(segs)) as nat)]
        + taken.map_values(|s: Step| Source::Files(s.index as nat))
}

proof fn lemma_sources_text(segs: Seq<Seq<char>>, taken: Seq<Step>)
    ensures
        source_texts(sources_of(segs, taken)) == tables_of(segs, taken),
    decreases taken.len(),
{
    reveal_strlit("files AS s");
    reveal_strlit("files AS ");
    reveal_strlit("s");
    let sources = sources_of(segs, taken);
    let best = best_level(specifities(segs));
    if taken.len() == 0 {
        assert(Source::Files(best as nat).text() =~= table_text(best));
        assert(source_texts(sources) =~= tables_of(segs, taken));
    } else {
        lemma_sources_text(segs, taken.drop_last());
        let i = taken.last().index;
        assert(Source::Files(i as nat).text() =~= table_text(i));
        assert(sources =~= sources_of(segs, taken.drop_last()).push(Source::Files(i as nat)));
        assert(source_texts(sources) =~= source_texts(sources_of(segs, taken.drop_last())).push(
            Source::Files(i as nat).text(),
        ));
    }
}

/// No level is joined twice.
proof fn lemma_steps_once(scores: Seq<i64>, l: int, r: int)
    requires
        0 <= l <= r < scores.len(),
    ensures
        forall|i: int, j: int|
            0 <= i < j < steps(scores, l, r).len() ==> #[trigger] steps(scores, l, r)[i].index
                != #[trigger] steps(scores, l, r)[j].index,
    decreases l + (scores.len() - r),
{
    let all = steps(scores, l, r);
    if l > 0 || r < scores.len() - 1 {
        let below = l == 0 || (r < scores.len() - 1 && scores[l - 1] < scores[r + 1]);
        let (l2, r2) = if below {
            (l, r + 1)
        } else {
            (l - 1, r)
        };
        let rest = steps(scores, l2, r2);
        lemma_steps_once(scores, l2, r2);
        lemma_steps_reach(scores, l2, r2);
        assert forall|i: int, j: int| 0 <= i < j < all.len() implies #[trigger] all[i].index
            != #[trigger] all[j].index by {
            assert(all[j] == rest[j - 1]);
            if i > 0 {
                assert(all[i] == rest[i - 1]);
            }
        }
    }
}

/// The suffixes and every level are read, each once.
proof fn lemma_sources(segs: Seq<Seq<char>>)
    requires
        segs.len() > 0,
    ensures
        ({
            let sources = sources_of(segs, all_steps(segs));
            &&& sources.no_duplicates()
            &&& sources.contains(Source::Suffixes)
            &&& forall|i: nat| #[trigger] sources.contains(Source::Files(i)) <==> i < segs.len()
        }),
{
    let scores = specifities(segs);
    let best = best_level(scores);
    let taken = all_steps(segs);
    let sources = sources_of(segs, taken);
    law_best_level(scores);
    lemma_steps_reach(scores, best, best);
    lemma_steps_once(scores, best, best);
    assert(sources[0] == Source::Suffixes);
    assert(sources[1] == Source::Files(best as nat));
    assert forall|k: int| 0 <= k < taken.len() implies #[trigger] sources[k + 2] == Source::Files(
        taken[k].index as nat,
    ) && 0 <= taken[k].index < segs.len() && taken[k].index != best by {}
    assert forall|i: nat| #[trigger] sources.contains(Source::Files(i)) <==> i < segs.len() by {
        if sources.contains(Source::Files(i)) {
            let k = choose|k: int| 0 <= k < sources.len() && sources[k] == Source::Files(i);
            if k >= 2 {
                assert(sources[(k - 2) + 2] == Source::Files(taken[k - 2].index as nat));
            }
        }
        if i < segs.len() && i != best {
            let step = Step { index: i as int, below: i > best };
            assert(taken.contains(step));
            let k = choose|k: int| 0 <= k < taken.len() && taken[k] == step;
            assert(sources[k + 2] == Source::Files(i));
        }
    }
    assert forall|i: int, j: int|
        0 <= i < sources.len() && 0 <= j < sources.len() && i != j implies sources[i]
        != sources[j] by {
        let (a, b) = if i < j {
            (i, j)
        } else {
            (j, i)
        };
        if b >= 2 {
            assert(sources[(b - 2) + 2] == Source::Files(taken[b - 2].index as nat));
            if a >= 2 {
                assert(sources[(a - 2) + 2] == Source::Files(taken[a - 2].index as nat));
                assert(taken[a - 2].index != taken[b - 2].index);
            }
        }
    }
}

/// The columns of a query.
spec fn columns_for(n: nat) -> Seq<Ref> {
    seq![Ref::Files(0, Column::Id)] + Seq::new(n, |i: int| Ref::Files(i as nat, Column::Name))
}

proof fn lemma_columns_text(n: nat)
    requires
        n > 0,
    ensures
        "SELECT DISTINCT "@ + joined(ref_texts(columns_for(n)), ", "@) == "SELECT DISTINCT s0.id, "@
            + joined(name_columns(n), ", "@),
{
    reveal_strlit("SELECT DISTINCT ");
    reveal_strlit("SELECT DISTINCT s0.id, ");
    reveal_strlit(", ");
    reveal_strlit("s");
    reveal_strlit(".");
    reveal_strlit("id");
    reveal_strlit("name");
    reveal_strlit(".name");
    let first = Ref::Files(0, Column::Id).text();
    let names = name_columns(n);
    assert forall|i: int| 0 <= i < n implies Ref::Files(i as nat, Column::Name).text()
        == #[trigger] names[i] by {
        assert(Ref::Files(i as nat, Column::Name).text() =~= level(i) + ".name"@);
    }
    assert(ref_texts(columns_for(n)) =~= seq![first] + names);
    lemma_joined_front(first, names, ", "@);
    assert("SELECT DISTINCT "@ + (first + ", "@ + joined(names, ", "@))
        =~= "SELECT DISTINCT s0.id, "@ + joined(names, ", "@));
}

/// The statement for a query.
spec fn select_for(segs: Seq<Seq<char>>) -> Select {
    Select {
        columns: columns_for(segs.len()),
        sources: sources_of(segs, all_steps(segs)),
        tests: tests_of_all(conditions(segs)),
    }
}

/// Which tables the tests of a condition are about.
proof fn lemma_tests_read(list: Seq<Condition>, sources: Seq<Source>, n: int)
    requires
        forall|i: int| 0 <= i < list.len() ==> in_levels(#[trigger] list[i], n),
        sources.contains(Source::Suffixes),
        forall|i: nat| i < n ==> #[trigger] sources.contains(Source::Files(i)),
    ensures
        forall|i: int|
            0 <= i < tests_of_all(list).len() ==> (#[trigger] tests_of_all(list)[i]).is_read(sources),
    decreases list.len(),
{
    if list.len() > 0 {
        let front = list.drop_last();
        let last = list[list.len() - 1];
        assert(in_levels(last, n));
        assert forall|i: int| 0 <= i < front.len() implies in_levels(#[trigger] front[i], n) by {
            assert(in_levels(list[i], n));
        }
        lemma_tests_read(front, sources, n);
        let (a, b) = (tests_of_all(front), tests_of(last));
        let tests = tests_of_all(list);
        assert forall|i: int| 0 <= i < tests.len() implies (#[trigger] tests[i]).is_read(
            sources,
        ) by {
            if i < a.len() {
                assert(tests[i] == a[i]);
            } else {
                assert(tests[i] == b[i - a.len()]);
            }
        }
    }
}

proof fn lemma_levels(segs: Seq<Seq<char>>)
    requires
        segs.len() > 0,
    ensures
        conditions(segs).len() > 0,
        forall|i: int|
            0 <= i < conditions(segs).len() ==> in_levels(
                #[trigger] conditions(segs)[i],
                segs.len() as int,
            ),
{
    let scores = specifities(segs);
    let best = best_level(scores);
    law_best_level(scores);
    lemma_steps_reach(scores, best, best);
    let taken = all_steps(segs);
    assert forall|k: int| 0 <= k < taken.len() implies {
        &&& (#[trigger] taken[k]).below ==> 0 < taken[k].index < segs.len()
        &&& !taken[k].below ==> 0 <= taken[k].index < segs.len() - 1
    } by {}
    lemma_in_levels(segs, taken);
}

/// The files that rows are picked of, level by level.
spec fn picked(pick: Pick, n: nat) -> Seq<i64> {
    Seq::new(n, |i: int| pick.ids[i as nat])
}

/// What rows are picked of, and what is found.
proof fn lemma_picked(segs: Seq<Seq<char>>, t: Table, pick: Pick)
    requires
        segs.len() > 0,
        all_searchable(t),
        select_for(segs).is_pick(t, index(t), pick),
    ensures
        all_so(select_for(segs).tests, params(segs), pick, t) ==> finds_rows(
            t,
            index(t),
            segs,
            picked(pick, segs.len()),
        ),
        chain_in(select_for(segs).columns_of(pick, t)) == chain_of(t, picked(pick, segs.len())),
        select_for(segs).columns_of(pick, t)[1] == Bound::Blob(
            t[picked(pick, segs.len())[0]].name,
        ),
{
    let stmt = select_for(segs);
    let ids = picked(pick, segs.len());
    lemma_sources(segs);
    lemma_levels(segs);
    assert forall|i: int| 0 <= i < ids.len() implies t.contains_key(#[trigger] ids[i]) by {
        assert(stmt.sources.contains(Source::Files(i as nat)));
        assert(pick.ids.contains_key(i as nat));
    }
    law_params_follow_conditions(segs);
    lemma_tests_hold(conditions(segs), segs, pick, t, ids);
    if all_so(stmt.tests, params(segs), pick, t) {
        assert(index(t).contains(pick.suffix));
    }
    let row = stmt.columns_of(pick, t);
    assert(row[0] == Bound::Int(ids[0]));
    let below = chain_in(row).below;
    assert forall|i: int| 0 <= i < segs.len() - 1 implies below[i] == t[ids[i + 1]].name by {
        assert(row.skip(2)[i] == row[i + 2]);
        assert(stmt.columns[i + 2] == Ref::Files((i + 1) as nat, Column::Name));
    }
    assert(below =~= chain_of(t, ids).below);
}

/// What is found is what some rows can be picked of.
proof fn lemma_pickable(segs: Seq<Seq<char>>, t: Table, ids: Seq<i64>) -> (pick: Pick)
    requires
        segs.len() > 0,
        all_searchable(t),
        finds_rows(t, index(t), segs, ids),
    ensures
        select_for(segs).is_pick(t, index(t), pick),
        all_so(select_for(segs).tests, params(segs), pick, t),
        picked(pick, segs.len()) == ids,
{
    let suffix = choose|row: SuffixRow| #[trigger]
        index(t).contains(row) && all_hold(
            conditions(segs),
            segs,
            row.suffix,
            row.id,
            entries_of(t, ids),
        );
    let pick = Pick {
        suffix,
        ids: Map::new(|i: nat| i < segs.len(), |i: nat| ids[i as int]),
    };
    lemma_sources(segs);
    lemma_levels(segs);
    assert(picked(pick, segs.len()) =~= ids);
    law_params_follow_conditions(segs);
    lemma_tests_hold(conditions(segs), segs, pick, t, ids);
    pick
}

/// The statement is one for the query: it can be run, and its rows, with the values that go
/// with it, are those of the query.
pub open spec fn is_statement_for(stmt: Select, segs: Seq<Seq<char>>) -> bool {
    &&& stmt.text() == query_text(segs)
    &&& stmt.is_sound()
    &&& forall|t: Table, rows: Seq<Seq<Bound>>|
        all_searchable(t) && #[trigger] stmt.has_rows(params(segs), t, index(t), rows)
            ==> query_rows(t, segs, chains_in(rows))
}

/// The statement for a query, as it is written and with the values that go with it, can be
/// run, and has just the rows of the chains of files of which the conditions of the query
/// hold: what is written about a level is about this level, and what is written about the
/// directory above it is about the level before it. Names must be text.
pub proof fn law_query_statement(segs: Seq<Seq<char>>)
    requires
        segs.len() > 0,
    ensures
        exists|stmt: Select| #[trigger] is_statement_for(stmt, segs),
{
    let stmt = select_for(segs);
    let n = segs.len();
    lemma_levels(segs);
    lemma_sources(segs);
    lemma_columns_text(n);
    lemma_sources_text(segs, all_steps(segs));
    lemma_tests_text(conditions(segs), n as int);
    assert(stmt.text() == query_text(segs));
    lemma_tests_read(conditions(segs), stmt.sources, n as int);
    assert(stmt.is_sound()) by {
        assert forall|i: int| 0 <= i < stmt.columns.len() implies (
        #[trigger] stmt.columns[i]).is_read(stmt.sources) by {
            if i > 0 {
                assert(stmt.columns[i] == Ref::Files((i - 1) as nat, Column::Name));
                assert(stmt.sources.contains(Source::Files((i - 1) as nat)));
            } else {
                assert(stmt.sources.contains(Source::Files(0)));
            }
        }
    }
    assert forall|t: Table, rows: Seq<Seq<Bound>>|
        all_searchable(t) && #[trigger] stmt.has_rows(
            params(segs),
            t,
            index(t),
            rows,
        ) implies query_rows(t, segs, chains_in(rows)) by {
        lemma_rows_of_query(segs, t, rows);
    }
    assert(is_statement_for(stmt, segs));
}

proof fn lemma_rows_of_query(segs: Seq<Seq<char>>, t: Table, rows: Seq<Seq<Bound>>)
    requires
        segs.len() > 0,
        all_searchable(t),
        select_for(segs).has_rows(params(segs), t, index(t), rows),
    ensures
        query_rows(t, segs, chains_in(rows)),
{
    let stmt = select_for(segs);
    let chains = chains_in(rows);
    assert forall|chain: Chain| #[trigger]
        chains.contains(chain) <==> exists|ids: Seq<i64>| #[trigger]
            finds_rows(t, index(t), segs, ids) && chain == chain_of(t, ids) by {
        if chains.contains(chain) {
            let k = choose|k: int| 0 <= k < chains.len() && chains[k] == chain;
            assert(rows.contains(rows[k]));
            let pick = choose|pick: Pick| #[trigger]
                stmt.is_pick(t, index(t), pick) && all_so(stmt.tests, params(segs), pick, t)
                    && rows[k] == stmt.columns_of(pick, t);
            lemma_picked(segs, t, pick);
            assert(finds_rows(t, index(t), segs, picked(pick, segs.len())));
        }
        if exists|ids: Seq<i64>| #[trigger]
            finds_rows(t, index(t), segs, ids) && chain == chain_of(t, ids) {
            let ids = choose|ids: Seq<i64>| #[trigger]
                finds_rows(t, index(t), segs, ids) && chain == chain_of(t, ids);
            let pick = lemma_pickable(segs, t, ids);
            lemma_picked(segs, t, pick);
            let row = stmt.columns_of(pick, t);
            assert(rows.contains(row));
            let k = choose|k: int| 0 <= k < rows.len() && rows[k] == row;
            assert(chains[k] == chain);
        }
    }
    assert forall|i: int, j: int|
        0 <= i < chains.len() && 0 <= j < chains.len() && i != j implies chains[i] != chains[j] by {
        assert(rows.contains(rows[i]));
        assert(rows.contains(rows[j]));
        let a = choose|pick: Pick| #[trigger]
            stmt.is_pick(t, index(t), pick) && all_so(stmt.tests, params(segs), pick, t) && rows[i]
                == stmt.columns_of(pick, t);
        let b = choose|pick: Pick| #[trigger]
            stmt.is_pick(t, index(t), pick) && all_so(stmt.tests, params(segs), pick, t) && rows[j]
                == stmt.columns_of(pick, t);
        lemma_picked(segs, t, a);
        lemma_picked(segs, t, b);
        if chains[i] == chains[j] {
            let (x, y) = (rows[i], rows[j]);
            assert(x[0] == Bound::Int(a.ids[0]));
            assert(y[0] == Bound::Int(b.ids[0]));
            assert forall|k: int| 2 <= k < x.len() implies x[k] == y[k] by {
                assert(stmt.columns[k] == Ref::Files((k - 1) as nat, Column::Name));
                assert(chains[i].below[k - 2] == x.skip(2)[k - 2]->Blob_0);
                assert(chains[j].below[k - 2] == y.skip(2)[k - 2]->Blob_0);
            }
            assert(x =~= y);
        }
    }
}

} // verus!
