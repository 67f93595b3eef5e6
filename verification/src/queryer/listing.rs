//! Which lines an answer is made of.

use vstd::prelude::*;
use vstd::string::*;

use crate::db::path::{leads, path_through, PathState};
use crate::db::table::Table;
use crate::db::ROOT_ID;
use crate::queryer::{
    begin_line, end_line, item_line, law_count_message, one_more, wanted, AnswerAct, Answering,
    Chain, Stage,
};
use crate::text::decimal;

verus! {

/// Within `n` steps, and without a failure, the answer writes just these lines. The query
/// has the rows `rows`, and names and parents are looked up in the table.
pub open spec fn writes(
    a: Answering,
    rows: Seq<Chain>,
    t: Table,
    lines: Seq<Seq<char>>,
    n: nat,
) -> bool
    decreases n,
{
    match a.action() {
        AnswerAct::Done => lines.len() == 0,
        AnswerAct::Print(line) => {
            &&& n > 0
            &&& lines.len() > 0
            &&& lines[0] == line
            &&& writes(a.printed(), rows, t, lines.drop_first(), (n - 1) as nat)
        },
        AnswerAct::Query(_, _) => n > 0 && writes(
            a.queried(Ok(())),
            rows,
            t,
            lines,
            (n - 1) as nat,
        ),
        AnswerAct::NextRow => n > 0 && if rows.len() == 0 {
            writes(a.row(Ok(None)), rows, t, lines, (n - 1) as nat)
        } else {
            writes(a.row(Ok(Some(rows[0]))), rows.drop_first(), t, lines, (n - 1) as nat)
        },
        AnswerAct::Lookup(id) => n > 0 && t.contains_key(id) && writes(
            a.entry(Ok((t[id].name, t[id].parent))),
            rows,
            t,
            lines,
            (n - 1) as nat,
        ),
    }
}

/// Without a failure, the answer to a message is made of just these lines.
pub open spec fn answers(
    msg: Seq<char>,
    rows: Seq<Chain>,
    t: Table,
    lines: Seq<Seq<char>>,
) -> bool {
    exists|n: nat| writes(Answering { msg, stage: Stage::Begin }, rows, t, lines, n)
}

proof fn lemma_writes_once(
    a: Answering,
    rows: Seq<Chain>,
    t: Table,
    x: Seq<Seq<char>>,
    n: nat,
    y: Seq<Seq<char>>,
    m: nat,
)
    requires
        writes(a, rows, t, x, n),
        writes(a, rows, t, y, m),
    ensures
        x == y,
    decreases n,
{
    match a.action() {
        AnswerAct::Done => {
            assert(x =~= y);
        },
        AnswerAct::Print(line) => {
            lemma_writes_once(
                a.printed(),
                rows,
                t,
                x.drop_first(),
                (n - 1) as nat,
                y.drop_first(),
                (m - 1) as nat,
            );
            assert(x =~= seq![line] + x.drop_first());
            assert(y =~= seq![line] + y.drop_first());
        },
        AnswerAct::Query(_, _) => {
            lemma_writes_once(a.queried(Ok(())), rows, t, x, (n - 1) as nat, y, (m - 1) as nat);
        },
        AnswerAct::NextRow => {
            if rows.len() == 0 {
                lemma_writes_once(a.row(Ok(None)), rows, t, x, (n - 1) as nat, y, (m - 1) as nat);
            } else {
                lemma_writes_once(
                    a.row(Ok(Some(rows[0]))),
                    rows.drop_first(),
                    t,
                    x,
                    (n - 1) as nat,
                    y,
                    (m - 1) as nat,
                );
            }
        },
        AnswerAct::Lookup(id) => {
            lemma_writes_once(
                a.entry(Ok((t[id].name, t[id].parent))),
                rows,
                t,
                x,
                (n - 1) as nat,
                y,
                (m - 1) as nat,
            );
        },
    }
}

/// There is one answer to a message.
pub proof fn law_one_answer(
    msg: Seq<char>,
    rows: Seq<Chain>,
    t: Table,
    x: Seq<Seq<char>>,
    y: Seq<Seq<char>>,
)
    requires
        answers(msg, rows, t, x),
        answers(msg, rows, t, y),
    ensures
        x == y,
{
    let a = Answering { msg, stage: Stage::Begin };
    let n = choose|n: nat| writes(a, rows, t, x, n);
    let m = choose|m: nat| writes(a, rows, t, y, m);
    lemma_writes_once(a, rows, t, x, n, y, m);
}

/// The same stage with another number of paths that are wanted.
spec fn with_count(stage: Stage, n: usize) -> Stage {
    match stage {
        Stage::Rows { cnt, .. } => Stage::Rows { count: n, cnt },
        Stage::Path { cnt, path, below, .. } => Stage::Path { count: n, cnt, path, below },
        Stage::Item { cnt, path, .. } => Stage::Item { count: n, cnt, path },
        stage => stage,
    }
}

/// All paths are wanted, and `cnt` have been written.
spec fn lists_all(stage: Stage, cnt: usize) -> bool {
    match stage {
        Stage::Rows { count, cnt: c } => count == usize::MAX && c == cnt,
        Stage::Path { count, cnt: c, path, .. } => {
            &&& count == usize::MAX
            &&& c == cnt
            &&& path.wanted() is Some
        },
        Stage::Item { count, cnt: c, .. } => count == usize::MAX && c == cnt,
        _ => false,
    }
}

/// The first `n` of the lines, or all if there are fewer.
pub open spec fn first_of(lines: Seq<Seq<char>>, n: int) -> Seq<Seq<char>> {
    if n < lines.len() {
        lines.take(n)
    } else {
        lines
    }
}

/// Nothing but the last line is written at the end.
proof fn lemma_end(a: Answering, rows: Seq<Chain>, t: Table, lines: Seq<Seq<char>>, n: nat)
    requires
        a.stage is End,
    ensures
        writes(a, rows, t, lines, n) <==> n > 0 && lines == seq![end_line(a.msg)],
{
    reveal_with_fuel(writes, 2);
    let last = seq![end_line(a.msg)];
    assert(last.drop_first() =~= Seq::<Seq<char>>::empty());
    if writes(a, rows, t, lines, n) {
        assert(lines =~= last);
    }
}

/// What an answer writes with `wish` paths wanted, given what it writes with all wanted.
proof fn lemma_fewer(
    a: Answering,
    b: Answering,
    rows: Seq<Chain>,
    t: Table,
    lines: Seq<Seq<char>>,
    n: nat,
    cnt: usize,
    wish: usize,
)
    requires
        writes(a, rows, t, lines, n),
        lists_all(a.stage, cnt),
        cnt < wish,
        b.stage == with_count(a.stage, wish),
    ensures
        lines.len() > 0,
        lines.last() == end_line(a.msg),
        writes(
            b,
            rows,
            t,
            first_of(lines.drop_last(), wish - cnt).push(end_line(b.msg)),
            n,
        ),
    decreases n,
{
    let items = lines.drop_last();
    let fewer = first_of(items, wish - cnt).push(end_line(b.msg));
    let m = (n - 1) as nat;
    match a.stage {
        Stage::Rows { .. } => {
            if rows.len() == 0 {
                lemma_end(a.row(Ok(None)), rows, t, lines, m);
                lemma_end(b.row(Ok(None)), rows, t, fewer, m);
                assert(fewer =~= seq![end_line(b.msg)]);
            } else {
                let x = Ok(Some(rows[0]));
                lemma_fewer(a.row(x), b.row(x), rows.drop_first(), t, lines, m, cnt, wish);
            }
        },
        Stage::Path { path, .. } => {
            let id = path.wanted()->0;
            let x = Ok((t[id].name, t[id].parent));
            lemma_fewer(a.entry(x), b.entry(x), rows, t, lines, m, cnt, wish);
        },
        Stage::Item { path, .. } => {
            let rest = lines.drop_first();
            let (a2, b2) = (a.printed(), b.printed());
            assert(one_more(cnt) == cnt + 1);
            if a2.stage is End {
                lemma_end(a2, rows, t, rest, m);
                lemma_end(b2, rows, t, fewer.drop_first(), m);
                assert(fewer.drop_first() =~= seq![end_line(b.msg)]);
            } else if b2.stage is End {
                lemma_fewer(a2, a2, rows, t, rest, m, one_more(cnt), usize::MAX);
                lemma_end(b2, rows, t, fewer.drop_first(), m);
                assert(fewer.drop_first() =~= seq![end_line(b.msg)]);
            } else {
                lemma_fewer(a2, b2, rows, t, rest, m, one_more(cnt), wish);
                assert(fewer.drop_first() =~= first_of(rest.drop_last(), wish - cnt - 1).push(
                    end_line(b.msg),
                ));
            }
            assert(fewer[0] == item_line(path));
        },
        _ => {},
    }
}

/// `COUNT n` before a query, with `n` at least 1, runs the same query, and of the paths
/// that the answer to the query has, its answer has the first `n`, or all if there are
/// fewer.
pub proof fn law_count(
    n: nat,
    query: Seq<char>,
    rows: Seq<Chain>,
    t: Table,
    lines: Seq<Seq<char>>,
)
    requires
        1 <= n <= usize::MAX,
        wanted(query) == Some((usize::MAX, query)),
        answers(query, rows, t, lines),
    ensures
        lines.len() >= 2,
        lines[0] == begin_line(query),
        lines.last() == end_line(query),
        ({
            let msg = "COUNT "@ + decimal(n) + " "@ + query;
            let paths = lines.subrange(1, lines.len() - 1);
            &&& wanted(msg) == Some((n as usize, query))
            &&& answers(
                msg,
                rows,
                t,
                seq![begin_line(msg)] + first_of(paths, n as int) + seq![end_line(msg)],
            )
        }),
{
    reveal_with_fuel(writes, 3);
    let msg = "COUNT "@ + decimal(n) + " "@ + query;
    law_count_message(n, query);
    let a = Answering { msg: query, stage: Stage::Begin };
    let b = Answering { msg, stage: Stage::Begin };
    let k = choose|k: nat| writes(a, rows, t, lines, k);
    let (a2, b2) = (a.printed().queried(Ok(())), b.printed().queried(Ok(())));
    let rest = lines.drop_first();
    assert(writes(a2, rows, t, rest, (k - 2) as nat));
    lemma_fewer(a2, b2, rows, t, rest, (k - 2) as nat, 0, n as usize);
    let paths = lines.subrange(1, lines.len() - 1);
    assert(rest.drop_last() =~= paths);
    let fewer = seq![begin_line(msg)] + first_of(paths, n as int) + seq![end_line(msg)];
    assert(fewer.drop_first() =~= first_of(paths, n as int).push(end_line(msg)));
    assert(writes(b.printed(), rows, t, fewer.drop_first(), (k - 1) as nat));
    assert(writes(b, rows, t, fewer, k));
}

/// The lines of the paths of all rows. The names `names[i]` lead to the row that `rows[i]`
/// begins with.
pub open spec fn paths_of(rows: Seq<Chain>, names: Seq<Seq<Seq<u8>>>) -> Seq<Seq<char>> {
    Seq::new(rows.len(), |i: int| item_line(path_through(names[i] + rows[i].below)))
}

/// Once the row has been found to have the path through the names.
spec fn found(a: Answering, names: Seq<Seq<u8>>) -> Answering {
    match a.stage {
        Stage::Path { count, cnt, path, below } => a.at(
            Stage::Item { count, cnt, path: path_through(names + path.names + below) },
        ),
        _ => a,
    }
}

/// The path of a row is found before its line is written.
proof fn lemma_path_found(
    a: Answering,
    names: Seq<Seq<u8>>,
    rows: Seq<Chain>,
    t: Table,
    lines: Seq<Seq<char>>,
    n: nat,
)
    requires
        a.stage matches Stage::Path { path, .. } && path.state matches PathState::Find { id }
            && leads(t, names, id),
        writes(found(a, names), rows, t, lines, n),
    ensures
        writes(a, rows, t, lines, n + names.len()),
    decreases names.len(),
{
    let path = a.stage->Path_path;
    let id = path.state->id;
    let next = a.entry(Ok((t[id].name, t[id].parent)));
    if t[id].parent == ROOT_ID {
        assert(names + path.names =~= seq![t[id].name] + path.names);
    } else {
        let up = names.drop_last();
        assert(up + (seq![t[id].name] + path.names) =~= names + path.names);
        lemma_path_found(next, up, rows, t, lines, n);
    }
}

/// The paths of the remaining rows are written, as many as are still wanted.
proof fn lemma_rows_listed(
    a: Answering,
    rows: Seq<Chain>,
    names: Seq<Seq<Seq<u8>>>,
    t: Table,
) -> (n: nat)
    requires
        a.stage matches Stage::Rows { count, cnt } && cnt < count,
        names.len() == rows.len(),
        forall|i: int| 0 <= i < rows.len() ==> leads(t, #[trigger] names[i], rows[i].id),
    ensures
        writes(
            a,
            rows,
            t,
            first_of(paths_of(rows, names), a.stage->Rows_count - a.stage->Rows_cnt).push(
                end_line(a.msg),
            ),
            n,
        ),
    decreases rows.len(),
{
    let count = a.stage->Rows_count;
    let cnt = a.stage->Rows_cnt;
    let lines = first_of(paths_of(rows, names), count - cnt).push(end_line(a.msg));
    if rows.len() == 0 {
        lemma_end(a.row(Ok(None)), rows, t, lines, 1);
        assert(lines =~= seq![end_line(a.msg)]);
        2
    } else {
        let row = rows[0];
        let later = rows.drop_first();
        let b = a.row(Ok(Some(row)));
        let path = path_through(names[0] + row.below);
        let item = a.at(Stage::Item { count, cnt, path });
        let next = item.printed();
        let rest = lines.drop_first();
        assert(leads(t, names[0], row.id));
        let n: nat = if next.stage is End {
            lemma_end(next, later, t, rest, 1);
            assert(rest =~= seq![end_line(a.msg)]);
            1
        } else {
            let m = lemma_rows_listed(next, later, names.drop_first(), t);
            assert(rest =~= first_of(
                paths_of(later, names.drop_first()),
                count - cnt - 1,
            ).push(end_line(a.msg)));
            m
        };
        assert(lines[0] == item_line(path));
        assert(writes(item, later, t, lines, n + 1));
        assert(names[0] + Seq::<Seq<u8>>::empty() =~= names[0]);
        lemma_path_found(b, names[0], later, t, lines, n + 1);
        n + 1 + names[0].len() + 1
    }
}

/// The answer to a message has the paths of the rows of its query, in their order: as many
/// as are wanted, or all if there are fewer.
pub proof fn law_paths_listed(
    msg: Seq<char>,
    rows: Seq<Chain>,
    names: Seq<Seq<Seq<u8>>>,
    t: Table,
)
    requires
        wanted(msg) matches Some((count, _)) && count > 0,
        names.len() == rows.len(),
        forall|i: int| 0 <= i < rows.len() ==> leads(t, #[trigger] names[i], rows[i].id),
    ensures
        ({
            let (count, _) = wanted(msg)->0;
            let paths = first_of(paths_of(rows, names), count as int);
            answers(msg, rows, t, seq![begin_line(msg)] + paths + seq![end_line(msg)])
        }),
{
    reveal_with_fuel(writes, 3);
    let (count, _) = wanted(msg)->0;
    let paths = first_of(paths_of(rows, names), count as int);
    let lines = seq![begin_line(msg)] + paths + seq![end_line(msg)];
    let a = Answering { msg, stage: Stage::Begin };
    let listing = a.printed().queried(Ok(()));
    let n = lemma_rows_listed(listing, rows, names, t);
    assert(lines.drop_first() =~= paths.push(end_line(msg)));
    assert(writes(a.printed(), rows, t, lines.drop_first(), n + 1));
    assert(writes(a, rows, t, lines, n + 2));
}

/// A message that is not understood is answered without a path.
pub proof fn law_not_understood(msg: Seq<char>, rows: Seq<Chain>, t: Table)
    requires
        wanted(msg) is None,
    ensures
        answers(msg, rows, t, seq![begin_line(msg), end_line(msg)]),
{
    reveal_with_fuel(writes, 3);
    let a = Answering { msg, stage: Stage::Begin };
    let lines = seq![begin_line(msg), end_line(msg)];
    lemma_end(a.printed(), rows, t, lines.drop_first(), 1);
    assert(lines.drop_first() =~= seq![end_line(msg)]);
    assert(writes(a, rows, t, lines, 2));
}

} // verus!
