//! The statement that answers a path query.
//!
//! A query is a list of segments, one for each directory level. It selects the
//! chains of entries, each the parent of the next, whose names contain the
//! segments. The longest segment is looked up among the suffixes of names, and
//! the other levels are joined to it one by one, the longer neighbour first.

use vstd::prelude::*;
use vstd::string::*;
use vstd::utf8::encode_utf8;

use crate::text::{between, decimal, join, joined, push_number, slices, texts};

verus! {

/// One level that is joined to those before it.
pub struct Step {
    /// The level.
    pub index: int,
    /// Whether it is joined below the levels before it, rather than above.
    pub below: bool,
}

/// A condition on the rows of all levels.
pub enum Condition {
    /// The suffix starts with the longest segment.
    Prefix,
    /// The suffix belongs to the name at this level.
    Suffix(int),
    /// The entry at this level is in the directory one level above.
    InDirectory(int),
    /// The entry at this level is the directory of the one a level below.
    DirectoryOf(int),
    /// The name at this level contains the segment.
    Contains(int),
}

/// How narrow a segment is taken to be: its length in bytes.
pub open spec fn specifity(segment: Seq<char>) -> i64 {
    (encode_utf8(segment).len() as usize) as i64
}

/// The specifity of each segment.
pub open spec fn specifities(segments: Seq<Seq<char>>) -> Seq<i64> {
    segments.map_values(|s: Seq<char>| specifity(s))
}

/// The last level with the greatest score.
pub open spec fn best_level(scores: Seq<i64>) -> int
    decreases scores.len(),
{
    if scores.len() <= 1 {
        0
    } else {
        let b = best_level(scores.drop_last());
        if scores.last() >= scores[b] {
            scores.len() - 1
        } else {
            b
        }
    }
}

/// The order in which levels are joined once those from `l` to `r` are: the
/// neighbour with the greater score first, and of two equal ones that above.
pub open spec fn steps(scores: Seq<i64>, l: int, r: int) -> Seq<Step>
    decreases l + (scores.len() - r),
{
    if l < 0 || r >= scores.len() || (l == 0 && r == scores.len() - 1) {
        Seq::empty()
    } else if l == 0 || (r < scores.len() - 1 && scores[l - 1] < scores[r + 1]) {
        seq![Step { index: r + 1, below: true }] + steps(scores, l, r + 1)
    } else {
        seq![Step { index: l - 1, below: false }] + steps(scores, l - 1, r)
    }
}

/// The order in which all levels but the best are joined.
pub open spec fn all_steps(segments: Seq<Seq<char>>) -> Seq<Step> {
    let scores = specifities(segments);
    steps(scores, best_level(scores), best_level(scores))
}

/// The conditions that come with one step: an empty segment allows any name.
pub open spec fn step_conditions(segments: Seq<Seq<char>>, step: Step) -> Seq<Condition> {
    let link = if step.below {
        Condition::InDirectory(step.index)
    } else {
        Condition::DirectoryOf(step.index)
    };
    if segments[step.index].len() == 0 {
        seq![link]
    } else {
        seq![link, Condition::Contains(step.index)]
    }
}

/// The conditions that come with the steps.
pub open spec fn conditions_of(segments: Seq<Seq<char>>, taken: Seq<Step>) -> Seq<Condition>
    decreases taken.len(),
{
    if taken.len() == 0 {
        let best = best_level(specifities(segments));
        seq![Condition::Prefix, Condition::Suffix(best)]
    } else {
        conditions_of(segments, taken.drop_last()) + step_conditions(segments, taken.last())
    }
}

/// All conditions of a query.
pub open spec fn conditions(segments: Seq<Seq<char>>) -> Seq<Condition> {
    conditions_of(segments, all_steps(segments))
}

/// The pattern for names that contain a segment.
pub open spec fn pattern(segment: Seq<char>) -> Seq<char> {
    "%"@ + segment + "%"@
}

/// The least text that is greater than all texts with the given prefix, as far as
/// they hold no noncharacter after it.
pub open spec fn prefix_bound(prefix: Seq<char>) -> Seq<char> {
    prefix + "\u{10FFFF}"@
}

/// The parameters that come with the steps.
pub open spec fn params_of(segments: Seq<Seq<char>>, taken: Seq<Step>) -> Seq<Seq<char>>
    decreases taken.len(),
{
    if taken.len() == 0 {
        let best = segments[best_level(specifities(segments))];
        seq![best, prefix_bound(best)]
    } else {
        let before = params_of(segments, taken.drop_last());
        let segment = segments[taken.last().index];
        if segment.len() == 0 {
            before
        } else {
            before.push(pattern(segment))
        }
    }
}

/// All parameters of a query.
pub open spec fn params(segments: Seq<Seq<char>>) -> Seq<Seq<char>> {
    params_of(segments, all_steps(segments))
}

/// The name by which a level is called in the statement.
pub open spec fn level(index: int) -> Seq<char> {
    "s"@ + decimal(index as nat)
}

/// A condition as it is written in the statement.
pub open spec fn condition_text(condition: Condition) -> Seq<char> {
    match condition {
        Condition::Prefix => "suffix_array.suffix >= ? AND suffix_array.suffix < ?"@,
        Condition::Suffix(i) => level(i) + ".id = suffix_array.id"@,
        Condition::InDirectory(i) => level(i) + ".parent_id = "@ + level(i - 1) + ".id"@,
        Condition::DirectoryOf(i) => level(i) + ".id = "@ + level(i + 1) + ".parent_id"@,
        Condition::Contains(i) => "LOWER(CAST("@ + level(i) + ".name AS TEXT)) LIKE LOWER(?)"@,
    }
}

/// The conditions as they are written in the statement.
pub open spec fn condition_texts(list: Seq<Condition>) -> Seq<Seq<char>> {
    list.map_values(|c: Condition| condition_text(c))
}

/// The table of a level as it is written in the statement.
pub open spec fn table_text(index: int) -> Seq<char> {
    "files AS "@ + level(index)
}

/// The tables that come with the steps.
pub open spec fn tables_of(segments: Seq<Seq<char>>, taken: Seq<Step>) -> Seq<Seq<char>>
    decreases taken.len(),
{
    if taken.len() == 0 {
        seq!["suffix_array"@, table_text(best_level(specifities(segments)))]
    } else {
        tables_of(segments, taken.drop_last()).push(table_text(taken.last().index))
    }
}

/// The columns with the names of the first `n` levels.
pub open spec fn name_columns(n: nat) -> Seq<Seq<char>> {
    Seq::new(n, |i: int| level(i) + ".name"@)
}

/// The statement for a query.
pub open spec fn query_text(segments: Seq<Seq<char>>) -> Seq<char> {
    "SELECT DISTINCT s0.id, "@ + joined(name_columns(segments.len()), ", "@) + " FROM "@ + joined(
        tables_of(segments, all_steps(segments)),
        " CROSS JOIN "@,
    ) + " WHERE "@ + joined(condition_texts(conditions(segments)), " AND "@)
}

/// The specifity of each segment.
pub fn estimate_specifity(segments: &[&str]) -> (r: Vec<i64>)
    ensures
        r@ == specifities(slices(segments@)),
{
    let mut scores: Vec<i64> = Vec::new();
    let mut i: usize = 0;
    while i < segments.len()
        invariant
            i <= segments@.len(),
            scores@ == specifities(slices(segments@)).take(i as int),
        decreases segments@.len() - i,
    {
        scores.push(segments[i].len() as i64);
        assert(scores@ =~= specifities(slices(segments@)).take(i + 1));
        i += 1;
    }
    assert(specifities(slices(segments@)).take(i as int) =~= specifities(slices(segments@)));
    scores
}

/// The last level with the greatest score.
fn find_best(scores: &Vec<i64>) -> (r: usize)
    requires
        scores@.len() > 0,
    ensures
        r == best_level(scores@),
        r < scores@.len(),
{
    let mut best: usize = 0;
    let mut i: usize = 1;
    assert(scores@.take(1).len() == 1);
    while i < scores.len()
        invariant
            1 <= i <= scores@.len(),
            best < i,
            best == best_level(scores@.take(i as int)),
        decreases scores@.len() - i,
    {
        assert(scores@.take(i + 1).drop_last() =~= scores@.take(i as int));
        if scores[i] >= scores[best] {
            best = i;
        }
        i += 1;
    }
    assert(scores@.take(i as int) =~= scores@);
    best
}

/// Adds the name of a level to the end of a text.
fn push_level(out: &mut String, index: usize)
    ensures
        final(out)@ == old(out)@ + level(index as int),
{
    out.append("s");
    push_number(out, index);
    assert(out@ =~= old(out)@ + level(index as int));
}

/// Writes the table of a level.
fn write_table(index: usize) -> (r: String)
    ensures
        r@ == table_text(index as int),
{
    let mut out = String::new();
    out.append("files AS ");
    push_level(&mut out, index);
    assert(out@ =~= table_text(index as int));
    out
}

/// Writes the condition that a level holds a suffix.
fn write_suffix(index: usize) -> (r: String)
    ensures
        r@ == condition_text(Condition::Suffix(index as int)),
{
    let mut out = String::new();
    push_level(&mut out, index);
    out.append(".id = suffix_array.id");
    assert(out@ =~= condition_text(Condition::Suffix(index as int)));
    out
}

/// Writes the condition that a level is in the directory above it.
fn write_in_directory(index: usize) -> (r: String)
    requires
        index > 0,
    ensures
        r@ == condition_text(Condition::InDirectory(index as int)),
{
    let mut out = String::new();
    push_level(&mut out, index);
    out.append(".parent_id = ");
    push_level(&mut out, index - 1);
    out.append(".id");
    assert(out@ =~= condition_text(Condition::InDirectory(index as int)));
    out
}

/// Writes the condition that a level is the directory of that below it.
fn write_directory_of(index: usize) -> (r: String)
    requires
        index < usize::MAX,
    ensures
        r@ == condition_text(Condition::DirectoryOf(index as int)),
{
    let mut out = String::new();
    push_level(&mut out, index);
    out.append(".id = ");
    push_level(&mut out, index + 1);
    out.append(".parent_id");
    assert(out@ =~= condition_text(Condition::DirectoryOf(index as int)));
    out
}

/// Writes the condition that the name at a level contains the segment.
fn write_contains(index: usize) -> (r: String)
    ensures
        r@ == condition_text(Condition::Contains(index as int)),
{
    let mut out = String::new();
    out.append("LOWER(CAST(");
    push_level(&mut out, index);
    out.append(".name AS TEXT)) LIKE LOWER(?)");
    assert(out@ =~= condition_text(Condition::Contains(index as int)));
    out
}

/// Writes the columns with the names of the first `n` levels.
fn write_columns(n: usize) -> (r: Vec<String>)
    ensures
        texts(r@) == name_columns(n as nat),
{
    let mut columns: Vec<String> = Vec::new();
    let mut i: usize = 0;
    assert(texts(columns@) =~= name_columns(0));
    while i < n
        invariant
            i <= n,
            texts(columns@) == name_columns(i as nat),
        decreases n - i,
    {
        let mut column = String::new();
        push_level(&mut column, i);
        column.append(".name");
        assert(column@ =~= level(i as int) + ".name"@);
        let ghost before = texts(columns@);
        columns.push(column);
        assert(texts(columns@) =~= before.push(level(i as int) + ".name"@));
        assert(texts(columns@) =~= name_columns((i + 1) as nat));
        i += 1;
    }
    columns
}

/// Prepares the statement that answers a query, and its parameters; `None` if the
/// query has no segments.
pub fn prepare_query(segments: &[&str]) -> (r: Option<(String, Vec<String>)>)
    ensures
        r is None <==> segments@.len() == 0,
        r matches Some((query, parameters)) ==> {
            &&& query@ == query_text(slices(segments@))
            &&& texts(parameters@) == params(slices(segments@))
        },
{
    let ghost segs = slices(segments@);
    let scores = estimate_specifity(segments);
    let n: usize = scores.len();
    if n == 0 {
        return None;
    }
    let best: usize = find_best(&scores);

    let mut joins: Vec<String> = Vec::new();
    let mut parameters: Vec<String> = Vec::new();
    let mut conds: Vec<String> = Vec::new();
    joins.push(String::from_str("suffix_array"));
    parameters.push(String::from_str(segments[best]));
    parameters.push(between("", segments[best], "\u{10FFFF}"));
    conds.push(String::from_str("suffix_array.suffix >= ? AND suffix_array.suffix < ?"));
    joins.push(write_table(best));
    conds.push(write_suffix(best));

    let mut l: usize = best;
    let mut r: usize = best;
    let ghost mut taken: Seq<Step> = Seq::empty();
    proof {
        reveal_strlit("");
        assert(parameters@[1]@ =~= prefix_bound(segs[best as int]));
        assert(texts(joins@) =~= tables_of(segs, taken));
        assert(texts(parameters@) =~= params_of(segs, taken));
        assert(texts(conds@) =~= condition_texts(conditions_of(segs, taken)));
        assert(taken + all_steps(segs) =~= all_steps(segs));
    }
    while 0 < l || r < n - 1
        invariant
            segs == slices(segments@),
            scores@ == specifities(segs),
            n == scores@.len(),
            n == segments@.len(),
            l <= r < n,
            all_steps(segs) == taken + steps(scores@, l as int, r as int),
            texts(joins@) == tables_of(segs, taken),
            texts(parameters@) == params_of(segs, taken),
            texts(conds@) == condition_texts(conditions_of(segs, taken)),
        decreases l + (n - r),
    {
        let ghost before = taken;
        let ghost rest = steps(scores@, l as int, r as int);
        let ghost joins_before = texts(joins@);
        let ghost conds_before = texts(conds@);
        let ghost params_before = texts(parameters@);
        let below: bool = l == 0 || (r < n - 1 && scores[l - 1] < scores[r + 1]);
        let index: usize = if below {
            r + 1
        } else {
            l - 1
        };
        let ghost step = Step { index: index as int, below };
        proof {
            taken = before.push(step);
            assert(taken.drop_last() =~= before);
            assert(rest[0] == step);
            assert(taken + rest.drop_first() =~= before + rest);
        }
        joins.push(write_table(index));
        assert(texts(joins@) =~= joins_before.push(table_text(index as int)));
        if below {
            conds.push(write_in_directory(index));
            assert(texts(conds@) =~= conds_before.push(
                condition_text(Condition::InDirectory(index as int)),
            ));
            r = index;
        } else {
            conds.push(write_directory_of(index));
            assert(texts(conds@) =~= conds_before.push(
                condition_text(Condition::DirectoryOf(index as int)),
            ));
            l = index;
        }
        assert(rest.drop_first() =~= steps(scores@, l as int, r as int));
        let ghost conds_linked = texts(conds@);
        assert(segs[index as int] == segments@[index as int]@);
        if !segments[index].is_empty() {
            parameters.push(between("%", segments[index], "%"));
            assert(texts(parameters@) =~= params_before.push(pattern(segs[index as int])));
            conds.push(write_contains(index));
            assert(texts(conds@) =~= conds_linked.push(
                condition_text(Condition::Contains(index as int)),
            ));
        }
        assert(texts(conds@) =~= condition_texts(conditions_of(segs, taken)));
    }
    assert(taken + Seq::<Step>::empty() =~= taken);

    let mut query = String::from_str("SELECT DISTINCT s0.id, ");
    query.append(join(&write_columns(n), ", ").as_str());
    query.append(" FROM ");
    query.append(join(&joins, " CROSS JOIN ").as_str());
    query.append(" WHERE ");
    query.append(join(&conds, " AND ").as_str());
    assert(query@ =~= query_text(segs));
    Some((query, parameters))
}

} // verus!
