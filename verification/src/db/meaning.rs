//! What a path query selects.

use vstd::prelude::*;
use vstd::utf8::encode_utf8;

use crate::db::collation::{
    fold, fold_text, in_range, is_plain, law_pattern_occurs, law_prefix_range, lemma_fold_concat,
    lemma_fold_skip, matches_pattern, occurs, occurs_nocase, precedes_nocase, starts_with, LAST_CHAR,
};
use crate::db::query::{
    all_steps, best_level, conditions, conditions_of, params, params_of, pattern, prefix_bound,
    specifities, specifity, step_conditions, steps, Condition, Step, query_text, tables_of,
};
use crate::gen_suffixes_vtab::suffixes;

verus! {

/// An entry of the database whose name is text.
pub struct Entry {
    pub id: i64,
    pub parent_id: i64,
    pub name: Seq<char>,
}

/// Whether a condition of a query holds of one suffix, which belongs to the entry
/// `owner`, and of one entry for each level.
pub open spec fn holds(
    condition: Condition,
    segments: Seq<Seq<char>>,
    suffix: Seq<char>,
    owner: i64,
    rows: Seq<Entry>,
) -> bool {
    match condition {
        Condition::Prefix => {
            let best = segments[best_level(specifities(segments))];
            &&& !precedes_nocase(suffix, best)
            &&& precedes_nocase(suffix, prefix_bound(best))
        },
        Condition::Suffix(i) => rows[i].id == owner,
        Condition::InDirectory(i) => rows[i].parent_id == rows[i - 1].id,
        Condition::DirectoryOf(i) => rows[i].id == rows[i + 1].parent_id,
        Condition::Contains(i) => matches_pattern(
            fold_text(pattern(segments[i])),
            fold_text(rows[i].name),
        ),
    }
}

/// Whether all conditions hold.
pub open spec fn all_hold(
    list: Seq<Condition>,
    segments: Seq<Seq<char>>,
    suffix: Seq<char>,
    owner: i64,
    rows: Seq<Entry>,
) -> bool {
    forall|k: int|
        0 <= k < list.len() ==> holds(#[trigger] list[k], segments, suffix, owner, rows)
}

/// Whether a query selects these entries: the conditions hold of them and of some
/// suffix of the name at the best level.
pub open spec fn selected(segments: Seq<Seq<char>>, rows: Seq<Entry>) -> bool {
    let best = best_level(specifities(segments));
    exists|k: int|
        0 <= k < suffixes(rows[best].name).len() && all_hold(
            conditions(segments),
            segments,
            #[trigger] suffixes(rows[best].name)[k],
            rows[best].id,
            rows,
        )
}

/// Whether each entry is in the directory before it.
pub open spec fn is_chain(rows: Seq<Entry>) -> bool {
    forall|i: int| 0 < i < rows.len() ==> (#[trigger] rows[i]).parent_id == rows[i - 1].id
}

/// Whether the name at each level contains the segment, without regard to case.
pub open spec fn names_contain(segments: Seq<Seq<char>>, rows: Seq<Entry>) -> bool {
    forall|i: int|
        0 <= i < segments.len() ==> occurs_nocase(segments[i], (#[trigger] rows[i]).name)
}

/// The step that joins a level other than the best.
pub open spec fn step_to(segments: Seq<Seq<char>>, i: int) -> Step {
    Step { index: i, below: i > best_level(specifities(segments)) }
}

/// Whether one step's conditions hold.
spec fn step_holds(segments: Seq<Seq<char>>, step: Step, rows: Seq<Entry>) -> bool {
    let i = step.index;
    &&& if step.below {
        rows[i].parent_id == rows[i - 1].id
    } else {
        rows[i].id == rows[i + 1].parent_id
    }
    &&& segments[i].len() == 0 || matches_pattern(
        fold_text(pattern(segments[i])),
        fold_text(rows[i].name),
    )
}

/// The conditions of the steps hold exactly if those of each step do, and those of
/// the best level.
proof fn lemma_conditions_of(
    segments: Seq<Seq<char>>,
    taken: Seq<Step>,
    suffix: Seq<char>,
    owner: i64,
    rows: Seq<Entry>,
)
    ensures
        all_hold(conditions_of(segments, taken), segments, suffix, owner, rows) <==> {
            &&& holds(Condition::Prefix, segments, suffix, owner, rows)
            &&& rows[best_level(specifities(segments))].id == owner
            &&& forall|k: int|
                0 <= k < taken.len() ==> step_holds(segments, #[trigger] taken[k], rows)
        },
    decreases taken.len(),
{
    let list = conditions_of(segments, taken);
    let best = best_level(specifities(segments));
    if taken.len() == 0 {
        assert(list[0] == Condition::Prefix);
        assert(list[1] == Condition::Suffix(best));
    } else {
        let before = conditions_of(segments, taken.drop_last());
        let last = step_conditions(segments, taken.last());
        lemma_conditions_of(segments, taken.drop_last(), suffix, owner, rows);
        assert(list =~= before + last);
        assert(forall|k: int| 0 <= k < taken.len() - 1 ==> taken.drop_last()[k] == taken[k]);
        if all_hold(list, segments, suffix, owner, rows) {
            assert forall|k: int| 0 <= k < before.len() implies holds(
                #[trigger] before[k],
                segments,
                suffix,
                owner,
                rows,
            ) by {
                assert(list[k] == before[k]);
            }
            assert(list[before.len() as int] == last[0]);
            if segments[taken.last().index].len() != 0 {
                assert(list[before.len() as int + 1] == last[1]);
            }
            assert(step_holds(segments, taken.last(), rows));
        }
        if (forall|k: int|
            0 <= k < taken.len() ==> step_holds(segments, #[trigger] taken[k], rows)) {
            assert(step_holds(segments, taken[taken.len() - 1], rows));
        }
    }
}

/// The suffix belongs to the entry at the best level.
pub proof fn lemma_owner(
    segments: Seq<Seq<char>>,
    suffix: Seq<char>,
    owner: i64,
    rows: Seq<Entry>,
)
    requires
        all_hold(conditions(segments), segments, suffix, owner, rows),
    ensures
        rows[best_level(specifities(segments))].id == owner,
{
    lemma_conditions_of(segments, all_steps(segments), suffix, owner, rows);
}

/// The steps reach each level outside those already joined, from its neighbour.
pub proof fn lemma_steps_reach(scores: Seq<i64>, l: int, r: int)
    requires
        0 <= l <= r < scores.len(),
    ensures
        forall|k: int|
            0 <= k < steps(scores, l, r).len() ==> {
                let step = #[trigger] steps(scores, l, r)[k];
                &&& step.below ==> r < step.index < scores.len()
                &&& !step.below ==> 0 <= step.index < l
            },
        forall|i: int|
            r < i < scores.len() ==> #[trigger] steps(scores, l, r).contains(
                (Step { index: i, below: true }),
            ),
        forall|i: int|
            0 <= i < l ==> #[trigger] steps(scores, l, r).contains(
                (Step { index: i, below: false }),
            ),
        steps(scores, l, r).len() == l + (scores.len() - 1 - r),
    decreases l + (scores.len() - r),
{
    let all = steps(scores, l, r);
    if l > 0 || r < scores.len() - 1 {
        let below = l == 0 || (r < scores.len() - 1 && scores[l - 1] < scores[r + 1]);
        let (l2, r2) = if below {
            (l, r + 1)
        } else {
            (l - 1, r)
        };
        let rest = steps(scores, l2, r2);
        lemma_steps_reach(scores, l2, r2);
        lemma_contains_rest(all, rest);
        assert(all.contains(all[0]));
        assert forall|i: int| r < i < scores.len() implies #[trigger] all.contains(
            (Step { index: i, below: true }),
        ) by {
            if i > r2 {
                assert(rest.contains(Step { index: i, below: true }));
            }
        }
        assert forall|i: int| 0 <= i < l implies #[trigger] all.contains(
            (Step { index: i, below: false }),
        ) by {
            if i < l2 {
                assert(rest.contains(Step { index: i, below: false }));
            }
        }
    }
}

/// What the rest of a list contains, the list contains.
proof fn lemma_contains_rest(all: Seq<Step>, rest: Seq<Step>)
    requires
        all.len() == rest.len() + 1,
        forall|k: int| 0 <= k < rest.len() ==> rest[k] == all[k + 1],
    ensures
        forall|step: Step| #[trigger] rest.contains(step) ==> all.contains(step),
{
    assert forall|step: Step| #[trigger] rest.contains(step) implies all.contains(step) by {
        let k = choose|k: int| 0 <= k < rest.len() && rest[k] == step;
        assert(all[k + 1] == step);
    }
}

/// The best level is one of the levels, none has a greater score, and none after it
/// has the same.
pub proof fn law_best_level(scores: Seq<i64>)
    requires
        scores.len() > 0,
    ensures
        0 <= best_level(scores) < scores.len(),
        forall|i: int| 0 <= i < scores.len() ==> #[trigger] scores[i] <= scores[best_level(scores)],
        forall|i: int|
            best_level(scores) < i < scores.len() ==> #[trigger] scores[i] < scores[best_level(
                scores,
            )],
    decreases scores.len(),
{
    if scores.len() > 1 {
        let before = scores.drop_last();
        law_best_level(before);
        assert forall|i: int| 0 <= i < scores.len() implies #[trigger] scores[i]
            <= scores[best_level(scores)] by {
            if i < before.len() {
                assert(before[i] == scores[i]);
            }
        }
        assert forall|i: int| best_level(scores) < i < scores.len() implies #[trigger] scores[i]
            < scores[best_level(scores)] by {
            if i < before.len() {
                assert(before[i] == scores[i]);
            }
        }
    }
}

/// Every level but the best is joined once: as many steps are taken as there are
/// other levels, each level below the best is joined below, and each above it above.
pub proof fn law_every_level_joined(segments: Seq<Seq<char>>)
    requires
        segments.len() > 0,
    ensures
        all_steps(segments).len() == segments.len() - 1,
        forall|i: int|
            0 <= i < segments.len() && i != best_level(specifities(segments))
                ==> all_steps(segments).contains(#[trigger] step_to(segments, i)),
{
    let scores = specifities(segments);
    law_best_level(scores);
    lemma_steps_reach(scores, best_level(scores), best_level(scores));
}

/// A text occurs in a nonempty text exactly if it starts one of its suffixes.
pub proof fn law_occurs_in_suffix(part: Seq<char>, s: Seq<char>)
    requires
        s.len() > 0,
    ensures
        occurs(part, s) <==> exists|k: int|
            0 <= k < s.len() && starts_with(#[trigger] s.skip(k), part),
{
    if occurs(part, s) {
        let k = choose|k: int| 0 <= k <= s.len() && starts_with(#[trigger] s.skip(k), part);
        if k == s.len() {
            assert(s.skip(0).take(0) =~= part);
            assert(starts_with(s.skip(0), part));
        }
    }
}

/// The range of suffixes that a query reads is that of the suffixes that start with
/// the segment, without regard to case, but for those in which the greatest character
/// comes next.
proof fn lemma_prefix_condition(segment: Seq<char>, suffix: Seq<char>)
    ensures
        !precedes_nocase(suffix, segment) && precedes_nocase(suffix, prefix_bound(segment))
            <==> in_range(fold_text(suffix), fold_text(segment)),
{
    reveal_strlit("\u{10FFFF}");
    let bound = seq![LAST_CHAR];
    assert("\u{10FFFF}"@ =~= bound);
    lemma_fold_concat(segment, bound);
    assert(fold_text(bound) =~= bound);
    assert(fold_text(prefix_bound(segment)) =~= fold_text(segment).push(LAST_CHAR));
    law_prefix_range(fold_text(segment), fold_text(suffix));
}

/// The pattern of a segment is matched by the names that contain it.
proof fn lemma_contains_condition(segment: Seq<char>, name: Seq<char>)
    requires
        is_plain(segment),
    ensures
        matches_pattern(fold_text(pattern(segment)), fold_text(name)) <==> occurs_nocase(
            segment,
            name,
        ),
{
    reveal_strlit("%");
    let any = seq!['%'];
    assert("%"@ =~= any);
    lemma_fold_concat(any + segment, any);
    lemma_fold_concat(any, segment);
    assert(fold_text(any) =~= any);
    assert(fold_text(pattern(segment)) =~= any + fold_text(segment) + any);
    assert forall|i: int| 0 <= i < fold_text(segment).len() implies {
        &&& #[trigger] fold_text(segment)[i] != '%'
        &&& fold_text(segment)[i] != '_'
    } by {
        assert(segment[i] != '%' && segment[i] != '_');
        lemma_fold_keeps_wildcards(segment[i]);
    }
    law_pattern_occurs(fold_text(segment), fold_text(name));
}

/// Folding makes no wildcard out of another character.
proof fn lemma_fold_keeps_wildcards(c: char)
    requires
        c != '%',
        c != '_',
    ensures
        fold(c) != '%',
        fold(c) != '_',
{
}

/// Whether a name is found by a segment that is looked up among the suffixes: the segment
/// starts one of them, without regard to case, and the greatest character does not come
/// next.
pub open spec fn findable(segment: Seq<char>, name: Seq<char>) -> bool {
    exists|k: int|
        0 <= k < name.len() && in_range(#[trigger] fold_text(name).skip(k), fold_text(segment))
}

/// A name is found by every segment that it contains, unless it is empty or holds the
/// greatest character; and by no other segment.
pub proof fn law_findable(segment: Seq<char>, name: Seq<char>)
    ensures
        findable(segment, name) ==> occurs_nocase(segment, name),
        name.len() > 0 && !name.contains(LAST_CHAR) ==> (findable(segment, name)
            <==> occurs_nocase(segment, name)),
{
    let folded = fold_text(name);
    let part = fold_text(segment);
    if findable(segment, name) {
        let k = choose|k: int| 0 <= k < name.len() && in_range(#[trigger] folded.skip(k), part);
        assert(starts_with(folded.skip(k), part));
    }
    if name.len() > 0 && !name.contains(LAST_CHAR) && occurs_nocase(segment, name) {
        law_occurs_in_suffix(part, folded);
        let k = choose|k: int|
            0 <= k < folded.len() && starts_with(#[trigger] folded.skip(k), part);
        let rest = folded.skip(k);
        if part.len() < rest.len() {
            let c = name[k + part.len()];
            assert(rest[part.len() as int] == fold(c));
            assert(name.contains(c));
        }
        assert(in_range(rest, part));
    }
}

/// A query selects exactly the chains of entries, each in the directory before it,
/// whose names contain the segments without regard to case, as far as the name at the best
/// level is found by its segment.
///
/// This is so for segments without the wildcards of patterns; only the segment that is
/// looked up among the suffixes may hold them.
pub proof fn law_query_selects(segments: Seq<Seq<char>>, rows: Seq<Entry>)
    requires
        segments.len() > 0,
        rows.len() == segments.len(),
        forall|i: int|
            0 <= i < segments.len() && i != best_level(specifities(segments)) ==> is_plain(
                #[trigger] segments[i],
            ),
    ensures
        selected(segments, rows) <==> {
            let best = best_level(specifities(segments));
            &&& is_chain(rows)
            &&& names_contain(segments, rows)
            &&& findable(segments[best], rows[best].name)
        },
{
    let scores = specifities(segments);
    let best = best_level(scores);
    let name = rows[best].name;
    law_best_level(scores);
    lemma_steps_reach(scores, best, best);
    let taken = all_steps(segments);
    // The other levels.
    assert((forall|k: int| 0 <= k < taken.len() ==> step_holds(segments, #[trigger] taken[k], rows))
        <==> is_chain(rows) && (forall|i: int|
        0 <= i < segments.len() && i != best ==> occurs_nocase(
            segments[i],
            (#[trigger] rows[i]).name,
        ))) by {
        lemma_steps_hold(segments, rows);
    }
    // The best level.
    assert((exists|k: int|
        0 <= k < suffixes(name).len() && holds(
            Condition::Prefix,
            segments,
            #[trigger] suffixes(name)[k],
            rows[best].id,
            rows,
        )) <==> findable(segments[best], name)) by {
        lemma_best_holds(segments, rows);
    }
    law_findable(segments[best], name);
    assert forall|k: int| 0 <= k < suffixes(name).len() implies all_hold(
        conditions(segments),
        segments,
        #[trigger] suffixes(name)[k],
        rows[best].id,
        rows,
    ) == (holds(Condition::Prefix, segments, suffixes(name)[k], rows[best].id, rows) && (forall|
        j: int,
    |
        0 <= j < taken.len() ==> step_holds(segments, #[trigger] taken[j], rows))) by {
        lemma_conditions_of(segments, taken, suffixes(name)[k], rows[best].id, rows);
    }
    if selected(segments, rows) {
        let k = choose|k: int|
            0 <= k < suffixes(name).len() && all_hold(
                conditions(segments),
                segments,
                #[trigger] suffixes(name)[k],
                rows[best].id,
                rows,
            );
        assert(holds(Condition::Prefix, segments, suffixes(name)[k], rows[best].id, rows));
        assert(names_contain(segments, rows));
    }
    if is_chain(rows) && names_contain(segments, rows) && findable(segments[best], name) {
        let k = choose|k: int|
            0 <= k < suffixes(name).len() && holds(
                Condition::Prefix,
                segments,
                #[trigger] suffixes(name)[k],
                rows[best].id,
                rows,
            );
        assert(all_hold(conditions(segments), segments, suffixes(name)[k], rows[best].id, rows));
    }
}

/// A query that ends with an empty segment lists all entries of the directories that
/// the segments before it select.
pub proof fn law_trailing_separator(
    segments: Seq<Seq<char>>,
    rows: Seq<Entry>,
    entry: Entry,
)
    requires
        segments.len() > 0,
        rows.len() == segments.len(),
        ({
            let query = segments.push(Seq::empty());
            let best = best_level(specifities(query));
            let name = rows.push(entry)[best].name;
            &&& forall|i: int|
                0 <= i < segments.len() && i != best ==> is_plain(#[trigger] segments[i])
            &&& occurs_nocase(query[best], name) ==> findable(query[best], name)
        }),
    ensures
        selected(segments.push(Seq::empty()), rows.push(entry)) <==> {
            &&& is_chain(rows)
            &&& names_contain(segments, rows)
            &&& entry.parent_id == rows.last().id
        },
{
    let query = segments.push(Seq::empty());
    let all = rows.push(entry);
    assert(forall|i: int| 0 <= i < segments.len() ==> query[i] == segments[i]);
    assert(forall|i: int| 0 <= i < rows.len() ==> all[i] == rows[i]);
    law_best_level(specifities(query));
    law_query_selects(query, all);
    let folded = fold_text(entry.name);
    assert(folded.skip(0).take(0) =~= fold_text(Seq::<char>::empty()));
    assert(starts_with(folded.skip(0), fold_text(Seq::<char>::empty())));
    if is_chain(all) {
        assert(all[rows.len() as int].parent_id == all[rows.len() - 1].id);
        assert forall|i: int| 0 < i < rows.len() implies (#[trigger] rows[i]).parent_id == rows[i
            - 1].id by {
            assert(all[i].parent_id == all[i - 1].id);
        }
    }
    if is_chain(rows) && entry.parent_id == rows.last().id {
        assert forall|i: int| 0 < i < all.len() implies (#[trigger] all[i]).parent_id == all[i
            - 1].id by {
            if i < rows.len() {
                assert(rows[i].parent_id == rows[i - 1].id);
            }
        }
    }
    if names_contain(query, all) {
        assert forall|i: int| 0 <= i < segments.len() implies occurs_nocase(
            segments[i],
            (#[trigger] rows[i]).name,
        ) by {
            assert(occurs_nocase(query[i], all[i].name));
        }
    }
    if names_contain(segments, rows) {
        assert forall|i: int| 0 <= i < query.len() implies occurs_nocase(
            query[i],
            (#[trigger] all[i]).name,
        ) by {
            if i < segments.len() {
                assert(occurs_nocase(segments[i], rows[i].name));
            }
        }
    }
}

/// The parameters that a condition takes.
pub open spec fn condition_params(
    segments: Seq<Seq<char>>,
    condition: Condition,
) -> Seq<Seq<char>> {
    match condition {
        Condition::Prefix => {
            let best = segments[best_level(specifities(segments))];
            seq![best, prefix_bound(best)]
        },
        Condition::Contains(i) => seq![pattern(segments[i])],
        _ => Seq::empty(),
    }
}

/// The parameters that the conditions take, in the order of the conditions.
pub open spec fn params_in_order(
    segments: Seq<Seq<char>>,
    list: Seq<Condition>,
) -> Seq<Seq<char>>
    decreases list.len(),
{
    if list.len() == 0 {
        Seq::empty()
    } else {
        params_in_order(segments, list.drop_last()) + condition_params(segments, list.last())
    }
}

/// The parameters of a query are those that its conditions take, in the order in
/// which the conditions are written.
pub proof fn law_params_follow_conditions(segments: Seq<Seq<char>>)
    ensures
        params(segments) == params_in_order(segments, conditions(segments)),
{
    lemma_params_of(segments, all_steps(segments));
}

proof fn lemma_params_of(segments: Seq<Seq<char>>, taken: Seq<Step>)
    ensures
        params_of(segments, taken) == params_in_order(segments, conditions_of(segments, taken)),
    decreases taken.len(),
{
    let list = conditions_of(segments, taken);
    if taken.len() == 0 {
        let first = list.drop_last();
        assert(first.drop_last() =~= Seq::<Condition>::empty());
        assert(first.last() == Condition::Prefix);
        assert(params_in_order(segments, first.drop_last()) =~= Seq::<Seq<char>>::empty());
        assert(params_in_order(segments, first) =~= condition_params(segments, Condition::Prefix));
        assert(params_in_order(segments, list) =~= params_in_order(segments, first));
    } else {
        let before = conditions_of(segments, taken.drop_last());
        let last = step_conditions(segments, taken.last());
        lemma_params_of(segments, taken.drop_last());
        if segments[taken.last().index].len() == 0 {
            assert(list.drop_last() =~= before);
            assert(params_in_order(segments, list) =~= params_in_order(segments, before));
        } else {
            let linked = list.drop_last();
            assert(linked.drop_last() =~= before);
            assert(params_in_order(segments, linked) =~= params_in_order(segments, before));
            assert(list.last() == last[1]);
            assert(params_in_order(segments, list) =~= params_in_order(segments, before).push(
                pattern(segments[taken.last().index]),
            ));
        }
    }
}

/// What the segments say does not enter the text of the statement: it is the same for
/// any two queries whose segments have the same specifities and are empty at the same
/// levels.
pub proof fn law_text_without_segments(a: Seq<Seq<char>>, b: Seq<Seq<char>>)
    requires
        a.len() == b.len(),
        forall|i: int|
            0 <= i < a.len() ==> {
                &&& specifity(#[trigger] a[i]) == specifity(b[i])
                &&& a[i].len() == 0 <==> b[i].len() == 0
            },
    ensures
        query_text(a) == query_text(b),
{
    assert(specifities(a) =~= specifities(b));
    let scores = specifities(a);
    if a.len() > 0 {
        law_best_level(scores);
        lemma_steps_reach(scores, best_level(scores), best_level(scores));
    } else {
        assert(all_steps(a) =~= Seq::<Step>::empty());
    }
    lemma_same_text(a, b, all_steps(a));
}

proof fn lemma_same_text(a: Seq<Seq<char>>, b: Seq<Seq<char>>, taken: Seq<Step>)
    requires
        specifities(a) == specifities(b),
        forall|k: int|
            0 <= k < taken.len() ==> (a[(#[trigger] taken[k]).index].len() == 0
                <==> b[taken[k].index].len() == 0),
    ensures
        conditions_of(a, taken) == conditions_of(b, taken),
        tables_of(a, taken) == tables_of(b, taken),
    decreases taken.len(),
{
    if taken.len() > 0 {
        assert(forall|k: int|
            0 <= k < taken.len() - 1 ==> #[trigger] taken.drop_last()[k] == taken[k]);
        lemma_same_text(a, b, taken.drop_last());
        assert(taken.last() == taken[taken.len() - 1]);
    }
}

/// The steps hold exactly if the entries are a chain and the names at the levels that
/// they join contain the segments.
proof fn lemma_steps_hold(segments: Seq<Seq<char>>, rows: Seq<Entry>)
    requires
        segments.len() > 0,
        rows.len() == segments.len(),
        forall|i: int|
            0 <= i < segments.len() && i != best_level(specifities(segments)) ==> is_plain(
                #[trigger] segments[i],
            ),
    ensures
        (forall|k: int|
            0 <= k < all_steps(segments).len() ==> step_holds(
                segments,
                #[trigger] all_steps(segments)[k],
                rows,
            )) <==> is_chain(rows) && (forall|i: int|
            0 <= i < segments.len() && i != best_level(specifities(segments)) ==> occurs_nocase(
                segments[i],
                (#[trigger] rows[i]).name,
            )),
{
    let scores = specifities(segments);
    let best = best_level(scores);
    let taken = all_steps(segments);
    law_best_level(scores);
    lemma_steps_reach(scores, best, best);
    assert forall|i: int| 0 <= i < segments.len() && i != best implies (segments[i].len() == 0
        || matches_pattern(fold_text(pattern(segments[i])), fold_text(rows[i].name)))
        == occurs_nocase(segments[i], (#[trigger] rows[i]).name) by {
        lemma_contains_condition(segments[i], rows[i].name);
        if segments[i].len() == 0 {
            let folded = fold_text(rows[i].name);
            assert(folded.skip(0).take(0) =~= fold_text(segments[i]));
            assert(starts_with(folded.skip(0), fold_text(segments[i])));
        }
    }
    if (forall|k: int| 0 <= k < taken.len() ==> step_holds(segments, #[trigger] taken[k], rows)) {
        assert forall|i: int| 0 <= i < segments.len() && i != best implies step_holds(
            segments,
            #[trigger] step_to(segments, i),
            rows,
        ) by {
            let step = step_to(segments, i);
            assert(taken.contains(step));
            let k = choose|k: int| 0 <= k < taken.len() && taken[k] == step;
            assert(step_holds(segments, taken[k], rows));
        }
        assert forall|i: int| 0 < i < rows.len() implies (#[trigger] rows[i]).parent_id == rows[i
            - 1].id by {
            if i > best {
                assert(step_holds(segments, step_to(segments, i), rows));
            } else {
                assert(step_holds(segments, step_to(segments, i - 1), rows));
            }
        }
        assert forall|i: int| 0 <= i < segments.len() && i != best implies occurs_nocase(
            segments[i],
            (#[trigger] rows[i]).name,
        ) by {
            assert(step_holds(segments, step_to(segments, i), rows));
        }
    }
    if is_chain(rows) && (forall|i: int|
        0 <= i < segments.len() && i != best ==> occurs_nocase(
            segments[i],
            (#[trigger] rows[i]).name,
        )) {
        assert forall|k: int| 0 <= k < taken.len() implies step_holds(
            segments,
            #[trigger] taken[k],
            rows,
        ) by {
            let i = taken[k].index;
            assert(occurs_nocase(segments[i], rows[i].name));
            if taken[k].below {
                assert(rows[i].parent_id == rows[i - 1].id);
            } else {
                assert(rows[i + 1].parent_id == rows[i].id);
            }
        }
    }
}

/// Some suffix of the name at the best level is in the range of the segment exactly if
/// the segment finds the name.
proof fn lemma_best_holds(segments: Seq<Seq<char>>, rows: Seq<Entry>)
    requires
        segments.len() > 0,
        rows.len() == segments.len(),
    ensures
        ({
            let best = best_level(specifities(segments));
            let name = rows[best].name;
            (exists|k: int|
                0 <= k < suffixes(name).len() && holds(
                    Condition::Prefix,
                    segments,
                    #[trigger] suffixes(name)[k],
                    rows[best].id,
                    rows,
                )) <==> findable(segments[best], name)
        }),
{
    let best = best_level(specifities(segments));
    let name = rows[best].name;
    let segment = segments[best];
    let folded = fold_text(name);
    assert forall|k: int| 0 <= k < suffixes(name).len() implies holds(
        Condition::Prefix,
        segments,
        #[trigger] suffixes(name)[k],
        rows[best].id,
        rows,
    ) == in_range(folded.skip(k), fold_text(segment)) by {
        lemma_prefix_condition(segment, name.skip(k));
        lemma_fold_skip(name, k);
    }
    if findable(segment, name) {
        let k = choose|k: int|
            0 <= k < name.len() && in_range(#[trigger] folded.skip(k), fold_text(segment));
        assert(holds(Condition::Prefix, segments, suffixes(name)[k], rows[best].id, rows));
    }
    if (exists|k: int|
        0 <= k < suffixes(name).len() && holds(
            Condition::Prefix,
            segments,
            #[trigger] suffixes(name)[k],
            rows[best].id,
            rows,
        )) {
        let k = choose|k: int|
            0 <= k < suffixes(name).len() && holds(
                Condition::Prefix,
                segments,
                #[trigger] suffixes(name)[k],
                rows[best].id,
                rows,
            );
        assert(starts_with(folded.skip(k), fold_text(segment)));
    }
}

/// A text has as many suffixes as characters, and no two of them are the same, with or
/// without regard to case. So the suffixes of one name never clash in the table of
/// suffixes.
pub proof fn law_suffixes_distinct(text: Seq<char>, i: int, j: int)
    requires
        0 <= i < j < text.len(),
    ensures
        suffixes(text).len() == text.len(),
        fold_text(suffixes(text)[i]) != fold_text(suffixes(text)[j]),
        suffixes(text)[i] != suffixes(text)[j],
{
    assert(fold_text(suffixes(text)[i]).len() == text.len() - i);
    assert(fold_text(suffixes(text)[j]).len() == text.len() - j);
}

/// A segment counts for as many bytes as it takes.
pub proof fn law_specifity(segment: Seq<char>)
    requires
        encode_utf8(segment).len() <= i64::MAX,
        encode_utf8(segment).len() <= usize::MAX,
    ensures
        specifity(segment) == encode_utf8(segment).len(),
{
}

/// The levels that are joined after some steps: from the first to the second.
pub open spec fn reached(l: int, r: int, taken: Seq<Step>) -> (int, int)
    decreases taken.len(),
{
    if taken.len() == 0 {
        (l, r)
    } else {
        let (l, r) = reached(l, r, taken.drop_last());
        if taken.last().below {
            (l, r + 1)
        } else {
            (l - 1, r)
        }
    }
}

/// Each step joins a neighbour of the levels that are joined before it, of two neighbours
/// that with the greater score, and of equal ones that above.
pub proof fn law_greater_neighbour_first(scores: Seq<i64>, l: int, r: int, k: int)
    requires
        0 <= l <= r < scores.len(),
        0 <= k < steps(scores, l, r).len(),
    ensures
        ({
            let step = steps(scores, l, r)[k];
            let (first, last) = reached(l, r, steps(scores, l, r).take(k));
            if step.below {
                &&& step.index == last + 1 < scores.len()
                &&& first > 0 ==> scores[first - 1] < scores[last + 1]
            } else {
                &&& 0 <= step.index == first - 1
                &&& last + 1 < scores.len() ==> scores[first - 1] >= scores[last + 1]
            }
        }),
    decreases k,
{
    let all = steps(scores, l, r);
    if k == 0 {
        assert(all.take(0) =~= Seq::<Step>::empty());
    } else {
        let (l2, r2) = if all[0].below {
            (l, r + 1)
        } else {
            (l - 1, r)
        };
        let rest = steps(scores, l2, r2);
        assert(all[k] == rest[k - 1]);
        law_greater_neighbour_first(scores, l2, r2, k - 1);
        lemma_reached(l, r, all[0], rest.take(k - 1));
        assert(all.take(k) =~= seq![all[0]] + rest.take(k - 1));
    }
}

/// The levels that are joined after one step and some others.
proof fn lemma_reached(l: int, r: int, step: Step, taken: Seq<Step>)
    ensures
        reached(l, r, seq![step] + taken) == (if step.below {
            reached(l, r + 1, taken)
        } else {
            reached(l - 1, r, taken)
        }),
    decreases taken.len(),
{
    let all = seq![step] + taken;
    if taken.len() == 0 {
        reveal_with_fuel(reached, 2);
        assert(all =~= seq![step]);
        assert(seq![step].drop_last() =~= Seq::<Step>::empty());
    } else {
        assert(all.drop_last() =~= seq![step] + taken.drop_last());
        lemma_reached(l, r, step, taken.drop_last());
    }
}

} // verus!
