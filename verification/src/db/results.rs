//! The files that a path query finds in the database.

use vstd::prelude::*;
use vstd::utf8::{decode_utf8, encode_utf8, valid_utf8};

use crate::db::collation::{fold_text, is_plain, occurs_nocase, starts_with, LAST_CHAR};
use crate::db::meaning::{
    all_hold, findable, is_chain, law_best_level, law_findable, law_query_selects, lemma_owner,
    names_contain, selected, Entry,
};
use crate::db::query::{best_level, conditions, specifities, specifity};
use crate::db::suffix_index::{generated, index, SuffixRow};
use crate::db::table::Table;
use crate::gen_suffixes_vtab::{suffixes, text_of};

verus! {

/// A row of the table, as a query sees it.
pub open spec fn entry_of(t: Table, id: i64) -> Entry {
    Entry { id, parent_id: t[id].parent, name: text_of(t[id].name) }
}

/// The rows of the table, as a query sees them.
pub open spec fn entries_of(t: Table, ids: Seq<i64>) -> Seq<Entry> {
    ids.map_values(|id: i64| entry_of(t, id))
}

/// A query finds these rows, one for each segment: the conditions hold of them and of some
/// row of the table of suffixes.
pub open spec fn finds_rows(
    t: Table,
    s: Set<SuffixRow>,
    segments: Seq<Seq<char>>,
    ids: Seq<i64>,
) -> bool {
    &&& ids.len() == segments.len()
    &&& forall|i: int| 0 <= i < ids.len() ==> t.contains_key(#[trigger] ids[i])
    &&& exists|row: SuffixRow| #[trigger]
        s.contains(row) && all_hold(
            conditions(segments),
            segments,
            row.suffix,
            row.id,
            entries_of(t, ids),
        )
}

/// The rows are a chain of files, each in the directory before it, one for each segment,
/// and the name of each contains the segment without regard to case.
pub open spec fn is_match(t: Table, segments: Seq<Seq<char>>, ids: Seq<i64>) -> bool {
    &&& ids.len() == segments.len()
    &&& forall|i: int| 0 <= i < ids.len() ==> t.contains_key(#[trigger] ids[i])
    &&& forall|i: int| 0 < i < ids.len() ==> t[#[trigger] ids[i]].parent == ids[i - 1]
    &&& forall|i: int|
        0 <= i < ids.len() ==> occurs_nocase(
            segments[i],
            decode_utf8(t[#[trigger] ids[i]].name),
        )
}

/// A text is empty exactly if it takes no bytes.
proof fn lemma_specifity(segment: Seq<char>)
    requires
        encode_utf8(segment).len() <= isize::MAX,
    ensures
        specifity(segment) >= 0,
        specifity(segment) == 0 <==> segment.len() == 0,
{
    assert(encode_utf8(segment).len() <= usize::MAX);
    assert(specifity(segment) == encode_utf8(segment).len());
}

/// A text holds no zero character, at which the database would take it to end.
pub open spec fn is_whole(s: Seq<char>) -> bool {
    !s.contains('\0')
}

/// What the laws on queries ask of the segments: no segment holds a zero character, and
/// only the one that is looked up among the suffixes may hold wildcards. Every text in
/// memory is short enough.
pub open spec fn is_query(segments: Seq<Seq<char>>) -> bool {
    &&& segments.len() > 0
    &&& forall|i: int|
        0 <= i < segments.len() ==> is_whole(#[trigger] segments[i]) && encode_utf8(
            segments[i],
        ).len() <= isize::MAX
    &&& forall|i: int|
        0 <= i < segments.len() && i != best_level(specifities(segments)) ==> is_plain(
            #[trigger] segments[i],
        )
}

/// What the laws on queries ask of a name: it is text, and holds no zero character.
pub open spec fn is_searchable(name: Seq<u8>) -> bool {
    valid_utf8(name) && is_whole(decode_utf8(name))
}

/// The name of the file at the level that is looked up among the suffixes.
pub open spec fn best_name(t: Table, segments: Seq<Seq<char>>, ids: Seq<i64>) -> Seq<char> {
    decode_utf8(t[ids[best_level(specifities(segments))]].name)
}

/// The rows are a match, and the segment that is looked up among the suffixes is found
/// there.
pub open spec fn is_found(t: Table, segments: Seq<Seq<char>>, ids: Seq<i64>) -> bool {
    &&& is_match(t, segments, ids)
    &&& findable(
        segments[best_level(specifities(segments))],
        best_name(t, segments, ids),
    )
}

/// Some segment is not empty.
pub open spec fn asks_for_text(segments: Seq<Seq<char>>) -> bool {
    exists|i: int| 0 <= i < segments.len() && (#[trigger] segments[i]).len() > 0
}

/// In a database whose table of suffixes is in step, a query finds just the chains of files
/// whose names contain the segments. What it does not find is a name with the greatest
/// character at the level that is looked up among the suffixes, and, where all segments are
/// empty, a file without a name there, as the root directory is.
pub proof fn law_query_finds(t: Table, segments: Seq<Seq<char>>, ids: Seq<i64>)
    requires
        is_query(segments),
        forall|i: int| 0 <= i < ids.len() ==> is_searchable(t[#[trigger] ids[i]].name),
    ensures
        finds_rows(t, index(t), segments, ids) <==> is_found(t, segments, ids),
        !best_name(t, segments, ids).contains(LAST_CHAR) && (asks_for_text(segments) || best_name(
            t,
            segments,
            ids,
        ).len() > 0) ==> (is_found(t, segments, ids) <==> is_match(t, segments, ids)),
{
    let scores = specifities(segments);
    let best = best_level(scores);
    let rows = entries_of(t, ids);
    law_best_level(scores);
    law_findable(segments[best], best_name(t, segments, ids));
    if asks_for_text(segments) {
        let some = choose|i: int| 0 <= i < segments.len() && (#[trigger] segments[i]).len() > 0;
        lemma_specifity(segments[some]);
        lemma_specifity(segments[best]);
        assert(scores[some] <= scores[best]);
        assert(segments[best].len() > 0);
        if is_match(t, segments, ids) {
            assert(t.contains_key(ids[best]));
            lemma_occurs_nonempty(segments[best], best_name(t, segments, ids));
        }
    }
    if ids.len() == segments.len() && (forall|i: int|
        0 <= i < ids.len() ==> t.contains_key(#[trigger] ids[i])) {
        let name = rows[best].name;
        let owner = ids[best];
        assert(t.contains_key(owner));
        if finds_rows(t, index(t), segments, ids) {
            let row = choose|row: SuffixRow| #[trigger]
                index(t).contains(row) && all_hold(
                    conditions(segments),
                    segments,
                    row.suffix,
                    row.id,
                    rows,
                );
            lemma_owner(segments, row.suffix, row.id, rows);
            assert(row.id == owner);
            assert(generated(t[owner].name).contains(row.suffix));
            let k = choose|k: int| 0 <= k < suffixes(name).len() && suffixes(name)[k] == row.suffix;
            assert(all_hold(conditions(segments), segments, suffixes(name)[k], owner, rows));
            assert(selected(segments, rows));
        }
        law_query_selects(segments, rows);
        if selected(segments, rows) {
            let k = choose|k: int|
                0 <= k < suffixes(rows[best].name).len() && all_hold(
                    conditions(segments),
                    segments,
                    #[trigger] suffixes(rows[best].name)[k],
                    rows[best].id,
                    rows,
                );
            let row = SuffixRow { suffix: suffixes(name)[k], id: owner };
            assert(generated(t[owner].name).contains(row.suffix));
            assert(index(t).contains(row));
        }
        lemma_same_match(t, segments, ids);
    }
}

/// A text that contains one that is not empty is not empty.
proof fn lemma_occurs_nonempty(part: Seq<char>, s: Seq<char>)
    requires
        occurs_nocase(part, s),
        part.len() > 0,
    ensures
        s.len() > 0,
{
    let folded = fold_text(s);
    let k = choose|k: int|
        0 <= k <= folded.len() && starts_with(#[trigger] folded.skip(k), fold_text(part));
    assert(folded.skip(k).len() >= part.len());
}

proof fn lemma_same_match(t: Table, segments: Seq<Seq<char>>, ids: Seq<i64>)
    requires
        ids.len() == segments.len(),
        forall|i: int| 0 <= i < ids.len() ==> t.contains_key(#[trigger] ids[i]),
        forall|i: int| 0 <= i < ids.len() ==> valid_utf8(t[#[trigger] ids[i]].name),
    ensures
        is_chain(entries_of(t, ids)) && names_contain(segments, entries_of(t, ids)) <==> is_match(
            t,
            segments,
            ids,
        ),
{
    let rows = entries_of(t, ids);
    assert forall|i: int| 0 <= i < ids.len() implies #[trigger] rows[i] == entry_of(t, ids[i]) by {}
    if is_chain(rows) && names_contain(segments, rows) {
        assert forall|i: int| 0 < i < ids.len() implies t[#[trigger] ids[i]].parent == ids[i - 1] by {
            assert(rows[i].parent_id == rows[i - 1].id);
        }
        assert forall|i: int| 0 <= i < ids.len() implies occurs_nocase(
            segments[i],
            decode_utf8(t[#[trigger] ids[i]].name),
        ) by {
            assert(occurs_nocase(segments[i], rows[i].name));
        }
    }
    if is_match(t, segments, ids) {
        assert forall|i: int| 0 < i < rows.len() implies (#[trigger] rows[i]).parent_id == rows[i
            - 1].id by {
            assert(t[ids[i]].parent == ids[i - 1]);
        }
        assert forall|i: int| 0 <= i < segments.len() implies occurs_nocase(
            segments[i],
            (#[trigger] rows[i]).name,
        ) by {
            assert(occurs_nocase(segments[i], decode_utf8(t[ids[i]].name)));
        }
    }
}

} // verus!
