//! How the database compares text: order without regard to case, and patterns.

use vstd::prelude::*;
use vstd::utf8::{char_is_scalar, char_u32_cast};

verus! {

/// The greatest character.
pub const LAST_CHAR: char = '\u{10FFFF}';

/// A character without regard to case: only the letters of ASCII have one.
pub open spec fn fold(c: char) -> char {
    if 'A' <= c <= 'Z' {
        ((c as u32) + 32) as char
    } else {
        c
    }
}

/// A text without regard to case.
pub open spec fn fold_text(s: Seq<char>) -> Seq<char> {
    s.map_values(|c: char| fold(c))
}

/// Whether `a` comes before `b` in the order of their characters.
pub open spec fn precedes(a: Seq<char>, b: Seq<char>) -> bool
    decreases b.len(),
{
    if b.len() == 0 {
        false
    } else if a.len() == 0 {
        true
    } else if a[0] == b[0] {
        precedes(a.skip(1), b.skip(1))
    } else {
        (a[0] as u32) < (b[0] as u32)
    }
}

/// Whether `a` comes before `b` without regard to case.
pub open spec fn precedes_nocase(a: Seq<char>, b: Seq<char>) -> bool {
    precedes(fold_text(a), fold_text(b))
}

/// Whether `s` starts with `prefix`.
pub open spec fn starts_with(s: Seq<char>, prefix: Seq<char>) -> bool {
    prefix.len() <= s.len() && s.take(prefix.len() as int) == prefix
}

/// Whether `part` occurs in `s`.
pub open spec fn occurs(part: Seq<char>, s: Seq<char>) -> bool {
    exists|k: int| 0 <= k <= s.len() && starts_with(#[trigger] s.skip(k), part)
}

/// Whether `part` occurs in `s` without regard to case.
pub open spec fn occurs_nocase(part: Seq<char>, s: Seq<char>) -> bool {
    occurs(fold_text(part), fold_text(s))
}

/// Whether a text matches a pattern, in which `%` stands for any text, `_` for any
/// character, and every other character for itself.
pub open spec fn matches_pattern(pattern: Seq<char>, s: Seq<char>) -> bool
    decreases pattern.len(),
{
    if pattern.len() == 0 {
        s.len() == 0
    } else if pattern[0] == '%' {
        exists|k: int| 0 <= k <= s.len() && matches_pattern(pattern.skip(1), #[trigger] s.skip(k))
    } else if pattern[0] == '_' {
        s.len() > 0 && matches_pattern(pattern.skip(1), s.skip(1))
    } else {
        s.len() > 0 && s[0] == pattern[0] && matches_pattern(pattern.skip(1), s.skip(1))
    }
}

/// Whether a text holds no character that a pattern takes for something else.
pub open spec fn is_plain(s: Seq<char>) -> bool {
    forall|i: int| 0 <= i < s.len() ==> #[trigger] s[i] != '%' && s[i] != '_'
}

/// Folding goes through each character on its own.
pub proof fn lemma_fold_concat(a: Seq<char>, b: Seq<char>)
    ensures
        fold_text(a + b) == fold_text(a) + fold_text(b),
{
    assert(fold_text(a + b) =~= fold_text(a) + fold_text(b));
}

/// Folding what is left of a text is what is left of the folded text.
pub proof fn lemma_fold_skip(s: Seq<char>, k: int)
    requires
        0 <= k <= s.len(),
    ensures
        fold_text(s.skip(k)) == fold_text(s).skip(k),
{
    assert(fold_text(s.skip(k)) =~= fold_text(s).skip(k));
}

/// Different characters have different numbers.
proof fn lemma_distinct_chars(a: char, b: char)
    ensures
        a != b ==> a as u32 != b as u32,
{
    char_u32_cast(a, a as u32);
    char_u32_cast(b, b as u32);
}

/// Whether `s` starts with `prefix`, and the greatest character does not come next.
pub open spec fn in_range(s: Seq<char>, prefix: Seq<char>) -> bool {
    starts_with(s, prefix) && (prefix.len() < s.len() ==> s[prefix.len() as int] != LAST_CHAR)
}

/// The texts from `prefix` up to `prefix` with the greatest character after it are
/// those that start with `prefix`, but for those in which the greatest character comes
/// next.
pub proof fn law_prefix_range(prefix: Seq<char>, s: Seq<char>)
    ensures
        !precedes(s, prefix) && precedes(s, prefix.push(LAST_CHAR)) <==> in_range(s, prefix),
    decreases prefix.len(),
{
    let bound = prefix.push(LAST_CHAR);
    if prefix.len() == 0 {
        assert(s.take(0) =~= prefix);
        assert(!precedes(s, prefix));
        if s.len() > 0 {
            assert(bound[0] == LAST_CHAR);
            assert(bound.skip(1) =~= Seq::<char>::empty());
            assert(!precedes(s.skip(1), bound.skip(1)));
            char_is_scalar(s[0]);
            lemma_distinct_chars(s[0], LAST_CHAR);
            assert(s[0] as u32 <= LAST_CHAR as u32);
        }
    } else if s.len() == 0 {
        assert(precedes(s, prefix));
    } else {
        assert(bound.skip(1) =~= prefix.skip(1).push(LAST_CHAR));
        assert(bound[0] == prefix[0]);
        if s[0] == prefix[0] {
            law_prefix_range(prefix.skip(1), s.skip(1));
            if starts_with(s, prefix) {
                assert(s.skip(1).take(prefix.len() - 1) =~= s.take(prefix.len() as int).skip(1));
                assert(starts_with(s.skip(1), prefix.skip(1)));
            }
            if starts_with(s.skip(1), prefix.skip(1)) {
                assert(s.take(prefix.len() as int) =~= seq![s[0]] + s.skip(1).take(
                    prefix.len() - 1,
                ));
                assert(prefix =~= seq![prefix[0]] + prefix.skip(1));
            }
        } else {
            lemma_distinct_chars(s[0], prefix[0]);
            if starts_with(s, prefix) {
                assert(s.take(prefix.len() as int)[0] == s[0]);
            }
        }
    }
}

/// A plain text followed by `%` matches the texts that start with it.
proof fn lemma_plain_then_any(part: Seq<char>, s: Seq<char>)
    requires
        is_plain(part),
    ensures
        matches_pattern(part.push('%'), s) <==> starts_with(s, part),
    decreases part.len(),
{
    let pattern = part.push('%');
    if part.len() == 0 {
        assert(s.take(0) =~= part);
        assert(pattern.skip(1) =~= Seq::<char>::empty());
        assert(matches_pattern(pattern.skip(1), s.skip(s.len() as int)));
    } else {
        assert(pattern.skip(1) =~= part.skip(1).push('%'));
        assert(pattern[0] == part[0]);
        assert(is_plain(part.skip(1)));
        if s.len() > 0 {
            lemma_plain_then_any(part.skip(1), s.skip(1));
            if starts_with(s, part) {
                assert(s.take(part.len() as int)[0] == s[0]);
                assert(s.skip(1).take(part.len() - 1) =~= s.take(part.len() as int).skip(1));
            }
            if s[0] == part[0] && starts_with(s.skip(1), part.skip(1)) {
                assert(s.take(part.len() as int) =~= seq![s[0]] + s.skip(1).take(part.len() - 1));
                assert(part =~= seq![part[0]] + part.skip(1));
            }
        }
    }
}

/// A plain text between two `%` matches the texts that it occurs in.
pub proof fn law_pattern_occurs(part: Seq<char>, s: Seq<char>)
    requires
        is_plain(part),
    ensures
        matches_pattern(seq!['%'] + part + seq!['%'], s) <==> occurs(part, s),
{
    let pattern = seq!['%'] + part + seq!['%'];
    assert(pattern[0] == '%');
    assert(pattern.skip(1) =~= part.push('%'));
    assert forall|k: int| 0 <= k <= s.len() implies matches_pattern(
        pattern.skip(1),
        #[trigger] s.skip(k),
    ) == starts_with(s.skip(k), part) by {
        lemma_plain_then_any(part, s.skip(k));
    }
    if matches_pattern(pattern, s) {
        let k = choose|k: int|
            0 <= k <= s.len() && matches_pattern(pattern.skip(1), #[trigger] s.skip(k));
        assert(starts_with(s.skip(k), part));
    }
    if occurs(part, s) {
        let k = choose|k: int| 0 <= k <= s.len() && starts_with(#[trigger] s.skip(k), part);
        assert(matches_pattern(pattern.skip(1), s.skip(k)));
    }
}

/// Two characters are the same without regard to case just if they are the same, or the
/// great and the small form of one of the 26 letters of ASCII.
pub proof fn law_case(a: char, b: char)
    ensures
        fold(a) == fold(b) <==> {
            ||| a == b
            ||| (0x41 <= a as u32 <= 0x5a && b as u32 == a as u32 + 0x20)
            ||| (0x41 <= b as u32 <= 0x5a && a as u32 == b as u32 + 0x20)
        },
{
    if 'A' <= a <= 'Z' {
        assert(fold(a) as u32 == a as u32 + 32);
    }
    if 'A' <= b <= 'Z' {
        assert(fold(b) as u32 == b as u32 + 32);
    }
}

} // verus!
