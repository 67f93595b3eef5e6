//! Building text out of parts.

use vstd::prelude::*;
use vstd::string::*;
use vstd::utf8::{decode_utf8, valid_utf8};

verus! {

/// What `String::from_utf8_lossy` makes of a byte sequence.
pub uninterp spec fn utf8_lossy(bytes: Seq<u8>) -> Seq<char>;

/// Calls `String::from_utf8_lossy`. The result depends on the bytes alone; bytes
/// that are valid UTF-8 are decoded as they are. How invalid bytes are replaced is
/// not stated.
#[verifier::external_body]
pub(crate) fn decode_lossy(bytes: &[u8]) -> (r: String)
    ensures
        r@ == utf8_lossy(bytes@),
        valid_utf8(bytes@) ==> r@ == decode_utf8(bytes@),
{
    String::from_utf8_lossy(bytes).into_owned()
}

/// Calls `std::str::from_utf8`. It succeeds exactly on bytes that are valid UTF-8, and
/// decodes them.
#[verifier::external_body]
pub(crate) fn decode(bytes: &[u8]) -> (r: Option<String>)
    ensures
        match r {
            Some(text) => valid_utf8(bytes@) && text@ == decode_utf8(bytes@),
            None => !valid_utf8(bytes@),
        },
{
    match std::str::from_utf8(bytes) {
        Ok(text) => Some(text.to_string()),
        Err(_) => None,
    }
}

/// The decimal digit with the value `d`.
pub open spec fn digit(d: nat) -> char {
    if d == 0 {
        '0'
    } else if d == 1 {
        '1'
    } else if d == 2 {
        '2'
    } else if d == 3 {
        '3'
    } else if d == 4 {
        '4'
    } else if d == 5 {
        '5'
    } else if d == 6 {
        '6'
    } else if d == 7 {
        '7'
    } else if d == 8 {
        '8'
    } else {
        '9'
    }
}

/// A number in decimal notation, without leading zeros.
pub open spec fn decimal(n: nat) -> Seq<char>
    decreases n,
{
    if n < 10 {
        seq![digit(n)]
    } else {
        decimal(n / 10).push(digit(n % 10))
    }
}

/// The texts of a list.
pub open spec fn texts(list: Seq<String>) -> Seq<Seq<char>> {
    list.map_values(|s: String| s@)
}

/// The texts of a list of slices.
pub open spec fn slices(list: Seq<&str>) -> Seq<Seq<char>> {
    list.map_values(|s: &str| s@)
}

/// The parts one after the other, with `separator` between each two.
pub open spec fn joined(parts: Seq<Seq<char>>, separator: Seq<char>) -> Seq<char>
    decreases parts.len(),
{
    if parts.len() == 0 {
        Seq::empty()
    } else if parts.len() == 1 {
        parts[0]
    } else {
        joined(parts.drop_last(), separator) + separator + parts.last()
    }
}

/// The text of a one-digit number.
fn digit_text(d: usize) -> (r: &'static str)
    requires
        d < 10,
    ensures
        r@ == seq![digit(d as nat)],
{
    proof {
        reveal_strlit("0");
        reveal_strlit("1");
        reveal_strlit("2");
        reveal_strlit("3");
        reveal_strlit("4");
        reveal_strlit("5");
        reveal_strlit("6");
        reveal_strlit("7");
        reveal_strlit("8");
        reveal_strlit("9");
    }
    let r = match d {
        0 => "0",
        1 => "1",
        2 => "2",
        3 => "3",
        4 => "4",
        5 => "5",
        6 => "6",
        7 => "7",
        8 => "8",
        _ => "9",
    };
    assert(r@ =~= seq![digit(d as nat)]);
    r
}

/// Adds a number to the end of a text.
pub fn push_number(out: &mut String, n: usize)
    ensures
        final(out)@ == old(out)@ + decimal(n as nat),
    decreases n,
{
    if n >= 10 {
        push_number(out, n / 10);
        let ghost before = out@;
        out.append(digit_text(n % 10));
        assert(out@ =~= before.push(digit((n % 10) as nat)));
        assert(out@ =~= old(out)@ + decimal(n as nat));
    } else {
        out.append(digit_text(n));
    }
}

/// The parts one after the other, with `separator` between each two.
pub fn join(parts: &Vec<String>, separator: &str) -> (r: String)
    ensures
        r@ == joined(texts(parts@), separator@),
{
    let mut out = String::new();
    let mut i: usize = 0;
    assert(texts(parts@).take(0) =~= Seq::<Seq<char>>::empty());
    while i < parts.len()
        invariant
            i <= parts@.len(),
            out@ == joined(texts(parts@).take(i as int), separator@),
        decreases parts@.len() - i,
    {
        let ghost upto = texts(parts@).take(i + 1);
        assert(upto.drop_last() =~= texts(parts@).take(i as int));
        assert(upto.last() == parts@[i as int]@);
        if i > 0 {
            out.append(separator);
        }
        out.append(parts[i].as_str());
        proof {
            if i == 0 {
                assert(out@ =~= upto[0]);
            }
        }
        i += 1;
    }
    assert(texts(parts@).take(i as int) =~= texts(parts@));
    out
}

/// A part between two others.
pub fn between(before: &str, part: &str, after: &str) -> (r: String)
    ensures
        r@ == before@ + part@ + after@,
{
    let mut out = String::new();
    out.append(before);
    out.append(part);
    out.append(after);
    assert(out@ =~= before@ + part@ + after@);
    out
}

/// The place of the first `c` at or after `from`, or the end of the text.
pub open spec fn index_of(text: Seq<char>, c: char, from: int) -> int
    decreases text.len() - from,
{
    if from >= text.len() || text[from] == c {
        from
    } else {
        index_of(text, c, from + 1)
    }
}

/// Finds the place of the first `c` at or after `from`.
pub fn find_char(text: &str, c: char, from: usize) -> (r: usize)
    requires
        from <= text@.len(),
    ensures
        r == index_of(text@, c, from as int),
        from <= r <= text@.len(),
        r < text@.len() ==> text@[r as int] == c,
{
    let len: usize = text.unicode_len();
    let mut i: usize = from;
    while i < len
        invariant
            len == text@.len(),
            from <= i <= len,
            index_of(text@, c, from as int) == index_of(text@, c, i as int),
        decreases len - i,
    {
        if text.get_char(i) == c {
            return i;
        }
        i += 1;
    }
    i
}

/// The first `c` is at or after the place where the search begins, and no later than the
/// end of the text.
pub proof fn lemma_index_of(text: Seq<char>, c: char, from: int)
    requires
        from <= text.len(),
    ensures
        from <= index_of(text, c, from) <= text.len(),
        index_of(text, c, from) < text.len() ==> text[index_of(text, c, from)] == c,
        forall|i: int| from <= i < index_of(text, c, from) && 0 <= i ==> text[i] != c,
    decreases text.len() - from,
{
    if !(from >= text.len() || text[from] == c) {
        lemma_index_of(text, c, from + 1);
    }
}

/// The parts of the text between the places where `c` is.
pub open spec fn split(text: Seq<char>, c: char) -> Seq<Seq<char>>
    decreases text.len(),
{
    let i = index_of(text, c, 0);
    if 0 <= i < text.len() {
        seq![text.take(i)] + split(text.skip(i + 1), c)
    } else {
        seq![text]
    }
}

/// Splits a text at every `c`.
pub fn split_at<'a>(text: &'a str, c: char) -> (r: Vec<&'a str>)
    ensures
        slices(r@) == split(text@, c),
{
    let len: usize = text.unicode_len();
    let mut parts: Vec<&'a str> = Vec::new();
    let mut start: usize = 0;
    assert(text@.skip(0) =~= text@);
    assert(slices(parts@) + split(text@, c) =~= split(text@, c));
    loop
        invariant
            len == text@.len(),
            start <= len,
            slices(parts@) + split(text@.skip(start as int), c) == split(text@, c),
        decreases len - start,
    {
        let end: usize = find_char(text, c, start);
        let ghost rest = text@.skip(start as int);
        let ghost before = slices(parts@);
        proof {
            lemma_index_of_skip(text@, c, start as int, start as int);
        }
        let part = text.substring_char(start, end);
        assert(part@ =~= rest.take(end - start));
        parts.push(part);
        assert(slices(parts@) =~= before.push(part@));
        if end == len {
            assert(part@ =~= rest);
            assert(slices(parts@) =~= before + seq![rest]);
            return parts;
        }
        assert(rest.skip(end - start + 1) =~= text@.skip(end + 1));
        assert(before.push(part@) + split(text@.skip(end + 1), c) =~= before + (seq![part@]
            + split(text@.skip(end + 1), c)));
        start = end + 1;
    }
}

/// The place of the first `c` in a text without its first characters.
proof fn lemma_index_of_skip(text: Seq<char>, c: char, n: int, from: int)
    requires
        0 <= n <= from <= text.len(),
    ensures
        index_of(text.skip(n), c, from - n) == index_of(text, c, from) - n,
    decreases text.len() - from,
{
    if !(from >= text.len() || text[from] == c) {
        lemma_index_of_skip(text, c, n, from + 1);
    }
}

/// The parts of a split text, joined again, are the text.
pub proof fn law_split_joined(text: Seq<char>, c: char)
    ensures
        split(text, c).len() > 0,
        joined(split(text, c), seq![c]) == text,
    decreases text.len(),
{
    let i = index_of(text, c, 0);
    lemma_index_of(text, c, 0);
    if i < text.len() {
        let rest = text.skip(i + 1);
        law_split_joined(rest, c);
        lemma_joined_front(text.take(i), split(rest, c), seq![c]);
        assert(text.take(i) + seq![c] + rest =~= text);
    }
}

/// Joining parts, the first one set apart.
pub proof fn lemma_joined_front(first: Seq<char>, rest: Seq<Seq<char>>, separator: Seq<char>)
    requires
        rest.len() > 0,
    ensures
        joined(seq![first] + rest, separator) == first + separator + joined(rest, separator),
    decreases rest.len(),
{
    let all = seq![first] + rest;
    assert(all.last() == rest.last());
    assert(all.drop_last() =~= seq![first] + rest.drop_last());
    if rest.len() == 1 {
        assert(all.drop_last() =~= seq![first]);
        assert(joined(seq![first], separator) == first);
        assert(joined(all, separator) =~= first + separator + rest[0]);
    } else {
        lemma_joined_front(first, rest.drop_last(), separator);
        assert(joined(all, separator) =~= first + separator + (joined(
            rest.drop_last(),
            separator,
        ) + separator + rest.last()));
    }
}

/// The text without all `c` at its end.
pub open spec fn trimmed(text: Seq<char>, c: char) -> Seq<char>
    decreases text.len(),
{
    if text.len() > 0 && text.last() == c {
        trimmed(text.drop_last(), c)
    } else {
        text
    }
}

/// Takes all `c` off the end of a text.
pub fn trim_end<'a>(text: &'a str, c: char) -> (r: &'a str)
    ensures
        r@ == trimmed(text@, c),
{
    let mut end: usize = text.unicode_len();
    assert(text@.take(end as int) =~= text@);
    while end > 0 && text.get_char(end - 1) == c
        invariant
            end <= text@.len(),
            trimmed(text@, c) == trimmed(text@.take(end as int), c),
        decreases end,
    {
        assert(text@.take(end as int).drop_last() =~= text@.take(end - 1));
        end -= 1;
    }
    let r = text.substring_char(0, end);
    assert(r@ =~= text@.take(end as int));
    r
}

/// The text is made of decimal digits.
pub open spec fn all_digits(text: Seq<char>) -> bool {
    forall|i: int| 0 <= i < text.len() ==> 48 <= #[trigger] text[i] as u32 <= 57
}

/// The number that the digits write in decimal notation.
pub open spec fn value_of(digits: Seq<char>) -> nat
    decreases digits.len(),
{
    if digits.len() == 0 {
        0
    } else {
        (10 * value_of(digits.drop_last()) + (digits.last() as u32 - 48)) as nat
    }
}

/// The number that a text writes: at least one digit, with or without a plus sign before
/// them; `None` if it is anything else, or the number is too large.
pub open spec fn number_of(text: Seq<char>) -> Option<usize> {
    let digits = if text.len() > 0 && text[0] == '+' {
        text.skip(1)
    } else {
        text
    };
    if digits.len() == 0 || !all_digits(digits) || value_of(digits) > usize::MAX {
        None
    } else {
        Some(value_of(digits) as usize)
    }
}

/// The number that digits write is no less than that of the first ones.
proof fn lemma_value_grows(digits: Seq<char>, n: int)
    requires
        0 <= n <= digits.len(),
        all_digits(digits),
    ensures
        value_of(digits.take(n)) <= value_of(digits),
    decreases digits.len() - n,
{
    if n == digits.len() {
        assert(digits.take(n) =~= digits);
    } else {
        lemma_value_grows(digits, n + 1);
        assert(digits.take(n + 1).drop_last() =~= digits.take(n));
        assert(48 <= digits[n] as u32 <= 57);
    }
}

/// Reads a number.
pub fn parse_number(text: &str) -> (r: Option<usize>)
    ensures
        r == number_of(text@),
{
    let len: usize = text.unicode_len();
    let start: usize = if len > 0 && text.get_char(0) == '+' {
        1
    } else {
        0
    };
    let ghost digits = text@.skip(start as int);
    assert(text@.skip(0) =~= text@);
    if start == len {
        return None;
    }
    let mut value: usize = 0;
    let mut i: usize = start;
    assert(digits.take(0) =~= Seq::<char>::empty());
    while i < len
        invariant
            len == text@.len(),
            start <= i <= len,
            digits == text@.skip(start as int),
            all_digits(digits.take(i - start)),
            value == value_of(digits.take(i - start)),
            number_of(text@) == (if digits.len() == 0 || !all_digits(digits) || value_of(digits)
                > usize::MAX {
                None
            } else {
                Some(value_of(digits) as usize)
            }),
        decreases len - i,
    {
        let c: u32 = text.get_char(i) as u32;
        assert(digits[i - start] == text@[i as int]);
        if c < 48 || c > 57 {
            return None;
        }
        let ghost next = digits.take(i - start + 1);
        assert(next.drop_last() =~= digits.take(i - start));
        assert(next.last() as u32 == c);
        proof {
            if all_digits(digits) {
                lemma_value_grows(digits, i - start + 1);
            }
        }
        value = match value.checked_mul(10) {
            Some(tens) => match tens.checked_add((c - 48) as usize) {
                Some(sum) => sum,
                None => {
                    return None;
                },
            },
            None => {
                return None;
            },
        };
        i += 1;
    }
    assert(digits.take(i - start) =~= digits);
    Some(value)
}

/// The decimal notation of a number writes the number.
pub proof fn law_number_of_decimal(n: nat)
    requires
        n <= usize::MAX,
    ensures
        number_of(decimal(n)) == Some(n as usize),
{
    lemma_decimal(n);
    assert(decimal(n)[0] as u32 != '+' as u32);
}

/// Decimal notation is made of digits, and writes the number.
pub proof fn lemma_decimal(n: nat)
    ensures
        decimal(n).len() > 0,
        all_digits(decimal(n)),
        value_of(decimal(n)) == n,
    decreases n,
{
    reveal_with_fuel(value_of, 2);
    if n < 10 {
        assert(seq![digit(n)].drop_last() =~= Seq::<char>::empty());
    } else {
        lemma_decimal(n / 10);
        let front = decimal(n / 10);
        assert(front.push(digit(n % 10)).drop_last() =~= front);
    }
}

/// A text that ends with `c` has an empty part at its end.
pub proof fn law_split_trailing(text: Seq<char>, c: char)
    ensures
        split(text.push(c), c) == split(text, c).push(Seq::empty()),
    decreases text.len(),
{
    let more = text.push(c);
    let i = index_of(text, c, 0);
    lemma_index_of(text, c, 0);
    lemma_index_of(more, c, 0);
    let j = index_of(more, c, 0);
    if i < text.len() {
        assert(more[i] == text[i]);
        assert(j == i) by {
            if j < i {
                assert(text[j] == more[j]);
            }
        }
        assert(more.take(i) =~= text.take(i));
        assert(more.skip(i + 1) =~= text.skip(i + 1).push(c));
        law_split_trailing(text.skip(i + 1), c);
        assert(split(more, c) =~= split(text, c).push(Seq::empty()));
    } else {
        assert(more[text.len() as int] == c);
        assert(j == text.len()) by {
            if j < text.len() {
                assert(text[j] == more[j]);
            }
        }
        assert(more.take(j) =~= text);
        let rest = more.skip(j + 1);
        assert(rest =~= Seq::<char>::empty());
        assert(split(rest, c) =~= seq![Seq::<char>::empty()]);
        assert(split(more, c) =~= seq![text].push(Seq::empty()));
    }
}

/// The parts of a split text do not hold the separator, and no other parts without it give
/// the text when they are joined.
pub proof fn law_split_parts(text: Seq<char>, c: char, parts: Seq<Seq<char>>)
    ensures
        forall|i: int| 0 <= i < split(text, c).len() ==> !(#[trigger] split(text, c)[i]).contains(c),
        parts.len() > 0 && (forall|i: int|
            0 <= i < parts.len() ==> !(#[trigger] parts[i]).contains(c)) && joined(parts, seq![c])
            == text ==> split(text, c) == parts,
{
    lemma_parts_plain(text, c);
    if parts.len() > 0 && (forall|i: int|
        0 <= i < parts.len() ==> !(#[trigger] parts[i]).contains(c)) && joined(parts, seq![c])
        == text {
        lemma_split_back(parts, c);
    }
}

proof fn lemma_parts_plain(text: Seq<char>, c: char)
    ensures
        forall|i: int| 0 <= i < split(text, c).len() ==> !(#[trigger] split(text, c)[i]).contains(c),
    decreases text.len(),
{
    let i = index_of(text, c, 0);
    lemma_index_of(text, c, 0);
    let parts = split(text, c);
    if i < text.len() {
        let rest = split(text.skip(i + 1), c);
        lemma_parts_plain(text.skip(i + 1), c);
        assert forall|k: int| 0 <= k < parts.len() implies !(#[trigger] parts[k]).contains(c) by {
            if k == 0 {
                if parts[0].contains(c) {
                    let j = choose|j: int| 0 <= j < parts[0].len() && parts[0][j] == c;
                    assert(text[j] == c);
                }
            } else {
                assert(parts[k] == rest[k - 1]);
            }
        }
    } else {
        if text.contains(c) {
            let j = choose|j: int| 0 <= j < text.len() && text[j] == c;
            assert(text[j] != c);
        }
    }
}

proof fn lemma_split_back(parts: Seq<Seq<char>>, c: char)
    requires
        parts.len() > 0,
        forall|i: int| 0 <= i < parts.len() ==> !(#[trigger] parts[i]).contains(c),
    ensures
        split(joined(parts, seq![c]), c) == parts,
    decreases parts.len(),
{
    let text = joined(parts, seq![c]);
    let first = parts[0];
    lemma_index_of(text, c, 0);
    let i = index_of(text, c, 0);
    if parts.len() == 1 {
        assert(i == text.len()) by {
            if i < text.len() {
                assert(first[i] == c);
            }
        }
        assert(split(text, c) =~= parts);
    } else {
        let rest = parts.drop_first();
        assert(parts =~= seq![first] + rest);
        lemma_joined_front(first, rest, seq![c]);
        assert(text == first + seq![c] + joined(rest, seq![c]));
        assert(text[first.len() as int] == c);
        assert(i == first.len()) by {
            if i < first.len() {
                assert(first[i] == text[i]);
                assert(first.contains(c));
            }
        }
        assert(text.take(i) =~= first);
        assert(text.skip(i + 1) =~= joined(rest, seq![c]));
        assert forall|k: int| 0 <= k < rest.len() implies !(#[trigger] rest[k]).contains(c) by {
            assert(rest[k] == parts[k + 1]);
        }
        lemma_split_back(rest, c);
        assert(split(text, c) =~= parts);
    }
}

/// What is taken off the end of a text is all of it that is made of `c`, and nothing else.
pub proof fn law_trimmed(text: Seq<char>, c: char)
    ensures
        ({
            let kept = trimmed(text, c);
            &&& kept.len() <= text.len()
            &&& kept == text.take(kept.len() as int)
            &&& kept.len() > 0 ==> kept.last() != c
            &&& forall|i: int| kept.len() <= i < text.len() ==> #[trigger] text[i] == c
        }),
    decreases text.len(),
{
    if text.len() > 0 && text.last() == c {
        let front = text.drop_last();
        law_trimmed(front, c);
        let kept = trimmed(text, c);
        assert(kept =~= text.take(kept.len() as int));
        assert forall|i: int| kept.len() <= i < text.len() implies #[trigger] text[i] == c by {
            if i < front.len() {
                assert(front[i] == text[i]);
            }
        }
    } else {
        assert(text.take(text.len() as int) =~= text);
    }
}

/// The digit is a number of its own; no other character is.
pub proof fn law_number_of_digit(c: char)
    ensures
        number_of(seq![c]) == (if 48 <= c as u32 <= 57 {
            Some((c as u32 - 48) as usize)
        } else {
            None::<usize>
        }),
{
    reveal_with_fuel(value_of, 2);
    let text = seq![c];
    assert(text.drop_last() =~= Seq::<char>::empty());
    assert(text.skip(1) =~= Seq::<char>::empty());
    if 48 <= c as u32 <= 57 {
        assert(c as u32 != '+' as u32);
        assert(all_digits(text));
    } else if c != '+' {
        assert(!(48 <= text[0] as u32 <= 57));
    }
}

/// Another digit after a number makes it ten times as large and adds the digit, unless it
/// becomes too large. Nothing else makes a number of a text, but for a plus sign before the
/// first digit.
pub proof fn law_number_and_digit(text: Seq<char>, c: char)
    requires
        text.len() > 0,
    ensures
        text == seq!['+'] ==> number_of(text.push(c)) == (if c == '+' {
            None::<usize>
        } else {
            number_of(seq![c])
        }),
        text != seq!['+'] ==> number_of(text.push(c)) == (if 48 <= c as u32 <= 57 {
            match number_of(text) {
                Some(n) => if 10 * n + (c as u32 - 48) <= usize::MAX {
                    Some((10 * n + (c as u32 - 48)) as usize)
                } else {
                    None::<usize>
                },
                None => None::<usize>,
            }
        } else {
            None::<usize>
        }),
{
    let more = text.push(c);
    let plus = text[0] == '+';
    assert(more[0] == text[0]);
    if text == seq!['+'] {
        assert(more.skip(1) =~= seq![c]);
        law_number_of_digit(c);
        reveal_with_fuel(value_of, 2);
        assert(seq![c].drop_last() =~= Seq::<char>::empty());
        if c == '+' {
            assert(!(48 <= more.skip(1)[0] as u32 <= 57));
        }
    } else {
        let digits = if plus {
            text.skip(1)
        } else {
            text
        };
        if plus && text.len() == 1 {
            assert(text =~= seq!['+']);
        }
        let longer = digits.push(c);
        if plus {
            assert(more.skip(1) =~= longer);
        } else {
            assert(more =~= longer);
        }
        assert(longer.drop_last() =~= digits);
        assert(longer[digits.len() as int] == c);
        if all_digits(longer) {
            assert forall|i: int| 0 <= i < digits.len() implies 48 <= #[trigger] digits[i] as u32
                <= 57 by {
                assert(longer[i] == digits[i]);
            }
        }
        if 48 <= c as u32 <= 57 && all_digits(digits) {
            assert forall|i: int| 0 <= i < longer.len() implies 48 <= #[trigger] longer[i] as u32
                <= 57 by {
                if i < digits.len() {
                    assert(longer[i] == digits[i]);
                }
            }
        }
    }
}

} // verus!
