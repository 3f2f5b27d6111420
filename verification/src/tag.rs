//! Version tags: the marker that stable tags carry, the fields between the
//! dots, and the number that a field spells.

use vstd::prelude::*;
use vstd::string::*;

verus! {

/// The text that marks a tag as stable.
pub open spec fn marker() -> Seq<char> {
    "-stable"@
}

/// Whether the marker stands in `s` at position `i`.
pub open spec fn marker_at(s: Seq<char>, i: int) -> bool {
    0 <= i && i + 7 <= s.len() && s.subrange(i, i + 7) == marker()
}

/// Whether position `i` of `s` lies inside an occurrence of the marker.
pub open spec fn in_marker(s: Seq<char>, i: int) -> bool {
    exists|j: int| i - 7 < j <= i && #[trigger] marker_at(s, j)
}

/// The first `n` characters of `s` without those that lie inside an
/// occurrence of the marker.
pub open spec fn unmarked_prefix(s: Seq<char>, n: nat) -> Seq<char>
    decreases n,
{
    if n == 0 {
        Seq::empty()
    } else if in_marker(s, n - 1) {
        unmarked_prefix(s, (n - 1) as nat)
    } else {
        unmarked_prefix(s, (n - 1) as nat).push(s[n - 1])
    }
}

/// `s` with every occurrence of the marker taken out.
pub open spec fn without_marker(s: Seq<char>) -> Seq<char> {
    unmarked_prefix(s, s.len())
}

/// The position of the first dot of `s` at or after `start`, or the length of
/// `s` where there is none.
pub open spec fn dot_from(s: Seq<char>, start: int) -> int
    decreases s.len() - start,
{
    if start < 0 || start >= s.len() {
        s.len() as int
    } else if s[start] == '.' {
        start
    } else {
        dot_from(s, start + 1)
    }
}

/// The `k`-th of the fields that dots part in `s`, counted from `start`.
pub open spec fn field_from(s: Seq<char>, start: int, k: nat) -> Option<Seq<char>>
    decreases k,
{
    let end = dot_from(s, start);
    if k == 0 {
        Some(s.subrange(start, end))
    } else if end >= s.len() {
        None
    } else {
        field_from(s, end + 1, (k - 1) as nat)
    }
}

/// The `k`-th of the fields that dots part in `s`; `None` where `s` has fewer
/// fields. A text without a dot is one field.
pub open spec fn field(s: Seq<char>, k: nat) -> Option<Seq<char>> {
    field_from(s, 0, k)
}

pub open spec fn is_digit(c: char) -> bool {
    '0' <= c && c <= '9'
}

pub open spec fn digit_value(c: char) -> nat {
    (c as u32 - '0' as u32) as nat
}

pub open spec fn all_digits(s: Seq<char>) -> bool {
    forall|i: int| 0 <= i < s.len() ==> is_digit(#[trigger] s[i])
}

/// The number that a sequence of decimal digits spells.
pub open spec fn decimal(digits: Seq<char>) -> nat
    decreases digits.len(),
{
    if digits.len() == 0 {
        0
    } else {
        decimal(digits.drop_last()) * 10 + digit_value(digits.last())
    }
}

/// A text without the plus sign that may lead it.
pub open spec fn unsigned_part(s: Seq<char>) -> Seq<char> {
    if s.len() > 0 && s[0] == '+' {
        s.drop_first()
    } else {
        s
    }
}

/// The number that a text spells: decimal digits, at least one, after an
/// optional plus sign, whose value fits in 32 bits. Every other text spells
/// none.
pub open spec fn number_of(s: Seq<char>) -> Option<u32> {
    let digits = unsigned_part(s);
    if digits.len() > 0 && all_digits(digits) && decimal(digits) <= u32::MAX {
        Some(decimal(digits) as u32)
    } else {
        None
    }
}

/// The number in field `k` of a version text, and 0 where the field is
/// missing or spells no number.
pub open spec fn component(s: Seq<char>, k: nat) -> u32 {
    match field(s, k) {
        Some(text) => match number_of(text) {
            Some(value) => value,
            None => 0,
        },
        None => 0,
    }
}

proof fn lemma_skip_marked(s: Seq<char>, from: nat, to: nat)
    requires
        from <= to,
        forall|k: int| from <= k < to ==> in_marker(s, k),
    ensures
        unmarked_prefix(s, to) == unmarked_prefix(s, from),
    decreases to - from,
{
    if from < to {
        lemma_skip_marked(s, from, (to - 1) as nat);
    }
}

proof fn lemma_decimal_grows(digits: Seq<char>, n: int)
    requires
        0 <= n <= digits.len(),
    ensures
        decimal(digits.take(n)) <= decimal(digits),
    decreases digits.len(),
{
    if n == digits.len() {
        assert(digits.take(n) =~= digits);
    } else {
        assert(digits.drop_last().take(n) =~= digits.take(n));
        lemma_decimal_grows(digits.drop_last(), n);
    }
}

proof fn lemma_in_marker_before(a: Seq<char>, b: Seq<char>, i: int)
    requires
        0 <= i < a.len(),
    ensures
        in_marker(a + marker() + b, i) == in_marker(a, i),
{
    reveal_strlit("-stable");
    let s = a + marker() + b;
    let n = a.len() as int;
    if in_marker(a, i) {
        let j = choose|j: int| i - 7 < j <= i && #[trigger] marker_at(a, j);
        assert(s.subrange(j, j + 7) =~= a.subrange(j, j + 7));
        assert(marker_at(s, j));
    }
    if in_marker(s, i) {
        let j = choose|j: int| i - 7 < j <= i && #[trigger] marker_at(s, j);
        if j + 7 <= n {
            assert(s.subrange(j, j + 7) =~= a.subrange(j, j + 7));
            assert(marker_at(a, j));
        } else {
            assert(s.subrange(j, j + 7)[n - j] == s[n]);
            assert(s[n] == marker()[0]);
            assert(false);
        }
    }
}

proof fn lemma_in_marker_after(a: Seq<char>, b: Seq<char>, i: int)
    requires
        0 <= i < b.len(),
    ensures
        in_marker(a + marker() + b, a.len() + 7 + i) == in_marker(b, i),
{
    reveal_strlit("-stable");
    let s = a + marker() + b;
    let n = a.len() as int;
    if in_marker(b, i) {
        let j = choose|j: int| i - 7 < j <= i && #[trigger] marker_at(b, j);
        assert(s.subrange(n + 7 + j, n + 7 + j + 7) =~= b.subrange(j, j + 7));
        assert(marker_at(s, n + 7 + j));
    }
    if in_marker(s, n + 7 + i) {
        let j = choose|j: int| n + 7 + i - 7 < j <= n + 7 + i && #[trigger] marker_at(s, j);
        if j >= n + 7 {
            assert(s.subrange(j, j + 7) =~= b.subrange(j - n - 7, j - n));
            assert(marker_at(b, j - n - 7));
        } else {
            assert(s.subrange(j, j + 7)[0] == s[j]);
            assert(s[j] == marker()[j - n]);
            assert(false);
        }
    }
}

proof fn lemma_prefix_before(a: Seq<char>, b: Seq<char>, n: nat)
    requires
        n <= a.len(),
    ensures
        unmarked_prefix(a + marker() + b, n) == unmarked_prefix(a, n),
    decreases n,
{
    if n > 0 {
        lemma_prefix_before(a, b, (n - 1) as nat);
        lemma_in_marker_before(a, b, n - 1);
    }
}

proof fn lemma_prefix_after(a: Seq<char>, b: Seq<char>, n: nat)
    requires
        n <= b.len(),
    ensures
        unmarked_prefix(a + marker() + b, a.len() + 7 + n) == unmarked_prefix(a, a.len())
            + unmarked_prefix(b, n),
    decreases n,
{
    reveal_strlit("-stable");
    let s = a + marker() + b;
    let start = a.len();
    if n == 0 {
        assert forall|k: int| start <= k < start + 7 implies in_marker(s, k) by {
            assert(s.subrange(start as int, start as int + 7) =~= marker());
            assert(marker_at(s, start as int));
        }
        lemma_skip_marked(s, start, start + 7);
        lemma_prefix_before(a, b, start);
        assert(unmarked_prefix(a, start) + unmarked_prefix(b, 0) =~= unmarked_prefix(a, start));
    } else {
        lemma_prefix_after(a, b, (n - 1) as nat);
        lemma_in_marker_after(a, b, n - 1);
        assert(s[start + 7 + n - 1] == b[n - 1]);
        if !in_marker(b, n - 1) {
            assert((unmarked_prefix(a, start) + unmarked_prefix(b, (n - 1) as nat)).push(b[n - 1])
                =~= unmarked_prefix(a, start) + unmarked_prefix(b, (n - 1) as nat).push(
                b[n - 1],
            ));
        }
    }
}

/// Wherever the marker stands in a tag, it is taken out: a tag made of two
/// texts with the marker between them is left as the two texts, each without
/// its own occurrences of the marker.
pub proof fn lemma_marker_removed(a: Seq<char>, b: Seq<char>)
    ensures
        without_marker(a + marker() + b) == without_marker(a) + without_marker(b),
{
    reveal_strlit("-stable");
    lemma_prefix_after(a, b, b.len());
}

/// A tag that does not hold the marker is left as it is.
pub proof fn lemma_unmarked_kept(s: Seq<char>)
    requires
        forall|i: int| !marker_at(s, i),
    ensures
        without_marker(s) == s,
{
    lemma_unmarked_prefix_kept(s, s.len());
    assert(s.take(s.len() as int) =~= s);
}

proof fn lemma_unmarked_prefix_kept(s: Seq<char>, n: nat)
    requires
        n <= s.len(),
        forall|i: int| !marker_at(s, i),
    ensures
        unmarked_prefix(s, n) == s.take(n as int),
    decreases n,
{
    if n > 0 {
        lemma_unmarked_prefix_kept(s, (n - 1) as nat);
        assert(s.take(n - 1).push(s[n - 1]) =~= s.take(n as int));
    } else {
        assert(s.take(0) =~= Seq::<char>::empty());
    }
}

fn marker_starts(tag: &str, len: usize, i: usize) -> (r: bool)
    requires
        len == tag@.len(),
        i <= len,
    ensures
        r == marker_at(tag@, i as int),
{
    proof {
        reveal_strlit("-stable");
    }
    if len - i < 7 {
        return false;
    }
    let found = tag.get_char(i) == '-' && tag.get_char(i + 1) == 's' && tag.get_char(i + 2) == 't'
        && tag.get_char(i + 3) == 'a' && tag.get_char(i + 4) == 'b' && tag.get_char(i + 5) == 'l'
        && tag.get_char(i + 6) == 'e';
    proof {
        let part = tag@.subrange(i as int, i + 7);
        if found {
            assert(part =~= marker());
        } else {
            assert(part[0] == tag@[i as int]);
            assert(part[1] == tag@[i + 1]);
            assert(part[2] == tag@[i + 2]);
            assert(part[3] == tag@[i + 3]);
            assert(part[4] == tag@[i + 4]);
            assert(part[5] == tag@[i + 5]);
            assert(part[6] == tag@[i + 6]);
        }
    }
    found
}

/// Takes every occurrence of the marker out of a tag.
pub fn strip_marker(tag: &str) -> (r: String)
    ensures
        r@ == without_marker(tag@),
{
    let len = tag.unicode_len();
    let mut out = String::new();
    let mut i: usize = 0;
    while i < len
        invariant
            i <= len,
            len == tag@.len(),
            out@ == unmarked_prefix(tag@, i as nat),
            forall|j: int| j < i && marker_at(tag@, j) ==> j + 7 <= i,
        decreases len - i,
    {
        if marker_starts(tag, len, i) {
            proof {
                reveal_strlit("-stable");
                let s = tag@;
                assert forall|k: int| i <= k < i + 7 implies in_marker(s, k) by {
                    assert(marker_at(s, i as int));
                }
                lemma_skip_marked(s, i as nat, (i + 7) as nat);
                assert forall|j: int| j < i + 7 && marker_at(s, j) implies j + 7 <= i + 7 by {
                    if i < j {
                        assert(s.subrange(j, j + 7)[0] == s[j]);
                        assert(s.subrange(i as int, i + 7)[j - i] == s[j]);
                    }
                }
            }
            i += 7;
        } else {
            out.append(tag.substring_char(i, i + 1));
            proof {
                let s = tag@;
                assert(!in_marker(s, i as int));
                assert(s.subrange(i as int, i + 1) =~= seq![s[i as int]]);
                assert(out@ =~= unmarked_prefix(s, i as nat).push(s[i as int]));
            }
            i += 1;
        }
    }
    out
}

/// Finds the first dot at or after `start`.
fn find_dot(text: &str, len: usize, start: usize) -> (r: usize)
    requires
        len == text@.len(),
        start <= len,
    ensures
        r == dot_from(text@, start as int),
        start <= r <= len,
{
    let mut i: usize = start;
    while i < len
        invariant
            start <= i <= len,
            len == text@.len(),
            dot_from(text@, i as int) == dot_from(text@, start as int),
        decreases len - i,
    {
        if text.get_char(i) == '.' {
            return i;
        }
        i += 1;
    }
    i
}

/// Reads the number that a text spells.
pub fn parse_number(text: &str) -> (r: Option<u32>)
    ensures
        r == number_of(text@),
{
    let len = text.unicode_len();
    let first: usize = if len > 0 && text.get_char(0) == '+' {
        1
    } else {
        0
    };
    let ghost digits = unsigned_part(text@);
    assert(digits =~= text@.subrange(first as int, len as int));
    if first == len {
        return None;
    }
    let mut value: u64 = 0;
    let mut i: usize = first;
    while i < len
        invariant
            first <= i <= len,
            len == text@.len(),
            digits == unsigned_part(text@),
            digits == text@.subrange(first as int, len as int),
            value == decimal(digits.take(i - first)),
            value <= u32::MAX,
            all_digits(digits.take(i - first)),
        decreases len - i,
    {
        let c = text.get_char(i);
        if c < '0' || c > '9' {
            assert(!is_digit(digits[i - first]));
            return None;
        }
        let digit: u64 = (c as u32 - '0' as u32) as u64;
        proof {
            let next = digits.take(i - first + 1);
            assert(next.drop_last() =~= digits.take(i - first));
            assert(next.last() == c);
            assert(all_digits(next));
        }
        value = value * 10 + digit;
        if value > 0xffff_ffff {
            proof {
                lemma_decimal_grows(digits, i - first + 1);
            }
            return None;
        }
        i += 1;
    }
    assert(digits.take(i - first) =~= digits);
    Some(value as u32)
}

fn number_or_zero(text: &str) -> (r: u32)
    ensures
        r == match number_of(text@) {
            Some(value) => value,
            None => 0,
        },
{
    match parse_number(text) {
        Some(value) => value,
        None => 0,
    }
}

/// Reads the first three dot-separated fields of a version text as numbers.
/// A field that is missing or spells no number reads as 0.
pub fn parse_version(text: &str) -> (r: (u32, u32, u32))
    ensures
        r.0 == component(text@, 0),
        r.1 == component(text@, 1),
        r.2 == component(text@, 2),
{
    reveal_with_fuel(field_from, 3);
    let len = text.unicode_len();
    let end0 = find_dot(text, len, 0);
    let major = number_or_zero(text.substring_char(0, end0));
    if end0 >= len {
        return (major, 0, 0);
    }
    let end1 = find_dot(text, len, end0 + 1);
    let minor = number_or_zero(text.substring_char(end0 + 1, end1));
    if end1 >= len {
        return (major, minor, 0);
    }
    let end2 = find_dot(text, len, end1 + 1);
    let patch = number_or_zero(text.substring_char(end1 + 1, end2));
    (major, minor, patch)
}

} // verus!
