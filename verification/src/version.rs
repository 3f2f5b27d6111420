//! Versions: a triple of numbers with the text it was read from, and the
//! order in which versions are listed.

use vstd::prelude::*;

verus! {

/// Major, minor and patch number, and the text they were read from.
pub type Version = (u32, u32, u32, String);

/// A version with its text as a sequence of characters.
pub type VersionView = (u32, u32, u32, Seq<char>);

/// Major, minor and patch number.
pub type Triple = (u32, u32, u32);

pub open spec fn shown(v: Version) -> VersionView {
    (v.0, v.1, v.2, v.3@)
}

pub open spec fn shown_all(s: Seq<Version>) -> Seq<VersionView> {
    Seq::new(s.len(), |i: int| shown(s[i]))
}

pub open spec fn triple_of(v: VersionView) -> Triple {
    (v.0, v.1, v.2)
}

/// Whether `a` is the newer of two versions: the greater major number, then
/// the greater minor number, then the greater patch number decides.
pub open spec fn newer(a: VersionView, b: VersionView) -> bool {
    a.0 > b.0 || (a.0 == b.0 && (a.1 > b.1 || (a.1 == b.1 && a.2 > b.2)))
}

/// No version of the sequence is followed by a newer one.
pub open spec fn is_descending(s: Seq<VersionView>) -> bool {
    forall|i: int, j: int| 0 <= i < j < s.len() ==> !newer(#[trigger] s[j], #[trigger] s[i])
}

/// The versions of `s` that have the numbers `k`, in the order of `s`.
pub open spec fn with_triple(s: Seq<VersionView>, k: Triple) -> Seq<VersionView>
    decreases s.len(),
{
    if s.len() == 0 {
        Seq::empty()
    } else if triple_of(s.last()) == k {
        with_triple(s.drop_last(), k).push(s.last())
    } else {
        with_triple(s.drop_last(), k)
    }
}

/// `r` holds the versions of `s`, newest first, and those with equal numbers
/// in the order that they have in `s`.
pub open spec fn is_listing_of(r: Seq<VersionView>, s: Seq<VersionView>) -> bool {
    &&& r.len() == s.len()
    &&& is_descending(r)
    &&& forall|k: Triple| #[trigger] with_triple(r, k) == with_triple(s, k)
}

pub proof fn lemma_with_triple_concat(a: Seq<VersionView>, b: Seq<VersionView>, k: Triple)
    ensures
        with_triple(a + b, k) == with_triple(a, k) + with_triple(b, k),
    decreases b.len(),
{
    if b.len() == 0 {
        assert(a + b =~= a);
        assert(with_triple(a, k) + with_triple(b, k) =~= with_triple(a, k));
    } else {
        assert((a + b).drop_last() =~= a + b.drop_last());
        assert((a + b).last() == b.last());
        lemma_with_triple_concat(a, b.drop_last(), k);
        if triple_of(b.last()) == k {
            assert((with_triple(a, k) + with_triple(b.drop_last(), k)).push(b.last())
                =~= with_triple(a, k) + with_triple(b.drop_last(), k).push(b.last()));
        }
    }
}

pub proof fn lemma_with_triple_absent(s: Seq<VersionView>, k: Triple)
    requires
        forall|i: int| 0 <= i < s.len() ==> triple_of(#[trigger] s[i]) != k,
    ensures
        with_triple(s, k) == Seq::<VersionView>::empty(),
    decreases s.len(),
{
    if s.len() > 0 {
        lemma_with_triple_absent(s.drop_last(), k);
    }
}

pub proof fn lemma_with_triple_one(x: VersionView, k: Triple)
    ensures
        with_triple(seq![x], k) == if triple_of(x) == k {
            seq![x]
        } else {
            Seq::empty()
        },
{
    let one = seq![x];
    assert(one.drop_last() =~= Seq::<VersionView>::empty());
    assert(with_triple(one.drop_last(), k) =~= Seq::<VersionView>::empty());
    assert(Seq::<VersionView>::empty().push(x) =~= one);
}

/// Putting `x` behind versions that are all newer puts it in front of the
/// versions that have its numbers.
proof fn lemma_place(v: Seq<VersionView>, p: int, x: VersionView, k: Triple)
    requires
        0 <= p <= v.len(),
        forall|j: int| 0 <= j < p ==> newer(#[trigger] v[j], x),
    ensures
        with_triple(v.insert(p, x), k) == with_triple(seq![x], k) + with_triple(v, k),
{
    let head = v.take(p);
    let tail = v.skip(p);
    assert(v.insert(p, x) =~= (head + seq![x]) + tail);
    assert(v =~= head + tail);
    lemma_with_triple_concat(head + seq![x], tail, k);
    lemma_with_triple_concat(head, seq![x], k);
    lemma_with_triple_concat(head, tail, k);
    lemma_with_triple_one(x, k);
    if triple_of(x) == k {
        lemma_with_triple_absent(head, k);
        assert(with_triple(head, k) + with_triple(seq![x], k) =~= with_triple(seq![x], k));
    } else {
        assert(with_triple(head, k) + with_triple(seq![x], k) =~= with_triple(head, k));
        assert(with_triple(seq![x], k) + with_triple(v, k) =~= with_triple(v, k));
    }
}

proof fn lemma_front(s: Seq<VersionView>, k: Triple)
    requires
        s.len() > 0,
    ensures
        with_triple(s, k) == with_triple(seq![s[0]], k) + with_triple(s.drop_first(), k),
{
    assert(s =~= seq![s[0]] + s.drop_first());
    lemma_with_triple_concat(seq![s[0]], s.drop_first(), k);
}

proof fn lemma_triple_present(s: Seq<VersionView>, k: Triple) -> (i: int)
    requires
        with_triple(s, k).len() > 0,
    ensures
        0 <= i < s.len(),
        triple_of(s[i]) == k,
{
    if forall|j: int| 0 <= j < s.len() ==> triple_of(#[trigger] s[j]) != k {
        lemma_with_triple_absent(s, k);
    }
    choose|j: int| 0 <= j < s.len() && triple_of(#[trigger] s[j]) == k
}

proof fn lemma_same_groups(a: Seq<VersionView>, b: Seq<VersionView>)
    requires
        a.len() == b.len(),
        is_descending(a),
        is_descending(b),
        forall|k: Triple| #[trigger] with_triple(a, k) == with_triple(b, k),
    ensures
        a == b,
    decreases a.len(),
{
    if a.len() == 0 {
        assert(a =~= b);
    } else {
        let x = a.last();
        let y = b.last();
        let kx = triple_of(x);
        let ky = triple_of(y);
        assert(with_triple(a, kx) == with_triple(b, kx));
        assert(with_triple(a, ky) == with_triple(b, ky));
        let i = lemma_triple_present(b, kx);
        let j = lemma_triple_present(a, ky);
        if i < b.len() - 1 {
            assert(!newer(b[b.len() - 1], b[i]));
        }
        if j < a.len() - 1 {
            assert(!newer(a[a.len() - 1], a[j]));
        }
        assert(kx == ky);
        let ra = a.drop_last();
        let rb = b.drop_last();
        let ga = with_triple(ra, kx);
        let gb = with_triple(rb, kx);
        assert(ga.push(x) == gb.push(y));
        assert(ga.push(x).last() == x);
        assert(gb.push(y).last() == y);
        assert(ga.push(x).drop_last() =~= ga);
        assert(gb.push(y).drop_last() =~= gb);
        assert forall|k: Triple| #[trigger] with_triple(ra, k) == with_triple(rb, k) by {
            assert(with_triple(a, k) == with_triple(b, k));
        }
        assert forall|p: int, q: int| 0 <= p < q < ra.len() implies !newer(
            #[trigger] ra[q],
            #[trigger] ra[p],
        ) by {
            assert(!newer(a[q], a[p]));
        }
        assert forall|p: int, q: int| 0 <= p < q < rb.len() implies !newer(
            #[trigger] rb[q],
            #[trigger] rb[p],
        ) by {
            assert(!newer(b[q], b[p]));
        }
        lemma_same_groups(ra, rb);
        assert(a =~= ra.push(x));
        assert(b =~= rb.push(y));
    }
}

/// A sequence of versions has one listing and no other: the order is fixed
/// down to the versions with equal numbers.
pub proof fn lemma_listing_unique(r1: Seq<VersionView>, r2: Seq<VersionView>, s: Seq<VersionView>)
    requires
        is_listing_of(r1, s),
        is_listing_of(r2, s),
    ensures
        r1 == r2,
{
    assert forall|k: Triple| #[trigger] with_triple(r1, k) == with_triple(r2, k) by {
        assert(with_triple(r1, k) == with_triple(s, k));
        assert(with_triple(r2, k) == with_triple(s, k));
    }
    lemma_same_groups(r1, r2);
}

/// Whether `a` is the newer of two versions.
pub fn is_newer(a: &Version, b: &Version) -> (r: bool)
    ensures
        r == newer(shown(*a), shown(*b)),
{
    a.0 > b.0 || (a.0 == b.0 && (a.1 > b.1 || (a.1 == b.1 && a.2 > b.2)))
}

/// Orders versions newest first. Versions with equal numbers keep the order
/// in which they were given.
pub fn sort_descending(versions: Vec<Version>) -> (r: Vec<Version>)
    ensures
        is_listing_of(shown_all(r@), shown_all(versions@)),
{
    let ghost given = shown_all(versions@);
    let mut rest = versions;
    let mut out: Vec<Version> = Vec::new();
    assert(given.skip(given.len() as int) =~= shown_all(out@));
    while rest.len() > 0
        invariant
            rest@.len() <= given.len(),
            shown_all(rest@) == given.take(rest@.len() as int),
            out@.len() + rest@.len() == given.len(),
            is_descending(shown_all(out@)),
            forall|k: Triple| #[trigger]
                with_triple(shown_all(out@), k) == with_triple(given.skip(rest@.len() as int), k),
        decreases rest@.len(),
    {
        let ghost before = shown_all(out@);
        let ghost full = shown_all(rest@);
        let x = rest.pop().unwrap();
        let ghost sx = shown(x);
        let mut p: usize = 0;
        while p < out.len() && is_newer(&out[p], &x)
            invariant
                p <= out@.len(),
                before == shown_all(out@),
                sx == shown(x),
                forall|j: int| 0 <= j < p ==> newer(#[trigger] before[j], sx),
            decreases out@.len() - p,
        {
            assert(before[p as int] == shown(out@[p as int]));
            p += 1;
        }
        proof {
            if p < before.len() {
                assert(before[p as int] == shown(out@[p as int]));
            }
        }
        out.insert(p, x);
        proof {
            let after = shown_all(out@);
            let i = rest@.len() as int;
            assert(after =~= before.insert(p as int, sx));
            assert(full[i] == sx);
            assert(given[i] == sx);
            assert(shown_all(rest@) =~= given.take(i));
            assert(given.skip(i).drop_first() =~= given.skip(i + 1));
            assert forall|k: Triple| #[trigger]
                with_triple(after, k) == with_triple(given.skip(i), k) by {
                lemma_place(before, p as int, sx, k);
                lemma_front(given.skip(i), k);
                assert(with_triple(before, k) == with_triple(given.skip(i + 1), k));
            }
            assert forall|a: int, b: int| 0 <= a < b < after.len() implies !newer(
                #[trigger] after[b],
                #[trigger] after[a],
            ) by {
                if b < p {
                    assert(after[a] == before[a] && after[b] == before[b]);
                } else if b == p {
                    assert(after[a] == before[a]);
                    assert(newer(before[a], sx));
                } else if a < p {
                    assert(after[a] == before[a] && after[b] == before[b - 1]);
                } else if a == p {
                    assert(after[b] == before[b - 1]);
                    assert(!newer(before[p as int], sx));
                    if b - 1 > p {
                        assert(!newer(before[b - 1], before[p as int]));
                    }
                } else {
                    assert(after[a] == before[a - 1] && after[b] == before[b - 1]);
                }
            }
        }
    }
    assert(given.skip(0) =~= given);
    out
}

} // verus!
