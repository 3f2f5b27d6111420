//! The listing: the stable releases of a release list as versions, newest
//! first, the newest few of each major line, and the lines of the report.

use vstd::prelude::*;
use vstd::string::*;
use crate::release::{record_of, Release, ReleaseView};
use crate::tag::{component, parse_version, strip_marker, without_marker};
use crate::version::{
    is_descending, is_listing_of, newer, shown, shown_all, sort_descending, Version, VersionView,
};

verus! {

/// How many versions of one major line the report shows.
pub const MAX_VERSIONS_GROUPED: u32 = 3;

/// A release is listed when it is stable and has a tag.
pub open spec fn is_listed(release: ReleaseView) -> bool {
    release.is_stable() && release.tag_name is Some
}

/// The version that a tag names: the tag without the marker, and the numbers
/// in its first three fields.
pub open spec fn version_of(tag: Seq<char>) -> VersionView {
    let text = without_marker(tag);
    (component(text, 0), component(text, 1), component(text, 2), text)
}

/// The versions of the listed releases, in the order of the records.
pub open spec fn stable_versions(records: Seq<ReleaseView>) -> Seq<VersionView>
    decreases records.len(),
{
    if records.len() == 0 {
        Seq::empty()
    } else if is_listed(records.last()) {
        stable_versions(records.drop_last()).push(version_of(records.last().tag_name.unwrap()))
    } else {
        stable_versions(records.drop_last())
    }
}

pub open spec fn views_of(records: Seq<Release>) -> Seq<ReleaseView> {
    Seq::new(records.len(), |i: int| records[i]@)
}

pub open spec fn records_of(values: Seq<serde_json::Value>) -> Seq<ReleaseView> {
    Seq::new(values.len(), |i: int| record_of(values[i]))
}

pub open spec fn texts_of(lines: Seq<String>) -> Seq<Seq<char>> {
    Seq::new(lines.len(), |i: int| lines[i]@)
}

/// How many versions of the same major line stand directly before position
/// `i` of `s`.
pub open spec fn place_in_run(s: Seq<VersionView>, i: int) -> nat
    decreases i,
{
    if i <= 0 || i >= s.len() || s[i - 1].0 != s[i].0 {
        0
    } else {
        place_in_run(s, i - 1) + 1
    }
}

/// Whether the report shows the version at position `i` of `s`.
pub open spec fn is_kept(s: Seq<VersionView>, i: int) -> bool {
    place_in_run(s, i) < MAX_VERSIONS_GROUPED
}

/// The texts of the versions that the report shows among the first `n` of
/// `s`.
pub open spec fn kept_texts(s: Seq<VersionView>, n: nat) -> Seq<Seq<char>>
    decreases n,
{
    if n == 0 {
        Seq::empty()
    } else if is_kept(s, n - 1) {
        kept_texts(s, (n - 1) as nat).push(s[n - 1].3)
    } else {
        kept_texts(s, (n - 1) as nat)
    }
}

/// The sentence that ends the report.
pub open spec fn footer() -> Seq<char> {
    "This is a partial list. For a complete list, visit: https://godotengine.org/download/archive/"@
}

/// The lines of the report: an empty line, the versions shown, an empty line
/// and the footer.
pub open spec fn report_of(s: Seq<VersionView>) -> Seq<Seq<char>> {
    seq![Seq::<char>::empty()] + kept_texts(s, s.len()) + seq![Seq::<char>::empty(), footer()]
}

/// How many of the first `n` versions of `s` have the major number `major`
/// and are shown.
pub open spec fn shown_of_major(s: Seq<VersionView>, n: nat, major: u32) -> nat
    decreases n,
{
    if n == 0 {
        0
    } else if s[n - 1].0 == major && is_kept(s, n - 1) {
        shown_of_major(s, (n - 1) as nat, major) + 1
    } else {
        shown_of_major(s, (n - 1) as nat, major)
    }
}

/// The versions of the listed releases of two lists, one after the other,
/// are those of the lists joined.
pub proof fn lemma_stable_versions_concat(a: Seq<ReleaseView>, b: Seq<ReleaseView>)
    ensures
        stable_versions(a + b) == stable_versions(a) + stable_versions(b),
    decreases b.len(),
{
    if b.len() == 0 {
        assert(a + b =~= a);
        assert(stable_versions(a) + stable_versions(b) =~= stable_versions(a));
    } else {
        assert((a + b).drop_last() =~= a + b.drop_last());
        assert((a + b).last() == b.last());
        lemma_stable_versions_concat(a, b.drop_last());
        if is_listed(b.last()) {
            let v = version_of(b.last().tag_name.unwrap());
            assert((stable_versions(a) + stable_versions(b.drop_last())).push(v)
                =~= stable_versions(a) + stable_versions(b.drop_last()).push(v));
        }
    }
}

/// A release that is a prerelease or a draft, that does not say whether it is
/// one, or that has no tag, adds nothing to the versions listed: they are
/// those of the list without that release.
pub proof fn lemma_unlisted_excluded(records: Seq<ReleaseView>, i: int)
    requires
        0 <= i < records.len(),
        records[i].prerelease != Some(false) || records[i].draft != Some(false)
            || records[i].tag_name is None,
    ensures
        stable_versions(records.remove(i)) == stable_versions(records),
{
    let head = records.take(i);
    let one = seq![records[i]];
    let tail = records.skip(i + 1);
    assert(records =~= (head + one) + tail);
    assert(records.remove(i) =~= head + tail);
    lemma_stable_versions_concat(head + one, tail);
    lemma_stable_versions_concat(head, one);
    lemma_stable_versions_concat(head, tail);
    assert(one.drop_last() =~= Seq::<ReleaseView>::empty());
    assert(one.last() == records[i]);
    assert(!is_listed(one.last()));
    assert(stable_versions(one.drop_last()) =~= Seq::<VersionView>::empty());
    assert(stable_versions(one) =~= Seq::<VersionView>::empty());
    assert(stable_versions(head) + stable_versions(one) =~= stable_versions(head));
}

/// Every version listed is the version of a stable release with a tag.
pub proof fn lemma_listed_only(records: Seq<ReleaseView>, j: int)
    requires
        0 <= j < stable_versions(records).len(),
    ensures
        exists|i: int|
            0 <= i < records.len() && is_listed(#[trigger] records[i]) && stable_versions(
                records,
            )[j] == version_of(records[i].tag_name.unwrap()),
    decreases records.len(),
{
    let rest = records.drop_last();
    if j < stable_versions(rest).len() {
        lemma_listed_only(rest, j);
        let i = choose|i: int|
            0 <= i < rest.len() && is_listed(#[trigger] rest[i]) && stable_versions(rest)[j]
                == version_of(rest[i].tag_name.unwrap());
        assert(records[i] == rest[i]);
    } else {
        assert(is_listed(records[records.len() - 1]));
    }
}

/// In a list that has the newest version first, the versions of one major
/// line stand together.
pub proof fn lemma_major_lines_contiguous(s: Seq<VersionView>, i: int, j: int, k: int)
    requires
        is_descending(s),
        0 <= i <= j <= k < s.len(),
        s[i].0 == s[k].0,
    ensures
        s[j].0 == s[i].0,
{
    if i < j {
        assert(!newer(s[j], s[i]));
    }
    if j < k {
        assert(!newer(s[k], s[j]));
    }
}

proof fn lemma_shown_needs_major(s: Seq<VersionView>, n: nat, major: u32)
    requires
        n <= s.len(),
        shown_of_major(s, n, major) > 0,
    ensures
        exists|i: int| 0 <= i < n && (#[trigger] s[i]).0 == major,
    decreases n,
{
    if s[n - 1].0 != major {
        lemma_shown_needs_major(s, (n - 1) as nat, major);
    }
}

proof fn lemma_shown_within_run(s: Seq<VersionView>, n: nat, major: u32)
    requires
        is_descending(s),
        n <= s.len(),
    ensures
        shown_of_major(s, n, major) <= MAX_VERSIONS_GROUPED,
        n > 0 && s[n - 1].0 == major ==> shown_of_major(s, n, major) <= place_in_run(s, n - 1) + 1,
    decreases n,
{
    if n > 0 {
        let t = n - 1;
        lemma_shown_within_run(s, t as nat, major);
        if s[t].0 == major && (t == 0 || s[t - 1].0 != major) {
            if shown_of_major(s, t as nat, major) > 0 {
                lemma_shown_needs_major(s, t as nat, major);
                let i = choose|i: int| 0 <= i < t && (#[trigger] s[i]).0 == major;
                lemma_major_lines_contiguous(s, i, t - 1, t);
            }
        }
    }
}

/// Of a list that has the newest version first, the report shows no more
/// than three versions of any major line.
pub proof fn lemma_major_line_capped(s: Seq<VersionView>, major: u32)
    requires
        is_descending(s),
    ensures
        shown_of_major(s, s.len(), major) <= MAX_VERSIONS_GROUPED,
{
    lemma_shown_within_run(s, s.len(), major);
}

/// Reads the version that a tag names.
pub fn read_version(tag: &str) -> (r: Version)
    ensures
        shown(r) == version_of(tag@),
{
    let text = strip_marker(tag);
    let numbers = parse_version(text.as_str());
    (numbers.0, numbers.1, numbers.2, text)
}

/// The versions of the listed releases, in the order of the records.
pub fn stable_list(records: &Vec<Release>) -> (r: Vec<Version>)
    ensures
        shown_all(r@) == stable_versions(views_of(records@)),
{
    let ghost all = views_of(records@);
    let mut out: Vec<Version> = Vec::new();
    let mut i: usize = 0;
    assert(shown_all(out@) =~= stable_versions(all.take(0)));
    while i < records.len()
        invariant
            i <= records@.len(),
            all == views_of(records@),
            shown_all(out@) == stable_versions(all.take(i as int)),
        decreases records@.len() - i,
    {
        let ghost before = shown_all(out@);
        let release = &records[i];
        proof {
            assert(all.take(i + 1).drop_last() =~= all.take(i as int));
            assert(all.take(i + 1).last() == release@);
        }
        if release.is_stable() {
            match &release.tag_name {
                Some(tag) => {
                    let version = read_version(tag.as_str());
                    out.push(version);
                    assert(shown_all(out@) =~= before.push(version_of(tag@)));
                },
                None => {},
            }
        }
        i += 1;
    }
    assert(all.take(i as int) =~= all);
    out
}

/// The versions of the listed releases, newest first. Versions with equal
/// numbers stand in the order of their records.
pub fn format_records(records: &Vec<Release>) -> (r: Vec<Version>)
    ensures
        is_listing_of(shown_all(r@), stable_versions(views_of(records@))),
{
    sort_descending(stable_list(records))
}

/// The versions of the listed releases of a JSON release list, newest first.
/// Versions with equal numbers stand in the order of their records.
pub fn format_releases_list(releases_list: Vec<serde_json::Value>) -> (r: Vec<Version>)
    ensures
        is_listing_of(shown_all(r@), stable_versions(records_of(releases_list@))),
{
    let mut records: Vec<Release> = Vec::new();
    let mut i: usize = 0;
    while i < releases_list.len()
        invariant
            i <= releases_list@.len(),
            records@.len() == i,
            forall|j: int| 0 <= j < i ==> (#[trigger] records@[j])@ == record_of(releases_list@[j]),
        decreases releases_list@.len() - i,
    {
        records.push(Release::from_json(&releases_list[i]));
        i += 1;
    }
    assert(views_of(records@) =~= records_of(releases_list@));
    format_records(&records)
}

/// The texts of the newest versions of each major line: of every run of
/// versions with one major number, the first few.
pub fn newest_per_major(versions: &Vec<Version>) -> (r: Vec<String>)
    ensures
        texts_of(r@) == kept_texts(shown_all(versions@), versions@.len()),
{
    let ghost s = shown_all(versions@);
    let mut out: Vec<String> = Vec::new();
    let mut current_major: Option<u32> = None;
    let mut count_in_group: u32 = 0;
    let mut i: usize = 0;
    assert(texts_of(out@) =~= kept_texts(s, 0));
    while i < versions.len()
        invariant
            i <= versions@.len(),
            s == shown_all(versions@),
            texts_of(out@) == kept_texts(s, i as nat),
            i == 0 ==> current_major is None && count_in_group == 0,
            i > 0 ==> current_major == Some(s[i - 1].0),
            i > 0 ==> count_in_group == if place_in_run(s, i - 1) + 1 < MAX_VERSIONS_GROUPED {
                place_in_run(s, i - 1) + 1
            } else {
                MAX_VERSIONS_GROUPED as nat
            },
        decreases versions@.len() - i,
    {
        let ghost before = texts_of(out@);
        let version = &versions[i];
        assert(s[i as int] == shown(*version));
        if Some(version.0) != current_major {
            current_major = Some(version.0);
            count_in_group = 0;
        }
        if count_in_group < MAX_VERSIONS_GROUPED {
            out.push(version.3.clone());
            count_in_group += 1;
            assert(texts_of(out@) =~= before.push(s[i as int].3));
        }
        i += 1;
    }
    out
}

/// The lines of the report on a list of versions.
pub fn report(versions: &Vec<Version>) -> (r: Vec<String>)
    ensures
        texts_of(r@) == report_of(shown_all(versions@)),
{
    let mut lines: Vec<String> = Vec::new();
    lines.push(String::new());
    let mut kept = newest_per_major(versions);
    let ghost shown_kept = texts_of(kept@);
    lines.append(&mut kept);
    lines.push(String::new());
    lines.push(
        String::from_str(
            "This is a partial list. For a complete list, visit: https://godotengine.org/download/archive/",
        ),
    );
    assert(texts_of(lines@) =~= report_of(shown_all(versions@)));
    lines
}

/// The lines of the report on a JSON release list: the report on the versions
/// of its listed releases, newest first.
pub fn release_report(releases_list: Vec<serde_json::Value>) -> (r: Vec<String>)
    ensures
        exists|listing: Seq<VersionView>|
            #[trigger] is_listing_of(listing, stable_versions(records_of(releases_list@)))
                && texts_of(r@) == report_of(listing),
{
    let versions = format_releases_list(releases_list);
    assert(is_listing_of(shown_all(versions@), stable_versions(records_of(releases_list@))));
    report(&versions)
}

} // verus!
