//! A release record: the three fields of a listing entry that the rules read.

use vstd::prelude::*;
use crate::json::{bool_of, member, member_of, text_of};

verus! {

/// One entry of the release listing. A field is `None` where the entry lacks
/// it or holds a value of another type there.
#[derive(Debug)]
pub struct Release {
    pub tag_name: Option<String>,
    pub prerelease: Option<bool>,
    pub draft: Option<bool>,
}

/// What a release record holds, with its tag as a sequence of characters.
pub struct ReleaseView {
    pub tag_name: Option<Seq<char>>,
    pub prerelease: Option<bool>,
    pub draft: Option<bool>,
}

impl View for Release {
    type V = ReleaseView;

    open spec fn view(&self) -> ReleaseView {
        ReleaseView {
            tag_name: match self.tag_name {
                Some(tag) => Some(tag@),
                None => None,
            },
            prerelease: self.prerelease,
            draft: self.draft,
        }
    }
}

/// The boolean under `key` of a JSON object; `None` where the key is missing
/// or holds no boolean.
pub open spec fn flag_of(value: serde_json::Value, key: Seq<char>) -> Option<bool> {
    match member_of(value, key) {
        Some(found) => bool_of(found),
        None => None,
    }
}

/// The string under `key` of a JSON object; `None` where the key is missing
/// or holds no string.
pub open spec fn label_of(value: serde_json::Value, key: Seq<char>) -> Option<Seq<char>> {
    match member_of(value, key) {
        Some(found) => text_of(found),
        None => None,
    }
}

/// The release record that a JSON value stands for.
pub open spec fn record_of(value: serde_json::Value) -> ReleaseView {
    ReleaseView {
        tag_name: label_of(value, "tag_name"@),
        prerelease: flag_of(value, "prerelease"@),
        draft: flag_of(value, "draft"@),
    }
}

impl ReleaseView {
    /// A release is stable when it says of itself that it is neither a
    /// prerelease nor a draft. A flag that is missing counts as set.
    pub open spec fn is_stable(self) -> bool {
        self.prerelease == Some(false) && self.draft == Some(false)
    }
}

fn read_flag(value: &serde_json::Value, key: &str) -> (r: Option<bool>)
    ensures
        r == flag_of(*value, key@),
{
    match member(value, key) {
        Some(found) => found.as_bool(),
        None => None,
    }
}

fn read_label(value: &serde_json::Value, key: &str) -> (r: Option<String>)
    ensures
        match r {
            Some(text) => label_of(*value, key@) == Some(text@),
            None => label_of(*value, key@).is_none(),
        },
{
    match member(value, key) {
        Some(found) => match found.as_str() {
            Some(text) => Some(text.to_owned()),
            None => None,
        },
        None => None,
    }
}

impl Release {
    /// Reads the three fields out of a JSON value.
    pub fn from_json(value: &serde_json::Value) -> (r: Release)
        ensures
            r@ == record_of(*value),
    {
        Release {
            tag_name: read_label(value, "tag_name"),
            prerelease: read_flag(value, "prerelease"),
            draft: read_flag(value, "draft"),
        }
    }

    /// Whether the release is stable.
    pub fn is_stable(&self) -> (r: bool)
        ensures
            r == self@.is_stable(),
    {
        let prerelease = match self.prerelease {
            Some(flag) => flag,
            None => true,
        };
        let draft = match self.draft {
            Some(flag) => flag,
            None => true,
        };
        !prerelease && !draft
    }
}

} // verus!
