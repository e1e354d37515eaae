use vstd::prelude::*;

use crate::entry::{Entry, EntryView};

verus! {

/// One condition that an entry may meet.
pub enum FilterCriterion {
    /// The entry carries exactly this tag.
    Tag(String),
    /// The title holds this text.
    Title(String),
    /// The content holds this text.
    Content(String),
    /// The entry has exactly this priority.
    Priority(u32),
}

/// A set of conditions, all of which an entry must meet.
pub struct Filter {
    pub criteria: Vec<FilterCriterion>,
}

/// `needle` occurs in `hay` as a contiguous run of characters.
pub open spec fn is_substring(needle: Seq<char>, hay: Seq<char>) -> bool {
    exists|i: int|
        0 <= i && i + needle.len() <= hay.len() && #[trigger] hay.subrange(i, i + needle.len())
            == needle
}

/// The tag sequence holds a tag equal to `tag`.
pub open spec fn has_tag(tags: Seq<String>, tag: Seq<char>) -> bool {
    exists|i: int| 0 <= i < tags.len() && #[trigger] tags[i]@ == tag
}

/// The entry meets the criterion.
pub open spec fn criterion_matches(c: FilterCriterion, e: EntryView) -> bool {
    match c {
        FilterCriterion::Tag(t) => has_tag(e.tags, t@),
        FilterCriterion::Title(t) => is_substring(t@, e.title),
        FilterCriterion::Content(t) => is_substring(t@, e.content),
        FilterCriterion::Priority(p) => e.priority == Some(p),
    }
}

/// The entry meets every criterion of the list.
pub open spec fn matches_all(criteria: Seq<FilterCriterion>, e: EntryView) -> bool {
    forall|i: int| 0 <= i < criteria.len() ==> #[trigger] criterion_matches(criteria[i], e)
}

/// Relies on str::contains: true when `needle` occurs in `hay` as a contiguous part.
#[verifier::external_body]
fn str_contains(hay: &str, needle: &str) -> (r: bool)
    ensures
        r == is_substring(needle@, hay@),
{
    hay.contains(needle)
}

/// Whether one of the tags equals `tag`.
pub fn tags_contain(tags: &Vec<String>, tag: &String) -> (r: bool)
    ensures
        r == has_tag(tags@, tag@),
{
    let mut i: usize = 0;
    while i < tags.len()
        invariant
            i <= tags.len(),
            forall|k: int| 0 <= k < i ==> tags@[k]@ != tag@,
        decreases tags.len() - i,
    {
        if tags[i] == *tag {
            return true;
        }
        i = i + 1;
    }
    false
}

impl FilterCriterion {
    /// Whether the entry meets this criterion.
    pub fn check_entry(&self, entry: &Entry) -> (r: bool)
        ensures
            r == criterion_matches(*self, entry@),
    {
        match self {
            FilterCriterion::Tag(t) => tags_contain(&entry.tags, t),
            FilterCriterion::Title(t) => str_contains(entry.title.as_str(), t.as_str()),
            FilterCriterion::Content(t) => str_contains(entry.content.as_str(), t.as_str()),
            FilterCriterion::Priority(p) => match entry.priority {
                Some(q) => q == *p,
                None => false,
            },
        }
    }
}

impl Filter {
    /// Whether the entry meets every criterion of the filter.
    pub fn check_entry(&self, entry: &Entry) -> (r: bool)
        ensures
            r == matches_all(self.criteria@, entry@),
    {
        let mut i: usize = 0;
        while i < self.criteria.len()
            invariant
                i <= self.criteria.len(),
                forall|k: int| 0 <= k < i ==> criterion_matches(#[trigger] self.criteria@[k], entry@),
            decreases self.criteria.len() - i,
        {
            if !self.criteria[i].check_entry(entry) {
                return false;
            }
            i = i + 1;
        }
        true
    }

    /// Whether the entry fails some criterion of the filter.
    pub fn rejects(&self, entry: &Entry) -> (r: bool)
        ensures
            r == !matches_all(self.criteria@, entry@),
    {
        !self.check_entry(entry)
    }
}

} // verus!
