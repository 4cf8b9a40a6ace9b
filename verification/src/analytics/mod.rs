//! Engagement: what it is, how it is read back, and what is reported of it.
use vstd::prelude::*;
use crate::records::{ActivityItem, EngagementCounts};

pub mod refresh;
pub mod rollups;
pub mod snapshots;

verus! {

/// A count that was not reported counts nothing.
pub open spec fn reported(n: Option<u64>) -> nat {
    match n {
        Some(x) => x as nat,
        None => 0,
    }
}

/// Likes, comments and shares. Views are impressions, not engagement, and no part of it.
pub open spec fn score(c: EngagementCounts) -> nat {
    reported(c.likes) + reported(c.comments) + reported(c.shares)
}

pub open spec fn engagement_of(item: ActivityItem) -> nat {
    item.likes as nat + item.comments as nat + item.shares as nat
}

pub(crate) fn or_zero(n: Option<u64>) -> (r: u64)
    ensures
        r == reported(n),
{
    match n {
        Some(x) => x,
        None => 0,
    }
}

/// The one number that posts are ranked by.
pub fn engagement_score(counts: &EngagementCounts) -> (r: u64)
    requires
        score(*counts) <= u64::MAX,
    ensures
        r == score(*counts),
{
    or_zero(counts.likes) + or_zero(counts.comments) + or_zero(counts.shares)
}

/// The same number for a stored row.
pub fn item_engagement(item: &ActivityItem) -> (r: u64)
    requires
        engagement_of(*item) <= u64::MAX,
    ensures
        r == engagement_of(*item),
{
    engagement_score(
        &EngagementCounts {
            likes: Some(item.likes),
            comments: Some(item.comments),
            shares: Some(item.shares),
            views: Some(item.views),
            fetched_at: match item.engagement_fetched_at {
                Some(at) => at,
                None => 0,
            },
        },
    )
}

/// Views never change what a post is ranked by.
pub proof fn views_are_not_engagement(a: ActivityItem, b: ActivityItem)
    requires
        a.likes == b.likes,
        a.comments == b.comments,
        a.shares == b.shares,
    ensures
        engagement_of(a) == engagement_of(b),
{
}

/// A count that was reported counts as much as it says, and one that was not counts
/// nothing; a post is ranked by its likes, comments and shares together.
pub proof fn a_post_is_ranked_by_three_counts(c: EngagementCounts, n: u64)
    ensures
        reported(Some(n)) == n,
        reported(None) == 0,
        c.likes is Some && c.comments is Some && c.shares is Some ==> score(c) == c.likes->0
            + c.comments->0 + c.shares->0,
        score((EngagementCounts { likes: None, comments: None, shares: None, ..c })) == 0,
{
}

} // verus!
