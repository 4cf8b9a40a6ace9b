//! The rows the application keeps.
use vstd::prelude::*;
use crate::draft::DraftBody;
use crate::platform::Platform;
use crate::status::{HistoryStatus, InboxKind, PostStatus, TargetStatus};
use crate::text::starts_with;

verus! {

/// Whether a media file is shown as a picture or as a video.
#[derive(Debug, Clone, Copy, PartialEq, Eq, Structural)]
pub enum MediaKind {
    Image,
    Video,
}

impl MediaKind {
    /// A `video/` type is a video; everything else, and no type, is a picture.
    pub open spec fn of_mime(mime: Option<Seq<char>>) -> Self {
        match mime {
            Some(m) => if "video/"@.is_prefix_of(m) {
                Self::Video
            } else {
                Self::Image
            },
            None => Self::Image,
        }
    }

    pub fn from_mime(mime: Option<&str>) -> (r: Self)
        ensures
            r == Self::of_mime(
                match mime {
                    Some(m) => Some(m@),
                    None => None,
                },
            ),
    {
        match mime {
            Some(m) => {
                if starts_with(m, "video/") {
                    Self::Video
                } else {
                    Self::Image
                }
            },
            None => Self::Image,
        }
    }

    pub fn as_str(self) -> (r: &'static str)
        ensures
            r@ == (match self {
                Self::Image => "image"@,
                Self::Video => "video"@,
            }),
    {
        match self {
            Self::Image => "image",
            Self::Video => "video",
        }
    }
}

/// A file of the workspace's media library.
#[derive(Debug, PartialEq, Eq, Clone)]
pub struct MediaAsset {
    pub id: String,
    pub workspace_id: String,
    pub kind: MediaKind,
    pub path: String,
    pub name: String,
    pub mime_type: Option<String>,
    pub created_at: i64,
}

/// The tenant boundary.
#[derive(Debug, PartialEq, Eq, Clone)]
pub struct Workspace {
    pub id: String,
    pub name: String,
    pub created_at: i64,
}

/// A connected, or connectable, account on one platform.
#[derive(Debug, PartialEq, Eq)]
pub struct SocialAccount {
    pub id: String,
    pub workspace_id: String,
    pub platform: Platform,
    pub account_label: String,
    /// The platform's own id of the account, once known.
    pub external_id: Option<String>,
    pub connected: bool,
    pub created_at: i64,
}

impl Clone for SocialAccount {
    fn clone(&self) -> (r: Self)
        ensures
            r == *self,
    {
        SocialAccount {
            id: self.id.clone(),
            workspace_id: self.workspace_id.clone(),
            platform: self.platform,
            account_label: self.account_label.clone(),
            external_id: self.external_id.clone(),
            connected: self.connected,
            created_at: self.created_at,
        }
    }
}

#[derive(Debug, PartialEq, Eq, Clone)]
pub struct Draft {
    pub id: String,
    pub workspace_id: String,
    pub body: DraftBody,
    pub created_at: i64,
    pub updated_at: i64,
}

/// A post scheduled for a moment in time.
#[derive(Debug, PartialEq, Eq, Clone)]
pub struct ScheduledPost {
    pub id: String,
    pub workspace_id: String,
    /// `None` for a post composed without a saved draft.
    pub draft_id: Option<String>,
    pub scheduled_for: i64,
    pub status: PostStatus,
    pub created_at: i64,
    pub targets: Vec<PostTarget>,
}

/// One leg of the fan-out: this post, on this account.
#[derive(Debug, PartialEq, Eq, Clone)]
pub struct PostTarget {
    pub id: String,
    pub scheduled_post_id: String,
    pub social_account_id: String,
    pub platform: Platform,
    /// A per-target body in place of the draft's.
    pub variant_body: Option<DraftBody>,
    pub status: TargetStatus,
    /// Provider calls made so far.
    pub attempts: u32,
    pub next_attempt_at: Option<i64>,
    /// When a runner claimed this target.
    pub claimed_at: Option<i64>,
}

/// The outcome of one publish run of one target.
#[derive(Debug, PartialEq, Eq, Clone)]
pub struct PostHistoryEntry {
    pub id: String,
    pub post_target_id: String,
    pub status: HistoryStatus,
    pub remote_url: Option<String>,
    pub remote_id: Option<String>,
    pub error: Option<String>,
    pub published_at: Option<i64>,
}

/// Counts read back from a platform; `None` is "not reported".
#[derive(Debug, Clone, Copy, PartialEq, Eq)]
pub struct EngagementCounts {
    pub likes: Option<u64>,
    pub comments: Option<u64>,
    pub shares: Option<u64>,
    pub views: Option<u64>,
    pub fetched_at: i64,
}

/// A published post with its latest counts.
#[derive(Debug, PartialEq, Eq)]
pub struct ActivityItem {
    pub id: String,
    pub workspace_id: String,
    pub social_account_id: String,
    pub platform: Platform,
    pub post_remote_id: String,
    pub permalink: Option<String>,
    pub text: Option<String>,
    pub likes: u64,
    pub comments: u64,
    pub shares: u64,
    pub views: u64,
    pub engagement_fetched_at: Option<i64>,
    pub published_at: Option<i64>,
}

impl Clone for ActivityItem {
    fn clone(&self) -> (r: Self)
        ensures
            r == *self,
    {
        ActivityItem {
            id: self.id.clone(),
            workspace_id: self.workspace_id.clone(),
            social_account_id: self.social_account_id.clone(),
            platform: self.platform,
            post_remote_id: self.post_remote_id.clone(),
            permalink: self.permalink.clone(),
            text: self.text.clone(),
            likes: self.likes,
            comments: self.comments,
            shares: self.shares,
            views: self.views,
            engagement_fetched_at: self.engagement_fetched_at,
            published_at: self.published_at,
        }
    }
}

/// One piece of inbound engagement.
#[derive(Debug, PartialEq, Eq)]
pub struct InboxItem {
    pub id: String,
    pub workspace_id: String,
    pub social_account_id: String,
    pub platform: Platform,
    pub kind: InboxKind,
    pub author: String,
    pub text: String,
    pub permalink: Option<String>,
    /// The platform's own id of the item, by which it is recognised again.
    pub external_id: String,
    /// When it was written, not when it was fetched.
    pub received_at: i64,
    pub replied: bool,
    pub read: bool,
}

impl Clone for InboxItem {
    fn clone(&self) -> (r: Self)
        ensures
            r == *self,
    {
        InboxItem {
            id: self.id.clone(),
            workspace_id: self.workspace_id.clone(),
            social_account_id: self.social_account_id.clone(),
            platform: self.platform,
            kind: self.kind,
            author: self.author.clone(),
            text: self.text.clone(),
            permalink: self.permalink.clone(),
            external_id: self.external_id.clone(),
            received_at: self.received_at,
            replied: self.replied,
            read: self.read,
        }
    }
}

/// Per-workspace settings.
#[derive(Debug, PartialEq, Eq, Clone)]
pub struct SocialSettings {
    pub scheduler_enabled: bool,
    pub poll_interval_secs: u64,
    /// Provider calls per target before it is failed.
    pub max_attempts: u32,
    /// The first backoff; it doubles per attempt.
    pub base_backoff_ms: u64,
    /// How long a runner's claim on a target is honoured.
    pub claim_lease_secs: u64,
    /// The IANA zone that calendars are shown in.
    pub timezone: String,
    /// Whether a post over a limit is blocked, or only warned about.
    pub enforce_platform_limits: bool,
}

impl Default for SocialSettings {
    fn default() -> (r: Self)
        ensures
            r.scheduler_enabled,
            r.poll_interval_secs == 30,
            r.max_attempts == 3,
            r.base_backoff_ms == 1000,
            r.claim_lease_secs == 300,
            r.timezone@ == "UTC"@,
            r.enforce_platform_limits,
    {
        Self {
            scheduler_enabled: true,
            poll_interval_secs: 30,
            max_attempts: 3,
            base_backoff_ms: 1_000,
            claim_lease_secs: 300,
            timezone: "UTC".to_owned(),
            enforce_platform_limits: true,
        }
    }
}

/// Only a type that starts with `video/` is a video's.
pub proof fn a_type_tells_a_video(rest: Seq<char>, mime: Seq<char>)
    ensures
        MediaKind::of_mime(Some("video/"@ + rest)) == MediaKind::Video,
        MediaKind::of_mime(Some(mime)) == MediaKind::Video ==> mime.len() >= 6 && mime.take(6)
            == "video/"@,
        MediaKind::of_mime(None) == MediaKind::Image,
{
    reveal_strlit("video/");
    assert("video/"@.len() == 6);
    assert(("video/"@ + rest).subrange(0, 6) =~= "video/"@);
    if MediaKind::of_mime(Some(mime)) == MediaKind::Video {
        assert(mime.take(6) =~= mime.subrange(0, 6));
    }
}

} // verus!
