//! The states a post, one of its targets, a history entry and an inbox item can
//! be in, and how posts move between theirs.
use vstd::prelude::*;
use crate::text::text_eq;

verus! {

/// The life of a scheduled post.
#[derive(Debug, Clone, Copy, PartialEq, Eq, Structural)]
pub enum PostStatus {
    /// Queued; eligible for the sweep.
    Scheduled,
    /// Claimed by the sweep, waiting for the runner.
    Due,
    /// Claimed by the runner, which works through its targets.
    Publishing,
    /// Every target published.
    Published,
    /// Some targets published, some did not.
    Partial,
    /// No target published, or there was none.
    Failed,
    /// Cancelled before publishing started.
    Cancelled,
}

impl PostStatus {
    pub open spec fn name(self) -> Seq<char> {
        match self {
            Self::Scheduled => "scheduled"@,
            Self::Due => "due"@,
            Self::Publishing => "publishing"@,
            Self::Published => "published"@,
            Self::Partial => "partial"@,
            Self::Failed => "failed"@,
            Self::Cancelled => "cancelled"@,
        }
    }

    /// The status a stored value stands for; an unknown one reads as failed.
    pub open spec fn named(s: Seq<char>) -> Self {
        if s == "scheduled"@ {
            Self::Scheduled
        } else if s == "due"@ {
            Self::Due
        } else if s == "publishing"@ {
            Self::Publishing
        } else if s == "published"@ {
            Self::Published
        } else if s == "partial"@ {
            Self::Partial
        } else if s == "cancelled"@ {
            Self::Cancelled
        } else {
            Self::Failed
        }
    }

    pub open spec fn terminal(self) -> bool {
        self == Self::Published || self == Self::Partial || self == Self::Failed || self
            == Self::Cancelled
    }

    /// The legal moves.
    pub open spec fn may_become(self, next: Self) -> bool {
        match self {
            // The sweep claims it; rescheduling keeps it; cancelling ends it.
            Self::Scheduled => next == Self::Due || next == Self::Scheduled || next
                == Self::Cancelled,
            // The runner claims it; cancelling ends it.
            Self::Due => next == Self::Publishing || next == Self::Cancelled,
            // An expired lease returns it; otherwise it settles.
            Self::Publishing => next == Self::Due || next == Self::Published || next
                == Self::Partial || next == Self::Failed,
            // A user's retry.
            Self::Partial | Self::Failed => next == Self::Due,
            Self::Published | Self::Cancelled => false,
        }
    }

    pub fn as_str(self) -> (r: &'static str)
        ensures
            r@ == self.name(),
    {
        match self {
            Self::Scheduled => "scheduled",
            Self::Due => "due",
            Self::Publishing => "publishing",
            Self::Published => "published",
            Self::Partial => "partial",
            Self::Failed => "failed",
            Self::Cancelled => "cancelled",
        }
    }

    /// Tolerant parse of a stored value.
    pub fn from_db(s: &str) -> (r: Self)
        ensures
            r == Self::named(s@),
    {
        if text_eq(s, "scheduled") {
            Self::Scheduled
        } else if text_eq(s, "due") {
            Self::Due
        } else if text_eq(s, "publishing") {
            Self::Publishing
        } else if text_eq(s, "published") {
            Self::Published
        } else if text_eq(s, "partial") {
            Self::Partial
        } else if text_eq(s, "cancelled") {
            Self::Cancelled
        } else {
            Self::Failed
        }
    }

    /// Nothing moves out of these by itself.
    pub fn is_terminal(self) -> (r: bool)
        ensures
            r == self.terminal(),
    {
        matches!(self, Self::Published | Self::Partial | Self::Failed | Self::Cancelled)
    }

    /// Whether the runner still owes this post work.
    pub fn is_active(self) -> (r: bool)
        ensures
            r == !self.terminal(),
    {
        matches!(self, Self::Scheduled | Self::Due | Self::Publishing)
    }

    pub fn can_transition_to(self, next: Self) -> (r: bool)
        ensures
            r == self.may_become(next),
    {
        match (self, next) {
            (Self::Scheduled, Self::Due) => true,
            (Self::Scheduled, Self::Scheduled) => true,
            (Self::Due, Self::Publishing) => true,
            (Self::Publishing, Self::Due) => true,
            (Self::Publishing, Self::Published | Self::Partial | Self::Failed) => true,
            (Self::Partial | Self::Failed, Self::Due) => true,
            (Self::Scheduled | Self::Due, Self::Cancelled) => true,
            _ => false,
        }
    }
}

proof fn reveal_status_names()
    ensures
        "scheduled"@.len() == 9 && "scheduled"@[0] == 's',
        "due"@.len() == 3 && "due"@[0] == 'd',
        "publishing"@.len() == 10 && "publishing"@[0] == 'p',
        "published"@.len() == 9 && "published"@[0] == 'p',
        "partial"@.len() == 7 && "partial"@[0] == 'p',
        "failed"@.len() == 6 && "failed"@[0] == 'f',
        "cancelled"@.len() == 9 && "cancelled"@[0] == 'c',
        "pending"@.len() == 7 && "pending"@[0] == 'p',
        "comment"@.len() == 7 && "comment"@[0] == 'c',
        "reply"@.len() == 5 && "reply"@[0] == 'r',
        "mention"@.len() == 7 && "mention"@[0] == 'm',
        "dm"@.len() == 2 && "dm"@[0] == 'd',
{
    reveal_strlit("scheduled");
    reveal_strlit("due");
    reveal_strlit("publishing");
    reveal_strlit("published");
    reveal_strlit("partial");
    reveal_strlit("failed");
    reveal_strlit("cancelled");
    reveal_strlit("pending");
    reveal_strlit("comment");
    reveal_strlit("reply");
    reveal_strlit("mention");
    reveal_strlit("dm");
}

/// A stored status reads back as itself.
pub proof fn post_status_round_trip(p: PostStatus)
    ensures
        PostStatus::named(p.name()) == p,
{
    reveal_status_names();
}

/// A terminal post leaves its state only by a retry, and only where it did not
/// fully publish and was not cancelled.
pub proof fn terminal_posts_leave_only_by_retry(p: PostStatus, next: PostStatus)
    requires
        p.terminal(),
        p.may_become(next),
    ensures
        next == PostStatus::Due,
        p == PostStatus::Partial || p == PostStatus::Failed,
{
}

/// A post is cancelled only before a provider was contacted.
pub proof fn cancelling_comes_before_publishing(p: PostStatus)
    requires
        p.may_become(PostStatus::Cancelled),
    ensures
        p == PostStatus::Scheduled || p == PostStatus::Due,
{
}

/// A post reaches a settled state only out of publishing.
pub proof fn posts_settle_only_out_of_publishing(p: PostStatus, next: PostStatus)
    requires
        p.may_become(next),
        next == PostStatus::Published || next == PostStatus::Partial || next == PostStatus::Failed,
    ensures
        p == PostStatus::Publishing,
{
}

/// The life of one target: one post on one account.
#[derive(Debug, Clone, Copy, PartialEq, Eq, Structural)]
pub enum TargetStatus {
    Pending,
    Publishing,
    Published,
    Failed,
    Cancelled,
}

impl TargetStatus {
    pub open spec fn name(self) -> Seq<char> {
        match self {
            Self::Pending => "pending"@,
            Self::Publishing => "publishing"@,
            Self::Published => "published"@,
            Self::Failed => "failed"@,
            Self::Cancelled => "cancelled"@,
        }
    }

    pub open spec fn named(s: Seq<char>) -> Self {
        if s == "pending"@ {
            Self::Pending
        } else if s == "publishing"@ {
            Self::Publishing
        } else if s == "published"@ {
            Self::Published
        } else if s == "cancelled"@ {
            Self::Cancelled
        } else {
            Self::Failed
        }
    }

    pub open spec fn terminal(self) -> bool {
        self == Self::Published || self == Self::Failed || self == Self::Cancelled
    }

    pub fn as_str(self) -> (r: &'static str)
        ensures
            r@ == self.name(),
    {
        match self {
            Self::Pending => "pending",
            Self::Publishing => "publishing",
            Self::Published => "published",
            Self::Failed => "failed",
            Self::Cancelled => "cancelled",
        }
    }

    /// Tolerant parse of a stored value; an unknown one reads as failed.
    pub fn from_db(s: &str) -> (r: Self)
        ensures
            r == Self::named(s@),
    {
        if text_eq(s, "pending") {
            Self::Pending
        } else if text_eq(s, "publishing") {
            Self::Publishing
        } else if text_eq(s, "published") {
            Self::Published
        } else if text_eq(s, "cancelled") {
            Self::Cancelled
        } else {
            Self::Failed
        }
    }

    pub fn is_terminal(self) -> (r: bool)
        ensures
            r == self.terminal(),
    {
        matches!(self, Self::Published | Self::Failed | Self::Cancelled)
    }
}

/// A stored target status reads back as itself.
pub proof fn target_status_round_trip(t: TargetStatus)
    ensures
        TargetStatus::named(t.name()) == t,
{
    reveal_status_names();
}

/// How one publish run of one target ended.
#[derive(Debug, Clone, Copy, PartialEq, Eq, Structural)]
pub enum HistoryStatus {
    Published,
    Failed,
}

impl HistoryStatus {
    pub open spec fn name(self) -> Seq<char> {
        match self {
            Self::Published => "published"@,
            Self::Failed => "failed"@,
        }
    }

    pub fn as_str(self) -> (r: &'static str)
        ensures
            r@ == self.name(),
    {
        match self {
            Self::Published => "published",
            Self::Failed => "failed",
        }
    }

    pub fn from_db(s: &str) -> (r: Self)
        ensures
            r == (if s@ == "published"@ {
                Self::Published
            } else {
                Self::Failed
            }),
    {
        if text_eq(s, "published") {
            Self::Published
        } else {
            Self::Failed
        }
    }
}

/// What an inbox item is.
#[derive(Debug, Clone, Copy, PartialEq, Eq, Structural)]
pub enum InboxKind {
    Comment,
    Reply,
    Mention,
    Dm,
}

impl InboxKind {
    pub open spec fn name(self) -> Seq<char> {
        match self {
            Self::Comment => "comment"@,
            Self::Reply => "reply"@,
            Self::Mention => "mention"@,
            Self::Dm => "dm"@,
        }
    }

    pub open spec fn named(s: Seq<char>) -> Self {
        if s == "reply"@ {
            Self::Reply
        } else if s == "mention"@ {
            Self::Mention
        } else if s == "dm"@ {
            Self::Dm
        } else {
            Self::Comment
        }
    }

    pub fn as_str(self) -> (r: &'static str)
        ensures
            r@ == self.name(),
    {
        match self {
            Self::Comment => "comment",
            Self::Reply => "reply",
            Self::Mention => "mention",
            Self::Dm => "dm",
        }
    }

    /// Tolerant parse; an unknown kind reads as a comment.
    pub fn from_db(s: &str) -> (r: Self)
        ensures
            r == Self::named(s@),
    {
        if text_eq(s, "reply") {
            Self::Reply
        } else if text_eq(s, "mention") {
            Self::Mention
        } else if text_eq(s, "dm") {
            Self::Dm
        } else {
            Self::Comment
        }
    }
}

/// A stored kind reads back as itself.
pub proof fn inbox_kind_round_trip(k: InboxKind)
    ensures
        InboxKind::named(k.name()) == k,
{
    reveal_status_names();
}

/// A post is over exactly when it is published, partial, failed or cancelled. Only a
/// due post is taken by a runner; a post comes due out of the schedule, out of
/// publishing, or after it ended short of published; and only a scheduled post is
/// scheduled again.
pub proof fn a_post_moves_as_its_life_goes(p: PostStatus, next: PostStatus)
    ensures
        !p.terminal() <==> p == PostStatus::Scheduled || p == PostStatus::Due || p
            == PostStatus::Publishing,
        next == PostStatus::Publishing ==> (p.may_become(next) <==> p == PostStatus::Due),
        next == PostStatus::Due ==> (p.may_become(next) <==> p == PostStatus::Scheduled || p
            == PostStatus::Publishing || p == PostStatus::Partial || p == PostStatus::Failed),
        next == PostStatus::Scheduled ==> (p.may_become(next) <==> p == PostStatus::Scheduled),
        next == PostStatus::Cancelled ==> (p.may_become(next) <==> p == PostStatus::Scheduled || p
            == PostStatus::Due),
        next == PostStatus::Published || next == PostStatus::Partial || next == PostStatus::Failed
            ==> (p.may_become(next) <==> p == PostStatus::Publishing),
{
}

/// A target is over exactly when it is published, failed or cancelled.
pub proof fn a_target_is_open_until_it_is_over(t: TargetStatus)
    ensures
        !t.terminal() <==> t == TargetStatus::Pending || t == TargetStatus::Publishing,
{
}

/// A stored value that is none of the names reads as failed, and an unknown kind as a
/// comment.
pub proof fn an_unknown_name_reads_as_the_safe_one(s: Seq<char>)
    ensures
        (forall|p: PostStatus| s != #[trigger] p.name()) ==> PostStatus::named(s)
            == PostStatus::Failed,
        (forall|t: TargetStatus| s != #[trigger] t.name()) ==> TargetStatus::named(s)
            == TargetStatus::Failed,
        (forall|k: InboxKind| s != #[trigger] k.name()) ==> InboxKind::named(s)
            == InboxKind::Comment,
{
    if forall|p: PostStatus| s != #[trigger] p.name() {
        assert(s != PostStatus::Scheduled.name() && s != PostStatus::Due.name() && s
            != PostStatus::Publishing.name() && s != PostStatus::Published.name() && s
            != PostStatus::Partial.name() && s != PostStatus::Cancelled.name());
    }
    if forall|t: TargetStatus| s != #[trigger] t.name() {
        assert(s != TargetStatus::Pending.name() && s != TargetStatus::Publishing.name() && s
            != TargetStatus::Published.name() && s != TargetStatus::Cancelled.name());
    }
    if forall|k: InboxKind| s != #[trigger] k.name() {
        assert(s != InboxKind::Reply.name() && s != InboxKind::Mention.name() && s
            != InboxKind::Dm.name());
    }
}

} // verus!
