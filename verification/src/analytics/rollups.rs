//! Projections over the stored rows: totals, per platform, per local day, the best
//! posts and the posting cadence.
use vstd::prelude::*;
use crate::analytics;
use crate::analytics::item_engagement;
use crate::clock;
use crate::clock::{ce_day_label, local_parts};
use crate::lists;
use crate::platform::Platform;
use crate::rank;
use crate::rank::{sort_ranked, Ranked};
use crate::records::ActivityItem;
use crate::text;
use crate::text::is_text_le;

verus! {

/// Dated posts needed before a cadence counts as observed.
pub const MIN_CADENCE_SAMPLE: usize = 4;

/// How many posts the best-performing list holds.
pub const TOP_POSTS: usize = 10;

// ── Totals ─────────────────────────────────────────────────────────────────────

/// Sums over a set of posts.
#[derive(Debug, Clone, Copy, PartialEq, Eq, Structural)]
pub struct EngagementTotals {
    pub posts: usize,
    pub likes: u64,
    pub comments: u64,
    pub shares: u64,
    pub views: u64,
    /// Likes, comments and shares.
    pub engagement: u64,
}

/// The sums as numbers without bounds.
pub struct Totals {
    pub posts: nat,
    pub likes: nat,
    pub comments: nat,
    pub shares: nat,
    pub views: nat,
    pub engagement: nat,
}

impl Totals {
    pub open spec fn zero() -> Self {
        Totals { posts: 0, likes: 0, comments: 0, shares: 0, views: 0, engagement: 0 }
    }

    pub open spec fn with(self, item: ActivityItem) -> Self {
        Totals {
            posts: self.posts + 1,
            likes: self.likes + item.likes as nat,
            comments: self.comments + item.comments as nat,
            shares: self.shares + item.shares as nat,
            views: self.views + item.views as nat,
            engagement: self.engagement + analytics::engagement_of(item),
        }
    }

    pub open spec fn and(self, other: Self) -> Self {
        Totals {
            posts: self.posts + other.posts,
            likes: self.likes + other.likes,
            comments: self.comments + other.comments,
            shares: self.shares + other.shares,
            views: self.views + other.views,
            engagement: self.engagement + other.engagement,
        }
    }

    pub open spec fn within(self, other: Self) -> bool {
        &&& self.posts <= other.posts
        &&& self.likes <= other.likes
        &&& self.comments <= other.comments
        &&& self.shares <= other.shares
        &&& self.views <= other.views
        &&& self.engagement <= other.engagement
    }

    /// In machine words, where the sums fit.
    pub open spec fn exact(self) -> EngagementTotals {
        EngagementTotals {
            posts: self.posts as usize,
            likes: self.likes as u64,
            comments: self.comments as u64,
            shares: self.shares as u64,
            views: self.views as u64,
            engagement: self.engagement as u64,
        }
    }
}

impl View for EngagementTotals {
    type V = Totals;

    open spec fn view(&self) -> Totals {
        Totals {
            posts: self.posts as nat,
            likes: self.likes as nat,
            comments: self.comments as nat,
            shares: self.shares as nat,
            views: self.views as nat,
            engagement: self.engagement as nat,
        }
    }
}

pub open spec fn totals_of(items: Seq<ActivityItem>) -> Totals
    decreases items.len(),
{
    if items.len() == 0 {
        Totals::zero()
    } else {
        totals_of(items.drop_last()).with(items.last())
    }
}

/// Whether the sums over these posts fit in machine words.
pub open spec fn summable(items: Seq<ActivityItem>) -> bool {
    &&& totals_of(items).engagement <= u64::MAX
    &&& totals_of(items).views <= u64::MAX
    &&& items.len() <= u32::MAX
}

proof fn lemma_totals_bounds(items: Seq<ActivityItem>)
    ensures
        totals_of(items).posts == items.len(),
        totals_of(items).engagement == totals_of(items).likes + totals_of(items).comments
            + totals_of(items).shares,
    decreases items.len(),
{
    if items.len() > 0 {
        lemma_totals_bounds(items.drop_last());
    }
}

proof fn lemma_totals_prefix(items: Seq<ActivityItem>, i: int)
    requires
        0 <= i <= items.len(),
    ensures
        totals_of(items.take(i)).within(totals_of(items)),
    decreases items.len(),
{
    if i == items.len() {
        assert(items.take(i) =~= items);
    } else {
        lemma_totals_prefix(items.drop_last(), i);
        assert(items.drop_last().take(i) =~= items.take(i));
    }
}

impl Default for EngagementTotals {
    fn default() -> (r: Self)
        ensures
            r@ == Totals::zero(),
            r == Totals::zero().exact(),
    {
        EngagementTotals { posts: 0, likes: 0, comments: 0, shares: 0, views: 0, engagement: 0 }
    }
}

impl EngagementTotals {
    /// One more post.
    fn count(&mut self, item: &ActivityItem)
        requires
            old(self)@.with(*item).posts <= usize::MAX,
            old(self)@.with(*item).likes <= u64::MAX,
            old(self)@.with(*item).comments <= u64::MAX,
            old(self)@.with(*item).shares <= u64::MAX,
            old(self)@.with(*item).views <= u64::MAX,
            old(self)@.with(*item).engagement <= u64::MAX,
        ensures
            final(self)@ == old(self)@.with(*item),
    {
        self.posts = self.posts + 1;
        self.likes = self.likes + item.likes;
        self.comments = self.comments + item.comments;
        self.shares = self.shares + item.shares;
        self.views = self.views + item.views;
        self.engagement = self.engagement + item_engagement(item);
    }
}

/// Whether the sums over these posts fit in machine words.
pub fn can_roll_up(items: &[ActivityItem]) -> (r: bool)
    ensures
        r == summable(items@),
{
    if items.len() > u32::MAX as usize {
        return false;
    }
    let mut engagement: u128 = 0;
    let mut views: u128 = 0;
    let mut i: usize = 0;
    assert(items@.take(0) =~= Seq::<ActivityItem>::empty());
    while i < items.len()
        invariant
            i <= items.len() <= u32::MAX,
            engagement == totals_of(items@.take(i as int)).engagement,
            views == totals_of(items@.take(i as int)).views,
            engagement <= 3 * (u64::MAX as int) * i,
            views <= (u64::MAX as int) * i,
        decreases items.len() - i,
    {
        proof {
            assert(items@.take(i as int + 1).drop_last() =~= items@.take(i as int));
            assert(3 * (u64::MAX as int) * i <= 3 * (u64::MAX as int) * (u32::MAX as int))
                by (nonlinear_arith)
                requires
                    0 <= i <= u32::MAX as int,
            ;
            assert(3 * (u64::MAX as int) * (i + 1) == 3 * (u64::MAX as int) * i + 3 * (
            u64::MAX as int)) by (nonlinear_arith);
            assert((u64::MAX as int) * (i + 1) == (u64::MAX as int) * i + u64::MAX)
                by (nonlinear_arith);
        }
        engagement = engagement + items[i].likes as u128 + items[i].comments as u128
            + items[i].shares as u128;
        views = views + items[i].views as u128;
        i = i + 1;
    }
    assert(items@.take(items@.len() as int) =~= items@);
    engagement <= u64::MAX as u128 && views <= u64::MAX as u128
}

fn sum_up(items: &[ActivityItem]) -> (r: EngagementTotals)
    requires
        summable(items@),
    ensures
        r@ == totals_of(items@),
{
    let mut totals = EngagementTotals::default();
    let mut i: usize = 0;
    assert(items@.take(0) =~= Seq::<ActivityItem>::empty());
    while i < items.len()
        invariant
            i <= items.len(),
            summable(items@),
            totals@ == totals_of(items@.take(i as int)),
        decreases items.len() - i,
    {
        proof {
            assert(items@.take(i as int + 1).drop_last() =~= items@.take(i as int));
            lemma_totals_prefix(items@, i as int + 1);
            lemma_totals_bounds(items@.take(i as int + 1));
        }
        totals.count(&items[i]);
        i = i + 1;
    }
    assert(items@.take(items@.len() as int) =~= items@);
    totals
}

// ── Groups ─────────────────────────────────────────────────────────────────────

/// What posts can be grouped by.
pub trait GroupKey: Copy {
    fn same(&self, other: &Self) -> (r: bool)
        ensures
            r == (*self == *other),
    ;
}

impl GroupKey for Platform {
    fn same(&self, other: &Self) -> (r: bool) {
        *self == *other
    }
}

impl GroupKey for i32 {
    fn same(&self, other: &Self) -> (r: bool) {
        *self == *other
    }
}

/// The sums over the posts of one key.
#[derive(Debug, Clone, Copy)]
pub struct Group<K> {
    pub key: K,
    pub totals: EngagementTotals,
}

/// The keys that are there, in order.
pub open spec fn present<K>(keys: Seq<Option<K>>) -> Seq<K>
    decreases keys.len(),
{
    if keys.len() == 0 {
        Seq::empty()
    } else {
        match keys.last() {
            Some(k) => present(keys.drop_last()).push(k),
            None => present(keys.drop_last()),
        }
    }
}

/// The posts of one key, in order. Each post's key stands at its place among the keys.
pub open spec fn members<K>(items: Seq<ActivityItem>, keys: Seq<Option<K>>, k: K) -> Seq<
    ActivityItem,
>
    decreases items.len(),
{
    if items.len() == 0 {
        items
    } else if keys.last() == Some(k) {
        members(items.drop_last(), keys.drop_last(), k).push(items.last())
    } else {
        members(items.drop_last(), keys.drop_last(), k)
    }
}

/// One group for each key that occurs, in the order of first occurrence.
pub open spec fn groups<K>(items: Seq<ActivityItem>, keys: Seq<Option<K>>) -> Seq<Group<K>> {
    lists::deduped(present(keys)).map_values(
        |k: K| Group { key: k, totals: totals_of(members(items, keys, k)).exact() },
    )
}

proof fn lemma_members_within<K>(items: Seq<ActivityItem>, keys: Seq<Option<K>>, k: K)
    requires
        items.len() == keys.len(),
    ensures
        totals_of(members(items, keys, k)).within(totals_of(items)),
        !present(keys).contains(k) ==> members(items, keys, k).len() == 0,
    decreases items.len(),
{
    if items.len() > 0 {
        let init = keys.drop_last();
        lemma_members_within(items.drop_last(), init, k);
        let m = members(items.drop_last(), init, k);
        assert(m.push(items.last()).drop_last() =~= m);
        if !present(keys).contains(k) {
            let p = present(init);
            if p.contains(k) {
                let i = choose|i: int| 0 <= i < p.len() && p[i] == k;
                assert(present(keys)[i] == k);
            }
            if keys.last() == Some(k) {
                assert(present(keys)[p.len() as int] == k);
            }
        }
    }
}

/// The place of a key among the groups.
fn find_group<K: GroupKey>(groups: &Vec<Group<K>>, k: &K) -> (r: Option<usize>)
    ensures
        match r {
            Some(j) => j < groups.len() && groups@[j as int].key == *k,
            None => forall|j: int| 0 <= j < groups.len() ==> (#[trigger] groups@[j]).key != *k,
        },
{
    let mut j: usize = 0;
    while j < groups.len()
        invariant
            j <= groups.len(),
            forall|l: int| 0 <= l < j ==> (#[trigger] groups@[l]).key != *k,
        decreases groups.len() - j,
    {
        if groups[j].key.same(k) {
            return Some(j);
        }
        j = j + 1;
    }
    None
}

proof fn lemma_groups_other<K>(items: Seq<ActivityItem>, keys: Seq<Option<K>>, k: K)
    requires
        items.len() == keys.len(),
        items.len() > 0,
        keys.last() != Some(k),
    ensures
        members(items, keys, k) == members(items.drop_last(), keys.drop_last(), k),
{
}

/// One post more: its group grows, or a group begins.
proof fn lemma_groups_step<K>(items: Seq<ActivityItem>, keys: Seq<Option<K>>, item: ActivityItem, k: K)
    requires
        items.len() == keys.len(),
    ensures
        ({
            let g = groups(items, keys);
            let h = groups(items.push(item), keys.push(Some(k)));
            &&& forall|j: int|
                0 <= j < g.len() && (#[trigger] g[j]).key == k ==> h == g.update(
                    j,
                    Group {
                        key: k,
                        totals: totals_of(members(items, keys, k)).with(item).exact(),
                    },
                )
            &&& (forall|j: int| 0 <= j < g.len() ==> (#[trigger] g[j]).key != k) ==> {
                &&& h == g.push(Group { key: k, totals: Totals::zero().with(item).exact() })
                &&& totals_of(members(items, keys, k)) == Totals::zero()
            }
        }),
{
    let its = items.push(item);
    let kys = keys.push(Some(k));
    assert(its.drop_last() =~= items);
    assert(kys.drop_last() =~= keys);
    let d = lists::deduped(present(keys));
    let e = lists::deduped(present(kys));
    let g = groups(items, keys);
    let h = groups(its, kys);
    assert(present(kys).drop_last() =~= present(keys));
    let m = members(items, keys, k);
    assert(members(its, kys, k) == m.push(item));
    assert(m.push(item).drop_last() =~= m);
    assert(totals_of(m.push(item)) == totals_of(m).with(item));
    assert forall|o: K| o != k implies #[trigger] members(its, kys, o) == members(items, keys, o) by {
        lemma_groups_other(its, kys, o);
    }
    lists::dedup_laws(present(keys));
    lists::dedup_laws(present(kys));
    assert forall|j: int| 0 <= j < g.len() && (#[trigger] g[j]).key == k implies h == g.update(
        j,
        Group { key: k, totals: totals_of(m).with(item).exact() },
    ) by {
        assert(d[j] == k);
        assert(d.contains(k));
        assert(e == d);
        assert forall|l: int| 0 <= l < d.len() && l != j implies d[l] != k by {
            assert(d[l] != d[j]);
        }
        assert(h =~= g.update(j, Group { key: k, totals: totals_of(m).with(item).exact() }));
    }
    if forall|j: int| 0 <= j < g.len() ==> (#[trigger] g[j]).key != k {
        assert(!d.contains(k)) by {
            if d.contains(k) {
                let j = choose|j: int| 0 <= j < d.len() && d[j] == k;
                assert(g[j].key == k);
            }
        }
        assert(e == d.push(k));
        lemma_members_within(items, keys, k);
        assert(m.len() == 0);
        assert forall|l: int| 0 <= l < d.len() implies d[l] != k by {
            assert(g[l].key != k);
        }
        assert(h =~= g.push(Group { key: k, totals: Totals::zero().with(item).exact() }));
    }
}

/// The groups of the posts.
#[verifier::rlimit(40)]
fn group_up<K: GroupKey>(items: &[ActivityItem], keys: &Vec<Option<K>>) -> (r: Vec<Group<K>>)
    requires
        summable(items@),
        items@.len() == keys@.len(),
    ensures
        r@ == groups(items@, keys@),
{
    let mut out: Vec<Group<K>> = Vec::new();
    let mut i: usize = 0;
    proof {
        assert(present(keys@.take(0)) =~= Seq::<K>::empty());
        assert(groups(items@.take(0), keys@.take(0)) =~= Seq::<Group<K>>::empty());
    }
    while i < items.len()
        invariant
            i <= items.len(),
            items@.len() == keys@.len(),
            summable(items@),
            out@ == groups(items@.take(i as int), keys@.take(i as int)),
        decreases items.len() - i,
    {
        let ghost its = items@.take(i as int);
        let ghost kys = keys@.take(i as int);
        let ghost next = items@.take(i as int + 1);
        proof {
            assert(next =~= its.push(items@[i as int]));
            assert(keys@.take(i as int + 1) =~= kys.push(keys@[i as int]));
            assert(next.drop_last() =~= its);
            assert(kys.push(keys@[i as int]).drop_last() =~= kys);
            lemma_totals_prefix(items@, i as int + 1);
            lemma_totals_bounds(next);
        }
        match keys[i] {
            Some(k) => {
                proof {
                    lemma_groups_step(its, kys, items@[i as int], k);
                    lemma_members_within(its, kys, k);
                }
                match find_group(&out, &k) {
                    Some(j) => {
                        let mut t = out[j].totals;
                        proof {
                            assert(out@[j as int].key == k);
                            assert(t@ == totals_of(members(its, kys, k)));
                        }
                        t.count(&items[i]);
                        proof {
                            assert(t == t@.exact());
                        }
                        out.set(j, Group { key: k, totals: t });
                    },
                    None => {
                        let mut t = EngagementTotals::default();
                        t.count(&items[i]);
                        proof {
                            assert(t == t@.exact());
                        }
                        out.push(Group { key: k, totals: t });
                    },
                }
            },
            None => {
                proof {
                    assert(groups(next, kys.push(None::<K>)) =~= groups(its, kys)) by {
                        assert forall|o: K| #[trigger] members(next, kys.push(None::<K>), o) == members(
                            its,
                            kys,
                            o,
                        ) by {
                            lemma_groups_other(next, kys.push(None::<K>), o);
                        }
                    }
                }
            },
        }
        i = i + 1;
    }
    assert(items@.take(items@.len() as int) =~= items@);
    assert(keys@.take(items@.len() as int) =~= keys@);
    out
}

// ── Orders ─────────────────────────────────────────────────────────────────────

/// Platforms: the best engaging first, and in declaration order among equals.
impl Ranked for Group<Platform> {
    open spec fn le(self, other: Self) -> bool {
        ||| self.totals.engagement > other.totals.engagement
        ||| self.totals.engagement == other.totals.engagement && self.key.rank()
            <= other.key.rank()
    }

    proof fn le_total(a: Self, b: Self) {
    }

    proof fn le_transitive(a: Self, b: Self, c: Self) {
    }

    fn is_le(&self, other: &Self) -> (r: bool) {
        self.totals.engagement > other.totals.engagement || (self.totals.engagement
            == other.totals.engagement && self.key.order() <= other.key.order())
    }
}

/// Days: the oldest first.
impl Ranked for Group<i32> {
    open spec fn le(self, other: Self) -> bool {
        self.key <= other.key
    }

    proof fn le_total(a: Self, b: Self) {
    }

    proof fn le_transitive(a: Self, b: Self, c: Self) {
    }

    fn is_le(&self, other: &Self) -> (r: bool) {
        self.key <= other.key
    }
}

/// A time, where no time comes before every other.
pub open spec fn newness(at: Option<i64>) -> int {
    match at {
        Some(t) => t as int,
        None => i64::MIN - 1,
    }
}

/// Posts: the best engaging first, then the newest, then by id.
impl Ranked for ActivityItem {
    open spec fn le(self, other: Self) -> bool {
        let (e, f) = (analytics::engagement_of(self), analytics::engagement_of(other));
        let (a, b) = (newness(self.published_at), newness(other.published_at));
        ||| e > f
        ||| e == f && a > b
        ||| e == f && a == b && text::text_le(self.id@, other.id@)
    }

    proof fn le_total(a: Self, b: Self) {
        text::text_le_total(a.id@, b.id@);
    }

    proof fn le_transitive(a: Self, b: Self, c: Self) {
        if text::text_le(a.id@, b.id@) && text::text_le(b.id@, c.id@) {
            text::text_le_transitive(a.id@, b.id@, c.id@);
        }
    }

    fn is_le(&self, other: &Self) -> (r: bool) {
        let e: u128 = wide_engagement(self);
        let f: u128 = wide_engagement(other);
        if e != f {
            return e > f;
        }
        match (self.published_at, other.published_at) {
            (Some(a), Some(b)) => if a != b {
                a > b
            } else {
                is_text_le(self.id.as_str(), other.id.as_str())
            },
            (Some(_), None) => true,
            (None, Some(_)) => false,
            (None, None) => is_text_le(self.id.as_str(), other.id.as_str()),
        }
    }
}

fn wide_engagement(item: &ActivityItem) -> (r: u128)
    ensures
        r == analytics::engagement_of(*item),
{
    item.likes as u128 + item.comments as u128 + item.shares as u128
}

// ── Cadence ────────────────────────────────────────────────────────────────────

/// How far a cadence can be trusted.
#[derive(Debug, Clone, Copy, PartialEq, Eq, Structural)]
pub enum Basis {
    /// Enough dated posts to describe a habit.
    Observed,
    /// Fewer than [`MIN_CADENCE_SAMPLE`]: no pattern is claimed.
    Insufficient,
}

/// When a workspace posts.
#[derive(Debug, Clone, Copy, PartialEq, Eq)]
pub struct CadenceSummary {
    /// Posts with a known time.
    pub dated_posts: usize,
    pub first_published_at: Option<i64>,
    pub last_published_at: Option<i64>,
    /// Local days from the first to the last post, both counted.
    pub days_covered: u32,
    /// Posts by local day of the week, Monday first.
    pub by_day_of_week: [u32; 7],
    /// Posts by local hour.
    pub by_hour: [u32; 24],
    /// The fullest day and hour; the earliest among equals, none where nothing is dated.
    pub busiest_day_of_week: Option<u8>,
    pub busiest_hour: Option<u32>,
    pub basis: Basis,
}

/// The times that can be read in local days and hours, in order.
pub open spec fn dated(items: Seq<ActivityItem>, offset: i32) -> Seq<i64>
    decreases items.len(),
{
    if items.len() == 0 {
        Seq::empty()
    } else {
        let init = dated(items.drop_last(), offset);
        match items.last().published_at {
            Some(at) => if clock::readable(at, offset) {
                init.push(at)
            } else {
                init
            },
            None => init,
        }
    }
}

/// How many of the times fall on a day of the week.
pub open spec fn on_weekday(times: Seq<i64>, offset: i32, day: int) -> nat
    decreases times.len(),
{
    if times.len() == 0 {
        0
    } else {
        let n = on_weekday(times.drop_last(), offset, day);
        if clock::weekday_of(clock::shifted(times.last(), offset)) == day {
            n + 1
        } else {
            n
        }
    }
}

/// How many of the times fall in an hour of the day.
pub open spec fn in_hour(times: Seq<i64>, offset: i32, hour: int) -> nat
    decreases times.len(),
{
    if times.len() == 0 {
        0
    } else {
        let n = in_hour(times.drop_last(), offset, hour);
        if clock::hour_of(clock::shifted(times.last(), offset)) == hour {
            n + 1
        } else {
            n
        }
    }
}

pub open spec fn is_earliest(times: Seq<i64>, t: Option<i64>) -> bool {
    match t {
        Some(a) => times.contains(a) && forall|i: int| 0 <= i < times.len() ==> a <= #[trigger] times[i],
        None => times.len() == 0,
    }
}

pub open spec fn is_latest(times: Seq<i64>, t: Option<i64>) -> bool {
    match t {
        Some(a) => times.contains(a) && forall|i: int| 0 <= i < times.len() ==> a >= #[trigger] times[i],
        None => times.len() == 0,
    }
}

/// The place of the largest count: the first of them, none where all are zero.
pub open spec fn is_modal(counts: Seq<u32>, at: Option<int>) -> bool {
    match at {
        Some(i) => {
            &&& 0 <= i < counts.len()
            &&& counts[i] > 0
            &&& forall|j: int| 0 <= j < counts.len() ==> #[trigger] counts[j] <= counts[i]
            &&& forall|j: int| 0 <= j < i ==> #[trigger] counts[j] < counts[i]
        },
        None => forall|j: int| 0 <= j < counts.len() ==> #[trigger] counts[j] == 0,
    }
}

pub fn modal_index(counts: &[u32]) -> (r: Option<usize>)
    ensures
        is_modal(
            counts@,
            match r {
                Some(i) => Some(i as int),
                None => None,
            },
        ),
{
    let mut best: Option<usize> = None;
    let mut i: usize = 0;
    while i < counts.len()
        invariant
            i <= counts.len(),
            match best {
                Some(b) => {
                    &&& b < i
                    &&& counts@[b as int] > 0
                    &&& forall|j: int| 0 <= j < i ==> #[trigger] counts@[j] <= counts@[b as int]
                    &&& forall|j: int| 0 <= j < b ==> #[trigger] counts@[j] < counts@[b as int]
                },
                None => forall|j: int| 0 <= j < i ==> #[trigger] counts@[j] == 0,
            },
        decreases counts.len() - i,
    {
        let beats = match best {
            Some(b) => counts[i] > counts[b],
            None => true,
        };
        if counts[i] > 0 && beats {
            best = Some(i);
        }
        i = i + 1;
    }
    best
}

/// What the cadence of these times is.
pub open spec fn cadence_shows(c: CadenceSummary, times: Seq<i64>, offset: i32) -> bool {
    &&& c.dated_posts == times.len()
    &&& is_earliest(times, c.first_published_at)
    &&& is_latest(times, c.last_published_at)
    &&& c.days_covered == match (c.first_published_at, c.last_published_at) {
        (Some(a), Some(b)) => clock::ce_day_of(clock::shifted(b, offset)) - clock::ce_day_of(
            clock::shifted(a, offset),
        ) + 1,
        _ => 0,
    }
    &&& forall|d: int|
        0 <= d < 7 ==> #[trigger] c.by_day_of_week@[d] == on_weekday(times, offset, d)
    &&& forall|h: int| 0 <= h < 24 ==> #[trigger] c.by_hour@[h] == in_hour(times, offset, h)
    &&& is_modal(
        c.by_day_of_week@,
        match c.busiest_day_of_week {
            Some(d) => Some(d as int),
            None => None,
        },
    )
    &&& is_modal(
        c.by_hour@,
        match c.busiest_hour {
            Some(h) => Some(h as int),
            None => None,
        },
    )
    &&& c.basis == if times.len() >= MIN_CADENCE_SAMPLE {
        Basis::Observed
    } else {
        Basis::Insufficient
    }
}

fn dated_times(items: &[ActivityItem], offset: i32) -> (r: Vec<i64>)
    ensures
        r@ == dated(items@, offset),
        r@.len() <= items@.len(),
        forall|i: int| 0 <= i < r@.len() ==> clock::readable(#[trigger] r@[i], offset),
{
    let mut out: Vec<i64> = Vec::new();
    let mut i: usize = 0;
    assert(items@.take(0) =~= Seq::<ActivityItem>::empty());
    while i < items.len()
        invariant
            i <= items.len(),
            out@.len() <= i,
            out@ == dated(items@.take(i as int), offset),
            forall|j: int| 0 <= j < out@.len() ==> clock::readable(#[trigger] out@[j], offset),
        decreases items.len() - i,
    {
        assert(items@.take(i as int + 1).drop_last() =~= items@.take(i as int));
        match items[i].published_at {
            Some(at) => {
                match local_parts(at, offset) {
                    Some(_) => {
                        out.push(at);
                    },
                    None => {},
                }
            },
            None => {},
        }
        i = i + 1;
    }
    assert(items@.take(items@.len() as int) =~= items@);
    out
}

proof fn lemma_counts_bound(times: Seq<i64>, offset: i32, k: int)
    ensures
        on_weekday(times, offset, k) <= times.len(),
        in_hour(times, offset, k) <= times.len(),
    decreases times.len(),
{
    if times.len() > 0 {
        lemma_counts_bound(times.drop_last(), offset, k);
    }
}

fn day_of(at: i64, offset: i32) -> (r: i32)
    requires
        clock::readable(at, offset),
    ensures
        r == clock::ce_day_of(clock::shifted(at, offset)),
        -95_746_129 <= r <= 95_745_399,
{
    proof {
        clock::parts_are_in_range(at, offset);
    }
    match local_parts(at, offset) {
        Some(p) => p.ce_day,
        None => 0,
    }
}

#[verifier::rlimit(60)]
fn cadence_of(times: &Vec<i64>, offset: i32) -> (r: CadenceSummary)
    requires
        times@.len() <= u32::MAX,
        forall|i: int| 0 <= i < times@.len() ==> clock::readable(#[trigger] times@[i], offset),
    ensures
        cadence_shows(r, times@, offset),
{
    let mut days: [u32; 7] = [0, 0, 0, 0, 0, 0, 0];
    let mut hours: [u32; 24] = [
        0, 0, 0, 0, 0, 0, 0, 0, 0, 0, 0, 0, 0, 0, 0, 0, 0, 0, 0, 0, 0, 0, 0, 0,
    ];
    let mut first: Option<i64> = None;
    let mut last: Option<i64> = None;
    let mut i: usize = 0;
    assert(times@.take(0) =~= Seq::<i64>::empty());
    while i < times.len()
        invariant
            i <= times.len() <= u32::MAX,
            forall|j: int| 0 <= j < times@.len() ==> clock::readable(#[trigger] times@[j], offset),
            is_earliest(times@.take(i as int), first),
            is_latest(times@.take(i as int), last),
            forall|d: int|
                0 <= d < 7 ==> #[trigger] days@[d] == on_weekday(
                    times@.take(i as int),
                    offset,
                    d,
                ),
            forall|h: int|
                0 <= h < 24 ==> #[trigger] hours@[h] == in_hour(times@.take(i as int), offset, h),
        decreases times.len() - i,
    {
        let at = times[i];
        let ghost before = times@.take(i as int);
        let ghost after = times@.take(i as int + 1);
        proof {
            assert(after =~= before.push(at));
            assert(after.drop_last() =~= before);
            clock::parts_are_in_range(at, offset);
            assert forall|k: int| on_weekday(before, offset, k) <= i && in_hour(before, offset, k) <= i by {
                lemma_counts_bound(before, offset, k);
            }
        }
        match local_parts(at, offset) {
            Some(p) => {
                let d: usize = p.weekday as usize;
                let h: usize = p.hour as usize;
                days[d] = days[d] + 1;
                hours[h] = hours[h] + 1;
            },
            None => {},
        }
        first = Some(
            match first {
                Some(f) => if f <= at {
                    f
                } else {
                    at
                },
                None => at,
            },
        );
        last = Some(
            match last {
                Some(l) => if l >= at {
                    l
                } else {
                    at
                },
                None => at,
            },
        );
        proof {
            lemma_earliest_push(before, at);
        }
        i = i + 1;
    }
    assert(times@.take(times@.len() as int) =~= times@);
    let days_covered: u32 = match (first, last) {
        (Some(a), Some(b)) => {
            proof {
                clock::days_follow_instants(a, b, offset);
            }
            let x = day_of(a, offset);
            let y = day_of(b, offset);
            (y - x) as u32 + 1
        },
        _ => 0,
    };
    let busiest_day = modal_index(days.as_slice());
    let busiest_hour = modal_index(hours.as_slice());
    CadenceSummary {
        dated_posts: times.len(),
        first_published_at: first,
        last_published_at: last,
        days_covered,
        by_day_of_week: days,
        by_hour: hours,
        busiest_day_of_week: match busiest_day {
            Some(d) => Some(d as u8),
            None => None,
        },
        busiest_hour: match busiest_hour {
            Some(h) => Some(h as u32),
            None => None,
        },
        basis: if times.len() >= MIN_CADENCE_SAMPLE {
            Basis::Observed
        } else {
            Basis::Insufficient
        },
    }
}

proof fn lemma_earliest_push(times: Seq<i64>, at: i64)
    ensures
        times.push(at).contains(at),
        forall|t: i64| times.contains(t) ==> times.push(at).contains(t),
{
    assert(times.push(at)[times.len() as int] == at);
    assert forall|t: i64| times.contains(t) implies times.push(at).contains(t) by {
        let k = choose|k: int| 0 <= k < times.len() && times[k] == t;
        assert(times.push(at)[k] == t);
    }
}

// ── The whole report ───────────────────────────────────────────────────────────

/// One platform's sums.
#[derive(Debug, PartialEq, Eq)]
pub struct PlatformRollup {
    pub platform: Platform,
    pub label: String,
    pub totals: EngagementTotals,
}

/// One post of the best-performing list.
#[derive(Debug, PartialEq, Eq)]
pub struct TopPost {
    pub item: ActivityItem,
    pub engagement: u64,
}

/// The posts published on one local day, with their counts as of the last reading: no
/// history of how the counts grew.
#[derive(Debug, PartialEq, Eq)]
pub struct DayBucket {
    /// `YYYY-MM-DD`.
    pub day: String,
    /// That local day's midnight, in UTC milliseconds.
    pub day_start_ms: i64,
    pub posts: usize,
    pub likes: u64,
    pub comments: u64,
    pub shares: u64,
    pub views: u64,
    pub engagement: u64,
}

#[derive(Debug, PartialEq, Eq)]
pub struct AnalyticsRollups {
    pub totals: EngagementTotals,
    /// Platforms with at least one post, the best engaging first.
    pub by_platform: Vec<PlatformRollup>,
    /// The best posts, at most [`TOP_POSTS`].
    pub top_posts: Vec<TopPost>,
    /// Output per local day, the oldest first.
    pub published_by_day: Vec<DayBucket>,
    pub cadence: CadenceSummary,
    /// The offset that days and hours were read with.
    pub utc_offset_minutes: i32,
}

pub open spec fn platform_keys(items: Seq<ActivityItem>) -> Seq<Option<Platform>> {
    items.map_values(|i: ActivityItem| Some(i.platform))
}

/// The local day a post was published on, where it has one.
pub open spec fn day_key(item: ActivityItem, offset: i32) -> Option<i32> {
    match item.published_at {
        Some(at) => match clock::parts_of(at, offset) {
            Some(p) => Some(p.ce_day),
            None => None,
        },
        None => None,
    }
}

pub open spec fn day_keys(items: Seq<ActivityItem>, offset: i32) -> Seq<Option<i32>> {
    items.map_values(|i: ActivityItem| day_key(i, offset))
}

pub open spec fn platform_rows(items: Seq<ActivityItem>) -> Seq<Group<Platform>> {
    rank::ranked(groups(items, platform_keys(items)))
}

pub open spec fn day_rows(items: Seq<ActivityItem>, offset: i32) -> Seq<Group<i32>> {
    rank::ranked(groups(items, day_keys(items, offset)))
}

pub open spec fn best_posts(items: Seq<ActivityItem>) -> Seq<ActivityItem> {
    let all = rank::ranked(items);
    if all.len() > TOP_POSTS {
        all.take(TOP_POSTS as int)
    } else {
        all
    }
}

pub open spec fn platform_shown(r: PlatformRollup, g: Group<Platform>) -> bool {
    r.platform == g.key && r.label@ == g.key.label_text() && r.totals == g.totals
}

/// The first instant of a day under an offset.
pub open spec fn day_start(ce_day: int, offset: i32) -> int {
    (ce_day - 719_163) * 86_400_000 - offset * 60_000
}

pub open spec fn day_shown(b: DayBucket, g: Group<i32>, offset: i32) -> bool {
    &&& Some(b.day@) == clock::ce_day_text(g.key as int)
    &&& b.day_start_ms == day_start(g.key as int, offset)
    &&& b.posts == g.totals.posts
    &&& b.likes == g.totals.likes
    &&& b.comments == g.totals.comments
    &&& b.shares == g.totals.shares
    &&& b.views == g.totals.views
    &&& b.engagement == g.totals.engagement
}

/// What is reported of these posts.
pub open spec fn report_shows(r: AnalyticsRollups, items: Seq<ActivityItem>, offset: i32) -> bool {
    let platforms = platform_rows(items);
    let best = best_posts(items);
    let days = day_rows(items, offset);
    &&& r.totals@ == totals_of(items)
    &&& r.by_platform@.len() == platforms.len()
    &&& forall|i: int|
        0 <= i < platforms.len() ==> platform_shown(#[trigger] r.by_platform@[i], platforms[i])
    &&& r.top_posts@.len() == best.len()
    &&& forall|i: int|
        0 <= i < best.len() ==> (#[trigger] r.top_posts@[i]).item == best[i]
            && r.top_posts@[i].engagement == analytics::engagement_of(best[i])
    &&& r.published_by_day@.len() == days.len()
    &&& forall|i: int|
        0 <= i < days.len() ==> day_shown(#[trigger] r.published_by_day@[i], days[i], offset)
    &&& cadence_shows(r.cadence, dated(items, offset), offset)
    &&& r.utc_offset_minutes == offset
}

fn roll_platforms(items: &[ActivityItem]) -> (r: Vec<PlatformRollup>)
    requires
        summable(items@),
    ensures
        r@.len() == platform_rows(items@).len(),
        forall|i: int|
            0 <= i < r@.len() ==> platform_shown(#[trigger] r@[i], platform_rows(items@)[i]),
{
    let mut keys: Vec<Option<Platform>> = Vec::new();
    let mut i: usize = 0;
    while i < items.len()
        invariant
            i <= items.len(),
            keys@ == platform_keys(items@).take(i as int),
        decreases items.len() - i,
    {
        keys.push(Some(items[i].platform));
        i = i + 1;
        assert(keys@ =~= platform_keys(items@).take(i as int));
    }
    assert(keys@ =~= platform_keys(items@));
    let rows = sort_ranked(group_up(items, &keys));
    let mut out: Vec<PlatformRollup> = Vec::new();
    let mut j: usize = 0;
    while j < rows.len()
        invariant
            j <= rows.len(),
            out@.len() == j,
            forall|k: int| 0 <= k < j ==> platform_shown(#[trigger] out@[k], rows@[k]),
        decreases rows.len() - j,
    {
        out.push(
            PlatformRollup {
                platform: rows[j].key,
                label: rows[j].key.label().to_owned(),
                totals: rows[j].totals,
            },
        );
        j = j + 1;
    }
    out
}

proof fn lemma_present_from<K>(keys: Seq<Option<K>>, k: K)
    requires
        present(keys).contains(k),
    ensures
        keys.contains(Some(k)),
    decreases keys.len(),
{
    if keys.len() > 0 {
        let init = keys.drop_last();
        let p = present(init);
        let q = present(keys);
        let i = choose|i: int| 0 <= i < q.len() && q[i] == k;
        if keys.last() == Some(k) {
            assert(keys[keys.len() - 1] == Some(k));
        } else {
            assert(i < p.len());
            assert(p[i] == k);
            lemma_present_from(init, k);
            let j = choose|j: int| 0 <= j < init.len() && init[j] == Some(k);
            assert(keys[j] == Some(k));
        }
    }
}

/// Every row is a day that a post was published on.
proof fn lemma_day_rows_range(items: Seq<ActivityItem>, offset: i32)
    ensures
        forall|i: int|
            0 <= i < day_rows(items, offset).len() ==> -95_746_129 <= (#[trigger] day_rows(
                items,
                offset,
            )[i]).key <= 95_745_399,
{
    broadcast use vstd::seq_lib::group_to_multiset_ensures;

    let keys = day_keys(items, offset);
    let g = groups(items, keys);
    let rows = day_rows(items, offset);
    rank::lemma_ranked(g);
    assert forall|i: int| 0 <= i < rows.len() implies -95_746_129 <= (#[trigger] rows[i]).key
        <= 95_745_399 by {
        assert(rows.contains(rows[i]));
        assert(rows.to_multiset().contains(rows[i]));
        assert(g.contains(rows[i]));
        let j = choose|j: int| 0 <= j < g.len() && g[j] == rows[i];
        let d = lists::deduped(present(keys));
        lists::dedup_laws(present(keys));
        assert(d[j] == rows[i].key);
        assert(d.contains(rows[i].key));
        lemma_present_from(keys, rows[i].key);
        let l = choose|l: int| 0 <= l < keys.len() && keys[l] == Some(rows[i].key);
        assert(keys[l] == day_key(items[l], offset));
        clock::parts_are_in_range(items[l].published_at->0, offset);
    }
}

fn roll_days(items: &[ActivityItem], offset: i32) -> (r: Vec<DayBucket>)
    requires
        summable(items@),
    ensures
        r@.len() == day_rows(items@, offset).len(),
        forall|i: int|
            0 <= i < r@.len() ==> day_shown(#[trigger] r@[i], day_rows(items@, offset)[i], offset),
{
    let mut keys: Vec<Option<i32>> = Vec::new();
    let mut i: usize = 0;
    while i < items.len()
        invariant
            i <= items.len(),
            keys@ == day_keys(items@, offset).take(i as int),
        decreases items.len() - i,
    {
        let key = match items[i].published_at {
            Some(at) => match local_parts(at, offset) {
                Some(p) => Some(p.ce_day),
                None => None,
            },
            None => None,
        };
        keys.push(key);
        i = i + 1;
        assert(keys@ =~= day_keys(items@, offset).take(i as int));
    }
    assert(keys@ =~= day_keys(items@, offset));
    let rows = sort_ranked(group_up(items, &keys));
    proof {
        lemma_day_rows_range(items@, offset);
    }
    let mut out: Vec<DayBucket> = Vec::new();
    let mut j: usize = 0;
    while j < rows.len()
        invariant
            j <= rows.len(),
            rows@ == day_rows(items@, offset),
            forall|k: int|
                0 <= k < rows@.len() ==> -95_746_129 <= (#[trigger] rows@[k]).key <= 95_745_399,
            out@.len() == j,
            forall|k: int| 0 <= k < j ==> day_shown(#[trigger] out@[k], rows@[k], offset),
        decreases rows.len() - j,
    {
        let key = rows[j].key;
        let totals = rows[j].totals;
        assert(-95_746_129 <= rows@[j as int].key <= 95_745_399);
        match ce_day_label(key) {
            Some(day) => {
                out.push(
                    DayBucket {
                        day,
                        day_start_ms: (key as i64 - clock::EPOCH_CE_DAY) * clock::DAY_MS
                            - offset as i64 * 60_000,
                        posts: totals.posts,
                        likes: totals.likes,
                        comments: totals.comments,
                        shares: totals.shares,
                        views: totals.views,
                        engagement: totals.engagement,
                    },
                );
            },
            None => {},
        }
        j = j + 1;
    }
    out
}

fn roll_top(items: &[ActivityItem]) -> (r: Vec<TopPost>)
    requires
        summable(items@),
    ensures
        r@.len() == best_posts(items@).len(),
        forall|i: int|
            0 <= i < r@.len() ==> (#[trigger] r@[i]).item == best_posts(items@)[i]
                && r@[i].engagement == analytics::engagement_of(best_posts(items@)[i]),
{
    let mut all: Vec<ActivityItem> = Vec::new();
    let mut i: usize = 0;
    while i < items.len()
        invariant
            i <= items.len(),
            all@ == items@.take(i as int),
        decreases items.len() - i,
    {
        all.push(items[i].clone());
        i = i + 1;
        assert(all@ =~= items@.take(i as int));
    }
    assert(all@ =~= items@);
    let sorted = sort_ranked(all);
    let n: usize = if sorted.len() > TOP_POSTS {
        TOP_POSTS
    } else {
        sorted.len()
    };
    let mut out: Vec<TopPost> = Vec::new();
    let mut j: usize = 0;
    while j < n
        invariant
            j <= n <= sorted.len(),
            summable(items@),
            sorted@ == rank::ranked(items@),
            out@.len() == j,
            forall|k: int|
                0 <= k < j ==> (#[trigger] out@[k]).item == sorted@[k] && out@[k].engagement
                    == analytics::engagement_of(sorted@[k]),
        decreases n - j,
    {
        proof {
            lemma_ranked_within(items@, j as int);
        }
        out.push(TopPost { engagement: item_engagement(&sorted[j]), item: sorted[j].clone() });
        j = j + 1;
    }
    out
}

/// No sorted post counts for more than all of them.
proof fn lemma_ranked_within(items: Seq<ActivityItem>, i: int)
    requires
        0 <= i < rank::ranked(items).len(),
    ensures
        analytics::engagement_of(rank::ranked(items)[i]) <= totals_of(items).engagement,
{
    broadcast use vstd::seq_lib::group_to_multiset_ensures;

    let all = rank::ranked(items);
    rank::lemma_ranked(items);
    assert(all.contains(all[i]));
    assert(all.to_multiset().contains(all[i]));
    assert(items.contains(all[i]));
    let j = choose|j: int| 0 <= j < items.len() && items[j] == all[i];
    lemma_totals_prefix(items, j + 1);
    assert(items.take(j + 1).last() == items[j]);
}

/// Everything that is reported of a workspace's posts.
pub fn rollups(items: &[ActivityItem], utc_offset_minutes: i32) -> (r: AnalyticsRollups)
    requires
        summable(items@),
    ensures
        report_shows(r, items@, utc_offset_minutes),
{
    let totals = sum_up(items);
    let by_platform = roll_platforms(items);
    let top_posts = roll_top(items);
    let published_by_day = roll_days(items, utc_offset_minutes);
    let times = dated_times(items, utc_offset_minutes);
    let cadence = cadence_of(&times, utc_offset_minutes);
    AnalyticsRollups {
        totals,
        by_platform,
        top_posts,
        published_by_day,
        cadence,
        utc_offset_minutes,
    }
}

// ── Laws ───────────────────────────────────────────────────────────────────────

/// The sums of all groups together.
pub open spec fn rows_total<K>(rows: Seq<Group<K>>) -> Totals
    decreases rows.len(),
{
    if rows.len() == 0 {
        Totals::zero()
    } else {
        rows_total(rows.drop_last()).and(rows.last().totals@)
    }
}

/// The posts that have a key.
pub open spec fn keyed<K>(items: Seq<ActivityItem>, keys: Seq<Option<K>>) -> Seq<ActivityItem>
    decreases items.len(),
{
    if items.len() == 0 {
        items
    } else if keys.last() is Some {
        keyed(items.drop_last(), keys.drop_last()).push(items.last())
    } else {
        keyed(items.drop_last(), keys.drop_last())
    }
}

proof fn lemma_rows_update<K>(rows: Seq<Group<K>>, j: int, g: Group<K>, item: ActivityItem)
    requires
        0 <= j < rows.len(),
        g.totals@ == rows[j].totals@.with(item),
    ensures
        rows_total(rows.update(j, g)) == rows_total(rows).with(item),
    decreases rows.len(),
{
    let init = rows.drop_last();
    if j == rows.len() - 1 {
        assert(rows.update(j, g).drop_last() =~= init);
    } else {
        lemma_rows_update(init, j, g, item);
        assert(rows.update(j, g).drop_last() =~= init.update(j, g));
    }
}

proof fn lemma_exact(t: Totals, bound: Seq<ActivityItem>)
    requires
        summable(bound),
        t.within(totals_of(bound)),
    ensures
        t.exact()@ == t,
{
    lemma_totals_bounds(bound);
}

proof fn lemma_groups_total<K>(items: Seq<ActivityItem>, keys: Seq<Option<K>>)
    requires
        summable(items),
        items.len() == keys.len(),
    ensures
        rows_total(groups(items, keys)) == totals_of(keyed(items, keys)),
    decreases items.len(),
{
    if items.len() == 0 {
        assert(present(keys) =~= Seq::<K>::empty());
        assert(groups(items, keys) =~= Seq::<Group<K>>::empty());
    } else {
        let init = items.drop_last();
        let kinit = keys.drop_last();
        assert(items.take(items.len() - 1) =~= init);
        lemma_totals_prefix(items, items.len() - 1);
        lemma_groups_total(init, kinit);
        assert(init.push(items.last()) =~= items);
        assert(kinit.push(keys.last()) =~= keys);
        let g = groups(init, kinit);
        let item = items.last();
        assert(keyed(init, kinit).push(item).drop_last() =~= keyed(init, kinit));
        match keys.last() {
            None => {
                assert(groups(items, keys) =~= g) by {
                    assert forall|o: K| #[trigger] members(items, keys, o) == members(
                        init,
                        kinit,
                        o,
                    ) by {
                        lemma_groups_other(items, keys, o);
                    }
                }
            },
            Some(k) => {
                lemma_groups_step(init, kinit, item, k);
                lemma_members_within(init, kinit, k);
                lemma_members_within(items, keys, k);
                let m = members(init, kinit, k);
                assert(m.push(item).drop_last() =~= m);
                lemma_exact(totals_of(m), items);
                lemma_exact(totals_of(m).with(item), items);
                if exists|j: int| 0 <= j < g.len() && (#[trigger] g[j]).key == k {
                    let j = choose|j: int| 0 <= j < g.len() && (#[trigger] g[j]).key == k;
                    let h = Group { key: k, totals: totals_of(m).with(item).exact() };
                    lemma_rows_update(g, j, h, item);
                } else {
                    let h = Group { key: k, totals: Totals::zero().with(item).exact() };
                    assert(g.push(h).drop_last() =~= g);
                }
            },
        }
    }
}

proof fn lemma_total_inserted<K>(rows: Seq<Group<K>>, g: Group<K>) where Group<K>: Ranked
    ensures
        rows_total(rank::inserted(rows, g)) == rows_total(rows).and(g.totals@),
    decreases rows.len(),
{
    if rows.len() == 0 || rows.last().le(g) {
        assert(rows.push(g).drop_last() =~= rows);
    } else {
        lemma_total_inserted(rows.drop_last(), g);
        let t = rank::inserted(rows.drop_last(), g);
        assert(t.push(rows.last()).drop_last() =~= t);
    }
}

proof fn lemma_total_ranked<K>(rows: Seq<Group<K>>) where Group<K>: Ranked
    ensures
        rows_total(rank::ranked(rows)) == rows_total(rows),
    decreases rows.len(),
{
    if rows.len() > 0 {
        lemma_total_ranked(rows.drop_last());
        lemma_total_inserted(rank::ranked(rows.drop_last()), rows.last());
    }
}

/// The platforms' sums add up to the totals.
pub proof fn platforms_add_up(items: Seq<ActivityItem>)
    requires
        summable(items),
    ensures
        rows_total(platform_rows(items)) == totals_of(items),
{
    let keys = platform_keys(items);
    lemma_groups_total(items, keys);
    lemma_total_ranked(groups(items, keys));
    lemma_all_keyed(items);
}

proof fn lemma_all_keyed(items: Seq<ActivityItem>)
    ensures
        keyed(items, platform_keys(items)) == items,
    decreases items.len(),
{
    if items.len() > 0 {
        lemma_all_keyed(items.drop_last());
        assert(platform_keys(items).drop_last() =~= platform_keys(items.drop_last()));
        assert(items.drop_last().push(items.last()) =~= items);
    }
}

/// The days' sums add up to those of the posts that have a day; their number is the
/// cadence's.
pub proof fn days_add_up(items: Seq<ActivityItem>, offset: i32)
    requires
        summable(items),
    ensures
        rows_total(day_rows(items, offset)) == totals_of(keyed(items, day_keys(items, offset))),
        rows_total(day_rows(items, offset)).posts == dated(items, offset).len(),
{
    let keys = day_keys(items, offset);
    lemma_groups_total(items, keys);
    lemma_total_ranked(groups(items, keys));
    lemma_totals_bounds(keyed(items, keys));
    lemma_dated_keyed(items, offset);
}

proof fn lemma_dated_keyed(items: Seq<ActivityItem>, offset: i32)
    ensures
        keyed(items, day_keys(items, offset)).len() == dated(items, offset).len(),
    decreases items.len(),
{
    if items.len() > 0 {
        lemma_dated_keyed(items.drop_last(), offset);
        assert(day_keys(items, offset).drop_last() =~= day_keys(items.drop_last(), offset));
    }
}

/// Each platform, and each day, has one row.
pub proof fn no_key_has_two_rows<K>(items: Seq<ActivityItem>, keys: Seq<Option<K>>)
    ensures
        forall|i: int, j: int|
            0 <= i < j < groups(items, keys).len() ==> (#[trigger] groups(items, keys)[i]).key != (
            #[trigger] groups(items, keys)[j]).key,
{
    lists::dedup_laws(present(keys));
    let d = lists::deduped(present(keys));
    let g = groups(items, keys);
    assert forall|i: int, j: int| 0 <= i < j < g.len() implies (#[trigger] g[i]).key != (
    #[trigger] g[j]).key by {
        assert(d[i] != d[j]);
    }
}

/// The order in which posts are handed in is not seen in the best-performing list.
pub proof fn input_order_does_not_rank(a: Seq<ActivityItem>, b: Seq<ActivityItem>)
    requires
        a.to_multiset() == b.to_multiset(),
        forall|x: ActivityItem, y: ActivityItem|
            #![trigger a.contains(x), a.contains(y)]
            a.contains(x) && a.contains(y) && x.id@ == y.id@ ==> x == y,
    ensures
        best_posts(a) == best_posts(b),
{
    assert forall|x: ActivityItem, y: ActivityItem|
        a.contains(x) && a.contains(y) && #[trigger] x.le(y) && y.le(x) implies x == y by {
        text::text_le_antisymmetric(x.id@, y.id@);
    }
    rank::sorting_forgets_the_order(a, b);
}

/// What the list leaves out is ranked no better than anything it holds.
pub proof fn what_is_left_out_is_no_better(items: Seq<ActivityItem>, i: int, j: int)
    requires
        0 <= i < best_posts(items).len(),
        best_posts(items).len() <= j < items.len(),
    ensures
        best_posts(items).len() == TOP_POSTS,
        rank::ranked(items).to_multiset() == items.to_multiset(),
        best_posts(items)[i].le(rank::ranked(items)[j]),
{
    rank::lemma_ranked(items);
}

pub open spec fn sum_to(counts: Seq<u32>, n: int) -> int
    decreases n,
{
    if n <= 0 {
        0
    } else {
        sum_to(counts, n - 1) + counts[n - 1]
    }
}

/// Every dated post falls on one day of the week and in one hour.
pub proof fn the_cadence_counts_every_dated_post(c: CadenceSummary, times: Seq<i64>, offset: i32)
    requires
        cadence_shows(c, times, offset),
        forall|i: int| 0 <= i < times.len() ==> clock::readable(#[trigger] times[i], offset),
    ensures
        sum_to(c.by_day_of_week@, 7) == c.dated_posts,
        sum_to(c.by_hour@, 24) == c.dated_posts,
{
    lemma_weekdays(times, offset, 7);
    lemma_hours(times, offset, 24);
    lemma_sum_weekdays(c.by_day_of_week@, times, offset, 7);
    lemma_sum_hours(c.by_hour@, times, offset, 24);
}

pub open spec fn before_weekday(times: Seq<i64>, offset: i32, n: int) -> int
    decreases n,
{
    if n <= 0 {
        0
    } else {
        before_weekday(times, offset, n - 1) + on_weekday(times, offset, n - 1)
    }
}

pub open spec fn before_hour(times: Seq<i64>, offset: i32, n: int) -> int
    decreases n,
{
    if n <= 0 {
        0
    } else {
        before_hour(times, offset, n - 1) + in_hour(times, offset, n - 1)
    }
}

proof fn lemma_sum_weekdays(counts: Seq<u32>, times: Seq<i64>, offset: i32, n: int)
    requires
        0 <= n <= 7,
        forall|d: int| 0 <= d < 7 ==> #[trigger] counts[d] == on_weekday(times, offset, d),
    ensures
        sum_to(counts, n) == before_weekday(times, offset, n),
    decreases n,
{
    if n > 0 {
        lemma_sum_weekdays(counts, times, offset, n - 1);
    }
}

proof fn lemma_sum_hours(counts: Seq<u32>, times: Seq<i64>, offset: i32, n: int)
    requires
        0 <= n <= 24,
        forall|h: int| 0 <= h < 24 ==> #[trigger] counts[h] == in_hour(times, offset, h),
    ensures
        sum_to(counts, n) == before_hour(times, offset, n),
    decreases n,
{
    if n > 0 {
        lemma_sum_hours(counts, times, offset, n - 1);
    }
}

proof fn lemma_weekday_step(times: Seq<i64>, offset: i32, n: int)
    requires
        times.len() > 0,
        0 <= n,
    ensures
        before_weekday(times, offset, n) == before_weekday(times.drop_last(), offset, n) + (if 0
            <= clock::weekday_of(clock::shifted(times.last(), offset)) < n {
            1int
        } else {
            0
        }),
    decreases n,
{
    if n > 0 {
        lemma_weekday_step(times, offset, n - 1);
    }
}

proof fn lemma_hour_step(times: Seq<i64>, offset: i32, n: int)
    requires
        times.len() > 0,
        0 <= n,
    ensures
        before_hour(times, offset, n) == before_hour(times.drop_last(), offset, n) + (if 0
            <= clock::hour_of(clock::shifted(times.last(), offset)) < n {
            1int
        } else {
            0
        }),
    decreases n,
{
    if n > 0 {
        lemma_hour_step(times, offset, n - 1);
    }
}

proof fn lemma_weekdays(times: Seq<i64>, offset: i32, n: int)
    requires
        n == 7,
    ensures
        before_weekday(times, offset, n) == times.len(),
    decreases times.len(),
{
    if times.len() > 0 {
        lemma_weekdays(times.drop_last(), offset, n);
        lemma_weekday_step(times, offset, n);
    } else {
        lemma_no_times(offset, n);
        assert(times =~= Seq::<i64>::empty());
    }
}

proof fn lemma_hours(times: Seq<i64>, offset: i32, n: int)
    requires
        n == 24,
    ensures
        before_hour(times, offset, n) == times.len(),
    decreases times.len(),
{
    if times.len() > 0 {
        lemma_hours(times.drop_last(), offset, n);
        lemma_hour_step(times, offset, n);
    } else {
        lemma_no_times(offset, n);
        assert(times =~= Seq::<i64>::empty());
    }
}

proof fn lemma_no_times(offset: i32, n: int)
    requires
        0 <= n,
    ensures
        before_weekday(Seq::<i64>::empty(), offset, n) == 0,
        before_hour(Seq::<i64>::empty(), offset, n) == 0,
    decreases n,
{
    if n > 0 {
        lemma_no_times(offset, n - 1);
    }
}

/// The span covers at least a day as soon as one post is dated, and no day otherwise.
pub proof fn one_post_spans_one_day(c: CadenceSummary, times: Seq<i64>, offset: i32)
    requires
        cadence_shows(c, times, offset),
        forall|i: int| 0 <= i < times.len() ==> clock::readable(#[trigger] times[i], offset),
    ensures
        c.days_covered == 0 <==> c.dated_posts == 0,
        c.dated_posts == 1 ==> c.days_covered == 1,
{
    if times.len() > 0 {
        let a = c.first_published_at->0;
        let b = c.last_published_at->0;
        let i = choose|i: int| 0 <= i < times.len() && times[i] == a;
        let j = choose|j: int| 0 <= j < times.len() && times[j] == b;
        assert(times[i] <= b);
        clock::days_follow_instants(a, b, offset);
        clock::parts_are_in_range(a, offset);
        clock::parts_are_in_range(b, offset);
    }
}

// ── The report in plain sums ───────────────────────────────────────────────────

/// Totals are those of a row of posts: how many there are, and the sum of each of their
/// counts.
pub open spec fn sums_up(t: EngagementTotals, posts: Seq<ActivityItem>) -> bool {
    &&& t.posts == posts.len()
    &&& t.likes == lists::sum(posts.map_values(|i: ActivityItem| i.likes as nat))
    &&& t.comments == lists::sum(posts.map_values(|i: ActivityItem| i.comments as nat))
    &&& t.shares == lists::sum(posts.map_values(|i: ActivityItem| i.shares as nat))
    &&& t.views == lists::sum(posts.map_values(|i: ActivityItem| i.views as nat))
    &&& t.engagement == t.likes + t.comments + t.shares
}

proof fn lemma_totals_are_sums(items: Seq<ActivityItem>)
    ensures
        totals_of(items).posts == items.len(),
        totals_of(items).likes == lists::sum(items.map_values(|i: ActivityItem| i.likes as nat)),
        totals_of(items).comments == lists::sum(
            items.map_values(|i: ActivityItem| i.comments as nat),
        ),
        totals_of(items).shares == lists::sum(items.map_values(|i: ActivityItem| i.shares as nat)),
        totals_of(items).views == lists::sum(items.map_values(|i: ActivityItem| i.views as nat)),
        totals_of(items).engagement == totals_of(items).likes + totals_of(items).comments
            + totals_of(items).shares,
    decreases items.len(),
{
    lemma_totals_bounds(items);
    if items.len() > 0 {
        let init = items.drop_last();
        lemma_totals_are_sums(init);
        assert(items.map_values(|i: ActivityItem| i.likes as nat).drop_last() =~= init.map_values(
            |i: ActivityItem| i.likes as nat,
        ));
        assert(items.map_values(|i: ActivityItem| i.comments as nat).drop_last()
            =~= init.map_values(|i: ActivityItem| i.comments as nat));
        assert(items.map_values(|i: ActivityItem| i.shares as nat).drop_last() =~= init.map_values(
            |i: ActivityItem| i.shares as nat,
        ));
        assert(items.map_values(|i: ActivityItem| i.views as nat).drop_last() =~= init.map_values(
            |i: ActivityItem| i.views as nat,
        ));
    }
}

/// Posts can be rolled up exactly when the sums fit in machine words.
pub proof fn sums_that_fit_are_rolled_up(items: Seq<ActivityItem>)
    ensures
        summable(items) <==> {
            &&& items.len() <= u32::MAX
            &&& lists::sum(items.map_values(|i: ActivityItem| i.likes as nat)) + lists::sum(
                items.map_values(|i: ActivityItem| i.comments as nat),
            ) + lists::sum(items.map_values(|i: ActivityItem| i.shares as nat)) <= u64::MAX
            &&& lists::sum(items.map_values(|i: ActivityItem| i.views as nat)) <= u64::MAX
        },
{
    lemma_totals_are_sums(items);
}

/// The totals of a report are the sums over all its posts, count by count.
pub proof fn the_totals_are_the_sums(r: AnalyticsRollups, items: Seq<ActivityItem>, offset: i32)
    requires
        report_shows(r, items, offset),
    ensures
        sums_up(r.totals, items),
        items.len() == 1 ==> r.totals.likes == items[0].likes && r.totals.comments
            == items[0].comments && r.totals.shares == items[0].shares && r.totals.views
            == items[0].views,
{
    lemma_totals_are_sums(items);
    if items.len() == 1 {
        assert(items.drop_last() =~= Seq::<ActivityItem>::empty());
        assert(totals_of(items.drop_last()) == Totals::zero());
    }
}

proof fn lemma_members_filtered<K>(
    items: Seq<ActivityItem>,
    keys: Seq<Option<K>>,
    k: K,
    mine: spec_fn(ActivityItem) -> bool,
)
    requires
        items.len() == keys.len(),
        forall|i: int| 0 <= i < items.len() ==> (mine(#[trigger] items[i]) <==> keys[i] == Some(k)),
    ensures
        members(items, keys, k) == items.filter(mine),
    decreases items.len(),
{
    reveal(Seq::filter);
    if items.len() > 0 {
        let init = items.drop_last();
        assert forall|i: int| 0 <= i < init.len() implies (mine(#[trigger] init[i])
            <==> keys.drop_last()[i] == Some(k)) by {
            assert(init[i] == items[i]);
        }
        lemma_members_filtered(init, keys.drop_last(), k, mine);
        assert(mine(items[items.len() - 1]) <==> keys[items.len() - 1] == Some(k));
    }
}

proof fn lemma_present_has<K>(keys: Seq<Option<K>>, i: int)
    requires
        0 <= i < keys.len(),
        keys[i] is Some,
    ensures
        present(keys).contains(keys[i]->0),
    decreases keys.len(),
{
    let init = keys.drop_last();
    if i < init.len() {
        assert(init[i] == keys[i]);
        lemma_present_has(init, i);
        let p = present(init);
        let j = choose|j: int| 0 <= j < p.len() && p[j] == keys[i]->0;
        assert(present(keys)[j] == keys[i]->0);
    } else {
        assert(present(keys)[present(init).len() as int] == keys[i]->0);
    }
}

/// The rows of a grouping: one for each key that occurs, with the sums over its posts.
proof fn lemma_rows<K>(items: Seq<ActivityItem>, keys: Seq<Option<K>>) where Group<K>: Ranked
    requires
        items.len() == keys.len(),
        summable(items),
    ensures
        ({
            let rows = rank::ranked(groups(items, keys));
            &&& forall|i: int|
                0 <= i < rows.len() ==> (#[trigger] rows[i]).totals@ == totals_of(
                    members(items, keys, rows[i].key),
                )
            &&& forall|i: int| 0 <= i < rows.len() ==> keys.contains(Some((#[trigger] rows[i]).key))
            &&& forall|i: int, j: int|
                0 <= i < j < rows.len() ==> (#[trigger] rows[i]).key != (#[trigger] rows[j]).key
            &&& forall|i: int|
                0 <= i < keys.len() && (#[trigger] keys[i]) is Some ==> exists|j: int|
                    0 <= j < rows.len() && (#[trigger] rows[j]).key == keys[i]->0
            &&& rank::in_order(rows)
        }),
{
    broadcast use vstd::seq_lib::group_to_multiset_ensures;

    let g = groups(items, keys);
    let d = lists::deduped(present(keys));
    let rows = rank::ranked(g);
    lists::dedup_laws(present(keys));
    rank::lemma_ranked(g);
    no_key_has_two_rows(items, keys);
    assert(g.no_duplicates()) by {
        assert forall|i: int, j: int| 0 <= i < g.len() && 0 <= j < g.len() && i != j implies g[i]
            != g[j] by {
            if i < j {
                assert(g[i].key != g[j].key);
            } else {
                assert(g[j].key != g[i].key);
            }
        }
    }
    g.lemma_multiset_has_no_duplicates();
    rows.lemma_multiset_has_no_duplicates_conv();
    assert forall|i: int| 0 <= i < rows.len() implies g.contains(#[trigger] rows[i]) by {
        assert(rows.contains(rows[i]));
        assert(rows.to_multiset().contains(rows[i]));
    }
    assert forall|i: int| 0 <= i < rows.len() implies (#[trigger] rows[i]).totals@ == totals_of(
        members(items, keys, rows[i].key),
    ) && keys.contains(Some(rows[i].key)) by {
        assert(g.contains(rows[i]));
        let j = choose|j: int| 0 <= j < g.len() && g[j] == rows[i];
        assert(d[j] == rows[i].key);
        assert(d.contains(d[j]));
        lemma_present_from(keys, rows[i].key);
        lemma_members_within(items, keys, rows[i].key);
        lemma_exact(totals_of(members(items, keys, rows[i].key)), items);
    }
    assert forall|i: int, j: int| 0 <= i < j < rows.len() implies (#[trigger] rows[i]).key != (
    #[trigger] rows[j]).key by {
        assert(g.contains(rows[i]) && g.contains(rows[j]));
        let a = choose|a: int| 0 <= a < g.len() && g[a] == rows[i];
        let b = choose|b: int| 0 <= b < g.len() && g[b] == rows[j];
        assert(rows[i] != rows[j]);
        if a < b {
            assert(g[a].key != g[b].key);
        } else {
            assert(a != b);
            assert(g[b].key != g[a].key);
        }
    }
    assert forall|i: int| 0 <= i < keys.len() && (#[trigger] keys[i]) is Some implies exists|j: int|
        0 <= j < rows.len() && (#[trigger] rows[j]).key == keys[i]->0 by {
        lemma_present_has(keys, i);
        assert(d.contains(keys[i]->0));
        let a = choose|a: int| 0 <= a < d.len() && d[a] == keys[i]->0;
        assert(g[a].key == keys[i]->0);
        assert(g.contains(g[a]));
        assert(g.to_multiset().contains(g[a]));
        assert(rows.contains(g[a]));
        let j = choose|j: int| 0 <= j < rows.len() && rows[j] == g[a];
        assert(rows[j].key == keys[i]->0);
    }
}

proof fn lemma_filter_keeps(
    items: Seq<ActivityItem>,
    mine: spec_fn(ActivityItem) -> bool,
    m: int,
)
    requires
        0 <= m < items.len(),
        mine(items[m]),
    ensures
        items.filter(mine).contains(items[m]),
{
    broadcast use vstd::seq_lib::group_filter_ensures;

    assert(items.filter(mine).contains(items[m]));
}

/// Each platform that was posted to has one row, under its label, with the sums over
/// the posts on it and no others. The rows with more engagement come first, and among
/// equals the platform that is declared first.
pub proof fn a_platform_row_sums_its_own_posts(
    r: AnalyticsRollups,
    items: Seq<ActivityItem>,
    offset: i32,
)
    requires
        report_shows(r, items, offset),
        summable(items),
    ensures
        forall|k: int|
            0 <= k < r.by_platform@.len() ==> {
                let row = #[trigger] r.by_platform@[k];
                &&& sums_up(row.totals, items.filter(|i: ActivityItem| i.platform == row.platform))
                &&& row.totals.posts > 0
                &&& row.label@ == row.platform.label_text()
            },
        forall|k: int|
            0 <= k < items.len() ==> exists|j: int|
                0 <= j < r.by_platform@.len() && (#[trigger] r.by_platform@[j]).platform == (
                #[trigger] items[k]).platform,
        forall|j: int, k: int|
            0 <= j < k < r.by_platform@.len() ==> {
                let a = #[trigger] r.by_platform@[j];
                let b = #[trigger] r.by_platform@[k];
                &&& a.platform != b.platform
                &&& a.totals.likes + a.totals.comments + a.totals.shares >= b.totals.likes
                    + b.totals.comments + b.totals.shares
                &&& a.totals.engagement == b.totals.engagement ==> a.platform.rank()
                    < b.platform.rank()
            },
{
    let keys = platform_keys(items);
    let rows = platform_rows(items);
    lemma_rows(items, keys);
    assert forall|k: int| 0 <= k < r.by_platform@.len() implies {
        let row = #[trigger] r.by_platform@[k];
        &&& sums_up(row.totals, items.filter(|i: ActivityItem| i.platform == row.platform))
        &&& row.totals.posts > 0
        &&& row.label@ == row.platform.label_text()
    } by {
        let row = r.by_platform@[k];
        assert(platform_shown(row, rows[k]));
        let mine = |i: ActivityItem| i.platform == row.platform;
        lemma_members_filtered(items, keys, row.platform, mine);
        lemma_totals_are_sums(items.filter(mine));
        assert(keys.contains(Some(rows[k].key)));
        let m = choose|m: int| 0 <= m < keys.len() && keys[m] == Some(rows[k].key);
        lemma_filter_keeps(items, mine, m);
        assert(items.filter(mine).contains(items[m]));
    }
    assert forall|k: int| 0 <= k < items.len() implies exists|j: int|
        0 <= j < r.by_platform@.len() && (#[trigger] r.by_platform@[j]).platform == (
        #[trigger] items[k]).platform by {
        assert(keys[k] == Some(items[k].platform));
        let j = choose|j: int| 0 <= j < rows.len() && (#[trigger] rows[j]).key == keys[k]->0;
        assert(platform_shown(r.by_platform@[j], rows[j]));
    }
    assert forall|j: int, k: int| 0 <= j < k < r.by_platform@.len() implies {
        let a = #[trigger] r.by_platform@[j];
        let b = #[trigger] r.by_platform@[k];
        &&& a.platform != b.platform
        &&& a.totals.likes + a.totals.comments + a.totals.shares >= b.totals.likes
            + b.totals.comments + b.totals.shares
        &&& a.totals.engagement == b.totals.engagement ==> a.platform.rank() < b.platform.rank()
    } by {
        assert(platform_shown(r.by_platform@[j], rows[j]));
        assert(platform_shown(r.by_platform@[k], rows[k]));
        assert(rows[j].le(rows[k]));
        assert(rows[j].key != rows[k].key);
        lemma_totals_are_sums(members(items, keys, rows[j].key));
        lemma_totals_are_sums(members(items, keys, rows[k].key));
    }
}

/// A post that was published within the day that starts at an instant, and whose local
/// date can be read.
pub open spec fn within_day(i: ActivityItem, start: int, offset: i32) -> bool {
    i.published_at matches Some(at) && clock::readable(at, offset) && start <= at < start
        + 86_400_000
}

proof fn lemma_day_window(i: ActivityItem, offset: i32, day: i32)
    ensures
        day_key(i, offset) == Some(day) <==> within_day(i, day_start(day as int, offset), offset),
{
    if i.published_at is Some {
        clock::parts_are_in_range(i.published_at->0, offset);
    }
}

/// Each local day on which a post was published has one row, from its midnight on,
/// with the sums over the posts of its twenty-four hours and no others; the older day
/// comes first.
pub proof fn a_day_row_sums_its_own_posts(
    r: AnalyticsRollups,
    items: Seq<ActivityItem>,
    offset: i32,
)
    requires
        report_shows(r, items, offset),
        summable(items),
    ensures
        forall|k: int|
            0 <= k < r.published_by_day@.len() ==> {
                let row = #[trigger] r.published_by_day@[k];
                let totals = EngagementTotals {
                    posts: row.posts,
                    likes: row.likes,
                    comments: row.comments,
                    shares: row.shares,
                    views: row.views,
                    engagement: row.engagement,
                };
                &&& sums_up(
                    totals,
                    items.filter(|i: ActivityItem| within_day(i, row.day_start_ms as int, offset)),
                )
                &&& row.posts > 0
                &&& (row.day_start_ms + offset * 60_000) % 86_400_000 == 0
                &&& Some(row.day@) == clock::ce_day_text(
                    (row.day_start_ms + offset * 60_000) / 86_400_000 + 719_163,
                )
            },
        forall|k: int|
            0 <= k < items.len() && (#[trigger] items[k]).published_at is Some && clock::readable(
                items[k].published_at->0,
                offset,
            ) ==> exists|j: int|
                0 <= j < r.published_by_day@.len() && within_day(
                    items[k],
                    (#[trigger] r.published_by_day@[j]).day_start_ms as int,
                    offset,
                ),
        forall|j: int, k: int|
            0 <= j < k < r.published_by_day@.len() ==> (
            #[trigger] r.published_by_day@[j]).day_start_ms + 86_400_000 <= (
            #[trigger] r.published_by_day@[k]).day_start_ms,
{
    let keys = day_keys(items, offset);
    let rows = day_rows(items, offset);
    lemma_rows(items, keys);
    assert forall|k: int| 0 <= k < r.published_by_day@.len() implies {
        let row = #[trigger] r.published_by_day@[k];
        let totals = EngagementTotals {
            posts: row.posts,
            likes: row.likes,
            comments: row.comments,
            shares: row.shares,
            views: row.views,
            engagement: row.engagement,
        };
        &&& sums_up(
            totals,
            items.filter(|i: ActivityItem| within_day(i, row.day_start_ms as int, offset)),
        )
        &&& row.posts > 0
        &&& (row.day_start_ms + offset * 60_000) % 86_400_000 == 0
        &&& Some(row.day@) == clock::ce_day_text(
            (row.day_start_ms + offset * 60_000) / 86_400_000 + 719_163,
        )
    } by {
        let row = r.published_by_day@[k];
        assert(day_shown(row, rows[k], offset));
        let mine = |i: ActivityItem| within_day(i, row.day_start_ms as int, offset);
        assert forall|i: int| 0 <= i < items.len() implies (mine(#[trigger] items[i]) <==> keys[i]
            == Some(rows[k].key)) by {
            lemma_day_window(items[i], offset, rows[k].key);
        }
        lemma_members_filtered(items, keys, rows[k].key, mine);
        lemma_totals_are_sums(items.filter(mine));
        assert(keys.contains(Some(rows[k].key)));
        let m = choose|m: int| 0 <= m < keys.len() && keys[m] == Some(rows[k].key);
        lemma_filter_keeps(items, mine, m);
        assert(items.filter(mine).contains(items[m]));
    }
    assert forall|k: int|
        0 <= k < items.len() && (#[trigger] items[k]).published_at is Some && clock::readable(
            items[k].published_at->0,
            offset,
        ) implies exists|j: int|
        0 <= j < r.published_by_day@.len() && within_day(
            items[k],
            (#[trigger] r.published_by_day@[j]).day_start_ms as int,
            offset,
        ) by {
        assert(keys[k] is Some);
        let j = choose|j: int| 0 <= j < rows.len() && (#[trigger] rows[j]).key == keys[k]->0;
        assert(day_shown(r.published_by_day@[j], rows[j], offset));
        lemma_day_window(items[k], offset, rows[j].key);
    }
    assert forall|j: int, k: int| 0 <= j < k < r.published_by_day@.len() implies (
    #[trigger] r.published_by_day@[j]).day_start_ms + 86_400_000 <= (
    #[trigger] r.published_by_day@[k]).day_start_ms by {
        assert(day_shown(r.published_by_day@[j], rows[j], offset));
        assert(day_shown(r.published_by_day@[k], rows[k], offset));
        assert(rows[j].le(rows[k]));
        assert(rows[j].key != rows[k].key);
    }
}

/// The sorted posts are the posts.
proof fn lemma_same_posts(items: Seq<ActivityItem>)
    ensures
        ({
            let all = rank::ranked(items);
            &&& all.len() == items.len()
            &&& rank::in_order(all)
            &&& forall|k: int| 0 <= k < all.len() ==> items.contains(#[trigger] all[k])
            &&& forall|i: int|
                0 <= i < items.len() ==> exists|j: int|
                    0 <= j < all.len() && #[trigger] all[j] == #[trigger] items[i]
        }),
{
    broadcast use vstd::seq_lib::group_to_multiset_ensures;

    let all = rank::ranked(items);
    rank::lemma_ranked(items);
    assert forall|k: int| 0 <= k < all.len() implies items.contains(#[trigger] all[k]) by {
        assert(all.contains(all[k]));
        assert(all.to_multiset().contains(all[k]));
    }
    assert forall|i: int| 0 <= i < items.len() implies exists|j: int|
        0 <= j < all.len() && #[trigger] all[j] == #[trigger] items[i] by {
        assert(items.contains(items[i]));
        assert(items.to_multiset().contains(items[i]));
        assert(all.contains(items[i]));
    }
}

proof fn lemma_best(items: Seq<ActivityItem>)
    ensures
        ({
            let best = best_posts(items);
            &&& best.len() == (if items.len() < 10 {
                items.len()
            } else {
                10
            })
            &&& forall|k: int| 0 <= k < best.len() ==> items.contains(#[trigger] best[k])
            &&& forall|j: int, k: int|
                0 <= j < k < best.len() ==> (#[trigger] best[j]).le(#[trigger] best[k])
            &&& forall|i: int, k: int|
                0 <= i < items.len() && 0 <= k < best.len() && !(#[trigger] best[k]).le(
                    #[trigger] items[i],
                ) ==> exists|j: int| 0 <= j < k && #[trigger] best[j] == items[i]
        }),
{
    let all = rank::ranked(items);
    let best = best_posts(items);
    lemma_same_posts(items);
    assert forall|k: int| 0 <= k < best.len() implies #[trigger] best[k] == all[k] by {}
    assert forall|i: int, k: int|
        0 <= i < items.len() && 0 <= k < best.len() && !(#[trigger] best[k]).le(
            #[trigger] items[i],
        ) implies exists|j: int| 0 <= j < k && #[trigger] best[j] == items[i] by {
        let j = choose|j: int| 0 <= j < all.len() && #[trigger] all[j] == items[i];
        if j >= k {
            assert(all[k].le(all[j]));
        }
        assert(best[j] == items[i]);
    }
}

/// The best posts are ten of the posts, or all where there are no more. More likes,
/// comments and shares together come first, then the newer, with the undated last,
/// then the smaller id; and a post that engaged better than one on the list is on the
/// list before it.
pub proof fn the_best_posts_come_first(items: Seq<ActivityItem>)
    ensures
        best_posts(items).len() == (if items.len() < 10 {
            items.len()
        } else {
            10
        }),
        forall|k: int|
            0 <= k < best_posts(items).len() ==> items.contains(#[trigger] best_posts(items)[k]),
        forall|j: int, k: int|
            0 <= j < k < best_posts(items).len() ==> {
                let a = #[trigger] best_posts(items)[j];
                let b = #[trigger] best_posts(items)[k];
                let e = a.likes + a.comments + a.shares;
                let f = b.likes + b.comments + b.shares;
                &&& e >= f
                &&& e == f && b.published_at is Some ==> a.published_at is Some && a.published_at->0
                    >= b.published_at->0
                &&& e == f && a.published_at == b.published_at ==> text::text_le(a.id@, b.id@)
            },
        forall|i: int, k: int|
            0 <= i < items.len() && 0 <= k < best_posts(items).len() && (
            #[trigger] items[i]).likes + items[i].comments + items[i].shares > (
            #[trigger] best_posts(items)[k]).likes + best_posts(items)[k].comments + best_posts(
                items,
            )[k].shares ==> exists|j: int|
                0 <= j < k && #[trigger] best_posts(items)[j] == items[i],
{
    lemma_best(items);
    let best = best_posts(items);
    assert forall|j: int, k: int| 0 <= j < k < best.len() implies {
        let a = #[trigger] best[j];
        let b = #[trigger] best[k];
        let e = a.likes + a.comments + a.shares;
        let f = b.likes + b.comments + b.shares;
        &&& e >= f
        &&& e == f && b.published_at is Some ==> a.published_at is Some && a.published_at->0
            >= b.published_at->0
        &&& e == f && a.published_at == b.published_at ==> text::text_le(a.id@, b.id@)
    } by {
        assert(best[j].le(best[k]));
    }
    assert forall|i: int, k: int|
        0 <= i < items.len() && 0 <= k < best.len() && (#[trigger] items[i]).likes
            + items[i].comments + items[i].shares > (#[trigger] best[k]).likes + best[k].comments
            + best[k].shares implies exists|j: int|
        0 <= j < k && #[trigger] best[j] == items[i] by {
        assert(!best[k].le(items[i]));
    }
}

/// What is reported of the best posts: each as it is stored, with its likes, comments
/// and shares together.
pub proof fn a_best_post_is_shown_as_it_is(
    r: AnalyticsRollups,
    items: Seq<ActivityItem>,
    offset: i32,
)
    requires
        report_shows(r, items, offset),
    ensures
        r.top_posts@.len() == best_posts(items).len(),
        forall|k: int|
            0 <= k < r.top_posts@.len() ==> (#[trigger] r.top_posts@[k]).item == best_posts(
                items,
            )[k] && r.top_posts@[k].engagement == r.top_posts@[k].item.likes
                + r.top_posts@[k].item.comments + r.top_posts@[k].item.shares,
{
}

/// A post with a time whose local date can be read.
pub open spec fn is_dated(i: ActivityItem, offset: i32) -> bool {
    i.published_at is Some && clock::readable(i.published_at->0, offset)
}

proof fn lemma_dated_counts(items: Seq<ActivityItem>, offset: i32, day: int, hour: int)
    ensures
        dated(items, offset).len() == items.filter(|i: ActivityItem| is_dated(i, offset)).len(),
        on_weekday(dated(items, offset), offset, day) == items.filter(
            |i: ActivityItem|
                is_dated(i, offset) && ((i.published_at->0 + offset * 60_000) / 86_400_000 + 3) % 7
                    == day,
        ).len(),
        in_hour(dated(items, offset), offset, hour) == items.filter(
            |i: ActivityItem|
                is_dated(i, offset) && ((i.published_at->0 + offset * 60_000) % 86_400_000)
                    / 3_600_000 == hour,
        ).len(),
    decreases items.len(),
{
    reveal(Seq::filter);
    if items.len() > 0 {
        lemma_dated_counts(items.drop_last(), offset, day, hour);
        if is_dated(items.last(), offset) {
            let init = dated(items.drop_last(), offset);
            assert(dated(items, offset).drop_last() =~= init);
        }
    }
}

proof fn lemma_dated_from(items: Seq<ActivityItem>, offset: i32, t: i64)
    ensures
        dated(items, offset).contains(t) <==> exists|i: int|
            0 <= i < items.len() && is_dated(#[trigger] items[i], offset) && items[i].published_at
                == Some(t),
    decreases items.len(),
{
    if items.len() > 0 {
        let init = items.drop_last();
        let d = dated(init, offset);
        let e = dated(items, offset);
        lemma_dated_from(init, offset, t);
        if e.contains(t) {
            let k = choose|k: int| 0 <= k < e.len() && e[k] == t;
            if k < d.len() {
                assert(d[k] == t);
                let i = choose|i: int|
                    0 <= i < init.len() && is_dated(#[trigger] init[i], offset)
                        && init[i].published_at == Some(t);
                assert(items[i] == init[i]);
            } else {
                assert(is_dated(items[items.len() - 1], offset));
            }
        }
        if exists|i: int|
            0 <= i < items.len() && is_dated(#[trigger] items[i], offset) && items[i].published_at
                == Some(t) {
            let i = choose|i: int|
                0 <= i < items.len() && is_dated(#[trigger] items[i], offset)
                    && items[i].published_at == Some(t);
            if i < init.len() {
                assert(init[i] == items[i]);
                let k = choose|k: int| 0 <= k < d.len() && d[k] == t;
                assert(e[k] == t);
            } else {
                assert(e[d.len() as int] == t);
            }
        }
    }
}

/// The cadence counts the dated posts: all of them, those of each local day of the week
/// (the epoch was a Thursday, three days after a Monday) and those of each local hour;
/// and it is called observed from four of them on.
pub proof fn the_cadence_counts_the_dated_posts(
    r: AnalyticsRollups,
    items: Seq<ActivityItem>,
    offset: i32,
)
    requires
        report_shows(r, items, offset),
    ensures
        r.utc_offset_minutes == offset,
        r.cadence.dated_posts == items.filter(|i: ActivityItem| is_dated(i, offset)).len(),
        forall|day: int|
            0 <= day < 7 ==> #[trigger] r.cadence.by_day_of_week@[day] == items.filter(
                |i: ActivityItem|
                    is_dated(i, offset) && ((i.published_at->0 + offset * 60_000) / 86_400_000 + 3)
                        % 7 == day,
            ).len(),
        forall|hour: int|
            0 <= hour < 24 ==> #[trigger] r.cadence.by_hour@[hour] == items.filter(
                |i: ActivityItem|
                    is_dated(i, offset) && ((i.published_at->0 + offset * 60_000) % 86_400_000)
                        / 3_600_000 == hour,
            ).len(),
        r.cadence.basis == Basis::Observed <==> r.cadence.dated_posts >= 4,
{
    lemma_dated_counts(items, offset, 0, 0);
    assert forall|day: int| 0 <= day < 7 implies #[trigger] r.cadence.by_day_of_week@[day]
        == items.filter(
        |i: ActivityItem|
            is_dated(i, offset) && ((i.published_at->0 + offset * 60_000) / 86_400_000 + 3) % 7
                == day,
    ).len() by {
        lemma_dated_counts(items, offset, day, 0);
    }
    assert forall|hour: int| 0 <= hour < 24 implies #[trigger] r.cadence.by_hour@[hour]
        == items.filter(
        |i: ActivityItem|
            is_dated(i, offset) && ((i.published_at->0 + offset * 60_000) % 86_400_000) / 3_600_000
                == hour,
    ).len() by {
        lemma_dated_counts(items, offset, 0, hour);
    }
}

/// The cadence runs from the earliest dated post to the latest, and covers the local
/// days of both and those between. The busiest day and hour hold at least as many
/// posts as any other, and more than any before them; there is none without a dated
/// post.
pub proof fn the_cadence_spans_the_dated_posts(
    r: AnalyticsRollups,
    items: Seq<ActivityItem>,
    offset: i32,
)
    requires
        report_shows(r, items, offset),
    ensures
        r.cadence.first_published_at is Some <==> exists|i: int|
            0 <= i < items.len() && is_dated(#[trigger] items[i], offset),
        r.cadence.last_published_at is Some <==> r.cadence.first_published_at is Some,
        r.cadence.first_published_at is Some ==> {
            let a = r.cadence.first_published_at->0;
            let b = r.cadence.last_published_at->0;
            &&& exists|i: int|
                0 <= i < items.len() && is_dated(#[trigger] items[i], offset)
                    && items[i].published_at == Some(a)
            &&& exists|i: int|
                0 <= i < items.len() && is_dated(#[trigger] items[i], offset)
                    && items[i].published_at == Some(b)
            &&& forall|i: int|
                0 <= i < items.len() && is_dated(#[trigger] items[i], offset) ==> a
                    <= items[i].published_at->0 <= b
            &&& r.cadence.days_covered == (b + offset * 60_000) / 86_400_000 - (a + offset * 60_000)
                / 86_400_000 + 1
        },
        r.cadence.busiest_day_of_week matches Some(d) ==> d < 7
            && r.cadence.by_day_of_week@[d as int] > 0 && (forall|j: int|
            0 <= j < 7 ==> #[trigger] r.cadence.by_day_of_week@[j]
                <= r.cadence.by_day_of_week@[d as int]) && (forall|j: int|
            0 <= j < d ==> #[trigger] r.cadence.by_day_of_week@[j]
                < r.cadence.by_day_of_week@[d as int]),
        r.cadence.busiest_hour matches Some(h) ==> h < 24 && r.cadence.by_hour@[h as int] > 0 && (
        forall|j: int|
            0 <= j < 24 ==> #[trigger] r.cadence.by_hour@[j] <= r.cadence.by_hour@[h as int]) && (
        forall|j: int| 0 <= j < h ==> #[trigger] r.cadence.by_hour@[j] < r.cadence.by_hour@[h as int]),
        r.cadence.busiest_day_of_week is None ==> forall|j: int|
            0 <= j < 7 ==> #[trigger] r.cadence.by_day_of_week@[j] == 0,
        r.cadence.busiest_hour is None ==> forall|j: int|
            0 <= j < 24 ==> #[trigger] r.cadence.by_hour@[j] == 0,
{
    let times = dated(items, offset);
    let c = r.cadence;
    if c.first_published_at is Some {
        let a = c.first_published_at->0;
        let b = c.last_published_at->0;
        assert(times.len() > 0);
        lemma_dated_from(items, offset, a);
        lemma_dated_from(items, offset, b);
    }
    assert forall|i: int| 0 <= i < items.len() && is_dated(#[trigger] items[i], offset) implies {
        &&& c.first_published_at is Some
        &&& c.last_published_at is Some
        &&& c.first_published_at->0 <= items[i].published_at->0 <= c.last_published_at->0
    } by {
        let t = items[i].published_at->0;
        lemma_dated_from(items, offset, t);
        let k = choose|k: int| 0 <= k < times.len() && times[k] == t;
        assert(times[k] == t);
    }
}

/// Likes, comments and shares count one each towards a post's engagement; a count that
/// was not reported counts nothing.
pub proof fn engagement_counts_three_things(i: ActivityItem, c: crate::records::EngagementCounts)
    ensures
        analytics::engagement_of(i) == i.likes + i.comments + i.shares,
        c.likes == Some(i.likes) && c.comments == Some(i.comments) && c.shares == Some(i.shares)
            ==> analytics::score(c) == analytics::engagement_of(i),
        c.likes is None && c.comments is None && c.shares is None ==> analytics::score(c) == 0,
        c.likes is Some && c.comments is None && c.shares is None ==> analytics::score(c)
            == c.likes->0,
        c.likes is None && c.comments is Some && c.shares is None ==> analytics::score(c)
            == c.comments->0,
        c.likes is None && c.comments is None && c.shares is Some ==> analytics::score(c)
            == c.shares->0,
{
}

} // verus!
