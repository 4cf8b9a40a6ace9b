//! The calendar: scheduled posts and published ones in one row.
use vstd::prelude::*;
use crate::error::{ApiError, ApiResult, ErrorView};
use crate::platform::Platform;
use crate::rank;
use crate::rank::{sort_ranked, Ranked};
use crate::records::{ActivityItem, Draft, PostTarget, ScheduledPost};
use crate::status::PostStatus;
use crate::text;
use crate::text::{chars_of, string_of, text_eq, trim};

verus! {

/// How much of a text a cell shows.
pub const CALENDAR_TITLE_CHARS: usize = 120;

/// The beginning of a text, counted in characters; an ellipsis stands for the rest.
pub open spec fn preview_of(s: Seq<char>) -> Seq<char> {
    let t = text::trim_of(s);
    if t.len() <= CALENDAR_TITLE_CHARS {
        t
    } else {
        t.take(CALENDAR_TITLE_CHARS as int).push('\u{2026}')
    }
}

pub fn preview(s: &str) -> (r: String)
    ensures
        r@ == preview_of(s@),
{
    let t = trim(s);
    let v = chars_of(t);
    if v.len() <= CALENDAR_TITLE_CHARS {
        return t.to_owned();
    }
    let mut head: Vec<char> = Vec::new();
    let mut i: usize = 0;
    while i < CALENDAR_TITLE_CHARS
        invariant
            i <= CALENDAR_TITLE_CHARS < v.len(),
            v@ == t@,
            head@ == t@.take(i as int),
        decreases CALENDAR_TITLE_CHARS - i,
    {
        head.push(v[i]);
        i = i + 1;
        assert(head@ =~= t@.take(i as int));
    }
    head.push('\u{2026}');
    string_of(&head)
}

#[derive(Debug, Clone, Copy, PartialEq, Eq, Structural)]
pub enum CalendarKind {
    /// A post that is still owed.
    Scheduled,
    /// Something that went out.
    Published,
}

/// What stands on the calendar at a moment.
#[derive(Debug, PartialEq, Eq)]
pub struct CalendarEntry {
    pub id: String,
    pub kind: CalendarKind,
    pub at: i64,
    pub status: Option<PostStatus>,
    pub platforms: Vec<Platform>,
    pub title: String,
    pub post_id: Option<String>,
    pub permalink: Option<String>,
}

#[verifier::ext_equal]
pub struct EntryView {
    pub id: Seq<char>,
    pub kind: CalendarKind,
    pub at: i64,
    pub status: Option<PostStatus>,
    pub platforms: Seq<Platform>,
    pub title: Seq<char>,
    pub post_id: Option<Seq<char>>,
    pub permalink: Option<Seq<char>>,
}

impl View for CalendarEntry {
    type V = EntryView;

    open spec fn view(&self) -> EntryView {
        EntryView {
            id: self.id@,
            kind: self.kind,
            at: self.at,
            status: self.status,
            platforms: self.platforms@,
            title: self.title@,
            post_id: text::opt_text(self.post_id),
            permalink: text::opt_text(self.permalink),
        }
    }
}

/// Entries stand by their moment.
impl Ranked for CalendarEntry {
    open spec fn le(self, other: Self) -> bool {
        self.at <= other.at
    }

    proof fn le_total(a: Self, b: Self) {
    }

    proof fn le_transitive(a: Self, b: Self, c: Self) {
    }

    fn is_le(&self, other: &Self) -> (r: bool) {
        self.at <= other.at
    }
}

impl Ranked for EntryView {
    open spec fn le(self, other: Self) -> bool {
        self.at <= other.at
    }

    proof fn le_total(a: Self, b: Self) {
    }

    proof fn le_transitive(a: Self, b: Self, c: Self) {
    }

    fn is_le(&self, other: &Self) -> (r: bool) {
        self.at <= other.at
    }
}

/// The text of the draft with an id; of several, the last.
pub open spec fn draft_text(drafts: Seq<Draft>, id: Seq<char>) -> Option<Seq<char>>
    decreases drafts.len(),
{
    if drafts.len() == 0 {
        None
    } else if drafts.last().id@ == id {
        Some(drafts.last().body.text@)
    } else {
        draft_text(drafts.drop_last(), id)
    }
}

pub open spec fn post_title(post: ScheduledPost, drafts: Seq<Draft>) -> Seq<char> {
    match post.draft_id {
        Some(id) => match draft_text(drafts, id@) {
            Some(t) => preview_of(t),
            None => Seq::empty(),
        },
        None => Seq::empty(),
    }
}

pub open spec fn post_entry(post: ScheduledPost, drafts: Seq<Draft>) -> EntryView {
    EntryView {
        id: post.id@,
        kind: CalendarKind::Scheduled,
        at: post.scheduled_for,
        status: Some(post.status),
        platforms: post.targets@.map_values(|t: PostTarget| t.platform),
        title: post_title(post, drafts),
        post_id: Some(post.id@),
        permalink: None,
    }
}

pub open spec fn activity_entry(item: ActivityItem) -> EntryView {
    EntryView {
        id: item.id@,
        kind: CalendarKind::Published,
        at: item.published_at->0,
        status: None,
        platforms: seq![item.platform],
        title: match item.text {
            Some(t) => preview_of(t@),
            None => Seq::empty(),
        },
        post_id: None,
        permalink: text::opt_text(item.permalink),
    }
}

/// Whether something went out within a range; the end is not part of it.
pub open spec fn went_out(item: ActivityItem, from: i64, to: i64) -> bool {
    match item.published_at {
        Some(at) => from <= at < to,
        None => false,
    }
}

pub open spec fn post_entries(posts: Seq<ScheduledPost>, drafts: Seq<Draft>) -> Seq<EntryView> {
    posts.map_values(|p: ScheduledPost| post_entry(p, drafts))
}

pub open spec fn activity_entries(items: Seq<ActivityItem>, from: i64, to: i64) -> Seq<EntryView>
    decreases items.len(),
{
    if items.len() == 0 {
        Seq::empty()
    } else if went_out(items.last(), from, to) {
        activity_entries(items.drop_last(), from, to).push(activity_entry(items.last()))
    } else {
        activity_entries(items.drop_last(), from, to)
    }
}

pub open spec fn entry_views(s: Seq<CalendarEntry>) -> Seq<EntryView> {
    s.map_values(|e: CalendarEntry| e@)
}

fn find_draft_text(drafts: &Vec<Draft>, id: &str) -> (r: Option<String>)
    ensures
        text::opt_text(r) == draft_text(drafts@, id@),
{
    let mut n: usize = drafts.len();
    assert(drafts@.take(n as int) =~= drafts@);
    while n > 0
        invariant
            n <= drafts.len(),
            draft_text(drafts@, id@) == draft_text(drafts@.take(n as int), id@),
        decreases n,
    {
        let d = &drafts[n - 1];
        assert(drafts@.take(n as int).drop_last() =~= drafts@.take(n as int - 1));
        if text_eq(d.id.as_str(), id) {
            return Some(d.body.text.clone());
        }
        n = n - 1;
    }
    None
}

fn entry_of_post(post: &ScheduledPost, drafts: &Vec<Draft>) -> (r: CalendarEntry)
    ensures
        r@ == post_entry(*post, drafts@),
{
    let mut platforms: Vec<Platform> = Vec::new();
    let ghost want = post.targets@.map_values(|t: PostTarget| t.platform);
    let mut i: usize = 0;
    while i < post.targets.len()
        invariant
            i <= post.targets.len(),
            want == post.targets@.map_values(|t: PostTarget| t.platform),
            platforms@ == want.take(i as int),
        decreases post.targets.len() - i,
    {
        platforms.push(post.targets[i].platform);
        i = i + 1;
        assert(platforms@ =~= want.take(i as int));
    }
    assert(want.take(want.len() as int) =~= want);
    let title = match &post.draft_id {
        Some(id) => match find_draft_text(drafts, id.as_str()) {
            Some(t) => preview(t.as_str()),
            None => String::new(),
        },
        None => String::new(),
    };
    CalendarEntry {
        id: post.id.clone(),
        kind: CalendarKind::Scheduled,
        at: post.scheduled_for,
        status: Some(post.status),
        platforms,
        title,
        post_id: Some(post.id.clone()),
        permalink: None,
    }
}

fn entry_of_activity(item: &ActivityItem, at: i64) -> (r: CalendarEntry)
    requires
        item.published_at == Some(at),
    ensures
        r@ == activity_entry(*item),
{
    let mut platforms: Vec<Platform> = Vec::new();
    platforms.push(item.platform);
    assert(platforms@ =~= seq![item.platform]);
    CalendarEntry {
        id: item.id.clone(),
        kind: CalendarKind::Published,
        at,
        status: None,
        platforms,
        title: match &item.text {
            Some(t) => preview(t.as_str()),
            None => String::new(),
        },
        post_id: None,
        permalink: item.permalink.clone(),
    }
}

/// Everything that a range of the calendar shows.
pub open spec fn shown_in(
    posts: Seq<ScheduledPost>,
    drafts: Seq<Draft>,
    activity: Seq<ActivityItem>,
    from: i64,
    to: i64,
) -> Seq<EntryView> {
    rank::ranked(post_entries(posts, drafts) + activity_entries(activity, from, to))
}

/// What a range of the calendar shows: the posts scheduled in it and what went out in
/// it, by moment; at one moment posts come before what went out, each in the order in
/// which they were read.
pub fn calendar(
    posts: &Vec<ScheduledPost>,
    drafts: &Vec<Draft>,
    activity: &Vec<ActivityItem>,
    from: i64,
    to: i64,
) -> (r: ApiResult<Vec<CalendarEntry>>)
    ensures
        if to <= from {
            r is Err && r->Err_0@ == ErrorView::BadRequest("`to` must be after `from`"@)
        } else {
            &&& r is Ok
            &&& entry_views(r->Ok_0@) == shown_in(posts@, drafts@, activity@, from, to)
            &&& rank::in_order(entry_views(r->Ok_0@))
        },
{
    if to <= from {
        return Err(ApiError::bad_request("`to` must be after `from`"));
    }
    let ghost first = post_entries(posts@, drafts@);
    let mut entries: Vec<CalendarEntry> = Vec::new();
    let mut i: usize = 0;
    assert(entry_views(entries@) =~= first.take(0));
    while i < posts.len()
        invariant
            i <= posts.len(),
            first == post_entries(posts@, drafts@),
            entry_views(entries@) == first.take(i as int),
        decreases posts.len() - i,
    {
        let ghost before = entry_views(entries@);
        let entry = entry_of_post(&posts[i], drafts);
        let ghost shown = entry@;
        entries.push(entry);
        i = i + 1;
        assert(entry_views(entries@) =~= before.push(shown));
        assert(first.take(i as int) =~= first.take(i as int - 1).push(shown));
    }
    assert(first.take(first.len() as int) =~= first);
    let mut j: usize = 0;
    assert(activity@.take(0) =~= Seq::<ActivityItem>::empty());
    assert(first + Seq::<EntryView>::empty() =~= first);
    while j < activity.len()
        invariant
            j <= activity.len(),
            entry_views(entries@) == first + activity_entries(activity@.take(j as int), from, to),
        decreases activity.len() - j,
    {
        let ghost before = entry_views(entries@);
        assert(activity@.take(j as int + 1).drop_last() =~= activity@.take(j as int));
        if let Some(at) = activity[j].published_at {
            if from <= at && at < to {
                let entry = entry_of_activity(&activity[j], at);
                let ghost shown = entry@;
                entries.push(entry);
                proof {
                    assert(entry_views(entries@) =~= before.push(shown));
                    let k = activity_entries(activity@.take(j as int), from, to);
                    assert((first + k).push(shown) =~= first + k.push(shown));
                }
            }
        }
        j = j + 1;
    }
    assert(activity@.take(activity@.len() as int) =~= activity@);
    let ghost unsorted = entries@;
    let sorted = sort_ranked(entries);
    proof {
        assert(entry_views(unsorted) == first + activity_entries(activity@, from, to));
        rank::showing_keeps_the_order(unsorted, |e: CalendarEntry| e@);
        rank::lemma_ranked(entry_views(unsorted));
    }
    Ok(sorted)
}

// ── Laws ───────────────────────────────────────────────────────────────────────

proof fn lemma_shown(all: Seq<EntryView>, e: EntryView)
    ensures
        rank::ranked(all).contains(e) <==> all.contains(e),
{
    broadcast use vstd::seq_lib::group_to_multiset_ensures;

    rank::lemma_ranked(all);
    assert(rank::ranked(all).to_multiset().contains(e) == all.to_multiset().contains(e));
}

proof fn lemma_activity(items: Seq<ActivityItem>, from: i64, to: i64)
    ensures
        forall|k: int|
            0 <= k < activity_entries(items, from, to).len() ==> from <= (
            #[trigger] activity_entries(items, from, to)[k]).at < to,
        forall|i: int|
            0 <= i < items.len() && went_out(#[trigger] items[i], from, to) ==> activity_entries(
                items,
                from,
                to,
            ).contains(activity_entry(items[i])),
    decreases items.len(),
{
    if items.len() > 0 {
        let init = items.drop_last();
        lemma_activity(init, from, to);
        let before = activity_entries(init, from, to);
        let after = activity_entries(items, from, to);
        assert forall|i: int|
            0 <= i < items.len() && went_out(
                #[trigger] items[i],
                from,
                to,
            ) implies after.contains(activity_entry(items[i])) by {
            if i < init.len() {
                assert(init[i] == items[i]);
                let e = activity_entry(init[i]);
                assert(before.contains(e));
                let k = choose|k: int| 0 <= k < before.len() && before[k] == e;
                assert(after[k] == e);
            } else {
                assert(after[after.len() - 1] == activity_entry(items[i]));
            }
        }
    }
}

/// The calendar shows nothing from outside its range, given posts that are scheduled
/// within it.
pub proof fn the_calendar_keeps_to_its_range(
    posts: Seq<ScheduledPost>,
    drafts: Seq<Draft>,
    activity: Seq<ActivityItem>,
    from: i64,
    to: i64,
    e: EntryView,
)
    requires
        forall|i: int| 0 <= i < posts.len() ==> from <= (#[trigger] posts[i]).scheduled_for < to,
        shown_in(posts, drafts, activity, from, to).contains(e),
    ensures
        from <= e.at < to,
{
    let first = post_entries(posts, drafts);
    let second = activity_entries(activity, from, to);
    lemma_shown(first + second, e);
    lemma_activity(activity, from, to);
    let k = choose|k: int| 0 <= k < (first + second).len() && (first + second)[k] == e;
    if k < first.len() {
        assert(first[k] == post_entry(posts[k], drafts));
    } else {
        assert(second[k - first.len()] == e);
    }
}

/// The calendar shows every post that is handed in, and all that went out within its
/// range.
pub proof fn the_calendar_leaves_nothing_out(
    posts: Seq<ScheduledPost>,
    drafts: Seq<Draft>,
    activity: Seq<ActivityItem>,
    from: i64,
    to: i64,
)
    ensures
        forall|i: int|
            0 <= i < posts.len() ==> shown_in(posts, drafts, activity, from, to).contains(
                post_entry(#[trigger] posts[i], drafts),
            ),
        forall|i: int|
            0 <= i < activity.len() && went_out(#[trigger] activity[i], from, to) ==> shown_in(
                posts,
                drafts,
                activity,
                from,
                to,
            ).contains(activity_entry(activity[i])),
{
    let first = post_entries(posts, drafts);
    let second = activity_entries(activity, from, to);
    let all = first + second;
    lemma_activity(activity, from, to);
    assert forall|i: int| 0 <= i < posts.len() implies rank::ranked(all).contains(
        post_entry(#[trigger] posts[i], drafts),
    ) by {
        assert(all[i] == post_entry(posts[i], drafts));
        lemma_shown(all, post_entry(posts[i], drafts));
    }
    assert forall|i: int|
        0 <= i < activity.len() && went_out(
            #[trigger] activity[i],
            from,
            to,
        ) implies rank::ranked(all).contains(activity_entry(activity[i])) by {
        let e = activity_entry(activity[i]);
        assert(second.contains(e));
        let k = choose|k: int| 0 <= k < second.len() && second[k] == e;
        assert(all[first.len() + k] == e);
        lemma_shown(all, e);
    }
}

/// A text of a hundred and twenty characters or less is shown whole, but for the white
/// space round it; of a longer one the first hundred and twenty, and then an ellipsis.
pub proof fn a_preview_is_the_beginning(s: Seq<char>)
    ensures
        text::trim_of(s).len() <= 120 ==> preview_of(s) == text::trim_of(s),
        text::trim_of(s).len() > 120 ==> preview_of(s).len() == 121 && preview_of(s)[120]
            == '\u{2026}' && preview_of(s).take(120) == text::trim_of(s).take(120),
{
    if text::trim_of(s).len() > 120 {
        assert(preview_of(s).take(120) =~= text::trim_of(s).take(120));
    }
}

/// A post stands at the time it is scheduled for, with its status, the platforms of its
/// targets in their order, and the beginning of its draft's text where that is there.
pub proof fn a_post_stands_at_its_time(post: ScheduledPost, drafts: Seq<Draft>, k: int)
    ensures
        ({
            let e = post_entry(post, drafts);
            &&& e.kind == CalendarKind::Scheduled
            &&& e.id == post.id@
            &&& e.post_id == Some(post.id@)
            &&& e.at == post.scheduled_for
            &&& e.status == Some(post.status)
            &&& e.permalink is None
            &&& e.platforms.len() == post.targets@.len()
            &&& forall|i: int|
                0 <= i < post.targets@.len() ==> #[trigger] e.platforms[i]
                    == post.targets@[i].platform
            &&& post.draft_id is None ==> e.title.len() == 0
            &&& post.draft_id is Some && 0 <= k < drafts.len() && drafts[k].id@
                == post.draft_id->0@ && (forall|j: int|
                k < j < drafts.len() ==> (#[trigger] drafts[j]).id@ != post.draft_id->0@)
                ==> e.title == preview_of(drafts[k].body.text@)
            &&& post.draft_id is Some && (forall|j: int|
                0 <= j < drafts.len() ==> (#[trigger] drafts[j]).id@ != post.draft_id->0@)
                ==> e.title.len() == 0
        }),
{
    if post.draft_id is Some {
        lemma_draft_text(drafts, post.draft_id->0@, k);
    }
}

proof fn lemma_draft_text(drafts: Seq<Draft>, id: Seq<char>, k: int)
    ensures
        0 <= k < drafts.len() && drafts[k].id@ == id && (forall|j: int|
            k < j < drafts.len() ==> (#[trigger] drafts[j]).id@ != id) ==> draft_text(drafts, id)
            == Some(drafts[k].body.text@),
        (forall|j: int| 0 <= j < drafts.len() ==> (#[trigger] drafts[j]).id@ != id) ==> draft_text(
            drafts,
            id,
        ) is None,
    decreases drafts.len(),
{
    if drafts.len() > 0 {
        let init = drafts.drop_last();
        assert(drafts.last() == drafts[drafts.len() - 1]);
        assert forall|j: int| 0 <= j < init.len() implies #[trigger] init[j] == drafts[j] by {}
        lemma_draft_text(init, id, k);
    }
}

/// What went out stands at the time it went out, on its one platform, with its link and
/// the beginning of its text.
pub proof fn what_went_out_stands_at_its_time(item: ActivityItem)
    requires
        item.published_at is Some,
    ensures
        ({
            let e = activity_entry(item);
            &&& e.kind == CalendarKind::Published
            &&& e.id == item.id@
            &&& Some(e.at) == item.published_at
            &&& e.status is None
            &&& e.post_id is None
            &&& e.platforms == seq![item.platform]
            &&& e.permalink == text::opt_text(item.permalink)
            &&& item.text is None ==> e.title.len() == 0
            &&& item.text is Some ==> e.title == preview_of(item.text->0@)
        }),
{
}

/// A range holds its first moment and ends before its last; what has no date is in none.
pub proof fn a_range_ends_before_its_end(item: ActivityItem, from: i64, to: i64)
    ensures
        went_out(item, from, to) <==> item.published_at is Some && from <= item.published_at->0
            && item.published_at->0 < to,
{
}

/// The calendar goes from the earlier to the later, and shows nothing but the posts and
/// what went out in its range, each as often as it was handed in.
pub proof fn the_calendar_goes_by_the_time(
    posts: Seq<ScheduledPost>,
    drafts: Seq<Draft>,
    activity: Seq<ActivityItem>,
    from: i64,
    to: i64,
    i: int,
    j: int,
)
    requires
        0 <= i <= j < shown_in(posts, drafts, activity, from, to).len(),
    ensures
        ({
            let all = shown_in(posts, drafts, activity, from, to);
            &&& all[i].at <= all[j].at
            &&& (exists|k: int|
                0 <= k < posts.len() && all[i] == post_entry(#[trigger] posts[k], drafts)) || (
            exists|k: int|
                0 <= k < activity.len() && went_out(#[trigger] activity[k], from, to) && all[i]
                    == activity_entry(activity[k]))
            &&& all.len() == posts.len() + activity.filter(
                |a: ActivityItem| went_out(a, from, to),
            ).len()
        }),
{
    let first = post_entries(posts, drafts);
    let second = activity_entries(activity, from, to);
    let all = rank::ranked(first + second);
    rank::lemma_ranked(first + second);
    assert(all[i].le(all[j]));
    lemma_only_activity(activity, from, to);
    let e = all[i];
    assert(all.contains(e));
    lemma_shown(first + second, e);
    let k = choose|k: int| 0 <= k < (first + second).len() && (first + second)[k] == e;
    if k < first.len() {
        assert(e == post_entry(posts[k], drafts));
    } else {
        assert(second[k - first.len()] == e);
        assert(of_activity(activity, from, to, e));
    }
}

/// An entry shows something that went out within a range.
spec fn of_activity(items: Seq<ActivityItem>, from: i64, to: i64, e: EntryView) -> bool {
    exists|m: int|
        0 <= m < items.len() && went_out(#[trigger] items[m], from, to) && e == activity_entry(
            items[m],
        )
}

proof fn lemma_only_activity(items: Seq<ActivityItem>, from: i64, to: i64)
    ensures
        activity_entries(items, from, to).len() == items.filter(
            |a: ActivityItem| went_out(a, from, to),
        ).len(),
        forall|k: int|
            0 <= k < activity_entries(items, from, to).len() ==> of_activity(
                items,
                from,
                to,
                #[trigger] activity_entries(items, from, to)[k],
            ),
    decreases items.len(),
{
    reveal(Seq::filter);
    if items.len() > 0 {
        let init = items.drop_last();
        lemma_only_activity(init, from, to);
        let before = activity_entries(init, from, to);
        let after = activity_entries(items, from, to);
        assert forall|k: int| 0 <= k < after.len() implies of_activity(
            items,
            from,
            to,
            #[trigger] after[k],
        ) by {
            if k < before.len() {
                assert(after[k] == before[k]);
                let m = choose|m: int|
                    0 <= m < init.len() && went_out(#[trigger] init[m], from, to) && before[k]
                        == activity_entry(init[m]);
                assert(init[m] == items[m]);
            } else {
                let m = items.len() - 1;
                assert(went_out(items[m], from, to));
            }
        }
    }
}

/// At one moment, posts come before what went out, and each in the order in which they
/// were handed in.
pub proof fn posts_come_first_at_one_moment(
    posts: Seq<ScheduledPost>,
    drafts: Seq<Draft>,
    activity: Seq<ActivityItem>,
    from: i64,
    to: i64,
    at: EntryView,
)
    ensures
        shown_in(posts, drafts, activity, from, to).filter(|e: EntryView| e.at == at.at) == (
        post_entries(posts, drafts) + activity_entries(activity, from, to)).filter(
            |e: EntryView| e.at == at.at,
        ),
{
    let all = post_entries(posts, drafts) + activity_entries(activity, from, to);
    rank::ties_keep_their_order(all, at);
    assert((|e: EntryView| e.at == at.at) =~= (|e: EntryView| rank::tied(e, at)));
}

} // verus!
