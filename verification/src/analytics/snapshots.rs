//! The published posts as they are kept: one row per remote post, with its latest
//! counts. A new reading replaces the counts and leaves the rest as it was known.
use vstd::prelude::*;
use crate::records::ActivityItem;
use crate::text::text_eq;

verus! {

/// Whether two rows are of the same remote post.
pub open spec fn same_post(a: ActivityItem, b: ActivityItem) -> bool {
    &&& a.workspace_id@ == b.workspace_id@
    &&& a.social_account_id@ == b.social_account_id@
    &&& a.post_remote_id@ == b.post_remote_id@
}

/// What is known of something, else what was read.
pub open spec fn filled<T>(known: Option<T>, read: Option<T>) -> Option<T> {
    match known {
        Some(_) => known,
        None => read,
    }
}

/// A row after a new reading: the counts are those read, whatever they were, and what
/// else was read only fills in what was not known.
pub open spec fn merged(known: ActivityItem, read: ActivityItem) -> ActivityItem {
    ActivityItem {
        permalink: filled(known.permalink, read.permalink),
        text: filled(known.text, read.text),
        published_at: filled(known.published_at, read.published_at),
        likes: read.likes,
        comments: read.comments,
        shares: read.shares,
        views: read.views,
        engagement_fetched_at: read.engagement_fetched_at,
        ..known
    }
}

/// The first row of a remote post.
pub open spec fn row_of_post(rows: Seq<ActivityItem>, of: ActivityItem) -> Option<int>
    decreases rows.len(),
{
    if rows.len() == 0 {
        None
    } else {
        match row_of_post(rows.drop_last(), of) {
            Some(k) => Some(k),
            None => if same_post(rows.last(), of) {
                Some(rows.len() - 1)
            } else {
                None
            },
        }
    }
}

/// The rows after a reading.
pub open spec fn after_reading(rows: Seq<ActivityItem>, read: ActivityItem) -> Seq<ActivityItem> {
    match row_of_post(rows, read) {
        Some(k) => rows.update(k, merged(rows[k], read)),
        None => rows.push(read),
    }
}

/// No remote post has two rows.
pub open spec fn one_row_each(rows: Seq<ActivityItem>) -> bool {
    forall|i: int, j: int|
        0 <= i < j < rows.len() ==> !same_post(#[trigger] rows[i], #[trigger] rows[j])
}

proof fn lemma_row_of_post(rows: Seq<ActivityItem>, of: ActivityItem)
    ensures
        match row_of_post(rows, of) {
            Some(k) => {
                &&& 0 <= k < rows.len()
                &&& same_post(rows[k], of)
                &&& forall|j: int| 0 <= j < k ==> !same_post(#[trigger] rows[j], of)
            },
            None => forall|j: int| 0 <= j < rows.len() ==> !same_post(#[trigger] rows[j], of),
        },
    decreases rows.len(),
{
    if rows.len() > 0 {
        let rest = rows.drop_last();
        lemma_row_of_post(rest, of);
        assert forall|j: int| 0 <= j < rest.len() implies #[trigger] rows[j] == rest[j] by {}
    }
}

/// The rows, in the order in which their posts were first read.
#[derive(Debug, PartialEq, Eq)]
pub struct Snapshots {
    pub rows: Vec<ActivityItem>,
}

impl View for Snapshots {
    type V = Seq<ActivityItem>;

    open spec fn view(&self) -> Seq<ActivityItem> {
        self.rows@
    }
}

fn is_same_post(a: &ActivityItem, workspace: &str, account: &str, remote: &str) -> (r: bool)
    ensures
        r == (a.workspace_id@ == workspace@ && a.social_account_id@ == account@
            && a.post_remote_id@ == remote@),
{
    text_eq(a.post_remote_id.as_str(), remote) && text_eq(a.social_account_id.as_str(), account)
        && text_eq(a.workspace_id.as_str(), workspace)
}

fn fill_text(known: &Option<String>, read: &Option<String>) -> (r: Option<String>)
    ensures
        r == filled(*known, *read),
{
    match known {
        Some(_) => known.clone(),
        None => read.clone(),
    }
}

impl Snapshots {
    pub open spec fn wf(&self) -> bool {
        one_row_each(self@)
    }

    pub fn new() -> (r: Self)
        ensures
            r@ == Seq::<ActivityItem>::empty(),
            r.wf(),
    {
        Snapshots { rows: Vec::new() }
    }

    /// The row of a remote post, if it has been read.
    pub fn get_activity_by_remote(&self, workspace_id: &str, account_id: &str, remote_id: &str) -> (r:
        Option<ActivityItem>)
        ensures
            match r {
                Some(row) => {
                    &&& self@.contains(row)
                    &&& row.workspace_id@ == workspace_id@
                    &&& row.social_account_id@ == account_id@
                    &&& row.post_remote_id@ == remote_id@
                },
                None => forall|k: int|
                    0 <= k < self@.len() ==> !((#[trigger] self@[k]).workspace_id@ == workspace_id@
                        && self@[k].social_account_id@ == account_id@ && self@[k].post_remote_id@
                        == remote_id@),
            },
    {
        let mut i: usize = 0;
        while i < self.rows.len()
            invariant
                i <= self.rows.len(),
                forall|k: int|
                    0 <= k < i ==> !((#[trigger] self@[k]).workspace_id@ == workspace_id@
                        && self@[k].social_account_id@ == account_id@ && self@[k].post_remote_id@
                        == remote_id@),
            decreases self.rows.len() - i,
        {
            let row = &self.rows[i];
            if is_same_post(row, workspace_id, account_id, remote_id) {
                assert(self@[i as int] == *row);
                return Some(row.clone());
            }
            i = i + 1;
        }
        None
    }

    /// Keep a reading, and hand back what is then known of its post.
    pub fn upsert_activity(&mut self, read: ActivityItem) -> (r: ActivityItem)
        ensures
            final(self)@ == after_reading(old(self)@, read),
            r == (match row_of_post(old(self)@, read) {
                Some(k) => merged(old(self)@[k], read),
                None => read,
            }),
            old(self).wf() ==> final(self).wf(),
    {
        let ghost before = self@;
        let mut i: usize = 0;
        while i < self.rows.len()
            invariant
                i <= self.rows.len(),
                self@ == before,
                before == old(self)@,
                forall|k: int| 0 <= k < i ==> !same_post(#[trigger] before[k], read),
            decreases self.rows.len() - i,
        {
            let hit = is_same_post(
                &self.rows[i],
                read.workspace_id.as_str(),
                read.social_account_id.as_str(),
                read.post_remote_id.as_str(),
            );
            if hit {
                proof {
                    lemma_row_of_post(before, read);
                    assert(same_post(before[i as int], read));
                }
                let known = &self.rows[i];
                let row = ActivityItem {
                    id: known.id.clone(),
                    workspace_id: known.workspace_id.clone(),
                    social_account_id: known.social_account_id.clone(),
                    platform: known.platform,
                    post_remote_id: known.post_remote_id.clone(),
                    permalink: fill_text(&known.permalink, &read.permalink),
                    text: fill_text(&known.text, &read.text),
                    likes: read.likes,
                    comments: read.comments,
                    shares: read.shares,
                    views: read.views,
                    engagement_fetched_at: read.engagement_fetched_at,
                    published_at: match known.published_at {
                        Some(at) => Some(at),
                        None => read.published_at,
                    },
                };
                assert(row == merged(before[i as int], read));
                self.rows[i] = row.clone();
                proof {
                    assert(self@ =~= after_reading(before, read));
                    lemma_one_row_each(before, read);
                }
                return row;
            }
            i = i + 1;
        }
        proof {
            lemma_row_of_post(before, read);
            lemma_one_row_each(before, read);
        }
        self.rows.push(read.clone());
        read
    }
}

proof fn lemma_one_row_each(rows: Seq<ActivityItem>, read: ActivityItem)
    ensures
        one_row_each(rows) ==> one_row_each(after_reading(rows, read)),
{
    lemma_row_of_post(rows, read);
    let after = after_reading(rows, read);
    if one_row_each(rows) {
        assert forall|i: int, j: int| 0 <= i < j < after.len() implies !same_post(
            #[trigger] after[i],
            #[trigger] after[j],
        ) by {
            if j < rows.len() {
                assert(same_post(after[i], rows[i]) && same_post(after[j], rows[j]));
                assert(!same_post(rows[i], rows[j]));
            } else {
                assert(after[i] == rows[i]);
            }
        }
    }
}

/// A reading never blanks what is known of a post: its row keeps its id, its link, its
/// text and its date. The counts are always those of the last reading.
pub proof fn a_reading_blanks_nothing(known: ActivityItem, read: ActivityItem)
    ensures
        ({
            let after = merged(known, read);
            &&& after.id == known.id
            &&& known.permalink is Some ==> after.permalink == known.permalink
            &&& known.text is Some ==> after.text == known.text
            &&& known.published_at is Some ==> after.published_at == known.published_at
            &&& after.likes == read.likes
            &&& after.comments == read.comments
            &&& after.shares == read.shares
            &&& after.views == read.views
            &&& after.engagement_fetched_at == read.engagement_fetched_at
        }),
{
}

/// The last reading of a post is what counts: one before it leaves no trace but what
/// it filled in, and a post that was read is kept once.
pub proof fn reading_again_replaces_the_counts(
    rows: Seq<ActivityItem>,
    first: ActivityItem,
    second: ActivityItem,
)
    requires
        one_row_each(rows),
        same_post(first, second),
    ensures
        ({
            let after = after_reading(after_reading(rows, first), second);
            &&& one_row_each(after)
            &&& after.len() == after_reading(rows, first).len()
            &&& exists|k: int|
                0 <= k < after.len() && same_post(#[trigger] after[k], second) && after[k].likes
                    == second.likes && after[k].comments == second.comments && after[k].shares
                    == second.shares && after[k].views == second.views
        }),
{
    let once = after_reading(rows, first);
    lemma_one_row_each(rows, first);
    lemma_one_row_each(once, second);
    lemma_row_of_post(rows, first);
    lemma_row_of_post(once, second);
    match row_of_post(rows, first) {
        Some(k) => {
            assert(same_post(once[k], second));
        },
        None => {
            assert(same_post(once[rows.len() as int], second));
        },
    }
    let k = row_of_post(once, second)->0;
    assert(same_post(after_reading(once, second)[k], second));
}

/// A reading fills in the link, the text and the date where they were not known, and
/// leaves alone whose post the row is of.
pub proof fn a_reading_fills_in_what_was_not_known(known: ActivityItem, read: ActivityItem)
    ensures
        known.permalink is None ==> merged(known, read).permalink == read.permalink,
        known.text is None ==> merged(known, read).text == read.text,
        known.published_at is None ==> merged(known, read).published_at == read.published_at,
        merged(known, read).workspace_id == known.workspace_id,
        merged(known, read).social_account_id == known.social_account_id,
        merged(known, read).platform == known.platform,
        merged(known, read).post_remote_id == known.post_remote_id,
{
}

/// A reading goes into the row of its post, the first one there is, and touches no
/// other; a post without a row gets one, behind the others and as it was read.
pub proof fn a_reading_touches_one_row(rows: Seq<ActivityItem>, read: ActivityItem, k: int)
    ensures
        (forall|j: int| 0 <= j < rows.len() ==> !same_post(#[trigger] rows[j], read))
            ==> after_reading(rows, read) == rows.push(read),
        0 <= k < rows.len() && same_post(rows[k], read) && (forall|j: int|
            0 <= j < k ==> !same_post(#[trigger] rows[j], read)) ==> {
            &&& after_reading(rows, read).len() == rows.len()
            &&& after_reading(rows, read)[k].likes == read.likes
            &&& after_reading(rows, read)[k].id == rows[k].id
            &&& forall|j: int|
                0 <= j < rows.len() && j != k ==> #[trigger] after_reading(rows, read)[j] == rows[j]
        },
{
    lemma_row_of_post(rows, read);
}

/// A post is known by its workspace, its account and its id there.
pub proof fn a_post_is_known_by_three_things(a: ActivityItem, b: ActivityItem)
    ensures
        same_post(a, b) == (a.post_remote_id@ == b.post_remote_id@ && a.social_account_id@
            == b.social_account_id@ && a.workspace_id@ == b.workspace_id@),
{
}

} // verus!
