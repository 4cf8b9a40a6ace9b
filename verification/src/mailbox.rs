//! The inbox as it is kept: one row per item, recognised by its workspace, its account
//! and the platform's id of it. A row that is there is left as it is, with what the
//! user has read and replied to.
use vstd::prelude::*;
use crate::inbox::InboxView;
use crate::records::InboxItem;
use crate::text::text_eq;

verus! {

/// A stored item with its id.
#[verifier::ext_equal]
pub struct MailRow {
    pub id: Seq<char>,
    pub item: InboxView,
}

impl View for InboxItem {
    type V = MailRow;

    open spec fn view(&self) -> MailRow {
        MailRow { id: self.id@, item: self.content() }
    }
}

pub open spec fn mail_rows(s: Seq<InboxItem>) -> Seq<MailRow> {
    s.map_values(|i: InboxItem| i@)
}

/// The stored items, in the order in which they came.
#[derive(Debug, PartialEq, Eq)]
pub struct Mailbox {
    pub rows: Vec<InboxItem>,
}

impl View for Mailbox {
    type V = Seq<MailRow>;

    open spec fn view(&self) -> Seq<MailRow> {
        mail_rows(self.rows@)
    }
}

/// Whether two rows are of the same item.
pub open spec fn same_item(a: InboxView, b: InboxView) -> bool {
    &&& a.workspace_id == b.workspace_id
    &&& a.social_account_id == b.social_account_id
    &&& a.external_id == b.external_id
}

pub open spec fn holds(rows: Seq<MailRow>, item: InboxView) -> bool {
    exists|k: int| 0 <= k < rows.len() && same_item((#[trigger] rows[k]).item, item)
}

/// No item is there twice.
pub open spec fn once_each(rows: Seq<MailRow>) -> bool {
    forall|i: int, j: int|
        0 <= i < j < rows.len() ==> !same_item(
            (#[trigger] rows[i]).item,
            (#[trigger] rows[j]).item,
        )
}

/// The platform's ids of what is there of an account.
pub open spec fn known_of(
    rows: Seq<MailRow>,
    workspace: Seq<char>,
    account: Seq<char>,
) -> Seq<Seq<char>>
    decreases rows.len(),
{
    if rows.len() == 0 {
        Seq::empty()
    } else {
        let init = known_of(rows.drop_last(), workspace, account);
        let item = rows.last().item;
        if item.workspace_id == workspace && item.social_account_id == account {
            init.push(item.external_id)
        } else {
            init
        }
    }
}

/// An id is known of an account where a row of that account has it.
pub proof fn lemma_known(rows: Seq<MailRow>, item: InboxView)
    ensures
        known_of(rows, item.workspace_id, item.social_account_id).contains(item.external_id)
            == holds(rows, item),
    decreases rows.len(),
{
    if rows.len() > 0 {
        let rest = rows.drop_last();
        lemma_known(rest, item);
        let init = known_of(rest, item.workspace_id, item.social_account_id);
        let all = known_of(rows, item.workspace_id, item.social_account_id);
        let last = rows[rows.len() - 1].item;
        if holds(rest, item) {
            let k = choose|k: int| 0 <= k < rest.len() && same_item((#[trigger] rest[k]).item, item);
            assert(rows[k] == rest[k]);
            let i = choose|i: int| 0 <= i < init.len() && init[i] == item.external_id;
            assert(all[i] == item.external_id);
        } else if same_item(last, item) {
            assert(all[all.len() - 1] == item.external_id);
        } else {
            assert forall|k: int| 0 <= k < rows.len() implies !same_item(
                (#[trigger] rows[k]).item,
                item,
            ) by {
                if k < rest.len() {
                    assert(rest[k] == rows[k]);
                }
            }
            assert forall|i: int| 0 <= i < all.len() implies all[i] != item.external_id by {
                if i < init.len() {
                    assert(init[i] == all[i]);
                }
            }
        }
    }
}

// ── Marks ──────────────────────────────────────────────────────────────────────

/// The first row with an id.
pub open spec fn row_at(rows: Seq<MailRow>, id: Seq<char>) -> Option<int>
    decreases rows.len(),
{
    if rows.len() == 0 {
        None
    } else {
        match row_at(rows.drop_last(), id) {
            Some(k) => Some(k),
            None => if rows.last().id == id {
                Some(rows.len() - 1)
            } else {
                None
            },
        }
    }
}

proof fn lemma_row_at(rows: Seq<MailRow>, id: Seq<char>)
    ensures
        match row_at(rows, id) {
            Some(k) => {
                &&& 0 <= k < rows.len()
                &&& rows[k].id == id
                &&& forall|j: int| 0 <= j < k ==> (#[trigger] rows[j]).id != id
            },
            None => forall|j: int| 0 <= j < rows.len() ==> (#[trigger] rows[j]).id != id,
        },
    decreases rows.len(),
{
    if rows.len() > 0 {
        let rest = rows.drop_last();
        lemma_row_at(rest, id);
        assert forall|j: int| 0 <= j < rest.len() implies #[trigger] rows[j] == rest[j] by {}
    }
}

impl MailRow {
    pub open spec fn marked_read(self, read: bool) -> MailRow {
        MailRow { item: InboxView { read, ..self.item }, ..self }
    }

    /// A replied item has been read.
    pub open spec fn marked_replied(self) -> MailRow {
        MailRow { item: InboxView { replied: true, read: true, ..self.item }, ..self }
    }
}

/// The rows with one of them put in another's place.
pub open spec fn with_row(rows: Seq<MailRow>, at: Option<int>, row: MailRow) -> Seq<MailRow> {
    match at {
        Some(k) => rows.update(k, row),
        None => rows,
    }
}

pub open spec fn after_read(rows: Seq<MailRow>, id: Seq<char>, read: bool) -> Seq<MailRow> {
    with_row(rows, row_at(rows, id), rows[row_at(rows, id)->0].marked_read(read))
}

pub open spec fn after_replied(rows: Seq<MailRow>, id: Seq<char>) -> Seq<MailRow> {
    with_row(rows, row_at(rows, id), rows[row_at(rows, id)->0].marked_replied())
}

impl Mailbox {
    pub open spec fn wf(&self) -> bool {
        once_each(self@)
    }

    pub fn new() -> (r: Self)
        ensures
            r@ == Seq::<MailRow>::empty(),
            r.wf(),
    {
        let r = Mailbox { rows: Vec::new() };
        assert(r@ =~= Seq::<MailRow>::empty());
        r
    }

    fn has(&self, item: &InboxItem) -> (r: bool)
        ensures
            r == holds(self@, item.content()),
    {
        let mut i: usize = 0;
        while i < self.rows.len()
            invariant
                i <= self.rows.len(),
                forall|k: int| 0 <= k < i ==> !same_item((#[trigger] self@[k]).item, item.content()),
            decreases self.rows.len() - i,
        {
            let row = &self.rows[i];
            assert(self@[i as int].item == row.content());
            if text_eq(row.external_id.as_str(), item.external_id.as_str()) && text_eq(
                row.social_account_id.as_str(),
                item.social_account_id.as_str(),
            ) && text_eq(row.workspace_id.as_str(), item.workspace_id.as_str()) {
                return true;
            }
            i = i + 1;
        }
        false
    }

    /// Keep an item, unless it is there already; whether it is new.
    pub fn ingest_inbox_item(&mut self, item: InboxItem) -> (r: bool)
        ensures
            r == !holds(old(self)@, item.content()),
            final(self)@ == (if r {
                old(self)@.push(item@)
            } else {
                old(self)@
            }),
            old(self).wf() ==> final(self).wf(),
    {
        if self.has(&item) {
            return false;
        }
        self.rows.push(item);
        assert(self@ =~= old(self)@.push(item@));
        assert(old(self).wf() ==> self.wf()) by {
            assert forall|i: int, j: int| 0 <= i < j < self@.len() && old(self).wf() implies !same_item(
                (#[trigger] self@[i]).item,
                (#[trigger] self@[j]).item,
            ) by {
                assert(self@[i] == old(self)@[i]);
            }
        }
        true
    }

    fn find(&self, id: &str) -> (r: Option<usize>)
        ensures
            match r {
                Some(k) => row_at(self@, id@) == Some(k as int) && k < self.rows@.len(),
                None => row_at(self@, id@) is None,
            },
    {
        let mut i: usize = 0;
        while i < self.rows.len()
            invariant
                i <= self.rows.len(),
                forall|j: int| 0 <= j < i ==> (#[trigger] self@[j]).id != id@,
            decreases self.rows.len() - i,
        {
            assert(self@[i as int].id == self.rows@[i as int].id@);
            if text_eq(self.rows[i].id.as_str(), id) {
                proof {
                    lemma_row_at(self@, id@);
                }
                return Some(i);
            }
            i = i + 1;
        }
        proof {
            lemma_row_at(self@, id@);
        }
        None
    }

    /// Mark an item as read, or as unread; whether it is there.
    pub fn mark_inbox_read(&mut self, id: &str, read: bool) -> (r: bool)
        ensures
            r == (row_at(old(self)@, id@) is Some),
            final(self)@ == after_read(old(self)@, id@, read),
            old(self).wf() ==> final(self).wf(),
    {
        match self.find(id) {
            Some(k) => {
                assert(self@[k as int] == self.rows@[k as int]@);
                self.rows[k].read = read;
                assert(self@ =~= after_read(old(self)@, id@, read));
                proof {
                    lemma_marks_keep_items(old(self)@, self@);
                }
                true
            },
            None => false,
        }
    }

    /// Mark an item as replied to, and so as read; whether it is there.
    pub fn mark_inbox_replied(&mut self, id: &str) -> (r: bool)
        ensures
            r == (row_at(old(self)@, id@) is Some),
            final(self)@ == after_replied(old(self)@, id@),
            old(self).wf() ==> final(self).wf(),
    {
        match self.find(id) {
            Some(k) => {
                assert(self@[k as int] == self.rows@[k as int]@);
                self.rows[k].replied = true;
                self.rows[k].read = true;
                assert(self@ =~= after_replied(old(self)@, id@));
                proof {
                    lemma_marks_keep_items(old(self)@, self@);
                }
                true
            },
            None => false,
        }
    }
}

/// Whether two mailboxes hold the same items in the same rows, whatever is marked.
pub open spec fn same_items(a: Seq<MailRow>, b: Seq<MailRow>) -> bool {
    &&& a.len() == b.len()
    &&& forall|k: int| 0 <= k < a.len() ==> same_item((#[trigger] a[k]).item, (#[trigger] b[k]).item)
}

proof fn lemma_marks_keep_items(a: Seq<MailRow>, b: Seq<MailRow>)
    requires
        same_items(a, b),
    ensures
        once_each(a) ==> once_each(b),
        forall|item: InboxView| #[trigger] holds(a, item) == holds(b, item),
{
    assert forall|i: int, j: int| 0 <= i < j < b.len() && once_each(a) implies !same_item(
        (#[trigger] b[i]).item,
        (#[trigger] b[j]).item,
    ) by {
        assert(same_item(a[i].item, b[i].item) && same_item(a[j].item, b[j].item));
    }
    assert forall|item: InboxView| #[trigger] holds(a, item) == holds(b, item) by {
        if holds(a, item) {
            let k = choose|k: int| 0 <= k < a.len() && same_item((#[trigger] a[k]).item, item);
            assert(same_item(b[k].item, item));
        }
        if holds(b, item) {
            let k = choose|k: int| 0 <= k < b.len() && same_item((#[trigger] b[k]).item, item);
            assert(same_item(a[k].item, item));
        }
    }
}

/// Reading and replying changes no item and no other row: what was known is known, and
/// nothing else is.
pub proof fn marks_keep_the_items(rows: Seq<MailRow>, id: Seq<char>, read: bool)
    ensures
        same_items(rows, after_read(rows, id, read)),
        same_items(rows, after_replied(rows, id)),
{
    lemma_row_at(rows, id);
}

/// A replied item is not left unread.
pub proof fn a_reply_marks_its_item_as_read(rows: Seq<MailRow>, id: Seq<char>)
    ensures
        row_at(rows, id) matches Some(k) ==> {
            &&& after_replied(rows, id)[k].item.replied
            &&& after_replied(rows, id)[k].item.read
        },
{
    lemma_row_at(rows, id);
}

/// A mark is of the first row with its id: reading changes whether it is read and
/// nothing else, a reply marks it as replied and read and nothing else, and every other
/// row stays as it is. Without such a row nothing changes.
pub proof fn a_mark_changes_one_row(rows: Seq<MailRow>, id: Seq<char>, read: bool, k: int, j: int)
    requires
        0 <= j < rows.len(),
    ensures
        after_read(rows, id, read).len() == rows.len(),
        after_replied(rows, id).len() == rows.len(),
        (forall|i: int| 0 <= i < rows.len() ==> (#[trigger] rows[i]).id != id) ==> after_read(
            rows,
            id,
            read,
        ) == rows && after_replied(rows, id) == rows,
        0 <= k < rows.len() && rows[k].id == id && (forall|i: int|
            0 <= i < k ==> (#[trigger] rows[i]).id != id) ==> {
            let r = after_read(rows, id, read)[k];
            let s = after_replied(rows, id)[k];
            let old_item = rows[k].item;
            &&& r.id == id && s.id == id
            &&& r.item.read == read
            &&& r.item.replied == old_item.replied
            &&& s.item.read && s.item.replied
            &&& r.item.text == old_item.text && s.item.text == old_item.text
            &&& r.item.author == old_item.author && s.item.author == old_item.author
            &&& r.item.external_id == old_item.external_id && s.item.external_id
                == old_item.external_id
            &&& r.item.kind == old_item.kind && s.item.kind == old_item.kind
            &&& r.item.received_at == old_item.received_at && s.item.received_at
                == old_item.received_at
            &&& r.item.permalink == old_item.permalink && s.item.permalink == old_item.permalink
            &&& j != k ==> after_read(rows, id, read)[j] == rows[j] && after_replied(rows, id)[j]
                == rows[j]
        },
{
    lemma_row_at(rows, id);
}

/// An item is there exactly when a row has its workspace, its account and the platform's
/// id of it: the same id on another account is another item.
pub proof fn an_item_is_known_by_three_things(rows: Seq<MailRow>, item: InboxView)
    ensures
        holds(rows, item) <==> exists|k: int|
            0 <= k < rows.len() && (#[trigger] rows[k]).item.workspace_id == item.workspace_id
                && rows[k].item.social_account_id == item.social_account_id
                && rows[k].item.external_id == item.external_id,
{
    if holds(rows, item) {
        let k = choose|k: int| 0 <= k < rows.len() && same_item((#[trigger] rows[k]).item, item);
        assert(rows[k].item.workspace_id == item.workspace_id);
    }
    if exists|k: int|
        0 <= k < rows.len() && (#[trigger] rows[k]).item.workspace_id == item.workspace_id
            && rows[k].item.social_account_id == item.social_account_id && rows[k].item.external_id
            == item.external_id {
        let k = choose|k: int|
            0 <= k < rows.len() && (#[trigger] rows[k]).item.workspace_id == item.workspace_id
                && rows[k].item.social_account_id == item.social_account_id
                && rows[k].item.external_id == item.external_id;
        assert(same_item(rows[k].item, item));
    }
}

} // verus!
