//! The inbox: which accounts are polled, what becomes of what their platforms return,
//! and when a reply may be sent.
use vstd::prelude::*;
use crate::error::{ApiError, ApiResult, ErrorView};
use crate::ids;
use crate::ids::{new_id, ID_INBOX};
use crate::mailbox;
use crate::mailbox::{MailRow, Mailbox};
use crate::platform::{Platform, PlatformCapabilities};
use crate::providers::types;
use crate::providers::types::{
    AccountView, IncomingView, ProviderAccount, ProviderInboxItem, PublishResult, ResultView,
};
use crate::records::{InboxItem, SocialAccount};
use crate::status::InboxKind;
use crate::text;
use crate::text::{solid_text, text_eq};

verus! {

pub const EVENT_INBOX_RECEIVED: &'static str = "@ryu/social#inbox.received";

// ── Capabilities ───────────────────────────────────────────────────────────────

/// Whether an inbox can be read at all.
pub open spec fn inbox_readable(caps: PlatformCapabilities) -> bool {
    caps.read_comments || caps.read_dms
}

pub fn can_read_inbox(caps: PlatformCapabilities) -> (r: bool)
    ensures
        r == inbox_readable(caps),
{
    caps.read_comments || caps.read_dms
}

/// Whether an item of a kind can be replied to: a direct message where they can be
/// sent, anything else where comments can be read.
pub open spec fn repliable(caps: PlatformCapabilities, kind: InboxKind) -> bool {
    if kind == InboxKind::Dm {
        caps.send_dm
    } else {
        caps.read_comments
    }
}

pub fn can_reply(caps: PlatformCapabilities, kind: InboxKind) -> (r: bool)
    ensures
        r == repliable(caps, kind),
{
    match kind {
        InboxKind::Dm => caps.send_dm,
        _ => caps.read_comments,
    }
}

// ── Shapes ─────────────────────────────────────────────────────────────────────

/// A stored account as a provider takes it.
pub open spec fn account_shape(account: SocialAccount) -> AccountView {
    AccountView {
        id: account.id@,
        platform: account.platform,
        label: Some(account.account_label@),
        external_id: text::opt_text(account.external_id),
    }
}

pub fn provider_account(account: &SocialAccount) -> (r: ProviderAccount)
    ensures
        r@ == account_shape(*account),
{
    ProviderAccount {
        id: account.id.clone(),
        platform: account.platform,
        label: Some(account.account_label.clone()),
        external_id: account.external_id.clone(),
    }
}

/// A stored item as a provider takes it: with the platform's id, not the row's.
pub fn provider_item(item: &InboxItem) -> (r: ProviderInboxItem)
    ensures
        r@ == (IncomingView {
            external_id: item.external_id@,
            platform: item.platform,
            kind: item.kind,
            author: item.author@,
            text: item.text@,
            permalink: text::opt_text(item.permalink),
            received_at: item.received_at,
        }),
{
    ProviderInboxItem {
        external_id: item.external_id.clone(),
        platform: item.platform,
        kind: item.kind,
        author: item.author.clone(),
        text: item.text.clone(),
        permalink: item.permalink.clone(),
        received_at: item.received_at,
    }
}

/// What a stored item says, apart from its id.
#[verifier::ext_equal]
pub struct InboxView {
    pub workspace_id: Seq<char>,
    pub social_account_id: Seq<char>,
    pub platform: Platform,
    pub kind: InboxKind,
    pub author: Seq<char>,
    pub text: Seq<char>,
    pub permalink: Option<Seq<char>>,
    pub external_id: Seq<char>,
    pub received_at: i64,
    pub replied: bool,
    pub read: bool,
}

impl InboxItem {
    /// What the item says, apart from the id it is kept under.
    pub open spec fn content(self) -> InboxView {
        InboxView {
            workspace_id: self.workspace_id@,
            social_account_id: self.social_account_id@,
            platform: self.platform,
            kind: self.kind,
            author: self.author@,
            text: self.text@,
            permalink: text::opt_text(self.permalink),
            external_id: self.external_id@,
            received_at: self.received_at,
            replied: self.replied,
            read: self.read,
        }
    }
}

// ── Ingestion ──────────────────────────────────────────────────────────────────

/// What an incoming item is stored as. One without an id is not: nothing would
/// recognise it again. The platform is the account's, an author that is missing is
/// "unknown", and a missing time is now.
pub open spec fn stored_as(
    workspace: Seq<char>,
    account: SocialAccount,
    incoming: IncomingView,
    now: i64,
) -> Option<InboxView> {
    match text::solid(Some(incoming.external_id)) {
        None => None,
        Some(external_id) => Some(
            InboxView {
                workspace_id: workspace,
                social_account_id: account.id@,
                platform: account.platform,
                kind: incoming.kind,
                author: match text::solid(Some(incoming.author)) {
                    Some(a) => a,
                    None => "unknown"@,
                },
                text: incoming.text,
                permalink: text::solid(incoming.permalink),
                external_id,
                received_at: if incoming.received_at > 0 {
                    incoming.received_at
                } else {
                    now
                },
                replied: false,
                read: false,
            },
        ),
    }
}

pub fn normalized_item(
    workspace_id: &str,
    account: &SocialAccount,
    incoming: &ProviderInboxItem,
    now: i64,
) -> (r: Option<InboxItem>)
    ensures
        match r {
            Some(item) => stored_as(workspace_id@, *account, incoming@, now) == Some(item.content())
                && ids::made_id(item.id@, ID_INBOX@),
            None => stored_as(workspace_id@, *account, incoming@, now) is None,
        },
{
    let external_id = match solid_text(incoming.external_id.as_str()) {
        Some(id) => id,
        None => {
            return None;
        },
    };
    let author = match solid_text(incoming.author.as_str()) {
        Some(a) => a,
        None => "unknown".to_owned(),
    };
    let permalink = match &incoming.permalink {
        Some(p) => solid_text(p.as_str()),
        None => None,
    };
    Some(
        InboxItem {
            id: new_id(ID_INBOX),
            workspace_id: workspace_id.to_owned(),
            social_account_id: account.id.clone(),
            platform: account.platform,
            kind: incoming.kind,
            author,
            text: incoming.text.clone(),
            permalink,
            external_id,
            received_at: if incoming.received_at > 0 {
                incoming.received_at
            } else {
                now
            },
            replied: false,
            read: false,
        },
    )
}

/// The items that are new: those whose id neither is known nor came earlier in the
/// same reading.
pub open spec fn news(
    workspace: Seq<char>,
    account: SocialAccount,
    items: Seq<IncomingView>,
    known: Seq<Seq<char>>,
    now: i64,
) -> Seq<InboxView>
    decreases items.len(),
{
    if items.len() == 0 {
        Seq::empty()
    } else {
        let init = news(workspace, account, items.drop_last(), known, now);
        match stored_as(workspace, account, items.last(), now) {
            Some(item) => if known.contains(item.external_id) || external_ids(init).contains(
                item.external_id,
            ) {
                init
            } else {
                init.push(item)
            },
            None => init,
        }
    }
}

pub open spec fn external_ids(items: Seq<InboxView>) -> Seq<Seq<char>> {
    items.map_values(|i: InboxView| i.external_id)
}

/// What some items say.
pub open spec fn contents(items: Seq<InboxItem>) -> Seq<InboxView> {
    items.map_values(|i: InboxItem| i.content())
}

/// Keep what one account's reading returned. What was new is handed back, to be
/// announced: nothing else is.
pub fn ingest_items(
    mailbox: &mut Mailbox,
    workspace_id: &str,
    account: &SocialAccount,
    items: &[ProviderInboxItem],
    now: i64,
) -> (r: Vec<InboxItem>)
    ensures
        contents(r@) == news(
            workspace_id@,
            *account,
            types::incoming_views(items@),
            mailbox::known_of(old(mailbox)@, workspace_id@, account.id@),
            now,
        ),
        forall|i: int| 0 <= i < r@.len() ==> ids::made_id((#[trigger] r@[i]).id@, ID_INBOX@),
        final(mailbox)@ == old(mailbox)@ + mailbox::mail_rows(r@),
        old(mailbox).wf() ==> final(mailbox).wf(),
{
    let ghost all = types::incoming_views(items@);
    let ghost rows = mailbox@;
    let ghost known = mailbox::known_of(rows, workspace_id@, account.id@);
    let ghost sound = mailbox.wf();
    let mut fresh: Vec<InboxItem> = Vec::new();
    let mut i: usize = 0;
    proof {
        assert(all.take(0) =~= Seq::<IncomingView>::empty());
        assert(contents(fresh@) =~= Seq::<InboxView>::empty());
        assert(rows + mailbox::mail_rows(fresh@) =~= rows);
    }
    while i < items.len()
        invariant
            i <= items.len(),
            all == types::incoming_views(items@),
            known == mailbox::known_of(rows, workspace_id@, account.id@),
            contents(fresh@) == news(workspace_id@, *account, all.take(i as int), known, now),
            forall|i: int|
                0 <= i < fresh@.len() ==> ids::made_id((#[trigger] fresh@[i]).id@, ID_INBOX@),
            mailbox@ == rows + mailbox::mail_rows(fresh@),
            sound ==> mailbox.wf(),
        decreases items.len() - i,
    {
        proof {
            assert(all.take(i as int + 1).drop_last() =~= all.take(i as int));
            assert(all.take(i as int + 1).last() == items@[i as int]@);
        }
        if let Some(item) = normalized_item(workspace_id, account, &items[i], now) {
            let ghost shown = item.content();
            let ghost before = contents(fresh@);
            let ghost before_rows = mailbox::mail_rows(fresh@);
            proof {
                lemma_news_is_of_the_account(workspace_id@, *account, all.take(i as int), known, now);
                assert forall|k: int| 0 <= k < fresh@.len() implies (#[trigger] fresh@[k]).content().workspace_id
                    == shown.workspace_id && fresh@[k].content().social_account_id
                    == shown.social_account_id by {
                    assert(contents(fresh@)[k] == fresh@[k].content());
                }
                lemma_held(rows, fresh@, shown);
            }
            if mailbox.ingest_inbox_item(item.clone()) {
                fresh.push(item);
                proof {
                    assert(contents(fresh@) =~= before.push(shown));
                    assert(mailbox::mail_rows(fresh@) =~= before_rows.push(item@));
                    assert(mailbox@ =~= rows + mailbox::mail_rows(fresh@));
                }
            }
        }
        i = i + 1;
    }
    assert(all.take(all.len() as int) =~= all);
    fresh
}

/// An item is there where its id is known, or is that of one that came with it.
proof fn lemma_held(rows: Seq<MailRow>, fresh: Seq<InboxItem>, item: InboxView)
    requires
        forall|k: int|
            0 <= k < fresh.len() ==> (#[trigger] fresh[k]).content().workspace_id == item.workspace_id
                && fresh[k].content().social_account_id == item.social_account_id,
    ensures
        mailbox::holds(rows + mailbox::mail_rows(fresh), item) == (mailbox::known_of(
            rows,
            item.workspace_id,
            item.social_account_id,
        ).contains(item.external_id) || external_ids(contents(fresh)).contains(
            item.external_id,
        )),
{
    let ids = external_ids(contents(fresh));
    let all = rows + mailbox::mail_rows(fresh);
    mailbox::lemma_known(rows, item);
    assert forall|k: int| 0 <= k < fresh.len() implies #[trigger] all[rows.len() + k].item
        == fresh[k].content() by {}
    if mailbox::holds(rows, item) {
        let k = choose|k: int|
            0 <= k < rows.len() && mailbox::same_item((#[trigger] rows[k]).item, item);
        assert(all[k] == rows[k]);
    }
    if ids.contains(item.external_id) {
        let k = choose|k: int| 0 <= k < ids.len() && ids[k] == item.external_id;
        assert(fresh[k].content().external_id == item.external_id);
        assert(mailbox::same_item(all[rows.len() + k].item, item));
    }
    if mailbox::holds(all, item) {
        let k = choose|k: int|
            0 <= k < all.len() && mailbox::same_item((#[trigger] all[k]).item, item);
        if k < rows.len() {
            assert(rows[k] == all[k]);
        } else {
            assert(all[k].item == fresh[k - rows.len()].content());
            assert(ids[k - rows.len()] == item.external_id);
        }
    }
}

proof fn lemma_news_is_of_the_account(
    workspace: Seq<char>,
    account: SocialAccount,
    items: Seq<IncomingView>,
    known: Seq<Seq<char>>,
    now: i64,
)
    ensures
        ({
            let n = news(workspace, account, items, known, now);
            forall|k: int|
                0 <= k < n.len() ==> (#[trigger] n[k]).workspace_id == workspace
                    && n[k].social_account_id == account.id@
        }),
    decreases items.len(),
{
    if items.len() > 0 {
        lemma_news_is_of_the_account(workspace, account, items.drop_last(), known, now);
    }
}

/// Reading the same items again finds nothing new, and so leaves every row as it is,
/// whatever has been read or replied to in the meantime.
pub proof fn reading_again_changes_nothing(
    workspace: Seq<char>,
    account: SocialAccount,
    items: Seq<IncomingView>,
    rows: Seq<MailRow>,
    fresh: Seq<InboxItem>,
    later: Seq<MailRow>,
    now: i64,
    then: i64,
)
    requires
        contents(fresh) == news(
            workspace,
            account,
            items,
            mailbox::known_of(rows, workspace, account.id@),
            now,
        ),
        mailbox::same_items(rows + mailbox::mail_rows(fresh), later),
    ensures
        news(
            workspace,
            account,
            items,
            mailbox::known_of(later, workspace, account.id@),
            then,
        ).len() == 0,
{
    let known = mailbox::known_of(rows, workspace, account.id@);
    let more = mailbox::known_of(later, workspace, account.id@);
    let n = news(workspace, account, items, known, now);
    let all = rows + mailbox::mail_rows(fresh);
    lemma_news_is_of_the_account(workspace, account, items, known, now);
    assert forall|k: int| 0 <= k < fresh.len() implies (#[trigger] fresh[k]).content().workspace_id
        == workspace && fresh[k].content().social_account_id == account.id@ by {
        assert(contents(fresh)[k] == n[k]);
    }
    assert forall|id: Seq<char>|
        known.contains(id) || external_ids(n).contains(id) implies #[trigger] more.contains(id) by {
        let item = InboxView {
            workspace_id: workspace,
            social_account_id: account.id@,
            platform: account.platform,
            kind: InboxKind::Comment,
            author: Seq::empty(),
            text: Seq::empty(),
            permalink: None,
            external_id: id,
            received_at: 0,
            replied: false,
            read: false,
        };
        lemma_held(rows, fresh, item);
        mailbox::lemma_known(later, item);
        let k = choose|k: int|
            0 <= k < all.len() && mailbox::same_item((#[trigger] all[k]).item, item);
        assert(mailbox::same_item(later[k].item, item));
    }
    lemma_all_known(workspace, account, items, known, more, now, then);
}

/// Reading the same items again announces nothing, once what was new is known.
pub proof fn polling_again_is_silent(
    workspace: Seq<char>,
    account: SocialAccount,
    items: Seq<IncomingView>,
    known: Seq<Seq<char>>,
    now: i64,
    later: i64,
)
    ensures
        news(
            workspace,
            account,
            items,
            known + external_ids(news(workspace, account, items, known, now)),
            later,
        ).len() == 0,
{
    let n = external_ids(news(workspace, account, items, known, now));
    assert forall|id: Seq<char>| known.contains(id) || n.contains(id) implies #[trigger] (known
        + n).contains(id) by {
        if known.contains(id) {
            let i = choose|i: int| 0 <= i < known.len() && known[i] == id;
            assert((known + n)[i] == id);
        } else {
            let i = choose|i: int| 0 <= i < n.len() && n[i] == id;
            assert((known + n)[known.len() + i] == id);
        }
    }
    lemma_all_known(workspace, account, items, known, known + n, now, later);
}

proof fn lemma_all_known(
    workspace: Seq<char>,
    account: SocialAccount,
    items: Seq<IncomingView>,
    known: Seq<Seq<char>>,
    more: Seq<Seq<char>>,
    now: i64,
    later: i64,
)
    requires
        forall|id: Seq<char>|
            known.contains(id) || external_ids(news(workspace, account, items, known, now)).contains(
                id,
            ) ==> #[trigger] more.contains(id),
    ensures
        news(workspace, account, items, more, later).len() == 0,
    decreases items.len(),
{
    if items.len() > 0 {
        let init = items.drop_last();
        let a = news(workspace, account, init, known, now);
        let b = news(workspace, account, items, known, now);
        assert forall|id: Seq<char>|
            known.contains(id) || external_ids(a).contains(id) implies #[trigger] more.contains(
            id,
        ) by {
            if external_ids(a).contains(id) {
                let k = choose|k: int| 0 <= k < a.len() && external_ids(a)[k] == id;
                assert(external_ids(b)[k] == id);
            }
        }
        lemma_all_known(workspace, account, init, known, more, now, later);
        match stored_as(workspace, account, items.last(), later) {
            Some(item) => {
                let then = stored_as(workspace, account, items.last(), now)->0;
                assert(then.external_id == item.external_id);
                if !known.contains(then.external_id) && !external_ids(a).contains(
                    then.external_id,
                ) {
                    assert(external_ids(b)[a.len() as int] == then.external_id);
                }
                assert(more.contains(item.external_id));
            },
            None => {},
        }
    }
}

/// What is new has an id of its own, and is new indeed.
pub proof fn news_is_new(
    workspace: Seq<char>,
    account: SocialAccount,
    items: Seq<IncomingView>,
    known: Seq<Seq<char>>,
    now: i64,
)
    ensures
        ({
            let n = external_ids(news(workspace, account, items, known, now));
            &&& n.no_duplicates()
            &&& forall|i: int| 0 <= i < n.len() ==> !known.contains(#[trigger] n[i])
        }),
    decreases items.len(),
{
    if items.len() > 0 {
        news_is_new(workspace, account, items.drop_last(), known, now);
        let a = news(workspace, account, items.drop_last(), known, now);
        match stored_as(workspace, account, items.last(), now) {
            Some(item) => {
                assert(external_ids(a.push(item)) =~= external_ids(a).push(item.external_id));
            },
            None => {},
        }
    }
}

// ── One pass ───────────────────────────────────────────────────────────────────

/// What one pass did.
#[derive(Debug, PartialEq, Eq)]
pub struct RefreshSummary {
    pub accounts_polled: usize,
    /// Connected accounts whose provider has no inbox to read.
    pub accounts_skipped: usize,
    /// Items that the providers returned.
    pub fetched: usize,
    /// Those that were not stored yet.
    pub new: usize,
    pub errors: Vec<String>,
}

#[verifier::ext_equal]
pub struct SummaryView {
    pub polled: nat,
    pub skipped: nat,
    pub fetched: nat,
    pub new: nat,
    pub errors: Seq<Seq<char>>,
}

impl View for RefreshSummary {
    type V = SummaryView;

    open spec fn view(&self) -> SummaryView {
        SummaryView {
            polled: self.accounts_polled as nat,
            skipped: self.accounts_skipped as nat,
            fetched: self.fetched as nat,
            new: self.new as nat,
            errors: text::texts(self.errors@),
        }
    }
}

impl Default for RefreshSummary {
    fn default() -> (r: Self)
        ensures
            r@ == SummaryView::zero(),
    {
        let r = RefreshSummary {
            accounts_polled: 0,
            accounts_skipped: 0,
            fetched: 0,
            new: 0,
            errors: Vec::new(),
        };
        assert(r@ =~= SummaryView::zero());
        r
    }
}

/// The connected accounts, in order.
pub open spec fn connected_of(all: Seq<SocialAccount>) -> Seq<SocialAccount>
    decreases all.len(),
{
    if all.len() == 0 {
        all
    } else if all.last().connected {
        connected_of(all.drop_last()).push(all.last())
    } else {
        connected_of(all.drop_last())
    }
}

/// Where the first account with an id stands.
pub open spec fn first_with_id(all: Seq<SocialAccount>, id: Seq<char>, i: int) -> bool {
    &&& 0 <= i < all.len()
    &&& all[i].id@ == id
    &&& forall|j: int| 0 <= j < i ==> (#[trigger] all[j]).id@ != id
}

/// What asking for one account gives.
pub open spec fn asked_for(all: Seq<SocialAccount>, id: Seq<char>, r: ApiResult<Vec<SocialAccount>>) -> bool {
    match r {
        Ok(chosen) => exists|i: int| #[trigger]
            first_with_id(all, id, i) && all[i].connected && chosen@ == seq![all[i]],
        Err(e) => {
            ||| e@ == ErrorView::NotFound("account"@) && (forall|i: int|
                0 <= i < all.len() ==> (#[trigger] all[i]).id@ != id)
            ||| exists|i: int| #[trigger]
                first_with_id(all, id, i) && !all[i].connected && e@ == ErrorView::Conflict(
                    "account "@ + all[i].account_label@ + " is not connected"@,
                )
        },
    }
}

fn one_account(all: &Vec<SocialAccount>, id: &str) -> (r: ApiResult<Vec<SocialAccount>>)
    ensures
        asked_for(all@, id@, r),
{
    let mut i: usize = 0;
    while i < all.len()
        invariant
            i <= all.len(),
            forall|j: int| 0 <= j < i ==> (#[trigger] all@[j]).id@ != id@,
        decreases all.len() - i,
    {
        let account = &all[i];
        if text_eq(account.id.as_str(), id) {
            assert(first_with_id(all@, id@, i as int));
            if !account.connected {
                let mut m: String = "account ".to_owned();
                m.append(account.account_label.as_str());
                m.append(" is not connected");
                return Err(ApiError::Conflict(m));
            }
            let mut chosen: Vec<SocialAccount> = Vec::new();
            chosen.push(account.clone());
            assert(chosen@ =~= seq![all@[i as int]]);
            return Ok(chosen);
        }
        i = i + 1;
    }
    Err(ApiError::not_found("account"))
}

fn connected_accounts(all: &Vec<SocialAccount>) -> (r: Vec<SocialAccount>)
    ensures
        r@ == connected_of(all@),
{
    let mut chosen: Vec<SocialAccount> = Vec::new();
    let mut i: usize = 0;
    assert(all@.take(0) =~= Seq::<SocialAccount>::empty());
    while i < all.len()
        invariant
            i <= all.len(),
            chosen@ == connected_of(all@.take(i as int)),
        decreases all.len() - i,
    {
        assert(all@.take(i as int + 1).drop_last() =~= all@.take(i as int));
        if all[i].connected {
            chosen.push(all[i].clone());
        }
        i = i + 1;
    }
    assert(all@.take(all@.len() as int) =~= all@);
    chosen
}

/// The accounts that a pass polls: the one asked for, if it is there and connected, or
/// every connected one.
pub fn select_accounts(all: &Vec<SocialAccount>, account_id: Option<&str>) -> (r: ApiResult<
    Vec<SocialAccount>,
>)
    ensures
        match account_id {
            None => r is Ok && r->Ok_0@ == connected_of(all@),
            Some(id) => asked_for(all@, id@, r),
        },
{
    match account_id {
        None => Ok(connected_accounts(all)),
        Some(id) => one_account(all, id),
    }
}

/// How one account's turn went.
#[derive(Debug, PartialEq, Eq)]
pub enum Poll {
    /// Its provider has no inbox to read.
    Skipped,
    /// The reading failed.
    Unreachable(String),
    /// So many items were read, and so many of them were new.
    Stored(usize, usize),
    /// So many items were read, and storing them failed.
    Unstored(usize, String),
}

pub enum PollView {
    Skipped,
    Unreachable(Seq<char>),
    Stored(nat, nat),
    Unstored(nat, Seq<char>),
}

impl View for Poll {
    type V = PollView;

    open spec fn view(&self) -> PollView {
        match self {
            Poll::Skipped => PollView::Skipped,
            Poll::Unreachable(e) => PollView::Unreachable(e@),
            Poll::Stored(n, m) => PollView::Stored(*n as nat, *m as nat),
            Poll::Unstored(n, e) => PollView::Unstored(*n as nat, e@),
        }
    }
}

impl SummaryView {
    pub open spec fn zero() -> Self {
        SummaryView { polled: 0, skipped: 0, fetched: 0, new: 0, errors: Seq::empty() }
    }

    /// The summary with one more account: a failure of one does not touch what the
    /// others returned.
    pub open spec fn with(self, label: Seq<char>, poll: PollView) -> Self {
        match poll {
            PollView::Skipped => SummaryView { skipped: self.skipped + 1, ..self },
            PollView::Unreachable(e) => SummaryView {
                polled: self.polled + 1,
                errors: self.errors.push(label + ": "@ + e),
                ..self
            },
            PollView::Stored(n, m) => SummaryView {
                polled: self.polled + 1,
                fetched: self.fetched + n,
                new: self.new + m,
                ..self
            },
            PollView::Unstored(n, e) => SummaryView {
                polled: self.polled + 1,
                fetched: self.fetched + n,
                errors: self.errors.push(label + ": storing items failed: "@ + e),
                ..self
            },
        }
    }

    pub open spec fn fits(self) -> bool {
        &&& self.polled <= usize::MAX
        &&& self.skipped <= usize::MAX
        &&& self.fetched <= usize::MAX
        &&& self.new <= usize::MAX
    }
}

impl RefreshSummary {
    pub fn record(&mut self, label: &str, poll: &Poll)
        requires
            old(self)@.with(label@, poll@).fits(),
        ensures
            final(self)@ == old(self)@.with(label@, poll@),
    {
        match poll {
            Poll::Skipped => {
                self.accounts_skipped = self.accounts_skipped + 1;
            },
            Poll::Unreachable(e) => {
                self.accounts_polled = self.accounts_polled + 1;
                self.fail(label, ": ", e.as_str());
            },
            Poll::Stored(n, m) => {
                self.accounts_polled = self.accounts_polled + 1;
                self.fetched = self.fetched + *n;
                self.new = self.new + *m;
            },
            Poll::Unstored(n, e) => {
                self.accounts_polled = self.accounts_polled + 1;
                self.fetched = self.fetched + *n;
                self.fail(label, ": storing items failed: ", e.as_str());
            },
        }
    }

    fn fail(&mut self, label: &str, what: &str, error: &str)
        ensures
            final(self)@ == (SummaryView {
                errors: old(self)@.errors.push(label@ + what@ + error@),
                ..old(self)@
            }),
    {
        let mut m: String = label.to_owned();
        m.append(what);
        m.append(error);
        self.errors.push(m);
        assert(text::texts(self.errors@) =~= text::texts(old(self).errors@).push(
            label@ + what@ + error@,
        ));
    }
}

/// Every account is polled or skipped, and every failure is told.
pub proof fn every_account_is_accounted_for(s: SummaryView, label: Seq<char>, poll: PollView)
    ensures
        s.with(label, poll).polled + s.with(label, poll).skipped == s.polled + s.skipped + 1,
        (poll is Unreachable || poll is Unstored) <==> s.with(label, poll).errors.len()
            == s.errors.len() + 1,
        s.errors.is_prefix_of(s.with(label, poll).errors),
{
    let t = s.with(label, poll);
    assert(s.errors =~= t.errors.subrange(0, s.errors.len() as int));
}

/// A pass under way: the accounts it polls, the one whose turn it is, what has come of
/// those before it, and the items that were new.
#[derive(Debug, PartialEq, Eq)]
pub struct InboxPass {
    pub accounts: Vec<SocialAccount>,
    pub at: usize,
    pub summary: RefreshSummary,
    pub fresh: Vec<InboxItem>,
}

#[verifier::ext_equal]
pub struct InboxPassView {
    pub accounts: Seq<SocialAccount>,
    pub at: int,
    pub summary: SummaryView,
    pub fresh: Seq<MailRow>,
}

impl View for InboxPass {
    type V = InboxPassView;

    open spec fn view(&self) -> InboxPassView {
        InboxPassView {
            accounts: self.accounts@,
            at: self.at as int,
            summary: self.summary@,
            fresh: mailbox::mail_rows(self.fresh@),
        }
    }
}

impl InboxPassView {
    /// Every account before the one at hand was polled or skipped, and what counts as
    /// new is what was kept.
    pub open spec fn wf(self) -> bool {
        &&& 0 <= self.at <= self.accounts.len()
        &&& self.summary.polled + self.summary.skipped == self.at
        &&& self.summary.new == self.fresh.len()
        &&& self.summary.fits()
    }

    pub open spec fn label(self) -> Seq<char> {
        self.accounts[self.at].account_label@
    }

    pub open spec fn with(self, poll: PollView, new: Seq<MailRow>) -> InboxPassView {
        InboxPassView {
            at: self.at + 1,
            summary: self.summary.with(self.label(), poll),
            fresh: self.fresh + new,
            ..self
        }
    }
}

impl InboxPass {
    pub fn start(accounts: Vec<SocialAccount>) -> (r: Self)
        ensures
            r@ == (InboxPassView {
                accounts: accounts@,
                at: 0,
                summary: SummaryView::zero(),
                fresh: Seq::empty(),
            }),
            r@.wf(),
    {
        let r = InboxPass { accounts, at: 0, summary: RefreshSummary::default(), fresh: Vec::new() };
        assert(mailbox::mail_rows(r.fresh@) =~= Seq::empty());
        r
    }

    /// Take the account at hand, once it is known what its platform can do. `None`
    /// passes it over: there is no inbox to read. Else it is to be read.
    pub fn consider(&mut self, caps: PlatformCapabilities) -> (r: Option<ProviderAccount>)
        requires
            old(self)@.wf(),
            old(self)@.at < old(self)@.accounts.len(),
        ensures
            final(self)@.wf(),
            match r {
                Some(a) => {
                    &&& inbox_readable(caps)
                    &&& final(self)@ == old(self)@
                    &&& a@ == account_shape(old(self)@.accounts[old(self)@.at])
                },
                None => !inbox_readable(caps) && final(self)@ == old(self)@.with(
                    PollView::Skipped,
                    Seq::empty(),
                ),
            },
    {
        if can_read_inbox(caps) {
            return Some(provider_account(&self.accounts[self.at]));
        }
        self.settle(Poll::Skipped, Vec::new());
        None
    }

    /// The account at hand could not be read.
    pub fn unreachable(&mut self, error: String)
        requires
            old(self)@.wf(),
            old(self)@.at < old(self)@.accounts.len(),
        ensures
            final(self)@.wf(),
            final(self)@ == old(self)@.with(PollView::Unreachable(error@), Seq::empty()),
    {
        self.settle(Poll::Unreachable(error), Vec::new());
    }

    /// So many items were read of the account at hand, and these were new.
    pub fn stored(&mut self, fetched: usize, new: Vec<InboxItem>)
        requires
            old(self)@.wf(),
            old(self)@.at < old(self)@.accounts.len(),
            old(self)@.summary.fetched + fetched <= usize::MAX,
        ensures
            final(self)@.wf(),
            final(self)@ == old(self)@.with(
                PollView::Stored(fetched as nat, new@.len()),
                mailbox::mail_rows(new@),
            ),
    {
        let n: usize = new.len();
        self.settle(Poll::Stored(fetched, n), new);
    }

    /// So many items were read of the account at hand, and storing them failed.
    pub fn unstored(&mut self, fetched: usize, error: String)
        requires
            old(self)@.wf(),
            old(self)@.at < old(self)@.accounts.len(),
            old(self)@.summary.fetched + fetched <= usize::MAX,
        ensures
            final(self)@.wf(),
            final(self)@ == old(self)@.with(
                PollView::Unstored(fetched as nat, error@),
                Seq::empty(),
            ),
    {
        self.settle(Poll::Unstored(fetched, error), Vec::new());
    }

    fn settle(&mut self, poll: Poll, new: Vec<InboxItem>)
        requires
            old(self)@.wf(),
            old(self)@.at < old(self)@.accounts.len(),
            match poll {
                Poll::Stored(n, m) => old(self)@.summary.fetched + n <= usize::MAX && m
                    == new@.len(),
                Poll::Unstored(n, _) => old(self)@.summary.fetched + n <= usize::MAX && new@.len()
                    == 0,
                _ => new@.len() == 0,
            },
        ensures
            final(self)@.wf(),
            final(self)@ == old(self)@.with(poll@, mailbox::mail_rows(new@)),
    {
        let ghost before = self.fresh@;
        let mut items: Vec<InboxItem> = new;
        self.fresh.append(&mut items);
        let total: usize = self.fresh.len();
        let reach: usize = self.accounts.len();
        assert(mailbox::mail_rows(self.fresh@) =~= mailbox::mail_rows(before) + mailbox::mail_rows(new@));
        assert(self.summary@.new + new@.len() == total);
        assert(self.at < reach);
        let label: String = self.accounts[self.at].account_label.clone();
        self.summary.record(label.as_str(), &poll);
        self.at = self.at + 1;
    }
}

/// At its end a pass has polled or skipped every account it was to poll, whatever
/// failed on the way.
pub proof fn a_pass_takes_every_account(v: InboxPassView)
    requires
        v.wf(),
        v.at == v.accounts.len(),
    ensures
        v.summary.polled + v.summary.skipped == v.accounts.len(),
{
}

// ── Replies ────────────────────────────────────────────────────────────────────

/// What a provider is asked to reply to, where it can reply to such an item.
pub fn reply_request(item: &InboxItem, caps: PlatformCapabilities) -> (r: ApiResult<
    ProviderInboxItem,
>)
    ensures
        if repliable(caps, item.kind) {
            r is Ok && r->Ok_0@ == (IncomingView {
                external_id: item.external_id@,
                platform: item.platform,
                kind: item.kind,
                author: item.author@,
                text: item.text@,
                permalink: text::opt_text(item.permalink),
                received_at: item.received_at,
            })
        } else {
            r is Err && r->Err_0@ == ErrorView::Conflict(
                "replying to a "@ + item.kind.name() + " on "@ + item.platform.label_text()
                    + " is not supported by the configured provider"@,
            )
        },
{
    if !can_reply(caps, item.kind) {
        let mut m: String = "replying to a ".to_owned();
        m.append(item.kind.as_str());
        m.append(" on ");
        m.append(item.platform.label());
        m.append(" is not supported by the configured provider");
        return Err(ApiError::Conflict(m));
    }
    Ok(provider_item(item))
}

/// Whether the item is marked as replied to: only after the platform took the reply.
pub fn after_reply(result: &PublishResult) -> (r: ApiResult<()>)
    ensures
        match result@ {
            ResultView::Published { .. } => r is Ok,
            ResultView::Refused { error } => r is Err && r->Err_0@ == ErrorView::Upstream(error),
        },
{
    match result {
        PublishResult::Published { .. } => Ok(()),
        PublishResult::Refused { error } => Err(ApiError::Upstream(error.clone())),
    }
}

// ── The inbox in plain terms ───────────────────────────────────────────────────

/// An inbox is read where comments or direct messages can be; a direct message is
/// answered where they can be sent, and anything else where comments can be read.
pub proof fn capabilities_decide_what_is_done(c: PlatformCapabilities, kind: InboxKind)
    ensures
        !inbox_readable(c) <==> !c.read_comments && !c.read_dms,
        kind == InboxKind::Dm ==> (repliable(c, kind) <==> c.send_dm),
        kind == InboxKind::Comment || kind == InboxKind::Reply || kind == InboxKind::Mention ==> (
        repliable(c, kind) <==> c.read_comments),
{
}

/// A provider is told of an account by its id, its platform, its handle and the
/// platform's own id of it.
pub proof fn an_account_is_told_as_stored(a: SocialAccount)
    ensures
        account_shape(a).id == a.id@,
        account_shape(a).platform == a.platform,
        account_shape(a).label == Some(a.account_label@),
        account_shape(a).external_id == text::opt_text(a.external_id),
{
}

/// An item is kept exactly when it has an id. It is kept for the workspace and the
/// account that were read, on that account's platform, unread and unanswered: its id,
/// author and link without white space round them (an author that is missing is
/// "unknown", a blank link is none), its text as it is, and its time, which is now
/// where it has none.
pub proof fn an_item_is_kept_as_it_came(
    workspace: Seq<char>,
    account: SocialAccount,
    incoming: IncomingView,
    now: i64,
)
    ensures
        stored_as(workspace, account, incoming, now) is None <==> text::blank(incoming.external_id),
        stored_as(workspace, account, incoming, now) matches Some(i) ==> {
            &&& i.workspace_id == workspace
            &&& i.social_account_id == account.id@
            &&& i.platform == account.platform
            &&& i.kind == incoming.kind
            &&& i.external_id == text::trim_of(incoming.external_id)
            &&& i.text == incoming.text
            &&& text::blank(incoming.author) ==> i.author == "unknown"@
            &&& !text::blank(incoming.author) ==> i.author == text::trim_of(incoming.author)
            &&& i.permalink is Some <==> incoming.permalink is Some && !text::blank(
                incoming.permalink->0,
            )
            &&& i.permalink is Some ==> i.permalink->0 == text::trim_of(incoming.permalink->0)
            &&& incoming.received_at > 0 ==> i.received_at == incoming.received_at
            &&& incoming.received_at <= 0 ==> i.received_at == now
            &&& !i.read && !i.replied
        },
{
    text::trim_empties_only_blank_text(incoming.external_id);
    text::trim_empties_only_blank_text(incoming.author);
    if incoming.permalink is Some {
        text::trim_empties_only_blank_text(incoming.permalink->0);
    }
}

/// Whatever came and was neither known nor came before in the same reading is new, as
/// it is kept; and nothing else is.
pub proof fn nothing_new_is_missed(
    workspace: Seq<char>,
    account: SocialAccount,
    items: Seq<IncomingView>,
    known: Seq<Seq<char>>,
    now: i64,
    i: int,
)
    requires
        0 <= i < items.len(),
    ensures
        ({
            let n = news(workspace, account, items, known, now);
            let kept = stored_as(workspace, account, items[i], now);
            &&& kept is Some && !known.contains(kept->0.external_id) && (forall|j: int|
                0 <= j < i ==> {
                    let earlier = #[trigger] stored_as(workspace, account, items[j], now);
                    earlier is None || earlier->0.external_id != kept->0.external_id
                }) ==> n.contains(kept->0)
            &&& forall|x: InboxView| #[trigger]
                n.contains(x) ==> exists|j: int|
                    0 <= j < items.len() && #[trigger] stored_as(
                        workspace,
                        account,
                        items[j],
                        now,
                    ) == Some(x)
            &&& n.len() <= items.len()
        }),
{
    lemma_news_from(workspace, account, items, known, now);
    let kept = stored_as(workspace, account, items[i], now);
    if kept is Some && !known.contains(kept->0.external_id) && (forall|j: int|
        0 <= j < i ==> {
            let earlier = #[trigger] stored_as(workspace, account, items[j], now);
            earlier is None || earlier->0.external_id != kept->0.external_id
        }) {
        let head = items.take(i);
        lemma_news_from(workspace, account, head, known, now);
        let a = news(workspace, account, head, known, now);
        if external_ids(a).contains(kept->0.external_id) {
            let k = choose|k: int| 0 <= k < a.len() && external_ids(a)[k] == kept->0.external_id;
            assert(a.contains(a[k]));
            let j = choose|j: int|
                0 <= j < head.len() && #[trigger] stored_as(workspace, account, head[j], now)
                    == Some(a[k]);
            assert(head[j] == items[j]);
            assert(stored_as(workspace, account, items[j], now) == Some(a[k]));
        }
        let upto = items.take(i + 1);
        assert(upto.drop_last() =~= head);
        assert(upto.last() == items[i]);
        let b = news(workspace, account, upto, known, now);
        assert(b[a.len() as int] == kept->0);
        lemma_news_grow(workspace, account, items, known, now, i + 1);
        let n = news(workspace, account, items, known, now);
        assert(n.subrange(0, b.len() as int) == b);
        assert(n[a.len() as int] == kept->0);
    }
}

proof fn lemma_news_from(
    workspace: Seq<char>,
    account: SocialAccount,
    items: Seq<IncomingView>,
    known: Seq<Seq<char>>,
    now: i64,
)
    ensures
        forall|x: InboxView| #[trigger]
            news(workspace, account, items, known, now).contains(x) ==> exists|j: int|
                0 <= j < items.len() && #[trigger] stored_as(workspace, account, items[j], now)
                    == Some(x),
        news(workspace, account, items, known, now).len() <= items.len(),
    decreases items.len(),
{
    if items.len() > 0 {
        let init = items.drop_last();
        lemma_news_from(workspace, account, init, known, now);
        let a = news(workspace, account, init, known, now);
        let n = news(workspace, account, items, known, now);
        assert forall|x: InboxView| #[trigger] n.contains(x) implies exists|j: int|
            0 <= j < items.len() && #[trigger] stored_as(workspace, account, items[j], now) == Some(
                x,
            ) by {
            let k = choose|k: int| 0 <= k < n.len() && n[k] == x;
            if k < a.len() {
                assert(a[k] == x);
                assert(a.contains(x));
                let j = choose|j: int|
                    0 <= j < init.len() && #[trigger] stored_as(workspace, account, init[j], now)
                        == Some(x);
                assert(stored_as(workspace, account, items[j], now) == Some(x));
            } else {
                assert(stored_as(workspace, account, items[items.len() - 1], now) == Some(x));
            }
        }
    }
}

proof fn lemma_news_grow(
    workspace: Seq<char>,
    account: SocialAccount,
    items: Seq<IncomingView>,
    known: Seq<Seq<char>>,
    now: i64,
    k: int,
)
    requires
        0 <= k <= items.len(),
    ensures
        news(workspace, account, items.take(k), known, now).is_prefix_of(
            news(workspace, account, items, known, now),
        ),
    decreases items.len(),
{
    let b = news(workspace, account, items.take(k), known, now);
    if k == items.len() {
        assert(items.take(k) =~= items);
        assert(b.subrange(0, b.len() as int) =~= b);
    } else {
        let init = items.drop_last();
        assert(init.take(k) =~= items.take(k));
        lemma_news_grow(workspace, account, init, known, now, k);
        let a = news(workspace, account, init, known, now);
        let n = news(workspace, account, items, known, now);
        assert(a.subrange(0, b.len() as int) == b);
        assert(n.subrange(0, b.len() as int) =~= b);
    }
}

/// Without an account in particular, a pass polls the connected accounts, in their
/// order.
pub proof fn a_pass_polls_the_connected_accounts(all: Seq<SocialAccount>)
    ensures
        connected_of(all) == all.filter(|a: SocialAccount| a.connected),
    decreases all.len(),
{
    reveal(Seq::filter);
    if all.len() > 0 {
        a_pass_polls_the_connected_accounts(all.drop_last());
    }
}

/// What an account's turn adds to the summary: a skipped one counts as skipped alone;
/// one that could not be read, as polled, with its error; one that was stored, as
/// polled, with what was read and what of it was new; one that could not be stored, as
/// polled, with what was read and its error. Errors name the account.
pub proof fn a_turn_adds_what_it_brought(
    s: SummaryView,
    label: Seq<char>,
    error: Seq<char>,
    read: nat,
    new: nat,
)
    ensures
        ({
            let t = s.with(label, PollView::Skipped);
            t.polled == s.polled && t.skipped == s.skipped + 1 && t.fetched == s.fetched && t.new
                == s.new && t.errors == s.errors
        }),
        ({
            let t = s.with(label, PollView::Unreachable(error));
            t.polled == s.polled + 1 && t.skipped == s.skipped && t.fetched == s.fetched && t.new
                == s.new && t.errors == s.errors.push(label + ": "@ + error)
        }),
        ({
            let t = s.with(label, PollView::Stored(read, new));
            t.polled == s.polled + 1 && t.skipped == s.skipped && t.fetched == s.fetched + read
                && t.new == s.new + new && t.errors == s.errors
        }),
        ({
            let t = s.with(label, PollView::Unstored(read, error));
            t.polled == s.polled + 1 && t.skipped == s.skipped && t.fetched == s.fetched + read
                && t.new == s.new && t.errors == s.errors.push(
                label + ": storing items failed: "@ + error,
            )
        }),
        SummaryView::zero().polled == 0 && SummaryView::zero().skipped == 0
            && SummaryView::zero().fetched == 0 && SummaryView::zero().new == 0
            && SummaryView::zero().errors.len() == 0,
{
}

/// A turn is of the account at hand, and the next one's follows; what was new is added
/// to what was, under that account's handle.
pub proof fn a_turn_is_of_the_account_at_hand(v: InboxPassView, poll: PollView, new: Seq<MailRow>)
    ensures
        v.with(poll, new).at == v.at + 1,
        v.with(poll, new).accounts == v.accounts,
        v.with(poll, new).fresh == v.fresh + new,
        v.with(poll, new).summary == v.summary.with(v.accounts[v.at].account_label@, poll),
{
}

} // verus!
