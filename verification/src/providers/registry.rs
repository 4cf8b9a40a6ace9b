//! Which provider serves a platform or an account, and what the providers have said
//! they can do.
use vstd::prelude::*;
use crate::lists;
use crate::platform::{Platform, PlatformCapabilities};
use crate::providers::types;
use crate::providers::types::{ProviderAccount, ProviderId, ProviderOperation};
use crate::settings;
use crate::settings::{CredentialEnv, NodeSettings};
use crate::text;
use crate::text::{is_blank, split, split_once, text_eq, trim};

verus! {

/// How long an answer about capabilities is trusted.
pub const CAPABILITY_TTL_MS: i64 = 300_000;

// ── Credentials ────────────────────────────────────────────────────────────────

/// The process environment, as far as providers are configured by it.
pub struct ProviderEnv {
    pub social_treg_base_url: Option<String>,
    pub ryu_treg_url: Option<String>,
    pub treg_url: Option<String>,
    pub bluesky_handle: Option<String>,
    pub bluesky_app_password: Option<String>,
    pub bluesky_pds: Option<String>,
    pub bluesky_appview: Option<String>,
    pub fake_provider: Option<String>,
    pub account_providers: Option<String>,
}

/// Everything the providers are built from.
pub struct ProviderCredentials {
    pub treg_base_url: Option<String>,
    pub bluesky_handle: Option<String>,
    pub bluesky_app_password: Option<String>,
    pub bluesky_pds: Option<String>,
    pub bluesky_appview: Option<String>,
    /// Route everything to the in-memory fake.
    pub use_fake: bool,
    /// Account ids and the provider each must use. No id occurs twice.
    pub account_pins: Vec<(String, ProviderId)>,
}

pub open spec fn pins_view(s: Seq<(String, ProviderId)>) -> Map<Seq<char>, ProviderId>
    decreases s.len(),
{
    if s.len() == 0 {
        Map::empty()
    } else {
        pins_view(s.drop_last()).insert(s.last().0@, s.last().1)
    }
}

pub open spec fn pins_distinct(s: Seq<(String, ProviderId)>) -> bool {
    forall|i: int, j: int| 0 <= i < j < s.len() ==> (#[trigger] s[i]).0@ != (#[trigger] s[j]).0@
}

/// The pins with one entry of a pin list taken in: `account=provider`, with white
/// space anywhere round the two; an entry that is not one is skipped.
pub open spec fn with_pin(m: Map<Seq<char>, ProviderId>, entry: Seq<char>) -> Map<
    Seq<char>,
    ProviderId,
> {
    match text::split_once_of(text::trim_of(entry), '=') {
        Some((account, provider)) => match ProviderId::named(provider) {
            Some(id) => m.insert(text::trim_of(account), id),
            None => m,
        },
        None => m,
    }
}

pub open spec fn pins_after(entries: Seq<Seq<char>>) -> Map<Seq<char>, ProviderId>
    decreases entries.len(),
{
    if entries.len() == 0 {
        Map::empty()
    } else {
        with_pin(pins_after(entries.drop_last()), entries.last())
    }
}

/// The pins in a comma-separated list; of two for one account the later counts.
pub open spec fn pins_of(raw: Seq<char>) -> Map<Seq<char>, ProviderId> {
    pins_after(text::split_of(raw, ','))
}

proof fn lemma_pin_absent(s: Seq<(String, ProviderId)>, k: Seq<char>)
    requires
        forall|i: int| 0 <= i < s.len() ==> (#[trigger] s[i]).0@ != k,
    ensures
        !pins_view(s).dom().contains(k),
    decreases s.len(),
{
    if s.len() > 0 {
        let init = s.drop_last();
        assert forall|i: int| 0 <= i < init.len() implies (#[trigger] init[i]).0@ != k by {
            assert(init[i] == s[i]);
        }
        lemma_pin_absent(init, k);
        assert(s[s.len() - 1].0@ != k);
    }
}

proof fn lemma_pin_found(s: Seq<(String, ProviderId)>, i: int)
    requires
        pins_distinct(s),
        0 <= i < s.len(),
    ensures
        pins_view(s).dom().contains(s[i].0@),
        pins_view(s)[s[i].0@] == s[i].1,
    decreases s.len(),
{
    let init = s.drop_last();
    if i < s.len() - 1 {
        lemma_distinct_init(s);
        assert(init[i] == s[i]);
        lemma_pin_found(init, i);
        assert(s[i].0@ != s[s.len() - 1].0@);
    }
}

proof fn lemma_distinct_init(s: Seq<(String, ProviderId)>)
    requires
        pins_distinct(s),
        s.len() > 0,
    ensures
        pins_distinct(s.drop_last()),
{
    let init = s.drop_last();
    assert forall|i: int, j: int| 0 <= i < j < init.len() implies (#[trigger] init[i]).0@ != (
    #[trigger] init[j]).0@ by {
        assert(init[i] == s[i] && init[j] == s[j]);
    }
}

proof fn lemma_pin_updated(s: Seq<(String, ProviderId)>, i: int, x: (String, ProviderId))
    requires
        pins_distinct(s),
        0 <= i < s.len(),
        x.0@ == s[i].0@,
    ensures
        pins_distinct(s.update(i, x)),
        pins_view(s.update(i, x)) == pins_view(s).insert(x.0@, x.1),
    decreases s.len(),
{
    let t = s.update(i, x);
    assert forall|a: int, b: int| 0 <= a < b < t.len() implies (#[trigger] t[a]).0@ != (
    #[trigger] t[b]).0@ by {
        assert(s[a].0@ != s[b].0@);
    }
    let init = s.drop_last();
    if i == s.len() - 1 {
        assert(t.drop_last() =~= init);
        assert(pins_view(t) =~= pins_view(s).insert(x.0@, x.1));
    } else {
        lemma_distinct_init(s);
        assert(init[i] == s[i]);
        lemma_pin_updated(init, i, x);
        assert(t.drop_last() =~= init.update(i, x));
        assert(t.last() == s.last());
        assert(s[i].0@ != s[s.len() - 1].0@);
        assert(pins_view(t) =~= pins_view(s).insert(x.0@, x.1));
    }
}

fn set_pin(pins: &mut Vec<(String, ProviderId)>, account: String, id: ProviderId)
    requires
        pins_distinct(old(pins)@),
    ensures
        pins_distinct(final(pins)@),
        pins_view(final(pins)@) == pins_view(old(pins)@).insert(account@, id),
{
    let mut i: usize = 0;
    while i < pins.len()
        invariant
            i <= pins.len(),
            pins@ == old(pins)@,
            pins_distinct(pins@),
            forall|j: int| 0 <= j < i ==> (#[trigger] pins@[j]).0@ != account@,
        decreases pins.len() - i,
    {
        if text_eq(pins[i].0.as_str(), account.as_str()) {
            let x = (account, id);
            proof {
                lemma_pin_updated(pins@, i as int, x);
            }
            pins.set(i, x);
            return ;
        }
        i = i + 1;
    }
    let ghost before = pins@;
    pins.push((account, id));
    proof {
        assert(pins@.drop_last() =~= before);
        assert forall|a: int, b: int| 0 <= a < b < pins@.len() implies (#[trigger] pins@[a]).0@ != (
        #[trigger] pins@[b]).0@ by {
            if b < before.len() {
                assert(before[a].0@ != before[b].0@);
            } else {
                assert(before[a].0@ != account@);
            }
        }
    }
}

/// Read a comma-separated pin list. Entries that are no pins are skipped.
pub fn parse_pins(raw: &str) -> (r: Vec<(String, ProviderId)>)
    ensures
        pins_distinct(r@),
        pins_view(r@) == pins_of(raw@),
{
    let entries = split(raw, ',');
    let ghost all = text::texts(entries@);
    let mut pins: Vec<(String, ProviderId)> = Vec::new();
    let mut i: usize = 0;
    assert(all.take(0) =~= Seq::<Seq<char>>::empty());
    while i < entries.len()
        invariant
            i <= entries.len(),
            all == text::texts(entries@),
            pins_distinct(pins@),
            pins_view(pins@) == pins_after(all.take(i as int)),
        decreases entries.len() - i,
    {
        proof {
            assert(all.take(i as int + 1).drop_last() =~= all.take(i as int));
            assert(all.take(i as int + 1).last() == entries@[i as int]@);
        }
        match split_once(trim(entries[i].as_str()), '=') {
            Some((account, provider)) => match ProviderId::parse(provider) {
                Some(id) => {
                    set_pin(&mut pins, trim(account).to_owned(), id);
                },
                None => {},
            },
            None => {},
        }
        i = i + 1;
    }
    assert(all.take(all.len() as int) =~= all);
    pins
}

fn find_pin(pins: &Vec<(String, ProviderId)>, account: &str) -> (r: Option<ProviderId>)
    requires
        pins_distinct(pins@),
    ensures
        match r {
            Some(id) => pins_view(pins@).dom().contains(account@) && pins_view(pins@)[account@]
                == id,
            None => !pins_view(pins@).dom().contains(account@),
        },
{
    let mut i: usize = 0;
    while i < pins.len()
        invariant
            i <= pins.len(),
            pins_distinct(pins@),
            forall|j: int| 0 <= j < i ==> (#[trigger] pins@[j]).0@ != account@,
        decreases pins.len() - i,
    {
        if text_eq(pins[i].0.as_str(), account) {
            proof {
                lemma_pin_found(pins@, i as int);
            }
            return Some(pins[i].1);
        }
        i = i + 1;
    }
    proof {
        lemma_pin_absent(pins@, account@);
    }
    None
}

/// An environment value that counts: trimmed, and not blank.
fn counted_env(v: &Option<String>) -> (r: Option<String>)
    ensures
        text::opt_text(r) == settings::counted(text::opt_text(*v)),
{
    match v {
        Some(s) => {
            if is_blank(s.as_str()) {
                None
            } else {
                Some(trim(s.as_str()).to_owned())
            }
        },
        None => None,
    }
}

pub open spec fn first_counted(
    a: Option<Seq<char>>,
    b: Option<Seq<char>>,
    c: Option<Seq<char>>,
) -> Option<Seq<char>> {
    match settings::counted(a) {
        Some(v) => Some(v),
        None => match settings::counted(b) {
            Some(v) => Some(v),
            None => settings::counted(c),
        },
    }
}

/// A switch is on for `1`, `true`, `on` and `yes`.
pub open spec fn switched_on(v: Option<Seq<char>>) -> bool {
    match settings::counted(v) {
        Some(t) => t == "1"@ || t == "true"@ || t == "on"@ || t == "yes"@,
        None => false,
    }
}

impl ProviderCredentials {
    /// No account id is pinned twice.
    pub open spec fn wf(self) -> bool {
        pins_distinct(self.account_pins@)
    }

    /// What the environment sets.
    pub open spec fn read_from(self, env: ProviderEnv) -> bool {
        &&& text::opt_text(self.treg_base_url) == first_counted(
            text::opt_text(env.social_treg_base_url),
            text::opt_text(env.ryu_treg_url),
            text::opt_text(env.treg_url),
        )
        &&& text::opt_text(self.bluesky_pds) == settings::counted(text::opt_text(env.bluesky_pds))
        &&& text::opt_text(self.bluesky_appview) == settings::counted(
            text::opt_text(env.bluesky_appview),
        )
        &&& self.use_fake == switched_on(text::opt_text(env.fake_provider))
        &&& pins_view(self.account_pins@) == (match settings::counted(
            text::opt_text(env.account_providers),
        ) {
            Some(raw) => pins_of(raw),
            None => Map::empty(),
        })
    }

    /// No credentials at all.
    pub fn none() -> (r: Self)
        ensures
            r.wf(),
            r.treg_base_url is None,
            r.bluesky_handle is None,
            r.bluesky_app_password is None,
            r.bluesky_pds is None,
            r.bluesky_appview is None,
            !r.use_fake,
            r.account_pins@.len() == 0,
    {
        Self {
            treg_base_url: None,
            bluesky_handle: None,
            bluesky_app_password: None,
            bluesky_pds: None,
            bluesky_appview: None,
            use_fake: false,
            account_pins: Vec::new(),
        }
    }

    pub fn from_env(env: &ProviderEnv) -> (r: Self)
        ensures
            r.wf(),
            r.read_from(*env),
            text::opt_text(r.bluesky_handle) == settings::counted(
                text::opt_text(env.bluesky_handle),
            ),
            text::opt_text(r.bluesky_app_password) == settings::counted(
                text::opt_text(env.bluesky_app_password),
            ),
    {
        let treg_base_url: Option<String> = match counted_env(&env.social_treg_base_url) {
            Some(u) => Some(u),
            None => match counted_env(&env.ryu_treg_url) {
                Some(u) => Some(u),
                None => counted_env(&env.treg_url),
            },
        };
        let use_fake: bool = match counted_env(&env.fake_provider) {
            Some(v) => text_eq(v.as_str(), "1") || text_eq(v.as_str(), "true") || text_eq(
                v.as_str(),
                "on",
            ) || text_eq(v.as_str(), "yes"),
            None => false,
        };
        let account_pins: Vec<(String, ProviderId)> = match counted_env(&env.account_providers) {
            Some(raw) => parse_pins(raw.as_str()),
            None => Vec::new(),
        };
        Self {
            treg_base_url,
            bluesky_handle: counted_env(&env.bluesky_handle),
            bluesky_app_password: counted_env(&env.bluesky_app_password),
            bluesky_pds: counted_env(&env.bluesky_pds),
            bluesky_appview: counted_env(&env.bluesky_appview),
            use_fake,
            account_pins,
        }
    }

    /// The Bluesky account from the node's settings (both halves, or neither), the
    /// rest from the environment.
    pub fn from_node_settings(node: &NodeSettings, secrets: &CredentialEnv, env: &ProviderEnv) -> (r:
        Self)
        ensures
            r.wf(),
            r.read_from(*env),
            match node@.bluesky(secrets@) {
                Some((h, p)) => text::opt_text(r.bluesky_handle) == Some(h) && text::opt_text(
                    r.bluesky_app_password,
                ) == Some(p),
                None => r.bluesky_handle is None && r.bluesky_app_password is None,
            },
    {
        let base = Self::from_env(env);
        match node.bluesky_credentials(secrets) {
            Some((handle, password)) => Self {
                bluesky_handle: Some(handle),
                bluesky_app_password: Some(password),
                ..base
            },
            None => Self { bluesky_handle: None, bluesky_app_password: None, ..base },
        }
    }
}

/// Whether only one half of the Bluesky account is set, which is worth a warning.
pub fn half_configured(credentials: &ProviderCredentials) -> (r: bool)
    ensures
        r == (credentials.bluesky_handle is Some != credentials.bluesky_app_password is Some),
{
    credentials.bluesky_handle.is_some() != credentials.bluesky_app_password.is_some()
}

/// Whether the node's settings and the environment set only one half of the Bluesky
/// account, which is worth a warning: neither half is used then.
pub fn half_set(node: &NodeSettings, secrets: &CredentialEnv) -> (r: bool)
    ensures
        r == ({
            let handle = node@.bluesky_handle is Some || settings::counted(
                secrets@.bluesky_handle,
            ) is Some;
            let password = node@.bluesky_app_password is Some || settings::counted(
                secrets@.bluesky_app_password,
            ) is Some;
            node@.bluesky(secrets@) is None && handle != password
        }),
{
    if node.bluesky_credentials(secrets).is_some() {
        return false;
    }
    let handle: bool = node.bluesky_handle.is_some() || counted_env(
        &secrets.bluesky_handle,
    ).is_some();
    let password: bool = node.bluesky_app_password.is_some() || counted_env(
        &secrets.bluesky_app_password,
    ).is_some();
    handle != password
}

// ── The registry ───────────────────────────────────────────────────────────────

/// One remembered answer about capabilities.
#[derive(Debug, Clone, Copy, PartialEq, Eq, Structural)]
pub struct CachedCapabilities {
    pub provider: ProviderId,
    pub platform: Platform,
    pub value: PlatformCapabilities,
    pub fetched_at: i64,
}

/// Which providers there are, which accounts are pinned, and what is remembered.
pub struct ProviderRegistry {
    composio: bool,
    treg: bool,
    bluesky: bool,
    fake: bool,
    /// When set, everything goes here.
    forced: Option<ProviderId>,
    pins: Vec<(String, ProviderId)>,
    cache: Vec<CachedCapabilities>,
}

#[verifier::ext_equal]
pub struct RegistryView {
    pub composio: bool,
    pub treg: bool,
    pub bluesky: bool,
    pub fake: bool,
    pub forced: Option<ProviderId>,
    pub pins: Map<Seq<char>, ProviderId>,
    pub cache: Seq<CachedCapabilities>,
}

impl View for ProviderRegistry {
    type V = RegistryView;

    closed spec fn view(&self) -> RegistryView {
        RegistryView {
            composio: self.composio,
            treg: self.treg,
            bluesky: self.bluesky,
            fake: self.fake,
            forced: self.forced,
            pins: pins_view(self.pins@),
            cache: self.cache@,
        }
    }
}

/// The remembered answer for a provider and a platform.
pub open spec fn cached_at(
    s: Seq<CachedCapabilities>,
    id: ProviderId,
    platform: Platform,
) -> Option<CachedCapabilities>
    decreases s.len(),
{
    if s.len() == 0 {
        None
    } else if s.last().provider == id && s.last().platform == platform {
        Some(s.last())
    } else {
        cached_at(s.drop_last(), id, platform)
    }
}

/// What is remembered, where that is recent enough.
pub open spec fn recent_answer(
    s: Seq<CachedCapabilities>,
    id: ProviderId,
    platform: Platform,
    now: i64,
) -> Option<PlatformCapabilities> {
    match cached_at(s, id, platform) {
        Some(c) => if now - c.fetched_at < CAPABILITY_TTL_MS {
            Some(c.value)
        } else {
            None
        },
        None => None,
    }
}

/// Without one entry the answers for other keys stay.
proof fn lemma_forget(s: Seq<CachedCapabilities>, i: int)
    requires
        0 <= i < s.len(),
    ensures
        forall|id: ProviderId, p: Platform|
            (id != s[i].provider || p != s[i].platform) ==> cached_at(s.remove(i), id, p)
                == cached_at(s, id, p),
    decreases s.len(),
{
    let t = s.remove(i);
    let init = s.drop_last();
    if i < s.len() - 1 {
        lemma_forget(init, i);
    }
    assert forall|id: ProviderId, p: Platform|
        (id != s[i].provider || p != s[i].platform) implies cached_at(t, id, p) == cached_at(
        s,
        id,
        p,
    ) by {
        if i == s.len() - 1 {
            assert(t =~= init);
        } else {
            assert(t.drop_last() =~= init.remove(i));
            assert(t.last() == s.last());
            assert(init[i] == s[i]);
            assert(cached_at(init.remove(i), id, p) == cached_at(init, id, p));
        }
    }
}

impl RegistryView {
    /// Whether there is such a provider. There is none for Threads yet.
    pub open spec fn available(self, id: ProviderId) -> bool {
        match id {
            ProviderId::Composio => self.composio,
            ProviderId::Treg => self.treg,
            ProviderId::Bluesky => self.bluesky,
            ProviderId::Fake => self.fake,
            ProviderId::Threads => false,
            ProviderId::Unconfigured => true,
        }
    }

    /// The provider of a platform: the direct adapter, then the brokers, then the
    /// fake, then the one that can do nothing.
    pub open spec fn serves(self, platform: Platform) -> ProviderId {
        match self.forced {
            Some(id) => id,
            None => if platform == Platform::Bluesky && self.bluesky {
                ProviderId::Bluesky
            } else if self.treg {
                ProviderId::Treg
            } else if self.composio {
                ProviderId::Composio
            } else if self.fake {
                ProviderId::Fake
            } else {
                ProviderId::Unconfigured
            },
        }
    }

    /// The pin of an account, where that provider exists.
    pub open spec fn usable_pin(self, account: Seq<char>) -> Option<ProviderId> {
        if self.pins.dom().contains(account) && self.available(self.pins[account]) {
            Some(self.pins[account])
        } else {
            None
        }
    }

    /// The provider of an account: its pin where that can be used, else its
    /// platform's.
    pub open spec fn serves_account(self, account: types::AccountView) -> ProviderId {
        match self.forced {
            Some(id) => id,
            None => match self.usable_pin(account.id) {
                Some(id) => id,
                None => self.serves(account.platform),
            },
        }
    }

    /// All providers that could serve an account, the preferred one first.
    pub open spec fn candidates(self, account: types::AccountView) -> Seq<ProviderId> {
        match self.forced {
            Some(id) => seq![id],
            None => lists::deduped(
                opt_row(self.usable_pin(account.id)) + row_if(
                    account.platform == Platform::Bluesky && self.bluesky,
                    ProviderId::Bluesky,
                ) + row_if(self.treg, ProviderId::Treg) + row_if(
                    self.composio,
                    ProviderId::Composio,
                ) + row_if(self.fake, ProviderId::Fake),
            ),
        }
    }
}

pub open spec fn opt_row(o: Option<ProviderId>) -> Seq<ProviderId> {
    match o {
        Some(id) => seq![id],
        None => Seq::empty(),
    }
}

pub open spec fn row_if(b: bool, id: ProviderId) -> Seq<ProviderId> {
    if b {
        seq![id]
    } else {
        Seq::empty()
    }
}

/// Append an id to a row without repetition, where it belongs there.
fn push_if(v: &mut Vec<ProviderId>, b: bool, id: ProviderId, Ghost(all): Ghost<Seq<ProviderId>>)
    requires
        old(v)@ == lists::deduped(all),
    ensures
        final(v)@ == lists::deduped(all + row_if(b, id)),
{
    if !b {
        assert(all + row_if(b, id) =~= all);
        return ;
    }
    assert(all + row_if(b, id) =~= all.push(id));
    assert(all.push(id).drop_last() =~= all);
    let mut i: usize = 0;
    while i < v.len()
        invariant
            i <= v.len(),
            v@ == old(v)@,
            v@ == lists::deduped(all),
            all + row_if(b, id) == all.push(id),
            all.push(id).drop_last() == all,
            forall|j: int| 0 <= j < i ==> v@[j] != id,
        decreases v.len() - i,
    {
        if v[i] == id {
            assert(v@.contains(id));
            return ;
        }
        i = i + 1;
    }
    assert(!v@.contains(id));
    v.push(id);
}

/// The first candidate that supports an operation; a broker that posts text only is
/// passed over where there are attachments to publish. Where none does, the one that
/// can do nothing.
pub open spec fn chosen(
    candidates: Seq<ProviderId>,
    caps: Seq<PlatformCapabilities>,
    operation: ProviderOperation,
    with_media: bool,
) -> ProviderId
    decreases candidates.len(),
{
    if candidates.len() == 0 {
        ProviderId::Unconfigured
    } else if fits(candidates[0], caps[0], operation, with_media) {
        candidates[0]
    } else {
        chosen(candidates.drop_first(), caps.drop_first(), operation, with_media)
    }
}

pub open spec fn fits(
    id: ProviderId,
    caps: PlatformCapabilities,
    operation: ProviderOperation,
    with_media: bool,
) -> bool {
    !(operation == ProviderOperation::Publish && with_media && id == ProviderId::Treg)
        && operation.supported(caps)
}

pub open spec fn merged(caps: Seq<PlatformCapabilities>) -> PlatformCapabilities
    decreases caps.len(),
{
    if caps.len() == 0 {
        PlatformCapabilities::none()
    } else {
        let m = merged(caps.drop_last());
        let c = caps.last();
        PlatformCapabilities {
            publish: m.publish || c.publish,
            read_comments: m.read_comments || c.read_comments,
            read_dms: m.read_dms || c.read_dms,
            send_dm: m.send_dm || c.send_dm,
            read_engagement: m.read_engagement || c.read_engagement,
            schedule: false,
        }
    }
}

/// What several providers can do together. Scheduling is never among it.
pub fn merge_capabilities(caps: &Vec<PlatformCapabilities>) -> (r: PlatformCapabilities)
    ensures
        r == merged(caps@),
        !r.schedule,
{
    let mut m = PlatformCapabilities::empty();
    let mut i: usize = 0;
    assert(caps@.take(0) =~= Seq::<PlatformCapabilities>::empty());
    while i < caps.len()
        invariant
            i <= caps.len(),
            m == merged(caps@.take(i as int)),
            !m.schedule,
        decreases caps.len() - i,
    {
        proof {
            assert(caps@.take(i as int + 1).drop_last() =~= caps@.take(i as int));
            assert(caps@.take(i as int + 1).last() == caps@[i as int]);
        }
        let c = caps[i];
        m =
        PlatformCapabilities {
            publish: m.publish || c.publish,
            read_comments: m.read_comments || c.read_comments,
            read_dms: m.read_dms || c.read_dms,
            send_dm: m.send_dm || c.send_dm,
            read_engagement: m.read_engagement || c.read_engagement,
            schedule: false,
        };
        i = i + 1;
    }
    assert(caps@.take(caps@.len() as int) =~= caps@);
    m
}

/// The account that stands for a whole platform.
pub fn account_for_platform(platform: Platform) -> (r: ProviderAccount)
    ensures
        r@ == (types::AccountView {
            id: "__platform__:"@ + platform.name(),
            platform,
            label: None,
            external_id: None,
        }),
{
    let mut id: String = "__platform__:".to_owned();
    id.append(platform.as_str());
    ProviderAccount { id, platform, label: None, external_id: None }
}

impl ProviderRegistry {
    /// No account id is pinned twice.
    pub closed spec fn wf(self) -> bool {
        pins_distinct(self.pins@)
    }

    /// The registry that credentials make. The brokers are there where the process
    /// is hosted; the direct adapter where it has both halves of its account.
    pub fn from_credentials(credentials: ProviderCredentials, hosted: bool) -> (r: Self)
        requires
            credentials.wf(),
        ensures
            r.wf(),
            r@ == (RegistryView {
                composio: hosted,
                treg: hosted,
                bluesky: credentials.bluesky_handle is Some && credentials.bluesky_app_password
                    is Some,
                fake: credentials.use_fake,
                forced: None,
                pins: pins_view(credentials.account_pins@),
                cache: Seq::empty(),
            }),
    {
        let r = Self {
            composio: hosted,
            treg: hosted,
            bluesky: credentials.bluesky_handle.is_some()
                && credentials.bluesky_app_password.is_some(),
            fake: credentials.use_fake,
            forced: None,
            pins: credentials.account_pins,
            cache: Vec::new(),
        };
        assert(r@.cache =~= Seq::<CachedCapabilities>::empty());
        r
    }

    /// A registry that sends everything to one provider.
    pub fn with_provider(id: ProviderId) -> (r: Self)
        ensures
            r.wf(),
            r@ == (RegistryView {
                composio: false,
                treg: false,
                bluesky: false,
                fake: false,
                forced: Some(id),
                pins: Map::empty(),
                cache: Seq::empty(),
            }),
    {
        let r = Self {
            composio: false,
            treg: false,
            bluesky: false,
            fake: false,
            forced: Some(id),
            pins: Vec::new(),
            cache: Vec::new(),
        };
        assert(r@.cache =~= Seq::<CachedCapabilities>::empty());
        r
    }

    /// Whether there is such a provider.
    pub fn by_id(&self, id: ProviderId) -> (r: bool)
        ensures
            r == self@.available(id),
    {
        match id {
            ProviderId::Composio => self.composio,
            ProviderId::Treg => self.treg,
            ProviderId::Bluesky => self.bluesky,
            ProviderId::Fake => self.fake,
            ProviderId::Threads => false,
            ProviderId::Unconfigured => true,
        }
    }

    /// The provider of a platform. There always is one.
    pub fn provider_for(&self, platform: Platform) -> (r: ProviderId)
        ensures
            r == self@.serves(platform),
    {
        if let Some(id) = self.forced {
            return id;
        }
        if platform == Platform::Bluesky && self.bluesky {
            return ProviderId::Bluesky;
        }
        if self.treg {
            return ProviderId::Treg;
        }
        if self.composio {
            return ProviderId::Composio;
        }
        if self.fake {
            return ProviderId::Fake;
        }
        ProviderId::Unconfigured
    }

    fn pin_of(&self, account_id: &str) -> (r: Option<ProviderId>)
        requires
            self.wf(),
        ensures
            r == self@.usable_pin(account_id@),
    {
        match find_pin(&self.pins, account_id) {
            Some(id) => {
                if self.by_id(id) {
                    Some(id)
                } else {
                    None
                }
            },
            None => None,
        }
    }

    /// The provider of an account. A pin to a provider that is not there is ignored.
    pub fn provider_for_account(&self, account: &ProviderAccount) -> (r: ProviderId)
        requires
            self.wf(),
        ensures
            r == self@.serves_account(account@),
    {
        if let Some(id) = self.forced {
            return id;
        }
        match self.pin_of(account.id.as_str()) {
            Some(id) => id,
            None => self.provider_for(account.platform),
        }
    }

    /// All providers that could serve an account, the preferred one first.
    pub fn candidates_for_account(&self, account: &ProviderAccount) -> (r: Vec<ProviderId>)
        requires
            self.wf(),
        ensures
            r@ == self@.candidates(account@),
    {
        let mut r: Vec<ProviderId> = Vec::new();
        if let Some(id) = self.forced {
            r.push(id);
            assert(r@ =~= self@.candidates(account@));
            return r;
        }
        let ghost pin = opt_row(self@.usable_pin(account@.id));
        if let Some(id) = self.pin_of(account.id.as_str()) {
            r.push(id);
        }
        assert(r@ =~= pin);
        proof {
            lists::dedup_short(pin);
        }
        let direct = account.platform == Platform::Bluesky && self.bluesky;
        let ghost a1 = pin + row_if(direct, ProviderId::Bluesky);
        push_if(&mut r, direct, ProviderId::Bluesky, Ghost(pin));
        push_if(&mut r, self.treg, ProviderId::Treg, Ghost(a1));
        let ghost a2 = a1 + row_if(self.treg, ProviderId::Treg);
        push_if(&mut r, self.composio, ProviderId::Composio, Ghost(a2));
        let ghost a3 = a2 + row_if(self.composio, ProviderId::Composio);
        push_if(&mut r, self.fake, ProviderId::Fake, Ghost(a3));
        r
    }

    /// The provider for an operation, given what the candidates for the account can
    /// do, in their order.
    pub fn provider_for_operation(
        &self,
        account: &ProviderAccount,
        operation: ProviderOperation,
        with_media: bool,
        caps: &Vec<PlatformCapabilities>,
    ) -> (r: ProviderId)
        requires
            self.wf(),
            caps@.len() == self@.candidates(account@).len(),
        ensures
            r == chosen(self@.candidates(account@), caps@, operation, with_media),
    {
        let candidates = self.candidates_for_account(account);
        let mut i: usize = 0;
        assert(candidates@.skip(0) =~= candidates@);
        assert(caps@.skip(0) =~= caps@);
        while i < candidates.len()
            invariant
                i <= candidates.len(),
                candidates@ == self@.candidates(account@),
                caps@.len() == candidates@.len(),
                chosen(candidates@, caps@, operation, with_media) == chosen(
                    candidates@.skip(i as int),
                    caps@.skip(i as int),
                    operation,
                    with_media,
                ),
            decreases candidates.len() - i,
        {
            let id = candidates[i];
            proof {
                assert(candidates@.skip(i as int)[0] == id);
                assert(caps@.skip(i as int)[0] == caps@[i as int]);
                assert(candidates@.skip(i as int).drop_first() =~= candidates@.skip(i as int + 1));
                assert(caps@.skip(i as int).drop_first() =~= caps@.skip(i as int + 1));
            }
            let text_only = operation == ProviderOperation::Publish && with_media && id
                == ProviderId::Treg;
            if !text_only && operation.is_supported(caps[i]) {
                return id;
            }
            i = i + 1;
        }
        ProviderId::Unconfigured
    }

    /// What is remembered of a provider, if it is recent enough.
    pub fn cached(&self, id: ProviderId, platform: Platform, now: i64) -> (r: Option<
        PlatformCapabilities,
    >)
        ensures
            r == recent_answer(self@.cache, id, platform, now),
    {
        let mut i: usize = self.cache.len();
        assert(self.cache@.take(i as int) =~= self.cache@);
        while i > 0
            invariant
                i <= self.cache.len(),
                cached_at(self@.cache, id, platform) == cached_at(
                    self.cache@.take(i as int),
                    id,
                    platform,
                ),
            decreases i,
        {
            assert(self.cache@.take(i as int).drop_last() =~= self.cache@.take(i as int - 1));
            let c = self.cache[i - 1];
            if c.provider == id && c.platform == platform {
                let age: i128 = now as i128 - c.fetched_at as i128;
                return if age < CAPABILITY_TTL_MS as i128 {
                    Some(c.value)
                } else {
                    None
                };
            }
            i = i - 1;
        }
        None
    }

    /// Remember what a provider answered.
    pub fn remember(
        &mut self,
        id: ProviderId,
        platform: Platform,
        value: PlatformCapabilities,
        now: i64,
    )
        requires
            old(self).wf(),
        ensures
            final(self).wf(),
            cached_at(final(self)@.cache, id, platform) == Some(
                CachedCapabilities { provider: id, platform, value, fetched_at: now },
            ),
            forall|i: ProviderId, p: Platform|
                (i != id || p != platform) ==> cached_at(final(self)@.cache, i, p) == cached_at(
                    old(self)@.cache,
                    i,
                    p,
                ),
            final(self)@ == (RegistryView { cache: final(self)@.cache, ..old(self)@ }),
    {
        let mut i: usize = 0;
        while i < self.cache.len() && !(self.cache[i].provider == id && self.cache[i].platform
            == platform)
            invariant
                i <= self.cache.len(),
            decreases self.cache.len() - i,
        {
            i = i + 1;
        }
        let ghost before = self.cache@;
        if i < self.cache.len() {
            proof {
                lemma_forget(before, i as int);
            }
            self.cache.remove(i);
        }
        let ghost rest = self.cache@;
        self.cache.push(CachedCapabilities { provider: id, platform, value, fetched_at: now });
        assert(self.cache@.drop_last() =~= rest);
    }

    /// Forget all answers.
    pub fn invalidate_capabilities(&mut self)
        requires
            old(self).wf(),
        ensures
            final(self).wf(),
            final(self)@ == (RegistryView { cache: Seq::empty(), ..old(self)@ }),
    {
        self.cache.clear();
        assert(self.cache@ =~= Seq::<CachedCapabilities>::empty());
    }
}

/// Whatever serves a platform is there; and the fake serves only where it was asked
/// for.
pub proof fn what_serves_is_there(v: RegistryView, account: types::AccountView)
    requires
        v.forced is None,
    ensures
        v.available(v.serves(account.platform)),
        v.available(v.serves_account(account)),
        !v.fake ==> v.serves(account.platform) != ProviderId::Fake,
{
}

/// A direct adapter goes before the brokers on its own platform, and serves no other.
pub proof fn a_direct_adapter_serves_its_platform(v: RegistryView, platform: Platform)
    requires
        v.forced is None,
        v.bluesky,
    ensures
        (v.serves(platform) == ProviderId::Bluesky) == (platform == Platform::Bluesky),
{
}

/// A pin is obeyed where its provider is there, and changes nothing where it is not.
pub proof fn a_pin_is_a_preference(v: RegistryView, account: types::AccountView, id: ProviderId)
    requires
        v.forced is None,
        v.pins.dom().contains(account.id),
        v.pins[account.id] == id,
    ensures
        v.available(id) ==> v.serves_account(account) == id,
        !v.available(id) ==> v.serves_account(account) == v.serves(account.platform),
{
}

/// What serves an account is the first candidate for it; where there is no candidate,
/// the provider that can do nothing.
pub proof fn the_first_candidate_serves(v: RegistryView, account: types::AccountView)
    ensures
        v.serves_account(account) == (if v.candidates(account).len() > 0 {
            v.candidates(account)[0]
        } else {
            ProviderId::Unconfigured
        }),
{
    if v.forced is None {
        let all = opt_row(v.usable_pin(account.id)) + row_if(
            account.platform == Platform::Bluesky && v.bluesky,
            ProviderId::Bluesky,
        ) + row_if(v.treg, ProviderId::Treg) + row_if(v.composio, ProviderId::Composio) + row_if(
            v.fake,
            ProviderId::Fake,
        );
        if all.len() > 0 {
            let first = seq![all[0]];
            assert(first + all.skip(1) =~= all);
            lists::dedup_keeps_first_occurrences(first, all.skip(1));
            lists::dedup_short(first);
            let d = lists::deduped(all);
            assert(first[0] == d.subrange(0, 1)[0]);
        }
    }
}

/// No provider is a candidate twice, and every candidate is there.
pub proof fn candidates_are_there_once(v: RegistryView, account: types::AccountView)
    requires
        v.forced is None,
    ensures
        v.candidates(account).no_duplicates(),
        forall|i: int|
            0 <= i < v.candidates(account).len() ==> v.available(
                #[trigger] v.candidates(account)[i],
            ),
{
    let all = opt_row(v.usable_pin(account.id)) + row_if(
        account.platform == Platform::Bluesky && v.bluesky,
        ProviderId::Bluesky,
    ) + row_if(v.treg, ProviderId::Treg) + row_if(v.composio, ProviderId::Composio) + row_if(
        v.fake,
        ProviderId::Fake,
    );
    lists::dedup_laws(all);
    assert forall|i: int| 0 <= i < v.candidates(account).len() implies v.available(
        #[trigger] v.candidates(account)[i],
    ) by {
        let x = v.candidates(account)[i];
        assert(lists::deduped(all).contains(x));
        assert(all.contains(x));
        let j = choose|j: int| 0 <= j < all.len() && all[j] == x;
    }
}

/// An answer is remembered for its provider and platform until its time is over.
pub proof fn an_answer_has_its_time(
    s: Seq<CachedCapabilities>,
    id: ProviderId,
    platform: Platform,
    value: PlatformCapabilities,
    fetched_at: i64,
    now: i64,
)
    requires
        cached_at(s, id, platform) == Some(
            CachedCapabilities { provider: id, platform, value, fetched_at },
        ),
    ensures
        recent_answer(s, id, platform, now) == (if now - fetched_at < CAPABILITY_TTL_MS {
            Some(value)
        } else {
            None
        }),
        recent_answer(Seq::empty(), id, platform, now) is None,
{
}

/// Of what is not configured nothing is served.
pub proof fn nothing_configured_serves_nothing(v: RegistryView, account: types::AccountView)
    requires
        v.forced is None,
        !v.composio && !v.treg && !v.bluesky && !v.fake,
    ensures
        v.serves_account(account) == ProviderId::Unconfigured,
{
}

/// A provider that was chosen for an operation supports it, or is the one that can
/// do nothing.
pub proof fn what_is_chosen_fits(
    candidates: Seq<ProviderId>,
    caps: Seq<PlatformCapabilities>,
    operation: ProviderOperation,
    with_media: bool,
)
    requires
        candidates.len() == caps.len(),
    ensures
        ({
            let r = chosen(candidates, caps, operation, with_media);
            r == ProviderId::Unconfigured || exists|i: int|
                0 <= i < candidates.len() && #[trigger] candidates[i] == r && fits(
                    r,
                    caps[i],
                    operation,
                    with_media,
                )
        }),
    decreases candidates.len(),
{
    if candidates.len() > 0 && !fits(candidates[0], caps[0], operation, with_media) {
        let c = candidates.drop_first();
        let d = caps.drop_first();
        what_is_chosen_fits(c, d, operation, with_media);
        let r = chosen(c, d, operation, with_media);
        if r != ProviderId::Unconfigured {
            let i = choose|i: int|
                0 <= i < c.len() && #[trigger] c[i] == r && fits(r, d[i], operation, with_media);
            assert(candidates[i + 1] == r && caps[i + 1] == d[i]);
        }
    }
}

/// A platform goes to the first that is there of its direct adapter, the tool broker,
/// the app broker and the fake; a registry made for one provider sends everything there.
pub proof fn the_preferred_provider_serves(v: RegistryView, platform: Platform)
    ensures
        v.forced is Some ==> v.serves(platform) == v.forced->0,
        v.forced is None ==> {
            let direct = platform == Platform::Bluesky && v.bluesky;
            &&& (v.serves(platform) == ProviderId::Bluesky) == direct
            &&& (v.serves(platform) == ProviderId::Treg) == (!direct && v.treg)
            &&& (v.serves(platform) == ProviderId::Composio) == (!direct && !v.treg && v.composio)
            &&& (v.serves(platform) == ProviderId::Fake) == (!direct && !v.treg && !v.composio
                && v.fake)
            &&& v.serves(platform) != ProviderId::Threads
        },
{
}

/// The brokers, the direct adapter and the fake are there as they are configured; the
/// one that can do nothing always is, and one for Threads never.
pub proof fn a_provider_is_there_as_configured(v: RegistryView)
    ensures
        v.available(ProviderId::Composio) == v.composio,
        v.available(ProviderId::Treg) == v.treg,
        v.available(ProviderId::Bluesky) == v.bluesky,
        v.available(ProviderId::Fake) == v.fake,
        !v.available(ProviderId::Threads),
        v.available(ProviderId::Unconfigured),
{
}

/// A provider is a candidate for an account exactly when it is there and is the
/// account's pin, or the direct adapter of its platform, or a broker, or the fake. A pin
/// that can be used comes first, and the others follow in that order.
pub proof fn every_provider_that_could_serve_is_a_candidate(
    v: RegistryView,
    account: types::AccountView,
    id: ProviderId,
)
    requires
        v.forced is None,
    ensures
        v.candidates(account).contains(id) == (v.available(id) && ((v.pins.dom().contains(
            account.id,
        ) && v.pins[account.id] == id) || (id == ProviderId::Bluesky && account.platform
            == Platform::Bluesky) || id == ProviderId::Treg || id == ProviderId::Composio || id
            == ProviderId::Fake)),
        v.usable_pin(account.id) is Some ==> v.candidates(account)[0] == v.usable_pin(
            account.id,
        )->0,
{
    let direct = account.platform == Platform::Bluesky && v.bluesky;
    let pin = opt_row(v.usable_pin(account.id));
    let a1 = pin + row_if(direct, ProviderId::Bluesky);
    let a2 = a1 + row_if(v.treg, ProviderId::Treg);
    let a3 = a2 + row_if(v.composio, ProviderId::Composio);
    let all = a3 + row_if(v.fake, ProviderId::Fake);
    lists::dedup_laws(all);
    the_first_candidate_serves(v, account);
    assert(v.candidates(account) == lists::deduped(all));
    assert(lists::deduped(all).contains(id) <==> all.contains(id));
    lemma_row_joined(a3, v.fake, ProviderId::Fake, id);
    lemma_row_joined(a2, v.composio, ProviderId::Composio, id);
    lemma_row_joined(a1, v.treg, ProviderId::Treg, id);
    lemma_row_joined(pin, direct, ProviderId::Bluesky, id);
    assert(pin.contains(id) <==> v.usable_pin(account.id) == Some(id)) by {
        if v.usable_pin(account.id) == Some(id) {
            assert(pin[0] == id);
        }
    }
    if v.usable_pin(account.id) is Some {
        let first = v.usable_pin(account.id)->0;
        assert(all[0] == first);
        assert(all.contains(first));
        assert(lists::deduped(all).contains(first));
        assert(v.candidates(account).len() > 0);
    }
}

proof fn lemma_row_joined(s: Seq<ProviderId>, b: bool, y: ProviderId, x: ProviderId)
    ensures
        (s + row_if(b, y)).contains(x) <==> s.contains(x) || (b && x == y),
{
    let t = s + row_if(b, y);
    if s.contains(x) {
        let k = choose|k: int| 0 <= k < s.len() && s[k] == x;
        assert(t[k] == x);
    }
    if b && x == y {
        assert(t[s.len() as int] == x);
    }
    if t.contains(x) {
        let k = choose|k: int| 0 <= k < t.len() && t[k] == x;
        if k < s.len() {
            assert(s[k] == x);
        }
    }
}

/// The first candidate that can do an operation is chosen. The tool broker posts text
/// alone: it cannot publish attachments. Where no candidate can, the provider that can
/// do nothing is chosen.
pub proof fn the_first_that_can_is_chosen(
    candidates: Seq<ProviderId>,
    caps: Seq<PlatformCapabilities>,
    operation: ProviderOperation,
    with_media: bool,
    i: int,
)
    requires
        candidates.len() == caps.len(),
        0 <= i <= candidates.len(),
        forall|j: int|
            0 <= j < i ==> !(operation.supported(#[trigger] caps[j]) && (operation
                != ProviderOperation::Publish || !with_media || candidates[j]
                != ProviderId::Treg)),
        i < candidates.len() ==> operation.supported(caps[i]) && (operation
            != ProviderOperation::Publish || !with_media || candidates[i] != ProviderId::Treg),
    ensures
        i < candidates.len() ==> chosen(candidates, caps, operation, with_media) == candidates[i],
        i == candidates.len() ==> chosen(candidates, caps, operation, with_media)
            == ProviderId::Unconfigured,
    decreases candidates.len(),
{
    if i > 0 {
        assert(!fits(candidates[0], caps[0], operation, with_media));
        let c = candidates.drop_first();
        let d = caps.drop_first();
        assert forall|j: int| 0 <= j < i - 1 implies !(operation.supported(#[trigger] d[j]) && (
        operation != ProviderOperation::Publish || !with_media || c[j] != ProviderId::Treg)) by {
            assert(d[j] == caps[j + 1] && c[j] == candidates[j + 1]);
        }
        the_first_that_can_is_chosen(c, d, operation, with_media, i - 1);
    }
}

/// Providers together can do what one of them can; scheduling is left to the library.
pub proof fn together_they_can_what_one_can(caps: Seq<PlatformCapabilities>)
    ensures
        merged(caps).publish <==> exists|i: int| 0 <= i < caps.len() && (#[trigger] caps[i]).publish,
        merged(caps).read_comments <==> exists|i: int|
            0 <= i < caps.len() && (#[trigger] caps[i]).read_comments,
        merged(caps).read_dms <==> exists|i: int|
            0 <= i < caps.len() && (#[trigger] caps[i]).read_dms,
        merged(caps).send_dm <==> exists|i: int| 0 <= i < caps.len() && (#[trigger] caps[i]).send_dm,
        merged(caps).read_engagement <==> exists|i: int|
            0 <= i < caps.len() && (#[trigger] caps[i]).read_engagement,
        !merged(caps).schedule,
    decreases caps.len(),
{
    if caps.len() > 0 {
        let init = caps.drop_last();
        together_they_can_what_one_can(init);
        let n = caps.len() - 1;
        assert(caps.last() == caps[n]);
        assert forall|i: int| 0 <= i < init.len() implies #[trigger] init[i] == caps[i] by {}
        assert forall|i: int| 0 <= i < n implies #[trigger] caps[i] == init[i] by {}
    }
}

/// An answer is trusted for five minutes, and the latest one for its provider and
/// platform is the one that counts.
pub proof fn the_latest_answer_counts_for_five_minutes(
    s: Seq<CachedCapabilities>,
    k: int,
    now: i64,
)
    requires
        0 <= k < s.len(),
        forall|j: int|
            k < j < s.len() ==> (#[trigger] s[j]).provider != s[k].provider || s[j].platform
                != s[k].platform,
    ensures
        recent_answer(s, s[k].provider, s[k].platform, now) == (if now - s[k].fetched_at < 5
            * 60_000 {
            Some(s[k].value)
        } else {
            None
        }),
{
    lemma_latest(s, k);
}

proof fn lemma_latest(s: Seq<CachedCapabilities>, k: int)
    requires
        0 <= k < s.len(),
        forall|j: int|
            k < j < s.len() ==> (#[trigger] s[j]).provider != s[k].provider || s[j].platform
                != s[k].platform,
    ensures
        cached_at(s, s[k].provider, s[k].platform) == Some(s[k]),
    decreases s.len(),
{
    if k < s.len() - 1 {
        let init = s.drop_last();
        assert(s.last() == s[s.len() - 1]);
        assert forall|j: int| k < j < init.len() implies (#[trigger] init[j]).provider
            != init[k].provider || init[j].platform != init[k].platform by {
            assert(init[j] == s[j]);
        }
        lemma_latest(init, k);
    }
}

/// An entry of a pin list that names an account and a provider pins that account, in
/// place of what stood in the list before; the white space round either does not count.
/// Every other entry pins nothing.
pub proof fn an_entry_pins_its_account(
    entries: Seq<Seq<char>>,
    account: Seq<char>,
    provider: Seq<char>,
    other: Seq<char>,
)
    requires
        entries.len() > 0,
    ensures
        !text::trim_of(entries.last()).contains('=') ==> pins_after(entries) == pins_after(
            entries.drop_last(),
        ),
        text::trim_of(entries.last()) == account + seq!['='] + provider && !account.contains('=')
            ==> {
            &&& ProviderId::named(provider) is None ==> pins_after(entries) == pins_after(
                entries.drop_last(),
            )
            &&& ProviderId::named(provider) is Some ==> {
                &&& pins_after(entries).dom().contains(text::trim_of(account))
                &&& pins_after(entries)[text::trim_of(account)] == ProviderId::named(provider)->0
                &&& other != text::trim_of(account) ==> {
                    &&& pins_after(entries).dom().contains(other) == pins_after(
                        entries.drop_last(),
                    ).dom().contains(other)
                    &&& pins_after(entries).dom().contains(other) ==> pins_after(entries)[other]
                        == pins_after(entries.drop_last())[other]
                }
            }
        },
        pins_after(Seq::empty()) == Map::<Seq<char>, ProviderId>::empty(),
{
    let entry = text::trim_of(entries.last());
    if entry == account + seq!['='] + provider && !account.contains('=') {
        let i = account.len() as int;
        assert(entry[i] == '=');
        assert forall|j: int| 0 <= j < i implies entry[j] != '=' by {
            assert(entry[j] == account[j]);
        }
        text::lemma_first_index(entry, '=', i);
        assert(entry.take(i) =~= account);
        assert(entry.skip(i + 1) =~= provider);
    }
}

/// The entries of a pin list stand between its commas.
pub proof fn a_pin_list_is_split_at_its_commas(raw: Seq<char>, entries: Seq<Seq<char>>)
    requires
        entries == text::split_of(raw, ','),
    ensures
        pins_of(raw) == pins_after(entries),
        text::joined(entries, ',') == raw,
        forall|i: int| 0 <= i < entries.len() ==> !(#[trigger] entries[i]).contains(','),
{
    text::pieces_join_to_the_text(raw, ',');
}

/// A switch is on for four words, whatever white space is round them, and off for
/// everything else.
pub proof fn a_switch_is_on_for_four_words(v: Seq<char>)
    ensures
        switched_on(Some(v)) == (text::trim_of(v) == "1"@ || text::trim_of(v) == "true"@
            || text::trim_of(v) == "on"@ || text::trim_of(v) == "yes"@),
        !switched_on(None),
{
    reveal_strlit("1");
    reveal_strlit("true");
    reveal_strlit("on");
    reveal_strlit("yes");
    text::trim_empties_only_blank_text(v);
}

/// Of three settings the first that is more than white space counts, trimmed.
pub proof fn the_first_setting_counts(
    a: Option<Seq<char>>,
    b: Option<Seq<char>>,
    c: Option<Seq<char>>,
)
    ensures
        a is Some && !text::blank(a->0) ==> first_counted(a, b, c) == Some(text::trim_of(a->0)),
        (a is None || text::blank(a->0)) && b is Some && !text::blank(b->0) ==> first_counted(
            a,
            b,
            c,
        ) == Some(text::trim_of(b->0)),
        (a is None || text::blank(a->0)) && (b is None || text::blank(b->0)) && c is Some
            && !text::blank(c->0) ==> first_counted(a, b, c) == Some(text::trim_of(c->0)),
        (a is None || text::blank(a->0)) && (b is None || text::blank(b->0)) && (c is None
            || text::blank(c->0)) ==> first_counted(a, b, c) is None,
{
}

} // verus!
