//! The scheduler: how often it sweeps and how long a claim holds, which due posts a
//! sweep runs, and what is done with work that a dead process left behind.
use vstd::prelude::*;
use crate::ids::DEFAULT_WORKSPACE_ID;
use crate::lists;
use crate::lists::{dedup_strings, has_string};
use crate::publish;
use crate::publish::{aggregate_target_statuses, backoff_delay_ms, PROVIDER_CALL_TIMEOUT_MS};
use crate::rank::Ranked;
use crate::records::{PostTarget, ScheduledPost, SocialSettings};
use crate::status::{PostStatus, TargetStatus};
use crate::text;

pub mod batch;
pub mod timing;
pub mod zone;

verus! {

/// How often a sweep runs where no workspace says otherwise.
pub const DEFAULT_POLL_INTERVAL_MS: u64 = 30_000;

/// The bounds of the cadence, in seconds: no busy loop, and no sweep so rare that
/// nothing seems to happen.
pub const MIN_POLL_SECS: u64 = 5;
pub const MAX_POLL_SECS: u64 = 900;

/// How long a claim holds where no workspace has settings.
pub const DEFAULT_CLAIM_LEASE_MS: u64 = 300_000;

/// The longest that one provider call can take.
pub const PER_ATTEMPT_ALLOWANCE_MS: u64 = PROVIDER_CALL_TIMEOUT_MS;

/// What a claim holds beyond the longest run.
pub const LEASE_MARGIN_MS: u64 = 60_000;

/// How many posts run at once.
pub const MAX_CONCURRENT_POSTS: usize = 4;

/// How many stranded posts one recovery looks at.
pub const RECOVERY_SCAN_LIMIT: usize = 500;

// ── Leases ─────────────────────────────────────────────────────────────────────

/// The waits after the first attempts.
pub open spec fn sleeps(attempts: nat, base: nat) -> nat
    decreases attempts,
{
    if attempts == 0 {
        0
    } else {
        sleeps((attempts - 1) as nat, base) + publish::backoff(attempts, base)
    }
}

pub open spec fn bounded(n: nat) -> u64 {
    if n > u64::MAX {
        u64::MAX
    } else {
        n as u64
    }
}

/// The longest that a run of one target can take: every attempt's call, and the waits
/// between them; none after the last.
pub open spec fn worst_case(max_attempts: nat, base: nat) -> nat {
    let waits: nat = if max_attempts == 0 {
        0
    } else {
        sleeps((max_attempts - 1) as nat, base)
    };
    waits + max_attempts * PER_ATTEMPT_ALLOWANCE_MS as nat
}

pub fn worst_case_publish_ms(max_attempts: u32, base_backoff_ms: u64) -> (r: u64)
    ensures
        r == bounded(worst_case(max_attempts as nat, base_backoff_ms as nat)),
{
    let mut waits: u64 = 0;
    let mut attempt: u32 = 1;
    while attempt < max_attempts
        invariant
            1 <= attempt,
            attempt <= max_attempts || max_attempts == 0 && attempt == 1,
            waits == bounded(sleeps((attempt - 1) as nat, base_backoff_ms as nat)),
        decreases max_attempts - attempt,
    {
        waits = waits.saturating_add(backoff_delay_ms(attempt, base_backoff_ms));
        attempt = attempt + 1;
    }
    let calls: u64 = max_attempts as u64 * PER_ATTEMPT_ALLOWANCE_MS;
    waits.saturating_add(calls)
}

pub open spec fn larger(a: nat, b: nat) -> nat {
    if a >= b {
        a
    } else {
        b
    }
}

/// How long a claim must hold under a workspace's settings: as long as configured, and
/// at least as long as its longest run with a margin.
pub open spec fn lease_for(s: SocialSettings) -> u64 {
    bounded(
        larger(
            s.claim_lease_secs as nat * 1000,
            worst_case(s.max_attempts as nat, s.base_backoff_ms as nat) + LEASE_MARGIN_MS as nat,
        ),
    )
}

pub fn effective_lease_ms(settings: &SocialSettings) -> (r: u64)
    ensures
        r == lease_for(*settings),
{
    let configured: u64 = match settings.claim_lease_secs.checked_mul(1_000) {
        Some(ms) => ms,
        None => u64::MAX,
    };
    let required: u64 = worst_case_publish_ms(
        settings.max_attempts,
        settings.base_backoff_ms,
    ).saturating_add(LEASE_MARGIN_MS);
    if configured >= required {
        configured
    } else {
        required
    }
}

/// A longer run has longer waits, and more of them.
proof fn lemma_worst_case_grows(fewer: nat, more: nat, base: nat)
    requires
        fewer <= more,
    ensures
        worst_case(fewer, base) <= worst_case(more, base),
    decreases more - fewer,
{
    if fewer < more {
        lemma_worst_case_grows(fewer, (more - 1) as nat, base);
        assert(worst_case((more - 1) as nat, base) <= worst_case(more, base));
    }
}

/// A claim outlasts the longest run that the settings allow, whatever lease they name,
/// and holds for at least the lease that they name; either as far as the clock counts.
pub proof fn a_lease_outlasts_its_longest_run(s: SocialSettings)
    ensures
        lease_for(s) >= bounded(
            worst_case(s.max_attempts as nat, s.base_backoff_ms as nat) + LEASE_MARGIN_MS as nat,
        ),
        lease_for(s) >= bounded(
            worst_case(
                publish::effective_attempts(s.max_attempts) as nat,
                s.base_backoff_ms as nat,
            ),
        ),
        lease_for(s) >= bounded(s.claim_lease_secs as nat * 1000),
{
    let base = s.base_backoff_ms as nat;
    let run = publish::effective_attempts(s.max_attempts) as nat;
    if run <= s.max_attempts {
        lemma_worst_case_grows(run, s.max_attempts as nat, base);
    } else {
        assert(run == 1);
        assert(sleeps(0, base) == 0);
        assert(worst_case(1, base) == PER_ATTEMPT_ALLOWANCE_MS);
    }
}

// ── The tick policy ────────────────────────────────────────────────────────────

/// What the one loop runs by, for all workspaces together.
#[derive(Debug, PartialEq, Eq)]
pub struct TickPolicy {
    pub poll_interval_ms: u64,
    pub lease_ms: u64,
    /// The workspaces whose scheduler is on, each once.
    pub enabled_workspaces: Vec<String>,
}

#[verifier::ext_equal]
pub struct PolicyView {
    pub poll_interval_ms: u64,
    pub lease_ms: u64,
    pub enabled: Seq<Seq<char>>,
}

impl View for TickPolicy {
    type V = PolicyView;

    open spec fn view(&self) -> PolicyView {
        PolicyView {
            poll_interval_ms: self.poll_interval_ms,
            lease_ms: self.lease_ms,
            enabled: text::texts(self.enabled_workspaces@),
        }
    }
}

impl PolicyView {
    pub open spec fn standard() -> Self {
        PolicyView {
            poll_interval_ms: DEFAULT_POLL_INTERVAL_MS,
            lease_ms: DEFAULT_CLAIM_LEASE_MS,
            enabled: seq![DEFAULT_WORKSPACE_ID@],
        }
    }

    /// Whether posts of a workspace are run.
    pub open spec fn runs(self, workspace: Seq<char>) -> bool {
        self.enabled.contains(workspace)
    }
}

impl Default for TickPolicy {
    fn default() -> (r: Self)
        ensures
            r@ == PolicyView::standard(),
    {
        let mut enabled: Vec<String> = Vec::new();
        enabled.push(DEFAULT_WORKSPACE_ID.to_owned());
        assert(text::texts(enabled@) =~= seq![DEFAULT_WORKSPACE_ID@]);
        TickPolicy {
            poll_interval_ms: DEFAULT_POLL_INTERVAL_MS,
            lease_ms: DEFAULT_CLAIM_LEASE_MS,
            enabled_workspaces: enabled,
        }
    }
}

impl TickPolicy {
    pub fn is_enabled(&self, workspace_id: &str) -> (r: bool)
        ensures
            r == self@.runs(workspace_id@),
    {
        has_string(&self.enabled_workspaces, workspace_id)
    }

    pub fn any_enabled(&self) -> (r: bool)
        ensures
            r == (self@.enabled.len() > 0),
    {
        self.enabled_workspaces.len() > 0
    }
}

/// The ids of the workspaces whose scheduler is on, in order.
pub open spec fn switched_on(per: Seq<(String, SocialSettings)>) -> Seq<Seq<char>>
    decreases per.len(),
{
    if per.len() == 0 {
        Seq::empty()
    } else if per.last().1.scheduler_enabled {
        switched_on(per.drop_last()).push(per.last().0@)
    } else {
        switched_on(per.drop_last())
    }
}

/// The shortest cadence that an enabled workspace asks for, in seconds.
pub open spec fn shortest_poll(
    per: Seq<(String, SocialSettings)>,
    enabled: Seq<Seq<char>>,
) -> Option<u64>
    decreases per.len(),
{
    if per.len() == 0 {
        None
    } else {
        let init = shortest_poll(per.drop_last(), enabled);
        let own = per.last().1.poll_interval_secs;
        if !enabled.contains(per.last().0@) {
            init
        } else {
            match init {
                Some(s) => Some(
                    if s <= own {
                        s
                    } else {
                        own
                    },
                ),
                None => Some(own),
            }
        }
    }
}

/// The longest lease that any workspace needs.
pub open spec fn longest_lease(per: Seq<(String, SocialSettings)>) -> u64
    decreases per.len(),
{
    if per.len() == 0 {
        0
    } else {
        let init = longest_lease(per.drop_last());
        let own = lease_for(per.last().1);
        if init >= own {
            init
        } else {
            own
        }
    }
}

pub open spec fn clamped_poll(secs: u64) -> u64 {
    if secs < MIN_POLL_SECS {
        MIN_POLL_SECS
    } else if secs > MAX_POLL_SECS {
        MAX_POLL_SECS
    } else {
        secs
    }
}

/// The policy for some workspaces: the shortest cadence that an enabled one asks for,
/// within the bounds, and the longest lease that any needs.
pub open spec fn merged(per: Seq<(String, SocialSettings)>) -> PolicyView {
    let enabled = lists::deduped(switched_on(per));
    PolicyView {
        poll_interval_ms: match shortest_poll(per, enabled) {
            Some(secs) => (clamped_poll(secs) * 1000) as u64,
            None => DEFAULT_POLL_INTERVAL_MS,
        },
        lease_ms: if per.len() == 0 {
            DEFAULT_CLAIM_LEASE_MS
        } else {
            longest_lease(per)
        },
        enabled,
    }
}

fn enabled_ids(per_workspace: &[(String, SocialSettings)]) -> (r: Vec<String>)
    ensures
        text::texts(r@) == lists::deduped(switched_on(per_workspace@)),
{
    let mut ids: Vec<String> = Vec::new();
    let mut i: usize = 0;
    assert(per_workspace@.take(0) =~= Seq::<(String, SocialSettings)>::empty());
    assert(text::texts(ids@) =~= Seq::<Seq<char>>::empty());
    while i < per_workspace.len()
        invariant
            i <= per_workspace.len(),
            text::texts(ids@) == switched_on(per_workspace@.take(i as int)),
        decreases per_workspace.len() - i,
    {
        assert(per_workspace@.take(i as int + 1).drop_last() =~= per_workspace@.take(i as int));
        if per_workspace[i].1.scheduler_enabled {
            let ghost before = text::texts(ids@);
            ids.push(per_workspace[i].0.clone());
            assert(text::texts(ids@) =~= before.push(per_workspace@[i as int].0@));
        }
        i = i + 1;
    }
    assert(per_workspace@.take(per_workspace@.len() as int) =~= per_workspace@);
    dedup_strings(&ids)
}

/// Merge the workspaces' settings into the policy of the loop.
pub fn merge_policy(per_workspace: &[(String, SocialSettings)]) -> (r: TickPolicy)
    ensures
        r@ == merged(per_workspace@),
{
    let enabled = enabled_ids(per_workspace);
    let mut shortest: Option<u64> = None;
    let mut lease: u64 = 0;
    let mut i: usize = 0;
    assert(per_workspace@.take(0) =~= Seq::<(String, SocialSettings)>::empty());
    while i < per_workspace.len()
        invariant
            i <= per_workspace.len(),
            shortest == shortest_poll(per_workspace@.take(i as int), text::texts(enabled@)),
            lease == longest_lease(per_workspace@.take(i as int)),
        decreases per_workspace.len() - i,
    {
        assert(per_workspace@.take(i as int + 1).drop_last() =~= per_workspace@.take(i as int));
        let own = per_workspace[i].1.poll_interval_secs;
        if has_string(&enabled, per_workspace[i].0.as_str()) {
            shortest = Some(
                match shortest {
                    Some(s) => if s <= own {
                        s
                    } else {
                        own
                    },
                    None => own,
                },
            );
        }
        let needed = effective_lease_ms(&per_workspace[i].1);
        if needed > lease {
            lease = needed;
        }
        i = i + 1;
    }
    assert(per_workspace@.take(per_workspace@.len() as int) =~= per_workspace@);
    TickPolicy {
        poll_interval_ms: match shortest {
            Some(secs) => if secs < MIN_POLL_SECS {
                MIN_POLL_SECS * 1_000
            } else if secs > MAX_POLL_SECS {
                MAX_POLL_SECS * 1_000
            } else {
                secs * 1_000
            },
            None => DEFAULT_POLL_INTERVAL_MS,
        },
        lease_ms: if per_workspace.len() == 0 {
            DEFAULT_CLAIM_LEASE_MS
        } else {
            lease
        },
        enabled_workspaces: enabled,
    }
}

/// The workspaces with what was read of their settings, where the defaults stand for
/// settings that could not be read.
pub open spec fn with_defaults(
    per: Seq<(String, Option<SocialSettings>)>,
    standard: SocialSettings,
) -> Seq<(String, SocialSettings)> {
    per.map_values(
        |x: (String, Option<SocialSettings>)|
            (
                x.0,
                match x.1 {
                    Some(s) => s,
                    None => standard,
                },
            ),
    )
}

pub open spec fn standard_settings(s: SocialSettings) -> bool {
    &&& s.scheduler_enabled
    &&& s.poll_interval_secs == 30
    &&& s.max_attempts == 3
    &&& s.base_backoff_ms == 1000
    &&& s.claim_lease_secs == 300
}

/// The policy from what was read: the standard one where the workspaces could not be,
/// and default settings for a workspace whose settings could not be.
pub fn read_policy(read: Option<Vec<(String, Option<SocialSettings>)>>) -> (r: TickPolicy)
    ensures
        match read {
            None => r@ == PolicyView::standard(),
            Some(per) => exists|standard: SocialSettings|
                #![trigger standard_settings(standard)]
                standard_settings(standard) && r@ == merged(with_defaults(per@, standard)),
        },
{
    let per = match read {
        Some(per) => per,
        None => {
            return TickPolicy::default();
        },
    };
    let standard = SocialSettings::default();
    assert(standard_settings(standard));
    let mut out: Vec<(String, SocialSettings)> = Vec::new();
    let mut i: usize = 0;
    while i < per.len()
        invariant
            i <= per.len(),
            same_policy(out@, with_defaults(per@, standard).take(i as int)),
        decreases per.len() - i,
    {
        let (id, settings) = &per[i];
        let own = match settings {
            Some(s) => s,
            None => &standard,
        };
        let copy = copy_settings(own);
        out.push((id.clone(), copy));
        i = i + 1;
    }
    proof {
        assert(with_defaults(per@, standard).take(per@.len() as int) =~= with_defaults(
            per@,
            standard,
        ));
        lemma_same_policy(out@, with_defaults(per@, standard));
    }
    merge_policy(out.as_slice())
}

/// Settings that the policy cannot tell apart.
pub open spec fn same_settings(a: SocialSettings, b: SocialSettings) -> bool {
    &&& a.scheduler_enabled == b.scheduler_enabled
    &&& a.poll_interval_secs == b.poll_interval_secs
    &&& a.max_attempts == b.max_attempts
    &&& a.base_backoff_ms == b.base_backoff_ms
    &&& a.claim_lease_secs == b.claim_lease_secs
}

spec fn same_policy(a: Seq<(String, SocialSettings)>, b: Seq<(String, SocialSettings)>) -> bool {
    &&& a.len() == b.len()
    &&& forall|i: int|
        0 <= i < a.len() ==> (#[trigger] a[i]).0@ == b[i].0@ && same_settings(a[i].1, b[i].1)
}

fn copy_settings(s: &SocialSettings) -> (r: SocialSettings)
    ensures
        same_settings(r, *s),
{
    SocialSettings {
        scheduler_enabled: s.scheduler_enabled,
        poll_interval_secs: s.poll_interval_secs,
        max_attempts: s.max_attempts,
        base_backoff_ms: s.base_backoff_ms,
        claim_lease_secs: s.claim_lease_secs,
        timezone: s.timezone.clone(),
        enforce_platform_limits: s.enforce_platform_limits,
    }
}

proof fn lemma_same_settings(
    a: Seq<(String, SocialSettings)>,
    b: Seq<(String, SocialSettings)>,
    enabled: Seq<Seq<char>>,
)
    requires
        same_policy(a, b),
    ensures
        switched_on(a) == switched_on(b),
        shortest_poll(a, enabled) == shortest_poll(b, enabled),
        longest_lease(a) == longest_lease(b),
    decreases a.len(),
{
    if a.len() > 0 {
        let n = a.len() - 1;
        assert(a[n].0@ == b[n].0@ && same_settings(a[n].1, b[n].1));
        assert forall|i: int| 0 <= i < n implies (#[trigger] a.drop_last()[i]).0@ == b.drop_last()[i].0@
            && same_settings(a.drop_last()[i].1, b.drop_last()[i].1) by {
            assert(a[i].0@ == b[i].0@);
        }
        lemma_same_settings(a.drop_last(), b.drop_last(), enabled);
    }
}

proof fn lemma_same_policy(a: Seq<(String, SocialSettings)>, b: Seq<(String, SocialSettings)>)
    requires
        same_policy(a, b),
    ensures
        merged(a) == merged(b),
{
    lemma_same_settings(a, b, lists::deduped(switched_on(a)));
}

// Laws of the policy.

/// The merged lease is long enough for every workspace, enabled or not.
pub proof fn every_lease_is_honoured(per: Seq<(String, SocialSettings)>, i: int)
    requires
        0 <= i < per.len(),
    ensures
        merged(per).lease_ms >= lease_for(per[i].1),
    decreases per.len(),
{
    if i < per.len() - 1 {
        every_lease_is_honoured(per.drop_last(), i);
    }
}

/// The merged lease is one that some workspace needs.
pub proof fn no_lease_is_longer_than_needed(per: Seq<(String, SocialSettings)>) -> (i: int)
    requires
        per.len() > 0,
    ensures
        0 <= i < per.len(),
        merged(per).lease_ms == lease_for(per[i].1),
    decreases per.len(),
{
    if per.len() == 1 {
        reveal_with_fuel(longest_lease, 2);
        0
    } else {
        let j = no_lease_is_longer_than_needed(per.drop_last());
        if longest_lease(per.drop_last()) >= lease_for(per.last().1) {
            j
        } else {
            per.len() - 1
        }
    }
}

/// The cadence stays within its bounds, and is no slower than an enabled workspace
/// asks for, as far as the bounds allow.
pub proof fn the_cadence_serves_every_enabled_workspace(
    per: Seq<(String, SocialSettings)>,
    i: int,
)
    requires
        0 <= i < per.len(),
    ensures
        MIN_POLL_SECS * 1000 <= merged(per).poll_interval_ms <= MAX_POLL_SECS * 1000,
        merged(per).runs(per[i].0@) ==> merged(per).poll_interval_ms <= clamped_poll(
            per[i].1.poll_interval_secs,
        ) * 1000,
        per[i].1.scheduler_enabled ==> merged(per).runs(per[i].0@),
{
    let enabled = lists::deduped(switched_on(per));
    lemma_shortest(per, enabled, i);
    lists::dedup_laws(switched_on(per));
    lemma_switched_on(per, i);
}

proof fn lemma_shortest(per: Seq<(String, SocialSettings)>, enabled: Seq<Seq<char>>, i: int)
    requires
        0 <= i < per.len(),
    ensures
        enabled.contains(per[i].0@) ==> shortest_poll(per, enabled) is Some && shortest_poll(
            per,
            enabled,
        )->0 <= per[i].1.poll_interval_secs,
    decreases per.len(),
{
    if i < per.len() - 1 {
        lemma_shortest(per.drop_last(), enabled, i);
    }
}

proof fn lemma_switched_on(per: Seq<(String, SocialSettings)>, i: int)
    requires
        0 <= i < per.len(),
    ensures
        per[i].1.scheduler_enabled ==> switched_on(per).contains(per[i].0@),
    decreases per.len(),
{
    let s = switched_on(per);
    if per[i].1.scheduler_enabled {
        if i < per.len() - 1 {
            lemma_switched_on(per.drop_last(), i);
            let t = switched_on(per.drop_last());
            let k = choose|k: int| 0 <= k < t.len() && t[k] == per[i].0@;
            assert(s[k] == per[i].0@);
        } else {
            assert(s[s.len() - 1] == per[i].0@);
        }
    }
}

/// A disabled workspace does not change the cadence.
pub proof fn a_disabled_workspace_asks_for_nothing(
    per: Seq<(String, SocialSettings)>,
    other: (String, SocialSettings),
)
    requires
        !other.1.scheduler_enabled,
        !merged(per).runs(other.0@),
    ensures
        merged(per.push(other)).enabled == merged(per).enabled,
        merged(per.push(other)).poll_interval_ms == merged(per).poll_interval_ms,
{
    assert(per.push(other).drop_last() =~= per);
}

// ── One sweep ──────────────────────────────────────────────────────────────────

/// What one sweep asks of the store before it runs anything.
#[derive(Debug, Clone, Copy, PartialEq, Eq, Structural)]
pub struct TickPlan {
    /// Claims made before this instant are dead.
    pub cutoff: i64,
    /// Whether posts that came due are claimed: not while every scheduler is off.
    pub claims: bool,
}

pub open spec fn cutoff_of(now: i64, lease_ms: u64) -> int {
    if now - lease_ms < i64::MIN {
        i64::MIN as int
    } else {
        now - lease_ms
    }
}

/// One reading of the clock decides for the whole sweep.
pub fn plan_tick(now: i64, policy: &TickPolicy) -> (r: TickPlan)
    ensures
        r.cutoff == cutoff_of(now, policy@.lease_ms),
        r.claims == (policy@.enabled.len() > 0),
{
    let exact: i128 = now as i128 - policy.lease_ms as i128;
    let cutoff: i64 = if exact < i64::MIN as i128 {
        i64::MIN
    } else {
        exact as i64
    };
    TickPlan { cutoff, claims: policy.any_enabled() }
}

/// A due post in line.
#[derive(Debug, PartialEq, Eq)]
pub struct DuePost {
    pub id: String,
    pub workspace_id: String,
    pub scheduled_for: i64,
}

/// The earlier post comes first.
impl Ranked for DuePost {
    open spec fn le(self, other: Self) -> bool {
        self.scheduled_for <= other.scheduled_for
    }

    proof fn le_total(a: Self, b: Self) {
    }

    proof fn le_transitive(a: Self, b: Self, c: Self) {
    }

    fn is_le(&self, other: &Self) -> (r: bool) {
        self.scheduled_for <= other.scheduled_for
    }
}

/// The posts that are, or are not, run under a policy, in order.
pub open spec fn sorted_out(due: Seq<DuePost>, policy: PolicyView, run: bool) -> Seq<DuePost>
    decreases due.len(),
{
    if due.len() == 0 {
        due
    } else if policy.runs(due.last().workspace_id@) == run {
        sorted_out(due.drop_last(), policy, run).push(due.last())
    } else {
        sorted_out(due.drop_last(), policy, run)
    }
}

/// The due posts to run, and those that are held because their workspace's scheduler
/// is off.
pub fn split_due(due: Vec<DuePost>, policy: &TickPolicy) -> (r: (
    Vec<DuePost>,
    Vec<DuePost>,
))
    ensures
        r.0@ == sorted_out(due@, policy@, true),
        r.1@ == sorted_out(due@, policy@, false),
{
    let ghost all = due@;
    let mut rest = due;
    let mut runnable: Vec<DuePost> = Vec::new();
    let mut held: Vec<DuePost> = Vec::new();
    let ghost mut n: int = 0;
    assert(all.take(0) =~= Seq::<DuePost>::empty());
    assert(all.skip(0) =~= all);
    while rest.len() > 0
        invariant
            0 <= n <= all.len(),
            rest@ == all.skip(n),
            runnable@ == sorted_out(all.take(n), policy@, true),
            held@ == sorted_out(all.take(n), policy@, false),
        decreases rest.len(),
    {
        let post = rest.remove(0);
        proof {
            assert(rest@ =~= all.skip(n + 1));
            assert(post == all[n]);
            assert(all.take(n + 1).drop_last() =~= all.take(n));
            assert(all.take(n + 1).last() == post);
            n = n + 1;
        }
        if policy.is_enabled(post.workspace_id.as_str()) {
            runnable.push(post);
        } else {
            held.push(post);
        }
    }
    assert(all.take(n) =~= all);
    (runnable, held)
}

/// What is sorted out was in line.
pub proof fn sorted_out_is_from(due: Seq<DuePost>, policy: PolicyView, run: bool, post: DuePost)
    requires
        sorted_out(due, policy, run).contains(post),
    ensures
        due.contains(post),
    decreases due.len(),
{
    if due.len() > 0 {
        let init = due.drop_last();
        let s = sorted_out(due, policy, run);
        let t = sorted_out(init, policy, run);
        let i = choose|i: int| 0 <= i < s.len() && s[i] == post;
        if i < t.len() {
            assert(t[i] == post);
            sorted_out_is_from(init, policy, run, post);
            let k = choose|k: int| 0 <= k < init.len() && init[k] == post;
            assert(due[k] == post);
        } else {
            assert(due[due.len() - 1] == post);
        }
    }
}

/// A held post is never run, and none is lost.
pub proof fn held_posts_are_kept(due: Seq<DuePost>, policy: PolicyView, post: DuePost)
    ensures
        sorted_out(due, policy, true).contains(post) ==> policy.runs(post.workspace_id@),
        sorted_out(due, policy, false).contains(post) ==> !policy.runs(post.workspace_id@),
        due.contains(post) ==> sorted_out(due, policy, true).contains(post) || sorted_out(
            due,
            policy,
            false,
        ).contains(post),
        sorted_out(due, policy, true).len() + sorted_out(due, policy, false).len() == due.len(),
    decreases due.len(),
{
    if due.len() > 0 {
        let init = due.drop_last();
        held_posts_are_kept(init, policy, post);
        assert forall|run: bool| #[trigger] sorted_out(due, policy, run).contains(post) implies sorted_out(
            init,
            policy,
            run,
        ).contains(post) || (post == due.last() && policy.runs(post.workspace_id@) == run) by {
            let s = sorted_out(due, policy, run);
            let t = sorted_out(init, policy, run);
            let i = choose|i: int| 0 <= i < s.len() && s[i] == post;
            if i < t.len() {
                assert(t[i] == post);
            }
        }
        assert forall|run: bool| sorted_out(init, policy, run).contains(post) implies #[trigger] sorted_out(
            due,
            policy,
            run,
        ).contains(post) by {
            let s = sorted_out(due, policy, run);
            let t = sorted_out(init, policy, run);
            let i = choose|i: int| 0 <= i < t.len() && t[i] == post;
            assert(s[i] == post);
        }
        if due.contains(post) {
            let i = choose|i: int| 0 <= i < due.len() && due[i] == post;
            if i < init.len() {
                assert(init[i] == post);
            } else {
                let run = policy.runs(post.workspace_id@);
                let s = sorted_out(due, policy, run);
                assert(s[s.len() - 1] == post);
            }
        }
    }
}

// ── Recovery ───────────────────────────────────────────────────────────────────

/// What one recovery repaired.
#[derive(Debug, Clone, Copy, PartialEq, Eq, Structural)]
pub struct RecoveryReport {
    pub reaped_targets: usize,
    pub requeued_posts: usize,
    pub settled_posts: usize,
}

impl Default for RecoveryReport {
    fn default() -> (r: Self)
        ensures
            r == (RecoveryReport { reaped_targets: 0, requeued_posts: 0, settled_posts: 0 }),
    {
        RecoveryReport { reaped_targets: 0, requeued_posts: 0, settled_posts: 0 }
    }
}

/// What is done with a post that is still marked as publishing at start-up.
#[derive(Debug, Clone, Copy, PartialEq, Eq, Structural)]
pub enum Recovery {
    /// Some of its targets were never run: it is due again.
    Requeue,
    /// Nothing is left to run: it ends in this status.
    Settle(PostStatus),
}

impl RecoveryReport {
    pub fn is_empty(&self) -> (r: bool)
        ensures
            r == (self.reaped_targets == 0 && self.requeued_posts == 0 && self.settled_posts == 0),
    {
        self.reaped_targets == 0 && self.requeued_posts == 0 && self.settled_posts == 0
    }

    pub open spec fn after(self, what: Recovery, done: bool) -> Self {
        if !done {
            self
        } else {
            match what {
                Recovery::Requeue => RecoveryReport {
                    requeued_posts: (self.requeued_posts + 1) as usize,
                    ..self
                },
                Recovery::Settle(_) => RecoveryReport {
                    settled_posts: (self.settled_posts + 1) as usize,
                    ..self
                },
            }
        }
    }

    /// Count one post, if the store did what was asked.
    pub fn record(&mut self, what: Recovery, done: bool)
        requires
            old(self).requeued_posts < usize::MAX,
            old(self).settled_posts < usize::MAX,
        ensures
            *final(self) == old(self).after(what, done),
    {
        if done {
            match what {
                Recovery::Requeue => {
                    self.requeued_posts = self.requeued_posts + 1;
                },
                Recovery::Settle(_) => {
                    self.settled_posts = self.settled_posts + 1;
                },
            }
        }
    }
}

/// At start-up every claim is dead: later than any made so far.
pub fn recovery_cutoff(now: i64) -> (r: i64)
    ensures
        r == (if now == i64::MAX {
            now as int
        } else {
            now + 1
        }),
{
    if now == i64::MAX {
        now
    } else {
        now + 1
    }
}

/// The status that a post's settled targets imply.
pub fn settle_status_from_targets(post: &ScheduledPost) -> (r: PostStatus)
    ensures
        r == publish::aggregate(publish::target_statuses(post.targets@)),
{
    let mut statuses: Vec<TargetStatus> = Vec::new();
    let mut i: usize = 0;
    while i < post.targets.len()
        invariant
            i <= post.targets.len(),
            statuses@ == publish::target_statuses(post.targets@).take(i as int),
        decreases post.targets.len() - i,
    {
        statuses.push(post.targets[i].status);
        i = i + 1;
        assert(statuses@ =~= publish::target_statuses(post.targets@).take(i as int));
    }
    assert(statuses@ =~= publish::target_statuses(post.targets@));
    aggregate_target_statuses(statuses.as_slice())
}

pub open spec fn has_pending(targets: Seq<PostTarget>) -> bool {
    exists|i: int| 0 <= i < targets.len() && (#[trigger] targets[i]).status == TargetStatus::Pending
}

pub open spec fn recovery_of(targets: Seq<PostTarget>) -> Recovery {
    if has_pending(targets) {
        Recovery::Requeue
    } else {
        Recovery::Settle(publish::aggregate(publish::target_statuses(targets)))
    }
}

/// What to do with a stranded post.
pub fn recover_post(post: &ScheduledPost) -> (r: Recovery)
    ensures
        r == recovery_of(post.targets@),
{
    let mut i: usize = 0;
    while i < post.targets.len()
        invariant
            i <= post.targets.len(),
            forall|j: int|
                0 <= j < i ==> (#[trigger] post.targets@[j]).status != TargetStatus::Pending,
        decreases post.targets.len() - i,
    {
        if post.targets[i].status == TargetStatus::Pending {
            return Recovery::Requeue;
        }
        i = i + 1;
    }
    Recovery::Settle(settle_status_from_targets(post))
}

/// A stranded post whose targets were all published is settled as published, never run
/// again; one without targets failed.
pub proof fn recovery_repeats_nothing(targets: Seq<PostTarget>)
    ensures
        targets.len() > 0 && publish::all_published(publish::target_statuses(targets))
            ==> recovery_of(targets) == Recovery::Settle(PostStatus::Published),
        targets.len() == 0 ==> recovery_of(targets) == Recovery::Settle(PostStatus::Failed),
        recovery_of(targets) == Recovery::Requeue ==> has_pending(targets),
{
    let s = publish::target_statuses(targets);
    if targets.len() > 0 && publish::all_published(s) {
        assert(s[0] == TargetStatus::Published);
        assert forall|i: int| 0 <= i < targets.len() implies (#[trigger] targets[i]).status
            != TargetStatus::Pending by {
            assert(s[i] == TargetStatus::Published);
        }
    }
}

// ── The scheduler in plain figures ─────────────────────────────────────────────

/// A run makes one call after the other, with the allowance of half a minute each, and
/// waits between them, not after the last: a further attempt adds one call and the
/// wait before it. The lease covers that and a minute more.
pub proof fn a_further_attempt_adds_a_call_and_a_wait(attempts: nat, base: nat, s: SocialSettings)
    ensures
        worst_case(0, base) == 0,
        worst_case(1, base) == 30_000,
        attempts >= 1 ==> worst_case(attempts + 1, base) == worst_case(attempts, base) + 30_000
            + publish::backoff(attempts, base),
        lease_for(s) <= u64::MAX,
        worst_case(s.max_attempts as nat, s.base_backoff_ms as nat) + 60_000 <= s.claim_lease_secs
            * 1_000 <= u64::MAX ==> lease_for(s) == s.claim_lease_secs * 1_000,
        s.claim_lease_secs * 1_000 <= worst_case(s.max_attempts as nat, s.base_backoff_ms as nat)
            + 60_000 <= u64::MAX ==> lease_for(s) == worst_case(
            s.max_attempts as nat,
            s.base_backoff_ms as nat,
        ) + 60_000,
{
    assert(sleeps(0, base) == 0);
    if attempts >= 1 {
        assert(sleeps(attempts, base) == sleeps((attempts - 1) as nat, base) + publish::backoff(
            attempts,
            base,
        ));
    }
}

/// A workspace is run exactly when it is listed with its scheduler on.
pub proof fn a_workspace_is_run_when_it_is_switched_on(
    per: Seq<(String, SocialSettings)>,
    workspace: Seq<char>,
)
    ensures
        merged(per).runs(workspace) <==> exists|i: int|
            0 <= i < per.len() && (#[trigger] per[i]).0@ == workspace && per[i].1.scheduler_enabled,
        merged(per).enabled.no_duplicates(),
{
    lists::dedup_laws(switched_on(per));
    lemma_switched_exactly(per, workspace);
    assert(merged(per).runs(workspace) <==> switched_on(per).contains(workspace));
}

proof fn lemma_switched_exactly(per: Seq<(String, SocialSettings)>, workspace: Seq<char>)
    ensures
        switched_on(per).contains(workspace) <==> exists|i: int|
            0 <= i < per.len() && (#[trigger] per[i]).0@ == workspace && per[i].1.scheduler_enabled,
    decreases per.len(),
{
    if per.len() > 0 {
        let init = per.drop_last();
        let s = switched_on(per);
        let t = switched_on(init);
        lemma_switched_exactly(init, workspace);
        if s.contains(workspace) {
            let k = choose|k: int| 0 <= k < s.len() && s[k] == workspace;
            if k < t.len() {
                assert(t[k] == workspace);
                let i = choose|i: int|
                    0 <= i < init.len() && (#[trigger] init[i]).0@ == workspace
                        && init[i].1.scheduler_enabled;
                assert(per[i] == init[i]);
            } else {
                assert(per[per.len() - 1].0@ == workspace);
            }
        }
        if exists|i: int|
            0 <= i < per.len() && (#[trigger] per[i]).0@ == workspace
                && per[i].1.scheduler_enabled {
            let i = choose|i: int|
                0 <= i < per.len() && (#[trigger] per[i]).0@ == workspace
                    && per[i].1.scheduler_enabled;
            lemma_switched_on(per, i);
        }
    } else {
        assert(switched_on(per).len() == 0);
    }
}

/// The cadence is that of an enabled workspace, put within five seconds and a quarter
/// of an hour; no other of them asks for a shorter one. Without one it is the
/// standard half minute.
pub proof fn the_cadence_is_the_shortest_asked_for(per: Seq<(String, SocialSettings)>)
    ensures
        (forall|i: int| 0 <= i < per.len() ==> !(#[trigger] per[i]).1.scheduler_enabled)
            ==> merged(per).poll_interval_ms == 30_000,
        (exists|i: int| 0 <= i < per.len() && (#[trigger] per[i]).1.scheduler_enabled)
            ==> exists|i: int|
            0 <= i < per.len() && merged(per).runs((#[trigger] per[i]).0@)
                && merged(per).poll_interval_ms == 1_000 * (if per[i].1.poll_interval_secs < 5 {
                5
            } else if per[i].1.poll_interval_secs > 900 {
                900
            } else {
                per[i].1.poll_interval_secs as int
            }) && forall|j: int|
                0 <= j < per.len() && merged(per).runs((#[trigger] per[j]).0@)
                    ==> per[i].1.poll_interval_secs <= per[j].1.poll_interval_secs,
{
    let enabled = lists::deduped(switched_on(per));
    lists::dedup_laws(switched_on(per));
    lemma_shortest_found(per, enabled);
    if exists|i: int| 0 <= i < per.len() && (#[trigger] per[i]).1.scheduler_enabled {
        let i = choose|i: int| 0 <= i < per.len() && (#[trigger] per[i]).1.scheduler_enabled;
        lemma_switched_on(per, i);
        assert(enabled.contains(per[i].0@));
        let k = choose|k: int|
            0 <= k < per.len() && enabled.contains((#[trigger] per[k]).0@)
                && per[k].1.poll_interval_secs == shortest_poll(per, enabled)->0;
        assert(merged(per).runs(per[k].0@));
        assert forall|j: int| 0 <= j < per.len() && merged(per).runs(
            (#[trigger] per[j]).0@,
        ) implies per[k].1.poll_interval_secs <= per[j].1.poll_interval_secs by {
            lemma_shortest(per, enabled, j);
        }
    } else {
        assert forall|k: int| 0 <= k < per.len() implies !enabled.contains(
            (#[trigger] per[k]).0@,
        ) by {
            lemma_switched_exactly(per, per[k].0@);
        }
    }
}

proof fn lemma_shortest_found(per: Seq<(String, SocialSettings)>, enabled: Seq<Seq<char>>)
    ensures
        shortest_poll(per, enabled) is Some <==> exists|i: int|
            0 <= i < per.len() && enabled.contains((#[trigger] per[i]).0@),
        shortest_poll(per, enabled) is Some ==> exists|i: int|
            0 <= i < per.len() && enabled.contains((#[trigger] per[i]).0@)
                && per[i].1.poll_interval_secs == shortest_poll(per, enabled)->0,
    decreases per.len(),
{
    if per.len() > 0 {
        let init = per.drop_last();
        lemma_shortest_found(init, enabled);
        assert forall|i: int| 0 <= i < init.len() implies #[trigger] per[i] == init[i] by {}
        if shortest_poll(init, enabled) is Some {
            let i = choose|i: int|
                0 <= i < init.len() && enabled.contains((#[trigger] init[i]).0@)
                    && init[i].1.poll_interval_secs == shortest_poll(init, enabled)->0;
            assert(per[i] == init[i]);
        }
        assert(per[per.len() - 1] == per.last());
        if exists|i: int| 0 <= i < per.len() && enabled.contains((#[trigger] per[i]).0@) {
            let i = choose|i: int| 0 <= i < per.len() && enabled.contains((#[trigger] per[i]).0@);
            if i < init.len() {
                assert(enabled.contains(init[i].0@));
            }
        }
    }
}

/// Without a workspace the standard lease of five minutes holds.
pub proof fn no_workspace_has_the_standard_lease(per: Seq<(String, SocialSettings)>)
    requires
        per.len() == 0,
    ensures
        merged(per).lease_ms == 300_000,
        merged(per).poll_interval_ms == 30_000,
        merged(per).enabled.len() == 0,
{
}

/// A claim is dead for a sweep exactly when it is older than the lease.
pub proof fn a_claim_dies_with_its_lease(now: i64, lease_ms: u64, claimed_at: i64)
    ensures
        i64::MIN <= cutoff_of(now, lease_ms) <= now,
        now - lease_ms >= i64::MIN ==> (claimed_at < cutoff_of(now, lease_ms) <==> now - claimed_at
            > lease_ms),
        now - lease_ms < i64::MIN ==> claimed_at >= cutoff_of(now, lease_ms),
{
}

/// The posts that are run, and those that are held, keep their order in line.
pub proof fn the_line_is_parted_in_order(due: Seq<DuePost>, policy: PolicyView, run: bool)
    ensures
        sorted_out(due, policy, run) == due.filter(
            |p: DuePost| policy.enabled.contains(p.workspace_id@) == run,
        ),
    decreases due.len(),
{
    reveal(Seq::filter);
    if due.len() > 0 {
        the_line_is_parted_in_order(due.drop_last(), policy, run);
    }
}

/// A stranded post is due again exactly when one of its targets is still pending; else
/// it ends as its targets did.
pub proof fn a_stranded_post_goes_on_where_it_may(targets: Seq<PostTarget>)
    ensures
        recovery_of(targets) == Recovery::Requeue <==> exists|i: int|
            0 <= i < targets.len() && (#[trigger] targets[i]).status == TargetStatus::Pending,
        recovery_of(targets) matches Recovery::Settle(s) ==> {
            &&& s == PostStatus::Published <==> targets.len() > 0 && forall|i: int|
                0 <= i < targets.len() ==> (#[trigger] targets[i]).status == TargetStatus::Published
            &&& s == PostStatus::Failed <==> forall|i: int|
                0 <= i < targets.len() ==> (#[trigger] targets[i]).status != TargetStatus::Published
            &&& s == PostStatus::Published || s == PostStatus::Failed || s == PostStatus::Partial
        },
{
    let s = publish::target_statuses(targets);
    publish::a_post_is_what_its_targets_are(s);
    assert forall|i: int| 0 <= i < targets.len() implies (#[trigger] targets[i]).status == s[i] by {}
    if forall|i: int|
        0 <= i < targets.len() ==> (#[trigger] targets[i]).status == TargetStatus::Published {
        assert forall|i: int| 0 <= i < s.len() implies #[trigger] s[i]
            == TargetStatus::Published by {
            assert(targets[i].status == s[i]);
        }
    }
    if forall|i: int|
        0 <= i < targets.len() ==> (#[trigger] targets[i]).status != TargetStatus::Published {
        assert forall|i: int| 0 <= i < s.len() implies #[trigger] s[i]
            != TargetStatus::Published by {
            assert(targets[i].status == s[i]);
        }
    }
}

/// What one recovery did is counted once, under what was done; what was not done is not
/// counted.
pub proof fn a_recovery_is_counted_once(r: RecoveryReport, what: Recovery, done: bool)
    requires
        r.requeued_posts < usize::MAX,
        r.settled_posts < usize::MAX,
    ensures
        r.after(what, done).reaped_targets == r.reaped_targets,
        r.after(what, done).requeued_posts == r.requeued_posts + (if done && what
            == Recovery::Requeue {
            1int
        } else {
            0
        }),
        r.after(what, done).settled_posts == r.settled_posts + (if done && what is Settle {
            1int
        } else {
            0
        }),
{
}

/// A workspace that was never set up publishes: it is looked at every half minute, tries
/// a leg three times with a second before the first repeat, and holds a claim for five
/// minutes.
pub proof fn a_workspace_starts_with_the_standard_settings(s: SocialSettings)
    requires
        standard_settings(s),
    ensures
        s.scheduler_enabled,
        2 * s.poll_interval_secs == 60,
        s.max_attempts == 3,
        s.base_backoff_ms == 1_000,
        s.claim_lease_secs == 5 * 60,
{
}

} // verus!
