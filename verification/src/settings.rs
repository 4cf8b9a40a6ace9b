//! Settings of the node: credentials, polling, quiet hours. Credentials never leave
//! the process; what does is the redacted view.
use vstd::prelude::*;
use crate::clock;
use crate::clock::local_hour;
use crate::ids;
use crate::ids::DEFAULT_WORKSPACE_ID;
use crate::lists;
use crate::lists::dedup_platforms;
use crate::platform::Platform;
use crate::providers::bluesky;
use crate::providers::bluesky::trim_leading;
use crate::text;
use crate::text::{is_blank, trim};

verus! {

/// The reserved key these settings are stored under. It is no workspace's id.
pub const NODE_SETTINGS_KEY: &'static str = "__node__";

/// No workspace is stored under the node's key.
pub proof fn the_node_key_is_no_workspace(id: Seq<char>)
    requires
        id == DEFAULT_WORKSPACE_ID@ || ids::made_id(id, ids::ID_WORKSPACE@),
    ensures
        id != NODE_SETTINGS_KEY@,
{
    reveal_strlit("__node__");
    reveal_strlit("default");
    reveal_strlit("ws_");
    if ids::made_id(id, ids::ID_WORKSPACE@) {
        assert(id.skip(3).len() == id.len() - 3);
    }
}

pub const ENV_COMPOSIO_API_KEY: &'static str = "RYU_SOCIAL_COMPOSIO_API_KEY";
pub const ENV_BLUESKY_HANDLE: &'static str = "RYU_SOCIAL_BLUESKY_HANDLE";
pub const ENV_BLUESKY_APP_PASSWORD: &'static str = "RYU_SOCIAL_BLUESKY_APP_PASSWORD";
pub const ENV_THREADS_ACCESS_TOKEN: &'static str = "RYU_SOCIAL_THREADS_ACCESS_TOKEN";
pub const ENV_THREADS_USER_ID: &'static str = "RYU_SOCIAL_THREADS_USER_ID";

/// Credentials as the process environment holds them.
pub struct CredentialEnv {
    pub composio_api_key: Option<String>,
    pub bluesky_handle: Option<String>,
    pub bluesky_app_password: Option<String>,
    pub threads_access_token: Option<String>,
    pub threads_user_id: Option<String>,
}

impl CredentialEnv {
    /// An environment without credentials.
    pub fn empty() -> (r: Self)
        ensures
            r.composio_api_key is None,
            r.bluesky_handle is None,
            r.bluesky_app_password is None,
            r.threads_access_token is None,
            r.threads_user_id is None,
    {
        CredentialEnv {
            composio_api_key: None,
            bluesky_handle: None,
            bluesky_app_password: None,
            threads_access_token: None,
            threads_user_id: None,
        }
    }
}

/// Where a credential comes from.
#[derive(Debug, Clone, Copy, PartialEq, Eq, Structural)]
pub enum CredentialSource {
    Env,
    Stored,
    Unset,
}

/// A value that counts: trimmed, and not blank.
pub open spec fn counted(v: Option<Seq<char>>) -> Option<Seq<char>> {
    match v {
        Some(s) => if text::blank(s) {
            None
        } else {
            Some(text::trim_of(s))
        },
        None => None,
    }
}

/// The environment first, the stored value second.
pub open spec fn resolved(env: Option<Seq<char>>, stored: Option<Seq<char>>) -> Option<
    (Seq<char>, CredentialSource),
> {
    match counted(env) {
        Some(v) => Some((v, CredentialSource::Env)),
        None => match counted(stored) {
            Some(v) => Some((v, CredentialSource::Stored)),
            None => None,
        },
    }
}

pub open spec fn resolved_value(env: Option<Seq<char>>, stored: Option<Seq<char>>) -> Option<
    Seq<char>,
> {
    match resolved(env, stored) {
        Some((v, _)) => Some(v),
        None => None,
    }
}

pub open spec fn resolved_source(
    env: Option<Seq<char>>,
    stored: Option<Seq<char>>,
) -> CredentialSource {
    match resolved(env, stored) {
        Some((_, s)) => s,
        None => CredentialSource::Unset,
    }
}

fn count(v: &Option<String>) -> (r: Option<String>)
    ensures
        text::opt_text(r) == counted(text::opt_text(*v)),
{
    match v {
        Some(s) => {
            if is_blank(s.as_str()) {
                None
            } else {
                Some(trim(s.as_str()).to_owned())
            }
        },
        None => None,
    }
}

/// The value of a credential and where it comes from.
pub fn resolve(env: &Option<String>, stored: &Option<String>) -> (r: Option<
    (String, CredentialSource),
>)
    ensures
        match r {
            Some((v, s)) => resolved(text::opt_text(*env), text::opt_text(*stored)) == Some(
                (v@, s),
            ),
            None => resolved(text::opt_text(*env), text::opt_text(*stored)) is None,
        },
{
    match count(env) {
        Some(v) => Some((v, CredentialSource::Env)),
        None => match count(stored) {
            Some(v) => Some((v, CredentialSource::Stored)),
            None => None,
        },
    }
}

fn value_of(env: &Option<String>, stored: &Option<String>) -> (r: Option<String>)
    ensures
        text::opt_text(r) == resolved_value(text::opt_text(*env), text::opt_text(*stored)),
{
    match resolve(env, stored) {
        Some((v, _)) => Some(v),
        None => None,
    }
}

/// Where a credential would come from.
pub fn source_of(env: &Option<String>, stored: &Option<String>) -> (r: CredentialSource)
    ensures
        r == resolved_source(text::opt_text(*env), text::opt_text(*stored)),
{
    match resolve(env, stored) {
        Some((_, s)) => s,
        None => CredentialSource::Unset,
    }
}

// ── Quiet hours ────────────────────────────────────────────────────────────────

/// A daily window, in local hours, in which nothing goes out. It wraps round
/// midnight; where start and end are equal it is empty.
#[derive(Debug, Clone, Copy, PartialEq, Eq, Structural)]
pub struct QuietHours {
    pub enabled: bool,
    pub start_hour: u32,
    /// Exclusive.
    pub end_hour: u32,
}

impl Default for QuietHours {
    fn default() -> (r: Self)
        ensures
            r == (QuietHours { enabled: false, start_hour: 22, end_hour: 7 }),
    {
        Self { enabled: false, start_hour: 22, end_hour: 7 }
    }
}

impl QuietHours {
    pub open spec fn covers(self, hour: u32) -> bool {
        let start = self.start_hour % 24;
        let end = self.end_hour % 24;
        &&& self.enabled
        &&& start != end
        &&& if start < end {
            start <= hour < end
        } else {
            hour >= start || hour < end
        }
    }

    /// Whether a local hour is inside the window.
    pub fn contains_hour(self, hour: u32) -> (r: bool)
        ensures
            r == self.covers(hour),
    {
        let start: u32 = self.start_hour % 24;
        let end: u32 = self.end_hour % 24;
        if !self.enabled || start == end {
            return false;
        }
        if start < end {
            start <= hour && hour < end
        } else {
            hour >= start || hour < end
        }
    }
}

/// Disabled or empty quiet hours cover no hour.
pub proof fn no_window_no_quiet(q: QuietHours, hour: u32)
    requires
        !q.enabled || q.start_hour % 24 == q.end_hour % 24,
    ensures
        !q.covers(hour),
{
}

/// No window covers the whole day, whatever hours it is given.
pub proof fn no_window_is_the_whole_day(q: QuietHours)
    ensures
        exists|h: u32| h < 24 && !q.covers(h),
{
    assert(!q.covers(q.end_hour % 24));
}

/// A window and the window the other way round share no hour, and together cover
/// the day.
pub proof fn opposite_windows_split_the_day(a: u32, b: u32, hour: u32)
    requires
        a < 24,
        b < 24,
        a != b,
        hour < 24,
    ensures
        (QuietHours { enabled: true, start_hour: a, end_hour: b }).covers(hour) != (QuietHours {
            enabled: true,
            start_hour: b,
            end_hour: a,
        }).covers(hour),
{
}

// ── Node settings ──────────────────────────────────────────────────────────────

#[derive(PartialEq, Eq)]
pub struct NodeSettings {
    pub composio_api_key: Option<String>,
    /// A public identifier, not a secret.
    pub bluesky_handle: Option<String>,
    pub bluesky_app_password: Option<String>,
    pub threads_access_token: Option<String>,
    /// A public identifier, not a secret.
    pub threads_user_id: Option<String>,
    pub default_workspace_id: String,
    pub inbox_polling_enabled: bool,
    pub inbox_poll_interval_secs: u64,
    pub engagement_refresh_interval_secs: u64,
    pub engagement_refresh_batch: usize,
    pub default_platforms: Vec<Platform>,
    pub utc_offset_minutes: i32,
    pub quiet_hours: QuietHours,
}

#[verifier::ext_equal]
pub struct NodeView {
    pub composio_api_key: Option<Seq<char>>,
    pub bluesky_handle: Option<Seq<char>>,
    pub bluesky_app_password: Option<Seq<char>>,
    pub threads_access_token: Option<Seq<char>>,
    pub threads_user_id: Option<Seq<char>>,
    pub default_workspace_id: Seq<char>,
    pub inbox_polling_enabled: bool,
    pub inbox_poll_interval_secs: u64,
    pub engagement_refresh_interval_secs: u64,
    pub engagement_refresh_batch: usize,
    pub default_platforms: Seq<Platform>,
    pub utc_offset_minutes: i32,
    pub quiet_hours: QuietHours,
}

impl View for NodeSettings {
    type V = NodeView;

    open spec fn view(&self) -> NodeView {
        NodeView {
            composio_api_key: text::opt_text(self.composio_api_key),
            bluesky_handle: text::opt_text(self.bluesky_handle),
            bluesky_app_password: text::opt_text(self.bluesky_app_password),
            threads_access_token: text::opt_text(self.threads_access_token),
            threads_user_id: text::opt_text(self.threads_user_id),
            default_workspace_id: self.default_workspace_id@,
            inbox_polling_enabled: self.inbox_polling_enabled,
            inbox_poll_interval_secs: self.inbox_poll_interval_secs,
            engagement_refresh_interval_secs: self.engagement_refresh_interval_secs,
            engagement_refresh_batch: self.engagement_refresh_batch,
            default_platforms: self.default_platforms@,
            utc_offset_minutes: self.utc_offset_minutes,
            quiet_hours: self.quiet_hours,
        }
    }
}

pub open spec fn default_node() -> NodeView {
    NodeView {
        composio_api_key: None,
        bluesky_handle: None,
        bluesky_app_password: None,
        threads_access_token: None,
        threads_user_id: None,
        default_workspace_id: DEFAULT_WORKSPACE_ID@,
        inbox_polling_enabled: true,
        inbox_poll_interval_secs: 600,
        engagement_refresh_interval_secs: 21_600,
        engagement_refresh_batch: 25,
        default_platforms: Seq::empty(),
        utc_offset_minutes: 0,
        quiet_hours: QuietHours { enabled: false, start_hour: 22, end_hour: 7 },
    }
}

pub fn default_workspace() -> (r: String)
    ensures
        r@ == DEFAULT_WORKSPACE_ID@,
{
    DEFAULT_WORKSPACE_ID.to_owned()
}

pub fn default_inbox_interval() -> (r: u64)
    ensures
        r == 600,
{
    600
}

pub fn default_engagement_interval() -> (r: u64)
    ensures
        r == 21_600,
{
    6 * 3_600
}

pub fn default_engagement_batch() -> (r: usize)
    ensures
        r == 25,
{
    25
}

impl Default for NodeSettings {
    fn default() -> (r: Self)
        ensures
            r@ == default_node(),
    {
        let r = Self {
            composio_api_key: None,
            bluesky_handle: None,
            bluesky_app_password: None,
            threads_access_token: None,
            threads_user_id: None,
            default_workspace_id: default_workspace(),
            inbox_polling_enabled: true,
            inbox_poll_interval_secs: default_inbox_interval(),
            engagement_refresh_interval_secs: default_engagement_interval(),
            engagement_refresh_batch: default_engagement_batch(),
            default_platforms: Vec::new(),
            utc_offset_minutes: 0,
            quiet_hours: QuietHours::default(),
        };
        assert(r@ =~= default_node());
        r
    }
}

// ── Logs ───────────────────────────────────────────────────────────────────────

/// How a secret shows in a log: whether there is one.
pub open spec fn marker_of(value: Option<Seq<char>>) -> Seq<char> {
    if counted(value) is Some {
        "<set>"@
    } else {
        "<unset>"@
    }
}

pub fn redacted_marker(value: &Option<String>) -> (r: &'static str)
    ensures
        r@ == marker_of(text::opt_text(*value)),
{
    match value {
        Some(v) => {
            if is_blank(v.as_str()) {
                "<unset>"
            } else {
                "<set>"
            }
        },
        None => "<unset>",
    }
}

/// How a secret of a patch shows in a log: whether it is there, and whether it
/// clears.
pub open spec fn patch_marker_of(value: Option<Seq<char>>) -> Seq<char> {
    match value {
        None => "<absent>"@,
        Some(v) => if text::blank(v) {
            "<clear>"@
        } else {
            "<set>"@
        },
    }
}

pub fn patch_marker(value: &Option<String>) -> (r: &'static str)
    ensures
        r@ == patch_marker_of(text::opt_text(*value)),
{
    match value {
        Some(v) => {
            if is_blank(v.as_str()) {
                "<clear>"
            } else {
                "<set>"
            }
        },
        None => "<absent>",
    }
}

/// The settings as a log may show them.
#[derive(Debug, PartialEq, Eq)]
pub struct LoggedSettings {
    pub composio_api_key: &'static str,
    pub bluesky_handle: Option<String>,
    pub bluesky_app_password: &'static str,
    pub threads_access_token: &'static str,
    pub threads_user_id: Option<String>,
    pub default_workspace_id: String,
    pub inbox_polling_enabled: bool,
    pub inbox_poll_interval_secs: u64,
    pub engagement_refresh_interval_secs: u64,
    pub engagement_refresh_batch: usize,
    pub default_platforms: Vec<Platform>,
    pub utc_offset_minutes: i32,
    pub quiet_hours: QuietHours,
}

impl View for LoggedSettings {
    type V = NodeView;

    open spec fn view(&self) -> NodeView {
        NodeView {
            composio_api_key: Some(self.composio_api_key@),
            bluesky_handle: text::opt_text(self.bluesky_handle),
            bluesky_app_password: Some(self.bluesky_app_password@),
            threads_access_token: Some(self.threads_access_token@),
            threads_user_id: text::opt_text(self.threads_user_id),
            default_workspace_id: self.default_workspace_id@,
            inbox_polling_enabled: self.inbox_polling_enabled,
            inbox_poll_interval_secs: self.inbox_poll_interval_secs,
            engagement_refresh_interval_secs: self.engagement_refresh_interval_secs,
            engagement_refresh_batch: self.engagement_refresh_batch,
            default_platforms: self.default_platforms@,
            utc_offset_minutes: self.utc_offset_minutes,
            quiet_hours: self.quiet_hours,
        }
    }
}

/// A patch as a log may show it.
#[derive(Debug, PartialEq, Eq)]
pub struct LoggedPatch {
    pub composio_api_key: &'static str,
    pub bluesky_handle: Option<String>,
    pub bluesky_app_password: &'static str,
    pub threads_access_token: &'static str,
    pub threads_user_id: Option<String>,
    pub default_workspace_id: Option<String>,
    pub inbox_polling_enabled: Option<bool>,
    pub inbox_poll_interval_secs: Option<u64>,
    pub engagement_refresh_interval_secs: Option<u64>,
    pub engagement_refresh_batch: Option<usize>,
    pub default_platforms: Option<Vec<Platform>>,
    pub utc_offset_minutes: Option<i32>,
    pub quiet_hours_enabled: Option<bool>,
    pub quiet_hours_start: Option<u32>,
    pub quiet_hours_end: Option<u32>,
}

impl View for LoggedPatch {
    type V = PatchView;

    open spec fn view(&self) -> PatchView {
        PatchView {
            composio_api_key: Some(self.composio_api_key@),
            bluesky_handle: text::opt_text(self.bluesky_handle),
            bluesky_app_password: Some(self.bluesky_app_password@),
            threads_access_token: Some(self.threads_access_token@),
            threads_user_id: text::opt_text(self.threads_user_id),
            default_workspace_id: text::opt_text(self.default_workspace_id),
            inbox_polling_enabled: self.inbox_polling_enabled,
            inbox_poll_interval_secs: self.inbox_poll_interval_secs,
            engagement_refresh_interval_secs: self.engagement_refresh_interval_secs,
            engagement_refresh_batch: self.engagement_refresh_batch,
            default_platforms: match self.default_platforms {
                Some(v) => Some(v@),
                None => None,
            },
            utc_offset_minutes: self.utc_offset_minutes,
            quiet_hours_enabled: self.quiet_hours_enabled,
            quiet_hours_start: self.quiet_hours_start,
            quiet_hours_end: self.quiet_hours_end,
        }
    }
}

impl NodeView {
    /// The settings with a mark in place of each secret.
    pub open spec fn logged(self) -> NodeView {
        NodeView {
            composio_api_key: Some(marker_of(self.composio_api_key)),
            bluesky_app_password: Some(marker_of(self.bluesky_app_password)),
            threads_access_token: Some(marker_of(self.threads_access_token)),
            ..self
        }
    }
}

impl PatchView {
    /// The patch with a mark in place of each secret.
    pub open spec fn logged(self) -> PatchView {
        PatchView {
            composio_api_key: Some(patch_marker_of(self.composio_api_key)),
            bluesky_app_password: Some(patch_marker_of(self.bluesky_app_password)),
            threads_access_token: Some(patch_marker_of(self.threads_access_token)),
            ..self
        }
    }
}

impl NodeSettings {
    /// What a log shows of the settings.
    pub fn logged(&self) -> (r: LoggedSettings)
        ensures
            r@ == self@.logged(),
    {
        let default_platforms = self.default_platforms.clone();
        assert(default_platforms@ =~= self.default_platforms@);
        LoggedSettings {
            composio_api_key: redacted_marker(&self.composio_api_key),
            bluesky_handle: self.bluesky_handle.clone(),
            bluesky_app_password: redacted_marker(&self.bluesky_app_password),
            threads_access_token: redacted_marker(&self.threads_access_token),
            threads_user_id: self.threads_user_id.clone(),
            default_workspace_id: self.default_workspace_id.clone(),
            inbox_polling_enabled: self.inbox_polling_enabled,
            inbox_poll_interval_secs: self.inbox_poll_interval_secs,
            engagement_refresh_interval_secs: self.engagement_refresh_interval_secs,
            engagement_refresh_batch: self.engagement_refresh_batch,
            default_platforms,
            utc_offset_minutes: self.utc_offset_minutes,
            quiet_hours: self.quiet_hours,
        }
    }
}

impl NodeSettingsPatch {
    /// What a log shows of the patch.
    pub fn logged(&self) -> (r: LoggedPatch)
        ensures
            r@ == self@.logged(),
    {
        let default_platforms = match &self.default_platforms {
            Some(v) => {
                let w = v.clone();
                assert(w@ =~= v@);
                Some(w)
            },
            None => None,
        };
        LoggedPatch {
            composio_api_key: patch_marker(&self.composio_api_key),
            bluesky_handle: self.bluesky_handle.clone(),
            bluesky_app_password: patch_marker(&self.bluesky_app_password),
            threads_access_token: patch_marker(&self.threads_access_token),
            threads_user_id: self.threads_user_id.clone(),
            default_workspace_id: self.default_workspace_id.clone(),
            inbox_polling_enabled: self.inbox_polling_enabled,
            inbox_poll_interval_secs: self.inbox_poll_interval_secs,
            engagement_refresh_interval_secs: self.engagement_refresh_interval_secs,
            engagement_refresh_batch: self.engagement_refresh_batch,
            default_platforms,
            utc_offset_minutes: self.utc_offset_minutes,
            quiet_hours_enabled: self.quiet_hours_enabled,
            quiet_hours_start: self.quiet_hours_start,
            quiet_hours_end: self.quiet_hours_end,
        }
    }
}

// ── What leaves the process ────────────────────────────────────────────────────

/// The settings as they may leave the process: of secrets, whether they are set.
#[derive(Debug, PartialEq, Eq)]
pub struct NodeSettingsView {
    pub composio_api_key_set: bool,
    pub composio_api_key_source: CredentialSource,
    pub bluesky_handle: Option<String>,
    pub bluesky_app_password_set: bool,
    pub bluesky_app_password_source: CredentialSource,
    pub threads_access_token_set: bool,
    pub threads_access_token_source: CredentialSource,
    pub threads_user_id: Option<String>,
    pub default_workspace_id: String,
    pub inbox_polling_enabled: bool,
    pub inbox_poll_interval_secs: u64,
    pub engagement_refresh_interval_secs: u64,
    pub engagement_refresh_batch: usize,
    pub default_platforms: Vec<Platform>,
    pub utc_offset_minutes: i32,
    pub quiet_hours: QuietHours,
}

#[verifier::ext_equal]
pub struct RedactedView {
    pub composio_api_key_set: bool,
    pub composio_api_key_source: CredentialSource,
    pub bluesky_handle: Option<Seq<char>>,
    pub bluesky_app_password_set: bool,
    pub bluesky_app_password_source: CredentialSource,
    pub threads_access_token_set: bool,
    pub threads_access_token_source: CredentialSource,
    pub threads_user_id: Option<Seq<char>>,
    pub default_workspace_id: Seq<char>,
    pub inbox_polling_enabled: bool,
    pub inbox_poll_interval_secs: u64,
    pub engagement_refresh_interval_secs: u64,
    pub engagement_refresh_batch: usize,
    pub default_platforms: Seq<Platform>,
    pub utc_offset_minutes: i32,
    pub quiet_hours: QuietHours,
}

impl View for NodeSettingsView {
    type V = RedactedView;

    open spec fn view(&self) -> RedactedView {
        RedactedView {
            composio_api_key_set: self.composio_api_key_set,
            composio_api_key_source: self.composio_api_key_source,
            bluesky_handle: text::opt_text(self.bluesky_handle),
            bluesky_app_password_set: self.bluesky_app_password_set,
            bluesky_app_password_source: self.bluesky_app_password_source,
            threads_access_token_set: self.threads_access_token_set,
            threads_access_token_source: self.threads_access_token_source,
            threads_user_id: text::opt_text(self.threads_user_id),
            default_workspace_id: self.default_workspace_id@,
            inbox_polling_enabled: self.inbox_polling_enabled,
            inbox_poll_interval_secs: self.inbox_poll_interval_secs,
            engagement_refresh_interval_secs: self.engagement_refresh_interval_secs,
            engagement_refresh_batch: self.engagement_refresh_batch,
            default_platforms: self.default_platforms@,
            utc_offset_minutes: self.utc_offset_minutes,
            quiet_hours: self.quiet_hours,
        }
    }
}

/// The environment's credentials as plain values.
pub struct EnvView {
    pub composio_api_key: Option<Seq<char>>,
    pub bluesky_handle: Option<Seq<char>>,
    pub bluesky_app_password: Option<Seq<char>>,
    pub threads_access_token: Option<Seq<char>>,
    pub threads_user_id: Option<Seq<char>>,
}

impl View for CredentialEnv {
    type V = EnvView;

    open spec fn view(&self) -> EnvView {
        EnvView {
            composio_api_key: text::opt_text(self.composio_api_key),
            bluesky_handle: text::opt_text(self.bluesky_handle),
            bluesky_app_password: text::opt_text(self.bluesky_app_password),
            threads_access_token: text::opt_text(self.threads_access_token),
            threads_user_id: text::opt_text(self.threads_user_id),
        }
    }
}

impl NodeView {
    pub open spec fn bluesky(self, env: EnvView) -> Option<(Seq<char>, Seq<char>)> {
        match (
            resolved_value(env.bluesky_handle, self.bluesky_handle),
            resolved_value(env.bluesky_app_password, self.bluesky_app_password),
        ) {
            (Some(h), Some(p)) => Some((bluesky::without_leading(h, '@'), p)),
            _ => None,
        }
    }

    pub open spec fn redacted_of(self, env: EnvView) -> RedactedView {
        RedactedView {
            composio_api_key_set: resolved(env.composio_api_key, self.composio_api_key) is Some,
            composio_api_key_source: resolved_source(env.composio_api_key, self.composio_api_key),
            bluesky_handle: resolved_value(env.bluesky_handle, self.bluesky_handle),
            bluesky_app_password_set: resolved(env.bluesky_app_password, self.bluesky_app_password) is Some,
            bluesky_app_password_source: resolved_source(
                env.bluesky_app_password,
                self.bluesky_app_password,
            ),
            threads_access_token_set: resolved(env.threads_access_token, self.threads_access_token) is Some,
            threads_access_token_source: resolved_source(
                env.threads_access_token,
                self.threads_access_token,
            ),
            threads_user_id: resolved_value(env.threads_user_id, self.threads_user_id),
            default_workspace_id: self.default_workspace_id,
            inbox_polling_enabled: self.inbox_polling_enabled,
            inbox_poll_interval_secs: self.inbox_poll_interval_secs,
            engagement_refresh_interval_secs: self.engagement_refresh_interval_secs,
            engagement_refresh_batch: self.engagement_refresh_batch,
            default_platforms: self.default_platforms,
            utc_offset_minutes: self.utc_offset_minutes,
            quiet_hours: self.quiet_hours,
        }
    }

    /// The settings after a patch.
    pub open spec fn patched(self, p: PatchView) -> NodeView {
        NodeView {
            composio_api_key: patched_secret(self.composio_api_key, p.composio_api_key),
            bluesky_handle: patched_secret(self.bluesky_handle, p.bluesky_handle),
            bluesky_app_password: patched_secret(
                self.bluesky_app_password,
                p.bluesky_app_password,
            ),
            threads_access_token: patched_secret(
                self.threads_access_token,
                p.threads_access_token,
            ),
            threads_user_id: patched_secret(self.threads_user_id, p.threads_user_id),
            default_workspace_id: match counted(p.default_workspace_id) {
                Some(v) => v,
                None => self.default_workspace_id,
            },
            inbox_polling_enabled: match p.inbox_polling_enabled {
                Some(v) => v,
                None => self.inbox_polling_enabled,
            },
            inbox_poll_interval_secs: match p.inbox_poll_interval_secs {
                Some(v) => within(60, v as int, 86_400) as u64,
                None => self.inbox_poll_interval_secs,
            },
            engagement_refresh_interval_secs: match p.engagement_refresh_interval_secs {
                Some(v) => within(300, v as int, 604_800) as u64,
                None => self.engagement_refresh_interval_secs,
            },
            engagement_refresh_batch: match p.engagement_refresh_batch {
                Some(v) => within(1, v as int, 200) as usize,
                None => self.engagement_refresh_batch,
            },
            default_platforms: match p.default_platforms {
                Some(v) => lists::deduped(v),
                None => self.default_platforms,
            },
            utc_offset_minutes: match p.utc_offset_minutes {
                Some(v) => within(-840, v as int, 840) as i32,
                None => self.utc_offset_minutes,
            },
            quiet_hours: QuietHours {
                enabled: match p.quiet_hours_enabled {
                    Some(v) => v,
                    None => self.quiet_hours.enabled,
                },
                start_hour: match p.quiet_hours_start {
                    Some(v) => within(0, v as int, 23) as u32,
                    None => self.quiet_hours.start_hour,
                },
                end_hour: match p.quiet_hours_end {
                    Some(v) => within(0, v as int, 23) as u32,
                    None => self.quiet_hours.end_hour,
                },
            },
        }
    }
}

/// A number brought between two bounds.
pub open spec fn within(low: int, v: int, high: int) -> int {
    if v < low {
        low
    } else if v > high {
        high
    } else {
        v
    }
}

/// A patched secret: absent keeps it, blank clears it, anything else sets it,
/// trimmed.
pub open spec fn patched_secret(old: Option<Seq<char>>, patch: Option<Seq<char>>) -> Option<
    Seq<char>,
> {
    match patch {
        None => old,
        Some(_) => counted(patch),
    }
}

/// A partial update.
#[derive(PartialEq, Eq)]
pub struct NodeSettingsPatch {
    pub composio_api_key: Option<String>,
    pub bluesky_handle: Option<String>,
    pub bluesky_app_password: Option<String>,
    pub threads_access_token: Option<String>,
    pub threads_user_id: Option<String>,
    pub default_workspace_id: Option<String>,
    pub inbox_polling_enabled: Option<bool>,
    pub inbox_poll_interval_secs: Option<u64>,
    pub engagement_refresh_interval_secs: Option<u64>,
    pub engagement_refresh_batch: Option<usize>,
    pub default_platforms: Option<Vec<Platform>>,
    pub utc_offset_minutes: Option<i32>,
    pub quiet_hours_enabled: Option<bool>,
    pub quiet_hours_start: Option<u32>,
    pub quiet_hours_end: Option<u32>,
}

#[verifier::ext_equal]
pub struct PatchView {
    pub composio_api_key: Option<Seq<char>>,
    pub bluesky_handle: Option<Seq<char>>,
    pub bluesky_app_password: Option<Seq<char>>,
    pub threads_access_token: Option<Seq<char>>,
    pub threads_user_id: Option<Seq<char>>,
    pub default_workspace_id: Option<Seq<char>>,
    pub inbox_polling_enabled: Option<bool>,
    pub inbox_poll_interval_secs: Option<u64>,
    pub engagement_refresh_interval_secs: Option<u64>,
    pub engagement_refresh_batch: Option<usize>,
    pub default_platforms: Option<Seq<Platform>>,
    pub utc_offset_minutes: Option<i32>,
    pub quiet_hours_enabled: Option<bool>,
    pub quiet_hours_start: Option<u32>,
    pub quiet_hours_end: Option<u32>,
}

impl View for NodeSettingsPatch {
    type V = PatchView;

    open spec fn view(&self) -> PatchView {
        PatchView {
            composio_api_key: text::opt_text(self.composio_api_key),
            bluesky_handle: text::opt_text(self.bluesky_handle),
            bluesky_app_password: text::opt_text(self.bluesky_app_password),
            threads_access_token: text::opt_text(self.threads_access_token),
            threads_user_id: text::opt_text(self.threads_user_id),
            default_workspace_id: text::opt_text(self.default_workspace_id),
            inbox_polling_enabled: self.inbox_polling_enabled,
            inbox_poll_interval_secs: self.inbox_poll_interval_secs,
            engagement_refresh_interval_secs: self.engagement_refresh_interval_secs,
            engagement_refresh_batch: self.engagement_refresh_batch,
            default_platforms: match self.default_platforms {
                Some(v) => Some(v@),
                None => None,
            },
            utc_offset_minutes: self.utc_offset_minutes,
            quiet_hours_enabled: self.quiet_hours_enabled,
            quiet_hours_start: self.quiet_hours_start,
            quiet_hours_end: self.quiet_hours_end,
        }
    }
}

pub open spec fn empty_patch() -> PatchView {
    PatchView {
        composio_api_key: None,
        bluesky_handle: None,
        bluesky_app_password: None,
        threads_access_token: None,
        threads_user_id: None,
        default_workspace_id: None,
        inbox_polling_enabled: None,
        inbox_poll_interval_secs: None,
        engagement_refresh_interval_secs: None,
        engagement_refresh_batch: None,
        default_platforms: None,
        utc_offset_minutes: None,
        quiet_hours_enabled: None,
        quiet_hours_start: None,
        quiet_hours_end: None,
    }
}

impl Default for NodeSettingsPatch {
    fn default() -> (r: Self)
        ensures
            r@ == empty_patch(),
    {
        NodeSettingsPatch {
            composio_api_key: None,
            bluesky_handle: None,
            bluesky_app_password: None,
            threads_access_token: None,
            threads_user_id: None,
            default_workspace_id: None,
            inbox_polling_enabled: None,
            inbox_poll_interval_secs: None,
            engagement_refresh_interval_secs: None,
            engagement_refresh_batch: None,
            default_platforms: None,
            utc_offset_minutes: None,
            quiet_hours_enabled: None,
            quiet_hours_start: None,
            quiet_hours_end: None,
        }
    }
}

/// Patch one secret.
pub fn set_secret(slot: &mut Option<String>, patch: Option<String>)
    ensures
        text::opt_text(*final(slot)) == patched_secret(
            text::opt_text(*old(slot)),
            text::opt_text(patch),
        ),
{
    match patch {
        None => {},
        Some(_) => {
            *slot = count(&patch);
        },
    }
}

fn patched_bool(patch: Option<bool>, old: bool) -> (r: bool)
    ensures
        r == (match patch {
            Some(v) => v,
            None => old,
        }),
{
    match patch {
        Some(v) => v,
        None => old,
    }
}

fn patched_u64(patch: Option<u64>, low: u64, high: u64, old: u64) -> (r: u64)
    ensures
        r == (match patch {
            Some(v) => within(low as int, v as int, high as int),
            None => old as int,
        }),
{
    match patch {
        Some(v) => {
            if v < low {
                low
            } else if v > high {
                high
            } else {
                v
            }
        },
        None => old,
    }
}

fn patched_batch(patch: Option<usize>, old: usize) -> (r: usize)
    ensures
        r == (match patch {
            Some(v) => within(1, v as int, 200),
            None => old as int,
        }),
{
    match patch {
        Some(v) => {
            if v < 1 {
                1
            } else if v > 200 {
                200
            } else {
                v
            }
        },
        None => old,
    }
}

fn patched_offset(patch: Option<i32>, old: i32) -> (r: i32)
    ensures
        r == (match patch {
            Some(v) => within(-840, v as int, 840),
            None => old as int,
        }),
{
    match patch {
        Some(v) => {
            if v < -840 {
                -840
            } else if v > 840 {
                840
            } else {
                v
            }
        },
        None => old,
    }
}

fn patched_hour(patch: Option<u32>, old: u32) -> (r: u32)
    ensures
        r == (match patch {
            Some(v) => within(0, v as int, 23),
            None => old as int,
        }),
{
    match patch {
        Some(v) => {
            if v > 23 {
                23
            } else {
                v
            }
        },
        None => old,
    }
}

// ── Background work ────────────────────────────────────────────────────────────

impl NodeView {
    /// Whether an instant is in the quiet hours, by the local clock.
    pub open spec fn quiet_at(self, at_ms: i64) -> bool {
        self.quiet_hours.covers(clock::local_hour_of(at_ms, self.utc_offset_minutes))
    }

    /// The seconds between inbox polls: a minute at least.
    pub open spec fn poll_period(self) -> u64 {
        if self.inbox_poll_interval_secs > 60 {
            self.inbox_poll_interval_secs
        } else {
            60
        }
    }

    /// The seconds between engagement refreshes: five minutes at least.
    pub open spec fn refresh_period(self) -> u64 {
        if self.engagement_refresh_interval_secs > 300 {
            self.engagement_refresh_interval_secs
        } else {
            300
        }
    }

    /// A poller wakes: it polls where polling is on and the hours are not quiet.
    pub open spec fn poll_turn(self, now: i64) -> Turn {
        Turn {
            works: self.inbox_polling_enabled && !self.quiet_at(now),
            sleep_secs: self.poll_period(),
        }
    }

    /// A refresher wakes: it refreshes unless the hours are quiet.
    pub open spec fn refresh_turn(self, now: i64) -> Turn {
        Turn { works: !self.quiet_at(now), sleep_secs: self.refresh_period() }
    }
}

/// What a background loop does on waking: whether it works, and the seconds it sleeps
/// before it wakes again.
#[derive(Debug, Clone, Copy, PartialEq, Eq, Structural)]
pub struct Turn {
    pub works: bool,
    pub sleep_secs: u64,
}

/// The inbox poller's turn, by the settings as they are now. Where they cannot be read,
/// it waits ten minutes.
pub fn poll_turn(settings: Option<&NodeSettings>, now: i64) -> (r: Turn)
    ensures
        r == match settings {
            Some(s) => s@.poll_turn(now),
            None => Turn { works: false, sleep_secs: 600 },
        },
{
    match settings {
        Some(s) => Turn {
            works: s.inbox_polling_enabled && !s.in_quiet_hours(now),
            sleep_secs: s.inbox_poll_period(),
        },
        None => Turn { works: false, sleep_secs: 600 },
    }
}

/// The engagement refresher's turn, by the settings as they are now. Where they cannot be
/// read, it waits an hour.
pub fn refresh_turn(settings: Option<&NodeSettings>, now: i64) -> (r: Turn)
    ensures
        r == match settings {
            Some(s) => s@.refresh_turn(now),
            None => Turn { works: false, sleep_secs: 3_600 },
        },
{
    match settings {
        Some(s) => Turn {
            works: !s.in_quiet_hours(now),
            sleep_secs: s.engagement_refresh_period(),
        },
        None => Turn { works: false, sleep_secs: 3_600 },
    }
}

/// No node is quiet all day: within any day that the calendar has, there is an hour at
/// which it works, whatever its settings say.
pub proof fn no_node_is_quiet_all_day(s: NodeView, t: i64)
    requires
        t + 82_800_000 <= i64::MAX,
        clock::readable(t, s.utc_offset_minutes),
        clock::readable((t + 82_800_000) as i64, s.utc_offset_minutes),
    ensures
        exists|k: int| 0 <= k < 24 && !(#[trigger] s.quiet_at((t + k * 3_600_000) as i64)),
{
    let q = s.quiet_hours;
    let free: u32 = q.end_hour % 24;
    assert(!q.covers(free));
    let x = clock::shifted(t, s.utc_offset_minutes);
    let first = clock::hour_of(x);
    let k: int = if free >= first {
        free - first
    } else {
        free + 24 - first
    };
    let at = (t + k * 3_600_000) as i64;
    let y = clock::shifted(at, s.utc_offset_minutes);
    assert(y == x + k * 3_600_000);
    assert(clock::readable(at, s.utc_offset_minutes));
    lemma_hours_later(x, k);
    assert(clock::hour_of(y) == free);
    assert(!s.quiet_at(at));
}

proof fn lemma_hours_later(x: int, k: int)
    requires
        0 <= k < 24,
    ensures
        clock::hour_of(x + k * 3_600_000) == (clock::hour_of(x) + k) % 24,
{
    let y = x + k * 3_600_000;
    let day = x / 86_400_000;
    let first = clock::hour_of(x);
    let rest = x - day * 86_400_000 - first * 3_600_000;
    assert(0 <= rest < 3_600_000);
    assert(0 <= first < 24);
    if first + k < 24 {
        assert(y == day * 86_400_000 + (first + k) * 3_600_000 + rest);
        assert(y % 86_400_000 == (first + k) * 3_600_000 + rest);
    } else {
        assert(y == (day + 1) * 86_400_000 + (first + k - 24) * 3_600_000 + rest);
        assert(y % 86_400_000 == (first + k - 24) * 3_600_000 + rest);
    }
}

/// Nothing goes out in the quiet hours, no inbox is polled where polling is off, and no
/// loop spins.
pub proof fn quiet_hours_are_kept(s: NodeView, now: i64)
    ensures
        s.quiet_at(now) ==> !s.poll_turn(now).works && !s.refresh_turn(now).works,
        !s.inbox_polling_enabled ==> !s.poll_turn(now).works,
        s.poll_turn(now).sleep_secs >= 60,
        s.refresh_turn(now).sleep_secs >= 300,
{
}

impl NodeSettings {
    /// The broker's key.
    pub fn composio_api_key(&self, env: &CredentialEnv) -> (r: Option<String>)
        ensures
            text::opt_text(r) == resolved_value(env@.composio_api_key, self@.composio_api_key),
    {
        value_of(&env.composio_api_key, &self.composio_api_key)
    }

    /// The Bluesky handle, without leading `@`s, and the app password: both, or
    /// nothing.
    pub fn bluesky_credentials(&self, env: &CredentialEnv) -> (r: Option<(String, String)>)
        ensures
            match r {
                Some((h, p)) => self@.bluesky(env@) == Some((h@, p@)),
                None => self@.bluesky(env@) is None,
            },
    {
        match value_of(&env.bluesky_handle, &self.bluesky_handle) {
            Some(handle) => match value_of(
                &env.bluesky_app_password,
                &self.bluesky_app_password,
            ) {
                Some(password) => Some((trim_leading(handle.as_str(), '@'), password)),
                None => None,
            },
            None => None,
        }
    }

    /// The Threads token and user id: both, or nothing.
    pub fn threads_credentials(&self, env: &CredentialEnv) -> (r: Option<(String, String)>)
        ensures
            ({
                let token = resolved_value(env@.threads_access_token, self@.threads_access_token);
                let user = resolved_value(env@.threads_user_id, self@.threads_user_id);
                match r {
                    Some((t, u)) => token == Some(t@) && user == Some(u@),
                    None => token is None || user is None,
                }
            }),
    {
        match value_of(&env.threads_access_token, &self.threads_access_token) {
            Some(token) => match value_of(&env.threads_user_id, &self.threads_user_id) {
                Some(user) => Some((token, user)),
                None => None,
            },
            None => None,
        }
    }

    /// Whether an instant is in the quiet hours.
    pub fn in_quiet_hours(&self, at_ms: i64) -> (r: bool)
        ensures
            r == self@.quiet_at(at_ms),
    {
        self.quiet_hours.contains_hour(local_hour(at_ms, self.utc_offset_minutes))
    }

    /// The seconds between inbox polls.
    pub fn inbox_poll_period(&self) -> (r: u64)
        ensures
            r == self@.poll_period(),
    {
        if self.inbox_poll_interval_secs > 60 {
            self.inbox_poll_interval_secs
        } else {
            60
        }
    }

    /// The seconds between engagement refreshes.
    pub fn engagement_refresh_period(&self) -> (r: u64)
        ensures
            r == self@.refresh_period(),
    {
        if self.engagement_refresh_interval_secs > 300 {
            self.engagement_refresh_interval_secs
        } else {
            300
        }
    }

    /// The only shape that may leave the process.
    pub fn redacted(&self, env: &CredentialEnv) -> (r: NodeSettingsView)
        ensures
            r@ == self@.redacted_of(env@),
    {
        let default_platforms = self.default_platforms.clone();
        assert(default_platforms@ =~= self.default_platforms@);
        NodeSettingsView {
            composio_api_key_set: self.composio_api_key(env).is_some(),
            composio_api_key_source: source_of(&env.composio_api_key, &self.composio_api_key),
            bluesky_handle: value_of(&env.bluesky_handle, &self.bluesky_handle),
            bluesky_app_password_set: resolve(
                &env.bluesky_app_password,
                &self.bluesky_app_password,
            ).is_some(),
            bluesky_app_password_source: source_of(
                &env.bluesky_app_password,
                &self.bluesky_app_password,
            ),
            threads_access_token_set: resolve(
                &env.threads_access_token,
                &self.threads_access_token,
            ).is_some(),
            threads_access_token_source: source_of(
                &env.threads_access_token,
                &self.threads_access_token,
            ),
            threads_user_id: value_of(&env.threads_user_id, &self.threads_user_id),
            default_workspace_id: self.default_workspace_id.clone(),
            inbox_polling_enabled: self.inbox_polling_enabled,
            inbox_poll_interval_secs: self.inbox_poll_interval_secs,
            engagement_refresh_interval_secs: self.engagement_refresh_interval_secs,
            engagement_refresh_batch: self.engagement_refresh_batch,
            default_platforms,
            utc_offset_minutes: self.utc_offset_minutes,
            quiet_hours: self.quiet_hours,
        }
    }

    /// Apply a partial update. Numbers are brought within their bounds.
    pub fn apply(&mut self, patch: NodeSettingsPatch)
        ensures
            final(self)@ == old(self)@.patched(patch@),
    {
        set_secret(&mut self.composio_api_key, patch.composio_api_key);
        set_secret(&mut self.bluesky_handle, patch.bluesky_handle);
        set_secret(&mut self.bluesky_app_password, patch.bluesky_app_password);
        set_secret(&mut self.threads_access_token, patch.threads_access_token);
        set_secret(&mut self.threads_user_id, patch.threads_user_id);
        if let Some(v) = count(&patch.default_workspace_id) {
            self.default_workspace_id = v;
        }
        self.inbox_polling_enabled =
        patched_bool(patch.inbox_polling_enabled, self.inbox_polling_enabled);
        self.inbox_poll_interval_secs =
        patched_u64(patch.inbox_poll_interval_secs, 60, 86_400, self.inbox_poll_interval_secs);
        self.engagement_refresh_interval_secs =
        patched_u64(
            patch.engagement_refresh_interval_secs,
            300,
            604_800,
            self.engagement_refresh_interval_secs,
        );
        self.engagement_refresh_batch =
        patched_batch(patch.engagement_refresh_batch, self.engagement_refresh_batch);
        if let Some(v) = &patch.default_platforms {
            self.default_platforms = dedup_platforms(v);
        }
        self.utc_offset_minutes = patched_offset(patch.utc_offset_minutes, self.utc_offset_minutes);
        self.quiet_hours =
        QuietHours {
            enabled: patched_bool(patch.quiet_hours_enabled, self.quiet_hours.enabled),
            start_hour: patched_hour(patch.quiet_hours_start, self.quiet_hours.start_hour),
            end_hour: patched_hour(patch.quiet_hours_end, self.quiet_hours.end_hour),
        };
    }

    /// Settings from what the store holds: the defaults where nothing was stored, or
    /// where it did not deserialise.
    pub fn loaded(stored: Option<NodeSettings>) -> (r: NodeSettings)
        ensures
            r@ == (match stored {
                Some(s) => s@,
                None => default_node(),
            }),
    {
        match stored {
            Some(s) => s,
            None => NodeSettings::default(),
        }
    }

    /// Load, patch, and show: the settings to store, and what may be answered.
    pub fn patch(stored: Option<NodeSettings>, patch: NodeSettingsPatch, env: &CredentialEnv) -> (r:
        (NodeSettings, NodeSettingsView))
        ensures
            r.0@ == (match stored {
                Some(s) => s@,
                None => default_node(),
            }).patched(patch@),
            r.1@ == r.0@.redacted_of(env@),
    {
        let mut settings = NodeSettings::loaded(stored);
        settings.apply(patch);
        let view = settings.redacted(env);
        (settings, view)
    }
}

/// An empty patch changes nothing.
pub proof fn an_empty_patch_changes_nothing(s: NodeView)
    ensures
        s.patched(empty_patch()) == s,
{
    assert(s.patched(empty_patch()) =~= s);
}

/// A patch applied twice does what it does once.
pub proof fn a_patch_is_idempotent(s: NodeView, p: PatchView)
    ensures
        s.patched(p).patched(p) == s.patched(p),
{
    assert(s.patched(p).patched(p) =~= s.patched(p));
}

/// A secret that the patch does not mention is kept.
pub proof fn unmentioned_secrets_are_kept(s: NodeView, p: PatchView)
    ensures
        p.composio_api_key is None ==> s.patched(p).composio_api_key == s.composio_api_key,
        p.bluesky_handle is None ==> s.patched(p).bluesky_handle == s.bluesky_handle,
        p.bluesky_app_password is None ==> s.patched(p).bluesky_app_password
            == s.bluesky_app_password,
        p.threads_access_token is None ==> s.patched(p).threads_access_token
            == s.threads_access_token,
        p.threads_user_id is None ==> s.patched(p).threads_user_id == s.threads_user_id,
{
}

/// What may leave the process, and what a log shows, depends on the secrets only in
/// whether they count.
pub proof fn the_redacted_view_hides_secrets(a: NodeView, b: NodeView, env: EnvView)
    requires
        b == (NodeView {
            composio_api_key: b.composio_api_key,
            bluesky_app_password: b.bluesky_app_password,
            threads_access_token: b.threads_access_token,
            ..a
        }),
        counted(a.composio_api_key) is Some == counted(b.composio_api_key) is Some,
        counted(a.bluesky_app_password) is Some == counted(b.bluesky_app_password) is Some,
        counted(a.threads_access_token) is Some == counted(b.threads_access_token) is Some,
    ensures
        a.redacted_of(env) == b.redacted_of(env),
        a.logged() == b.logged(),
{
    assert(a.logged() =~= b.logged());
}

/// A patched setting is within its bounds.
pub proof fn patched_settings_are_in_bounds(s: NodeView, p: PatchView)
    ensures
        p.inbox_poll_interval_secs is Some ==> 60 <= s.patched(p).inbox_poll_interval_secs
            <= 86_400,
        p.engagement_refresh_interval_secs is Some ==> 300 <= s.patched(
            p,
        ).engagement_refresh_interval_secs <= 604_800,
        p.engagement_refresh_batch is Some ==> 1 <= s.patched(p).engagement_refresh_batch <= 200,
        p.utc_offset_minutes is Some ==> -840 <= s.patched(p).utc_offset_minutes <= 840,
        p.quiet_hours_start is Some ==> s.patched(p).quiet_hours.start_hour < 24,
        p.quiet_hours_end is Some ==> s.patched(p).quiet_hours.end_hour < 24,
        p.default_platforms is Some ==> s.patched(p).default_platforms.no_duplicates(),
{
    if p.default_platforms is Some {
        lists::dedup_laws(p.default_platforms->0);
    }
}

/// A window that is switched on begins with its first hour and ends before its last,
/// going round midnight where it has to: an hour is in it exactly when it lies less far
/// behind the first hour than the end does.
pub proof fn a_window_runs_from_start_to_end(q: QuietHours, hour: u32)
    requires
        hour < 24,
    ensures
        q.covers(hour) == (q.enabled && (hour - q.start_hour) % 24 < (q.end_hour
            - q.start_hour) % 24),
{
    let start: int = q.start_hour as int % 24;
    let end: int = q.end_hour as int % 24;
    assert((hour - q.start_hour) % 24 == (hour - start) % 24);
    assert((q.end_hour - q.start_hour) % 24 == (end - start) % 24);
}

/// A credential that the environment holds is used; where it holds none, or a blank
/// one, the stored one is; and where that is missing or blank too, there is none. What
/// is used is trimmed.
pub proof fn the_environment_comes_first(env: Option<Seq<char>>, stored: Option<Seq<char>>)
    ensures
        env is Some && !text::blank(env->0) ==> resolved_value(env, stored) == Some(
            text::trim_of(env->0),
        ) && resolved_source(env, stored) == CredentialSource::Env,
        (env is None || text::blank(env->0)) && stored is Some && !text::blank(stored->0)
            ==> resolved_value(env, stored) == Some(text::trim_of(stored->0)) && resolved_source(
            env,
            stored,
        ) == CredentialSource::Stored,
        (env is None || text::blank(env->0)) && (stored is None || text::blank(stored->0))
            ==> resolved_value(env, stored) is None && resolved_source(env, stored)
            == CredentialSource::Unset,
        resolved(env, stored) is Some ==> resolved(env, stored)->0 == (
            resolved_value(env, stored)->0,
            resolved_source(env, stored),
        ),
        resolved(env, stored) is Some <==> resolved_value(env, stored) is Some,
{
}

/// Bluesky is signed in to with a handle and an app password, each from where it is
/// found first, and only with both. The handle has no `@` in front.
pub proof fn bluesky_takes_a_handle_and_a_password(s: NodeView, env: EnvView)
    ensures
        ({
            let handle = resolved_value(env.bluesky_handle, s.bluesky_handle);
            let password = resolved_value(env.bluesky_app_password, s.bluesky_app_password);
            &&& s.bluesky(env) is Some <==> handle is Some && password is Some
            &&& s.bluesky(env) is Some ==> {
                let (h, p) = s.bluesky(env)->0;
                &&& p == password->0
                &&& h.len() > 0 ==> h[0] != '@'
                &&& h.len() <= handle->0.len()
                &&& h == handle->0.skip(handle->0.len() - h.len())
                &&& forall|i: int|
                    0 <= i < handle->0.len() - h.len() ==> #[trigger] handle->0[i] == '@'
            }
        }),
{
    let handle = resolved_value(env.bluesky_handle, s.bluesky_handle);
    if handle is Some {
        lemma_leading(handle->0);
    }
}

proof fn lemma_leading(s: Seq<char>)
    ensures
        ({
            let h = bluesky::without_leading(s, '@');
            &&& h.len() > 0 ==> h[0] != '@'
            &&& h.len() <= s.len()
            &&& h == s.skip(s.len() - h.len())
            &&& forall|i: int| 0 <= i < s.len() - h.len() ==> #[trigger] s[i] == '@'
        }),
    decreases s.len(),
{
    let h = bluesky::without_leading(s, '@');
    if s.len() > 0 && s[0] == '@' {
        lemma_leading(s.drop_first());
        assert(s.drop_first().skip(s.len() - 1 - h.len()) =~= s.skip(s.len() - h.len()));
        assert forall|i: int| 0 <= i < s.len() - h.len() implies #[trigger] s[i] == '@' by {
            if i > 0 {
                assert(s[i] == s.drop_first()[i - 1]);
            }
        }
    } else {
        assert(s.skip(0) =~= s);
    }
}

/// A node that was never set up polls its inbox every ten minutes, refreshes twenty-five
/// posts every six hours, publishes for the default workspace by the UTC clock, holds no
/// credential, and is never quiet; switched on, its quiet hours are from ten in the
/// evening to seven in the morning.
pub proof fn a_fresh_node_works_round_the_clock(now: i64, hour: u32)
    requires
        hour < 24,
    ensures
        default_node().poll_turn(now) == (Turn { works: true, sleep_secs: 600 }),
        default_node().refresh_turn(now) == (Turn { works: true, sleep_secs: 21_600 }),
        default_node().engagement_refresh_batch == 25,
        default_node().default_workspace_id == DEFAULT_WORKSPACE_ID@,
        default_node().default_platforms.len() == 0,
        default_node().utc_offset_minutes == 0,
        default_node().composio_api_key is None,
        default_node().bluesky_handle is None,
        default_node().bluesky_app_password is None,
        default_node().threads_access_token is None,
        default_node().threads_user_id is None,
        (QuietHours { enabled: true, ..default_node().quiet_hours }).covers(hour) == (hour >= 22
            || hour < 7),
{
}

/// A number given in a patch is taken as it is within its bounds, and otherwise the
/// bound next to it is taken: no allowed number is nearer to the one that was given.
pub proof fn a_patched_number_is_the_nearest_allowed(s: NodeView, p: PatchView, x: int)
    ensures
        p.inbox_poll_interval_secs is Some ==> nearest(
            p.inbox_poll_interval_secs->0 as int,
            60,
            86_400,
            s.patched(p).inbox_poll_interval_secs as int,
            x,
        ),
        p.engagement_refresh_interval_secs is Some ==> nearest(
            p.engagement_refresh_interval_secs->0 as int,
            300,
            604_800,
            s.patched(p).engagement_refresh_interval_secs as int,
            x,
        ),
        p.engagement_refresh_batch is Some ==> nearest(
            p.engagement_refresh_batch->0 as int,
            1,
            200,
            s.patched(p).engagement_refresh_batch as int,
            x,
        ),
        p.utc_offset_minutes is Some ==> nearest(
            p.utc_offset_minutes->0 as int,
            -840,
            840,
            s.patched(p).utc_offset_minutes as int,
            x,
        ),
        p.quiet_hours_start is Some ==> nearest(
            p.quiet_hours_start->0 as int,
            0,
            23,
            s.patched(p).quiet_hours.start_hour as int,
            x,
        ),
        p.quiet_hours_end is Some ==> nearest(
            p.quiet_hours_end->0 as int,
            0,
            23,
            s.patched(p).quiet_hours.end_hour as int,
            x,
        ),
{
}

/// A number is within bounds, and no other number `x` within them is nearer to the one
/// that was wanted.
pub open spec fn nearest(wanted: int, low: int, high: int, got: int, x: int) -> bool {
    &&& low <= got <= high
    &&& low <= x <= high ==> far(wanted, got) <= far(wanted, x)
}

/// The distance of two numbers.
pub open spec fn far(a: int, b: int) -> int {
    if a < b {
        b - a
    } else {
        a - b
    }
}

/// What a patch gives replaces what was there: switches as they are, texts trimmed, a
/// blank credential by none, a list of platforms with each platform once and in its
/// first place.
pub proof fn a_patch_replaces_what_it_gives(s: NodeView, p: PatchView)
    ensures
        p.inbox_polling_enabled is Some ==> s.patched(p).inbox_polling_enabled
            == p.inbox_polling_enabled->0,
        p.quiet_hours_enabled is Some ==> s.patched(p).quiet_hours.enabled
            == p.quiet_hours_enabled->0,
        p.default_workspace_id is Some && !text::blank(p.default_workspace_id->0) ==> s.patched(
            p,
        ).default_workspace_id == text::trim_of(p.default_workspace_id->0),
        p.default_workspace_id is Some && text::blank(p.default_workspace_id->0) ==> s.patched(
            p,
        ).default_workspace_id == s.default_workspace_id,
        p.default_platforms is Some ==> {
            let given = p.default_platforms->0;
            let kept = s.patched(p).default_platforms;
            &&& kept.no_duplicates()
            &&& forall|x: Platform| #[trigger] kept.contains(x) <==> given.contains(x)
        },
        given_secret(p.composio_api_key, s.patched(p).composio_api_key),
        given_secret(p.bluesky_handle, s.patched(p).bluesky_handle),
        given_secret(p.bluesky_app_password, s.patched(p).bluesky_app_password),
        given_secret(p.threads_access_token, s.patched(p).threads_access_token),
        given_secret(p.threads_user_id, s.patched(p).threads_user_id),
{
    if p.default_platforms is Some {
        lists::dedup_laws(p.default_platforms->0);
    }
}

/// A credential after a patch that gives it: none for a blank one, and else the trimmed
/// one.
pub open spec fn given_secret(patch: Option<Seq<char>>, kept: Option<Seq<char>>) -> bool {
    patch is Some ==> if text::blank(patch->0) {
        kept is None
    } else {
        kept == Some(text::trim_of(patch->0))
    }
}

/// What a patch does not give stays as it was.
pub proof fn a_patch_keeps_what_it_does_not_give(s: NodeView, p: PatchView)
    ensures
        p.default_workspace_id is None ==> s.patched(p).default_workspace_id
            == s.default_workspace_id,
        p.inbox_polling_enabled is None ==> s.patched(p).inbox_polling_enabled
            == s.inbox_polling_enabled,
        p.inbox_poll_interval_secs is None ==> s.patched(p).inbox_poll_interval_secs
            == s.inbox_poll_interval_secs,
        p.engagement_refresh_interval_secs is None ==> s.patched(
            p,
        ).engagement_refresh_interval_secs == s.engagement_refresh_interval_secs,
        p.engagement_refresh_batch is None ==> s.patched(p).engagement_refresh_batch
            == s.engagement_refresh_batch,
        p.default_platforms is None ==> s.patched(p).default_platforms == s.default_platforms,
        p.utc_offset_minutes is None ==> s.patched(p).utc_offset_minutes == s.utc_offset_minutes,
        p.quiet_hours_enabled is None ==> s.patched(p).quiet_hours.enabled
            == s.quiet_hours.enabled,
        p.quiet_hours_start is None ==> s.patched(p).quiet_hours.start_hour
            == s.quiet_hours.start_hour,
        p.quiet_hours_end is None ==> s.patched(p).quiet_hours.end_hour == s.quiet_hours.end_hour,
{
}

/// A loop works whenever it may: the inbox is polled where polling is on and the local
/// hour is outside the quiet hours, posts are refreshed where it is outside them, and
/// each loop then sleeps as long as it is set to, but at least a minute or five.
pub proof fn a_loop_works_outside_the_quiet_hours(s: NodeView, now: i64)
    requires
        clock::readable(now, s.utc_offset_minutes),
    ensures
        ({
            let local = now + s.utc_offset_minutes * 60_000;
            let hour = (local / 3_600_000) % 24;
            let since = (hour - s.quiet_hours.start_hour) % 24;
            let length = (s.quiet_hours.end_hour - s.quiet_hours.start_hour) % 24;
            let quiet = s.quiet_hours.enabled && since < length;
            &&& s.quiet_at(now) == quiet
            &&& s.poll_turn(now).works == (s.inbox_polling_enabled && !quiet)
            &&& s.refresh_turn(now).works == !quiet
        }),
        s.poll_turn(now).sleep_secs >= s.inbox_poll_interval_secs,
        s.poll_turn(now).sleep_secs == 60 || s.poll_turn(now).sleep_secs
            == s.inbox_poll_interval_secs,
        s.refresh_turn(now).sleep_secs >= s.engagement_refresh_interval_secs,
        s.refresh_turn(now).sleep_secs == 300 || s.refresh_turn(now).sleep_secs
            == s.engagement_refresh_interval_secs,
{
    let local = now + s.utc_offset_minutes * 60_000;
    let hour = clock::local_hour_of(now, s.utc_offset_minutes);
    assert((local % 86_400_000) / 3_600_000 == (local / 3_600_000) % 24);
    a_window_runs_from_start_to_end(s.quiet_hours, hour);
}

/// What may leave the process says of each secret whether one is in force, and from
/// where, and shows everything else as it is.
pub proof fn the_redacted_view_tells_what_is_set(s: NodeView, env: EnvView)
    ensures
        ({
            let r = s.redacted_of(env);
            &&& r.composio_api_key_set == (r.composio_api_key_source != CredentialSource::Unset)
            &&& r.composio_api_key_source == resolved_source(
                env.composio_api_key,
                s.composio_api_key,
            )
            &&& r.bluesky_app_password_set == (r.bluesky_app_password_source
                != CredentialSource::Unset)
            &&& r.bluesky_app_password_source == resolved_source(
                env.bluesky_app_password,
                s.bluesky_app_password,
            )
            &&& r.threads_access_token_set == (r.threads_access_token_source
                != CredentialSource::Unset)
            &&& r.threads_access_token_source == resolved_source(
                env.threads_access_token,
                s.threads_access_token,
            )
            &&& r.bluesky_handle == resolved_value(env.bluesky_handle, s.bluesky_handle)
            &&& r.threads_user_id == resolved_value(env.threads_user_id, s.threads_user_id)
            &&& r.default_workspace_id == s.default_workspace_id
            &&& r.inbox_polling_enabled == s.inbox_polling_enabled
            &&& r.inbox_poll_interval_secs == s.inbox_poll_interval_secs
            &&& r.engagement_refresh_interval_secs == s.engagement_refresh_interval_secs
            &&& r.engagement_refresh_batch == s.engagement_refresh_batch
            &&& r.default_platforms == s.default_platforms
            &&& r.utc_offset_minutes == s.utc_offset_minutes
            &&& r.quiet_hours == s.quiet_hours
        }),
{
}

/// A log tells of a secret whether there is one that counts, of a patch also whether it
/// gives one at all, and shows a handle and a user id in full.
pub proof fn a_log_marks_secrets(s: NodeView, p: PatchView, v: Option<Seq<char>>)
    ensures
        v is Some && !text::blank(v->0) ==> marker_of(v) == "<set>"@ && patch_marker_of(v)
            == "<set>"@,
        v is Some && text::blank(v->0) ==> marker_of(v) == "<unset>"@ && patch_marker_of(v)
            == "<clear>"@,
        v is None ==> marker_of(v) == "<unset>"@ && patch_marker_of(v) == "<absent>"@,
        s.logged().composio_api_key == Some(marker_of(s.composio_api_key)),
        s.logged().bluesky_app_password == Some(marker_of(s.bluesky_app_password)),
        s.logged().threads_access_token == Some(marker_of(s.threads_access_token)),
        s.logged().bluesky_handle == s.bluesky_handle,
        s.logged().threads_user_id == s.threads_user_id,
        p.logged().composio_api_key == Some(patch_marker_of(p.composio_api_key)),
        p.logged().bluesky_app_password == Some(patch_marker_of(p.bluesky_app_password)),
        p.logged().threads_access_token == Some(patch_marker_of(p.threads_access_token)),
        p.logged().bluesky_handle == p.bluesky_handle,
        p.logged().threads_user_id == p.threads_user_id,
{
}

} // verus!
