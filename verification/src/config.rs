//! What the process is told by its environment.
use vstd::prelude::*;
use crate::text;
use crate::text::{parse_number, text_eq, trim};

verus! {

/// The id that this app's events are named under.
pub const PLUGIN_ID: &'static str = "@ryu/social";
pub const EVENT_POST_SCHEDULED: &'static str = "@ryu/social#post.scheduled";

/// The port to listen on where none is given.
pub const DEFAULT_PORT: u16 = 8005;

/// The prefix of every route.
pub const MOUNT: &'static str = "/api/social";

/// How many posts one sweep claims where nothing is said.
pub const DEFAULT_SWEEP_BATCH: usize = 50;

pub open spec fn given(v: Option<&str>) -> Option<Seq<char>> {
    match v {
        Some(s) => Some(text::trim_of(s@)),
        None => None,
    }
}

/// The port that the environment names; the default where it names none.
pub open spec fn port_named(v: Option<Seq<char>>) -> nat {
    match v {
        Some(s) => match text::number_of(s, u16::MAX as nat) {
            Some(n) => n,
            None => DEFAULT_PORT as nat,
        },
        None => DEFAULT_PORT as nat,
    }
}

pub fn port_from(raw: Option<&str>) -> (r: u16)
    ensures
        r == port_named(given(raw)),
{
    match raw {
        Some(s) => match parse_number(trim(s), u16::MAX as u64) {
            Some(n) => n as u16,
            None => DEFAULT_PORT,
        },
        None => DEFAULT_PORT,
    }
}

/// What is fixed for the life of the process.
#[derive(Debug, Clone, Copy, PartialEq, Eq, Structural)]
pub struct Config {
    pub port: u16,
    /// How many posts one sweep may claim.
    pub sweep_batch_size: usize,
    /// Whether the scheduler runs at all.
    pub scheduler_enabled: bool,
}

/// The batch size that the environment names, where it is a positive number.
pub open spec fn batch_named(v: Option<Seq<char>>) -> nat {
    match v {
        Some(s) => match text::number_of(s, usize::MAX as nat) {
            Some(n) => if n > 0 {
                n
            } else {
                DEFAULT_SWEEP_BATCH as nat
            },
            None => DEFAULT_SWEEP_BATCH as nat,
        },
        None => DEFAULT_SWEEP_BATCH as nat,
    }
}

/// Only "0", "false" and "off" switch the scheduler off.
pub open spec fn scheduler_named(v: Option<Seq<char>>) -> bool {
    match v {
        Some(s) => s != "0"@ && s != "false"@ && s != "off"@,
        None => true,
    }
}

impl Config {
    /// From the values of `RYU_SOCIAL_SWEEP_BATCH` and `RYU_SOCIAL_SCHEDULER`.
    pub fn from_env(port: u16, sweep_batch: Option<&str>, scheduler: Option<&str>) -> (r: Self)
        ensures
            r.port == port,
            r.sweep_batch_size == batch_named(given(sweep_batch)),
            r.scheduler_enabled == scheduler_named(given(scheduler)),
            r.sweep_batch_size > 0,
    {
        let sweep_batch_size: usize = match sweep_batch {
            Some(s) => match parse_number(trim(s), usize::MAX as u64) {
                Some(n) => if n > 0 {
                    n as usize
                } else {
                    DEFAULT_SWEEP_BATCH
                },
                None => DEFAULT_SWEEP_BATCH,
            },
            None => DEFAULT_SWEEP_BATCH,
        };
        let scheduler_enabled = match scheduler {
            Some(s) => {
                let v = trim(s);
                !text_eq(v, "0") && !text_eq(v, "false") && !text_eq(v, "off")
            },
            None => true,
        };
        Config { port, sweep_batch_size, scheduler_enabled }
    }
}

/// A port is the number that is written, up to the largest port there is, and 8005 where
/// none is.
pub proof fn a_port_is_the_number_written(n: nat, s: Seq<char>)
    ensures
        n <= 65_535 ==> port_named(Some(text::decimal_of(n))) == n,
        n > 65_535 ==> port_named(Some(text::decimal_of(n))) == 8005,
        s.len() > 0 && !text::is_digit(s[0]) && s[0] != '+' ==> port_named(Some(s)) == 8005,
        s.len() == 0 ==> port_named(Some(s)) == 8005,
        port_named(None) == 8005,
{
    text::a_number_is_read_from_its_digits(n, u16::MAX as nat, s, 0);
}

/// A batch is as large as is written, but never empty: where nothing, zero or no number
/// is written, it is fifty posts.
pub proof fn a_batch_is_the_number_written(n: nat, s: Seq<char>)
    ensures
        0 < n <= usize::MAX ==> batch_named(Some(text::decimal_of(n))) == n,
        n == 0 || n > usize::MAX ==> batch_named(Some(text::decimal_of(n))) == 50,
        s.len() > 0 && !text::is_digit(s[0]) && s[0] != '+' ==> batch_named(Some(s)) == 50,
        s.len() == 0 ==> batch_named(Some(s)) == 50,
        batch_named(None) == 50,
        batch_named(Some(s)) > 0,
{
    text::a_number_is_read_from_its_digits(n, usize::MAX as nat, s, 0);
}

/// The scheduler runs unless one of three words says otherwise.
pub proof fn three_words_switch_the_scheduler_off(s: Seq<char>)
    ensures
        scheduler_named(None),
        !scheduler_named(Some(s)) <==> s == "0"@ || s == "false"@ || s == "off"@,
{
}

} // verus!
