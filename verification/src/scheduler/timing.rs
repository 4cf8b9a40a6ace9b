//! When to post: the hours at which what did well was published.
use vstd::prelude::*;
use crate::analytics;
use crate::analytics::item_engagement;
use crate::lists;
use crate::platform::Platform;
use crate::rank;
use crate::rank::{sort_ranked, Ranked};
use crate::records::ActivityItem;
use crate::scheduler::zone;
use crate::scheduler::zone::{local_instant, local_weekday_hour, zone_for, Zone};

verus! {

/// Dated posts needed before anything but the built-in slots is recommended.
pub const MIN_PLATFORM_SAMPLE: usize = 4;

/// Posts needed in one weekday and hour before it is trusted.
pub const MIN_FINE_BUCKET_SAMPLE: usize = 2;

/// How many slots a recommendation holds.
pub const MAX_SLOTS: usize = 3;

/// How many rows a recommendation is drawn from.
pub const TIMING_SAMPLE_LIMIT: usize = 500;

/// The built-in slots: Tuesday 11:00, Wednesday 18:00, Thursday 13:00.
pub const DEFAULT_SLOTS: [(u8, u8); 3] = [(2, 11), (3, 18), (4, 13)];

/// One past post: when it was published, and how it did.
#[derive(Debug, Clone, Copy, PartialEq, Eq, Structural)]
pub struct TimingSample {
    pub published_at: i64,
    pub engagement: u64,
}

/// What a recommendation is derived from.
#[derive(Debug, Clone, Copy, PartialEq, Eq, Structural)]
pub enum TimingBasis {
    /// Not enough history: the built-in slots.
    Defaults,
    /// Weekdays and hours, each with at least [`MIN_FINE_BUCKET_SAMPLE`] posts.
    WeekdayHour,
    /// No weekday and hour repeats: hours over all days.
    HourOfDay,
}

/// One recommended slot and when it next comes around.
#[derive(Debug, Clone, Copy, PartialEq, Eq, Structural)]
pub struct TimeSlot {
    /// ISO weekday, Monday being 1; none for an hour over all days.
    pub day_of_week: Option<u8>,
    pub hour: u8,
    /// How much better the slot did than the average, in percent; none where nothing
    /// did anything, or a single post stands behind the slot.
    pub lift_pct: Option<i64>,
    /// Posts behind the slot.
    pub sample_size: usize,
    /// The next instant of the slot, in UTC milliseconds.
    pub next_occurrence: i64,
}

#[derive(Debug, PartialEq, Eq)]
pub struct TimingRecommendation {
    /// The zone that the hours are in.
    pub timezone: String,
    pub basis: TimingBasis,
    /// Dated posts considered.
    pub sample_size: usize,
    pub slots: Vec<TimeSlot>,
}

#[verifier::ext_equal]
pub struct RecommendationView {
    pub timezone: Seq<char>,
    pub basis: TimingBasis,
    pub sample_size: nat,
    pub slots: Seq<TimeSlot>,
}

impl View for TimingRecommendation {
    type V = RecommendationView;

    open spec fn view(&self) -> RecommendationView {
        RecommendationView {
            timezone: self.timezone@,
            basis: self.basis,
            sample_size: self.sample_size as nat,
            slots: self.slots@,
        }
    }
}

// ── The next occurrence ────────────────────────────────────────────────────────

pub open spec fn day_fits(ce_day: int, day_of_week: Option<u8>) -> bool {
    match day_of_week {
        Some(d) => zone::iso_weekday(ce_day) == d,
        None => true,
    }
}

/// Whether a day has the slot, and after now.
pub open spec fn occurs(zone: Seq<char>, now: i64, day_of_week: Option<u8>, hour: u8, ce_day: int) -> bool {
    &&& day_fits(ce_day, day_of_week)
    &&& zone::slot_instant(zone, ce_day, hour as int) is Some
    &&& zone::slot_instant(zone, ce_day, hour as int)->0 > now
}

/// The slot's first instant after now among some days; now where there is none.
pub open spec fn first_after(
    zone: Seq<char>,
    now: i64,
    day_of_week: Option<u8>,
    hour: u8,
    ce_day: int,
    days: nat,
) -> i64
    decreases days,
{
    if days == 0 {
        now
    } else if occurs(zone, now, day_of_week, hour, ce_day) {
        zone::slot_instant(zone, ce_day, hour as int)->0
    } else {
        first_after(zone, now, day_of_week, hour, ce_day + 1, (days - 1) as nat)
    }
}

/// The slot's first instant after now, within fifteen days of the zone's calendar.
pub open spec fn next_of(zone: Seq<char>, now: i64, day_of_week: Option<u8>, hour: u8) -> i64 {
    match zone::zone_reading(zone, now) {
        Some(p) => first_after(zone, now, day_of_week, hour, p.ce_day as int, 15),
        None => now,
    }
}

fn weekday_number(ce_day: i32) -> (r: u8)
    requires
        -96_000_000 <= ce_day <= 96_000_000,
    ensures
        r == zone::iso_weekday(ce_day as int),
{
    // 98_000_000 is a multiple of 7.
    let shifted: u32 = (ce_day + 98_000_000 - 1) as u32;
    assert((ce_day + 97_999_999) % 7 == (ce_day - 1) % 7);
    (shifted % 7) as u8 + 1
}

/// The next instant at which the wall clock shows the slot, going by calendar days: a
/// change of the clock moves the instant, not the hour. Where nothing is found within
/// fifteen days, now.
pub fn next_occurrence(zone: &Zone, now: i64, day_of_week: Option<u8>, hour: u8) -> (r: i64)
    ensures
        r == next_of(zone@, now, day_of_week, hour),
        r >= now,
        r > now ==> slot_shown(zone@, r, day_of_week, hour),
{
    let first = match zone.read(now) {
        Some(p) => p.ce_day,
        None => {
            return now;
        },
    };
    let mut i: i32 = 0;
    while i < 15
        invariant
            0 <= i <= 15,
            -95_746_130 <= first <= 95_745_400,
            zone::zone_reading(zone@, now) is Some,
            zone::zone_reading(zone@, now)->0.ce_day == first,
            next_of(zone@, now, day_of_week, hour) == first_after(
                zone@,
                now,
                day_of_week,
                hour,
                first + i,
                (15 - i) as nat,
            ),
        decreases 15 - i,
    {
        let day: i32 = first + i;
        let fits = match day_of_week {
            Some(d) => weekday_number(day) == d,
            None => true,
        };
        if fits {
            if let Some(at) = local_instant(zone, day, hour) {
                if at > now {
                    proof {
                        assert(occurs(zone@, now, day_of_week, hour, day as int));
                        assert(zone::zone_shows(zone@, at, day as int, hour as int));
                    }
                    return at;
                }
            }
        }
        i = i + 1;
    }
    now
}

/// What the wall clock shows at an instant of a slot: its weekday, and its hour unless
/// that day skips it.
pub open spec fn slot_shown(zone: Seq<char>, at: i64, day_of_week: Option<u8>, hour: u8) -> bool {
    exists|ce_day: int|
        #![trigger zone::zone_shows(zone, at, ce_day, hour as int)]
        zone::zone_shows(zone, at, ce_day, hour as int) && day_fits(ce_day, day_of_week)
}

// ── Lift ───────────────────────────────────────────────────────────────────────

/// How much `a` exceeds `b`, in percent of `b`, to the nearest whole number; halves go
/// away from zero.
pub open spec fn percent_over(a: int, b: int) -> int {
    if a >= b {
        (200 * (a - b) + b) / (2 * b)
    } else {
        -((200 * (b - a) + b) / (2 * b))
    }
}

/// How much better a bucket's mean is than the mean of everything.
pub open spec fn lift_of(sum: int, count: int, total: int, n: int) -> Option<i64> {
    if total <= 0 || count < MIN_FINE_BUCKET_SAMPLE {
        None
    } else {
        let p = percent_over(sum * n, total * count);
        Some(
            if p > i64::MAX {
                i64::MAX
            } else {
                p as i64
            },
        )
    }
}

/// A hundred times a part of `b`, as a quotient by `b` and what remains.
fn hundredfold(part: u128, b: u128) -> (r: (u128, u128))
    requires
        part < b,
    ensures
        r.0 * b + r.1 == 100 * part,
        r.1 < b,
        r.0 < 100,
{
    let mut q: u128 = 0;
    let mut rem: u128 = 0;
    let mut i: u128 = 0;
    while i < 100
        invariant
            i <= 100,
            part < b,
            rem < b,
            q <= i,
            q * b + rem == i * part,
        decreases 100 - i,
    {
        if rem >= b - part {
            proof {
                assert((q + 1) * b == q * b + b) by (nonlinear_arith);
            }
            rem = rem - (b - part);
            q = q + 1;
        } else {
            rem = rem + part;
        }
        proof {
            assert((i + 1) * part == i * part + part) by (nonlinear_arith);
        }
        i = i + 1;
    }
    proof {
        assert(q < 100) by (nonlinear_arith)
            requires
                q * b + rem == 100 * part,
                part < b,
                0 <= rem,
                0 <= q,
        ;
    }
    (q, rem)
}

/// A hundred times `d`, in units of `b`, to the nearest whole number, or the bound where
/// it is above it.
fn rounded_percent(d: u128, b: u128) -> (r: u64)
    requires
        0 < b,
    ensures
        r == (if (200 * d + b) / (2 * b) > i64::MAX {
            i64::MAX as int
        } else {
            (200 * d + b) / (2 * b)
        }),
{
    let whole: u128 = d / b;
    let part: u128 = d % b;
    let (q, rem) = hundredfold(part, b);
    let up: u128 = if rem >= b - rem {
        1
    } else {
        0
    };
    proof {
        lemma_rounding(d as int, b as int, whole as int, part as int, q as int, rem as int, up as int);
    }
    if whole > 92_233_720_368_547_758 {
        i64::MAX as u64
    } else {
        let p: u128 = whole * 100 + q + up;
        if p > i64::MAX as u128 {
            i64::MAX as u64
        } else {
            p as u64
        }
    }
}

proof fn lemma_rounding(d: int, b: int, whole: int, part: int, q: int, rem: int, up: int)
    requires
        0 < b,
        0 <= d,
        whole == d / b,
        part == d % b,
        q * b + rem == 100 * part,
        0 <= rem < b,
        up == (if 2 * rem >= b {
            1int
        } else {
            0
        }),
    ensures
        (200 * d + b) / (2 * b) == 100 * whole + q + up,
{
    vstd::arithmetic::div_mod::lemma_fundamental_div_mod(d, b);
    let k = 100 * whole + q + up;
    let m = 200 * d + b - k * (2 * b);
    assert(m == 2 * rem + b - up * (2 * b)) by (nonlinear_arith)
        requires
            d == b * whole + part,
            q * b + rem == 100 * part,
            k == 100 * whole + q + up,
            m == 200 * d + b - k * (2 * b),
    ;
    assert(0 <= m < 2 * b) by (nonlinear_arith)
        requires
            m == 2 * rem + b - up * (2 * b),
            0 <= rem < b,
            up == (if 2 * rem >= b {
                1int
            } else {
                0
            }),
    ;
    vstd::arithmetic::div_mod::lemma_fundamental_div_mod_converse(200 * d + b, 2 * b, k, m);
}

/// How much better the mean of a slot is than the mean of everything, in percent.
pub fn lift_pct(sum: u64, count: usize, total: u64, n: usize) -> (r: Option<i64>)
    ensures
        r == lift_of(sum as int, count as int, total as int, n as int),
        r is Some ==> r->0 >= -100,
{
    if total == 0 || count < MIN_FINE_BUCKET_SAMPLE {
        return None;
    }
    proof {
        assert(sum * n <= u64::MAX * u64::MAX) by (nonlinear_arith)
            requires
                0 <= sum <= u64::MAX,
                0 <= n <= u64::MAX,
        ;
        assert(0 < total * count <= u64::MAX * u64::MAX) by (nonlinear_arith)
            requires
                0 < total <= u64::MAX,
                0 < count <= u64::MAX,
        ;
        assert(0 <= sum * n) by (nonlinear_arith)
            requires
                0 <= sum,
                0 <= n,
        ;
    }
    let a: u128 = sum as u128 * n as u128;
    let b: u128 = total as u128 * count as u128;
    if a >= b {
        Some(rounded_percent(a - b, b) as i64)
    } else {
        proof {
            assert((200 * (b - a) + b) / (2 * b as int) <= 100) by (nonlinear_arith)
                requires
                    0 <= a < b,
            ;
        }
        Some(-(rounded_percent(b - a, b) as i64))
    }
}

// ── Buckets ────────────────────────────────────────────────────────────────────

/// A weekday and hour, or an hour over all days.
#[derive(Debug, Clone, Copy, PartialEq, Eq, Structural)]
pub struct SlotKey {
    pub day: Option<u8>,
    pub hour: u8,
}

/// The posts of one slot: their summed engagement, within 64 bits, and their number.
#[derive(Debug, Clone, Copy, PartialEq, Eq, Structural)]
pub struct Bucket {
    pub key: SlotKey,
    pub sum: u64,
    pub count: usize,
}

pub open spec fn capped(n: nat) -> u64 {
    if n > u64::MAX {
        u64::MAX
    } else {
        n as u64
    }
}

/// The samples with a time.
pub open spec fn dated(samples: Seq<TimingSample>) -> Seq<TimingSample>
    decreases samples.len(),
{
    if samples.len() == 0 {
        samples
    } else if samples.last().published_at > 0 {
        dated(samples.drop_last()).push(samples.last())
    } else {
        dated(samples.drop_last())
    }
}

pub open spec fn engagement_sum(samples: Seq<TimingSample>) -> nat
    decreases samples.len(),
{
    if samples.len() == 0 {
        0
    } else {
        engagement_sum(samples.drop_last()) + samples.last().engagement as nat
    }
}

/// The slot a sample falls in.
pub open spec fn key_of(zone: Seq<char>, at: i64, by_day: bool) -> Option<SlotKey> {
    match zone::weekday_hour_of(zone, at) {
        Some((d, h)) => Some(
            SlotKey {
                day: if by_day {
                    Some(d)
                } else {
                    None
                },
                hour: h,
            },
        ),
        None => None,
    }
}

/// Each sample that the zone's clock can read, by its slot.
pub open spec fn placed(samples: Seq<TimingSample>, zone: Seq<char>, by_day: bool) -> Seq<
    (SlotKey, u64),
>
    decreases samples.len(),
{
    if samples.len() == 0 {
        Seq::empty()
    } else {
        let init = placed(samples.drop_last(), zone, by_day);
        match key_of(zone, samples.last().published_at, by_day) {
            Some(k) => init.push((k, samples.last().engagement)),
            None => init,
        }
    }
}

pub open spec fn slot_keys(s: Seq<(SlotKey, u64)>) -> Seq<SlotKey> {
    s.map_values(|x: (SlotKey, u64)| x.0)
}

pub open spec fn sum_in(s: Seq<(SlotKey, u64)>, k: SlotKey) -> nat
    decreases s.len(),
{
    if s.len() == 0 {
        0
    } else if s.last().0 == k {
        sum_in(s.drop_last(), k) + s.last().1 as nat
    } else {
        sum_in(s.drop_last(), k)
    }
}

pub open spec fn count_in(s: Seq<(SlotKey, u64)>, k: SlotKey) -> nat
    decreases s.len(),
{
    if s.len() == 0 {
        0
    } else if s.last().0 == k {
        count_in(s.drop_last(), k) + 1
    } else {
        count_in(s.drop_last(), k)
    }
}

pub open spec fn bucket_in(s: Seq<(SlotKey, u64)>, k: SlotKey) -> Bucket {
    Bucket { key: k, sum: capped(sum_in(s, k)), count: count_in(s, k) as usize }
}

/// One bucket for each slot that occurs.
pub open spec fn buckets(s: Seq<(SlotKey, u64)>) -> Seq<Bucket> {
    lists::deduped(slot_keys(s)).map_values(|k: SlotKey| bucket_in(s, k))
}

/// The buckets with enough posts behind them.
pub open spec fn trusted_of(b: Seq<Bucket>) -> Seq<Bucket>
    decreases b.len(),
{
    if b.len() == 0 {
        b
    } else if b.last().count >= MIN_FINE_BUCKET_SAMPLE {
        trusted_of(b.drop_last()).push(b.last())
    } else {
        trusted_of(b.drop_last())
    }
}

proof fn lemma_count(s: Seq<(SlotKey, u64)>, k: SlotKey)
    ensures
        count_in(s, k) <= s.len(),
        !slot_keys(s).contains(k) ==> count_in(s, k) == 0 && sum_in(s, k) == 0,
    decreases s.len(),
{
    if s.len() > 0 {
        let init = s.drop_last();
        lemma_count(init, k);
        assert(slot_keys(s).drop_last() =~= slot_keys(init));
        if !slot_keys(s).contains(k) {
            if slot_keys(init).contains(k) {
                let i = choose|i: int| 0 <= i < init.len() && slot_keys(init)[i] == k;
                assert(slot_keys(s)[i] == k);
            }
            assert(slot_keys(s)[s.len() - 1] != k);
        }
    }
}

fn find_bucket(b: &Vec<Bucket>, k: SlotKey) -> (r: Option<usize>)
    ensures
        match r {
            Some(j) => j < b.len() && b@[j as int].key == k,
            None => forall|j: int| 0 <= j < b.len() ==> (#[trigger] b@[j]).key != k,
        },
{
    let mut j: usize = 0;
    while j < b.len()
        invariant
            j <= b.len(),
            forall|l: int| 0 <= l < j ==> (#[trigger] b@[l]).key != k,
        decreases b.len() - j,
    {
        if b[j].key == k {
            return Some(j);
        }
        j = j + 1;
    }
    None
}

proof fn lemma_buckets_step(s: Seq<(SlotKey, u64)>, x: (SlotKey, u64))
    ensures
        ({
            let b = buckets(s);
            let c = buckets(s.push(x));
            let grown = Bucket {
                key: x.0,
                sum: capped(sum_in(s, x.0) + x.1 as nat),
                count: (count_in(s, x.0) + 1) as usize,
            };
            &&& forall|j: int|
                0 <= j < b.len() && (#[trigger] b[j]).key == x.0 ==> c == b.update(j, grown)
            &&& (forall|j: int| 0 <= j < b.len() ==> (#[trigger] b[j]).key != x.0) ==> {
                &&& c == b.push(grown)
                &&& sum_in(s, x.0) == 0
                &&& count_in(s, x.0) == 0
            }
        }),
{
    let t = s.push(x);
    let k = x.0;
    assert(t.drop_last() =~= s);
    assert(slot_keys(t).drop_last() =~= slot_keys(s));
    assert(slot_keys(t).last() == k);
    let d = lists::deduped(slot_keys(s));
    let e = lists::deduped(slot_keys(t));
    let b = buckets(s);
    let c = buckets(t);
    let grown = bucket_in(t, k);
    lists::dedup_laws(slot_keys(s));
    assert forall|o: SlotKey| o != k implies #[trigger] bucket_in(t, o) == bucket_in(s, o) by {
    }
    assert forall|j: int| 0 <= j < b.len() && (#[trigger] b[j]).key == k implies c == b.update(
        j,
        grown,
    ) by {
        assert(d[j] == k);
        assert(d.contains(k));
        assert(e == d);
        assert forall|l: int| 0 <= l < d.len() && l != j implies d[l] != k by {
            assert(d[l] != d[j]);
        }
        assert(c =~= b.update(j, grown));
    }
    if forall|j: int| 0 <= j < b.len() ==> (#[trigger] b[j]).key != k {
        assert(!d.contains(k)) by {
            if d.contains(k) {
                let j = choose|j: int| 0 <= j < d.len() && d[j] == k;
                assert(b[j].key == k);
            }
        }
        assert(e == d.push(k));
        lemma_count(s, k);
        assert forall|l: int| 0 <= l < d.len() implies d[l] != k by {
            assert(b[l].key != k);
        }
        assert(c =~= b.push(grown));
    }
}

/// Gather samples by their slot.
pub fn bucket_up(s: &Vec<(SlotKey, u64)>) -> (r: Vec<Bucket>)
    ensures
        r@ == buckets(s@),
{
    let mut out: Vec<Bucket> = Vec::new();
    let mut i: usize = 0;
    assert(buckets(s@.take(0)) =~= Seq::<Bucket>::empty());
    while i < s.len()
        invariant
            i <= s.len(),
            out@ == buckets(s@.take(i as int)),
        decreases s.len() - i,
    {
        let (k, engagement) = s[i];
        let ghost before = s@.take(i as int);
        proof {
            assert(s@.take(i as int + 1) =~= before.push(s@[i as int]));
            lemma_buckets_step(before, s@[i as int]);
            lemma_count(before, k);
        }
        match find_bucket(&out, k) {
            Some(j) => {
                let b = out[j];
                assert(out@[j as int].key == k);
                assert(b == bucket_in(before, k));
                out.set(
                    j,
                    Bucket { key: k, sum: b.sum.saturating_add(engagement), count: b.count + 1 },
                );
            },
            None => {
                out.push(Bucket { key: k, sum: engagement, count: 1 });
            },
        }
        i = i + 1;
    }
    assert(s@.take(s@.len() as int) =~= s@);
    out
}

// ── Order ──────────────────────────────────────────────────────────────────────

impl Bucket {
    /// What the sum is divided by for the mean; the mean of nothing is nothing.
    pub open spec fn weight(self) -> int {
        if self.count == 0 {
            1
        } else {
            self.count as int
        }
    }

    /// Whether the mean is above the other's.
    pub open spec fn beats(self, other: Self) -> bool {
        self.sum * other.weight() > other.sum * self.weight()
    }
}

pub open spec fn day_number(day: Option<u8>) -> int {
    match day {
        Some(d) => d as int,
        None => -1,
    }
}

/// The slot that comes earlier in the week.
pub open spec fn key_le(a: SlotKey, b: SlotKey) -> bool {
    day_number(a.day) < day_number(b.day) || (day_number(a.day) == day_number(b.day) && a.hour
        <= b.hour)
}

/// Slots: the best mean first, and in the order of the week among equals.
impl Ranked for Bucket {
    open spec fn le(self, other: Self) -> bool {
        self.beats(other) || (!other.beats(self) && key_le(self.key, other.key))
    }

    proof fn le_total(a: Self, b: Self) {
    }

    proof fn le_transitive(a: Self, b: Self, c: Self) {
        lemma_mean_order(
            a.sum as int,
            a.weight(),
            b.sum as int,
            b.weight(),
            c.sum as int,
            c.weight(),
        );
    }

    fn is_le(&self, other: &Self) -> (r: bool) {
        let m: u128 = weight_of(self);
        let n: u128 = weight_of(other);
        proof {
            assert(self.sum * n <= u64::MAX * u64::MAX) by (nonlinear_arith)
                requires
                    0 <= self.sum <= u64::MAX,
                    0 <= n <= u64::MAX,
            ;
            assert(other.sum * m <= u64::MAX * u64::MAX) by (nonlinear_arith)
                requires
                    0 <= other.sum <= u64::MAX,
                    0 <= m <= u64::MAX,
            ;
        }
        let x: u128 = self.sum as u128 * n;
        let y: u128 = other.sum as u128 * m;
        if x != y {
            return x > y;
        }
        match (self.key.day, other.key.day) {
            (Some(d), Some(e)) => d < e || (d == e && self.key.hour <= other.key.hour),
            (Some(_), None) => false,
            (None, Some(_)) => true,
            (None, None) => self.key.hour <= other.key.hour,
        }
    }
}

fn weight_of(b: &Bucket) -> (r: u128)
    ensures
        r == b.weight(),
        0 < r <= u64::MAX,
{
    if b.count == 0 {
        1
    } else {
        b.count as u128
    }
}

proof fn lemma_mean_order(p: int, k: int, q: int, l: int, r: int, m: int)
    requires
        0 < k,
        0 < l,
        0 < m,
        0 <= p,
        0 <= q,
        0 <= r,
    ensures
        p * l >= q * k && q * m >= r * l ==> p * m >= r * k,
        p * l > q * k && q * m >= r * l ==> p * m > r * k,
        p * l >= q * k && q * m > r * l ==> p * m > r * k,
{
    if p * l >= q * k && q * m >= r * l {
        assert(p * l * m >= q * k * m) by (nonlinear_arith)
            requires
                p * l >= q * k,
                0 < m,
        ;
        assert(q * m * k >= r * l * k) by (nonlinear_arith)
            requires
                q * m >= r * l,
                0 < k,
        ;
        assert(q * k * m == q * m * k) by (nonlinear_arith);
        assert(p * l * m == (p * m) * l) by (nonlinear_arith);
        assert(r * l * k == (r * k) * l) by (nonlinear_arith);
        assert(p * m >= r * k) by (nonlinear_arith)
            requires
                (p * m) * l >= (r * k) * l,
                0 < l,
        ;
        if p * l > q * k {
            assert(p * l * m > q * k * m) by (nonlinear_arith)
                requires
                    p * l > q * k,
                    0 < m,
            ;
            assert(p * m > r * k) by (nonlinear_arith)
                requires
                    (p * m) * l > (r * k) * l,
                    0 < l,
            ;
        }
        if q * m > r * l {
            assert(q * m * k > r * l * k) by (nonlinear_arith)
                requires
                    q * m > r * l,
                    0 < k,
            ;
            assert(p * m > r * k) by (nonlinear_arith)
                requires
                    (p * m) * l > (r * k) * l,
                    0 < l,
            ;
        }
    }
}

// ── The recommendation ─────────────────────────────────────────────────────────

pub open spec fn default_slot(zone: Seq<char>, now: i64, i: int) -> TimeSlot {
    let (day, hour) = DEFAULT_SLOTS@[i];
    TimeSlot {
        day_of_week: Some(day),
        hour,
        lift_pct: None,
        sample_size: 0,
        next_occurrence: next_of(zone, now, Some(day), hour),
    }
}

pub open spec fn slot_for(b: Bucket, total: int, n: int, zone: Seq<char>, now: i64) -> TimeSlot {
    TimeSlot {
        day_of_week: b.key.day,
        hour: b.key.hour,
        lift_pct: lift_of(b.sum as int, b.count as int, total, n),
        sample_size: b.count,
        next_occurrence: next_of(zone, now, b.key.day, b.key.hour),
    }
}

/// The best buckets, at most [`MAX_SLOTS`].
pub open spec fn best_of(b: Seq<Bucket>) -> Seq<Bucket> {
    let all = rank::ranked(b);
    if all.len() > MAX_SLOTS {
        all.take(MAX_SLOTS as int)
    } else {
        all
    }
}

/// The slots of the best buckets.
pub open spec fn best_slots(b: Seq<Bucket>, total: int, n: int, zone: Seq<char>, now: i64) -> Seq<
    TimeSlot,
> {
    best_of(b).map_values(|x: Bucket| slot_for(x, total, n, zone, now))
}

/// The recommendation: the built-in slots where history is thin; else the best weekdays
/// and hours among those that repeat; else the best hours.
pub open spec fn recommended(samples: Seq<TimingSample>, zone: Seq<char>, now: i64) -> RecommendationView {
    let d = dated(samples);
    let total = capped(engagement_sum(d)) as int;
    let n = d.len() as int;
    let fine = trusted_of(buckets(placed(d, zone, true)));
    if d.len() < MIN_PLATFORM_SAMPLE {
        RecommendationView {
            timezone: zone,
            basis: TimingBasis::Defaults,
            sample_size: d.len(),
            slots: Seq::new(MAX_SLOTS as nat, |i: int| default_slot(zone, now, i)),
        }
    } else if fine.len() > 0 {
        RecommendationView {
            timezone: zone,
            basis: TimingBasis::WeekdayHour,
            sample_size: d.len(),
            slots: best_slots(fine, total, n, zone, now),
        }
    } else {
        RecommendationView {
            timezone: zone,
            basis: TimingBasis::HourOfDay,
            sample_size: d.len(),
            slots: best_slots(buckets(placed(d, zone, false)), total, n, zone, now),
        }
    }
}

fn keep_dated(samples: &[TimingSample]) -> (r: Vec<TimingSample>)
    ensures
        r@ == dated(samples@),
{
    let mut out: Vec<TimingSample> = Vec::new();
    let mut i: usize = 0;
    assert(samples@.take(0) =~= Seq::<TimingSample>::empty());
    while i < samples.len()
        invariant
            i <= samples.len(),
            out@ == dated(samples@.take(i as int)),
        decreases samples.len() - i,
    {
        assert(samples@.take(i as int + 1).drop_last() =~= samples@.take(i as int));
        if samples[i].published_at > 0 {
            out.push(samples[i]);
        }
        i = i + 1;
    }
    assert(samples@.take(samples@.len() as int) =~= samples@);
    out
}

fn total_engagement(samples: &Vec<TimingSample>) -> (r: u64)
    ensures
        r == capped(engagement_sum(samples@)),
{
    let mut sum: u64 = 0;
    let mut i: usize = 0;
    assert(samples@.take(0) =~= Seq::<TimingSample>::empty());
    while i < samples.len()
        invariant
            i <= samples.len(),
            sum == capped(engagement_sum(samples@.take(i as int))),
        decreases samples.len() - i,
    {
        assert(samples@.take(i as int + 1).drop_last() =~= samples@.take(i as int));
        sum = sum.saturating_add(samples[i].engagement);
        i = i + 1;
    }
    assert(samples@.take(samples@.len() as int) =~= samples@);
    sum
}

fn place(samples: &Vec<TimingSample>, zone: &Zone, by_day: bool) -> (r: Vec<(SlotKey, u64)>)
    ensures
        r@ == placed(samples@, zone@, by_day),
{
    let mut out: Vec<(SlotKey, u64)> = Vec::new();
    let mut i: usize = 0;
    assert(samples@.take(0) =~= Seq::<TimingSample>::empty());
    while i < samples.len()
        invariant
            i <= samples.len(),
            out@ == placed(samples@.take(i as int), zone@, by_day),
        decreases samples.len() - i,
    {
        assert(samples@.take(i as int + 1).drop_last() =~= samples@.take(i as int));
        if let Some((d, h)) = local_weekday_hour(zone, samples[i].published_at) {
            let day = if by_day {
                Some(d)
            } else {
                None
            };
            out.push((SlotKey { day, hour: h }, samples[i].engagement));
        }
        i = i + 1;
    }
    assert(samples@.take(samples@.len() as int) =~= samples@);
    out
}

fn keep_trusted(b: Vec<Bucket>) -> (r: Vec<Bucket>)
    ensures
        r@ == trusted_of(b@),
{
    let mut out: Vec<Bucket> = Vec::new();
    let mut i: usize = 0;
    assert(b@.take(0) =~= Seq::<Bucket>::empty());
    while i < b.len()
        invariant
            i <= b.len(),
            out@ == trusted_of(b@.take(i as int)),
        decreases b.len() - i,
    {
        assert(b@.take(i as int + 1).drop_last() =~= b@.take(i as int));
        if b[i].count >= MIN_FINE_BUCKET_SAMPLE {
            out.push(b[i]);
        }
        i = i + 1;
    }
    assert(b@.take(b@.len() as int) =~= b@);
    out
}

fn best_buckets(b: Vec<Bucket>) -> (r: Vec<Bucket>)
    ensures
        r@ == best_of(b@),
{
    let mut ranked = sort_ranked(b);
    if ranked.len() > MAX_SLOTS {
        ranked.truncate(MAX_SLOTS);
        assert(ranked@ =~= rank::ranked(b@).take(MAX_SLOTS as int));
    }
    ranked
}

/// Choose among samples that have been placed by weekday and hour, and by hour alone:
/// the best weekdays and hours among those that repeat; where none does, the best
/// hours.
pub fn choose_buckets(by_day: &Vec<(SlotKey, u64)>, by_hour: &Vec<(SlotKey, u64)>) -> (r: (
    TimingBasis,
    Vec<Bucket>,
))
    ensures
        ({
            let fine = trusted_of(buckets(by_day@));
            if fine.len() > 0 {
                r.0 == TimingBasis::WeekdayHour && r.1@ == best_of(fine)
            } else {
                r.0 == TimingBasis::HourOfDay && r.1@ == best_of(buckets(by_hour@))
            }
        }),
{
    let fine = keep_trusted(bucket_up(by_day));
    if fine.len() > 0 {
        (TimingBasis::WeekdayHour, best_buckets(fine))
    } else {
        (TimingBasis::HourOfDay, best_buckets(bucket_up(by_hour)))
    }
}

fn slots_for(b: &Vec<Bucket>, total: u64, n: usize, zone: &Zone, now: i64) -> (r: Vec<TimeSlot>)
    ensures
        r@ == b@.map_values(|x: Bucket| slot_for(x, total as int, n as int, zone@, now)),
{
    let ghost want = b@.map_values(|x: Bucket| slot_for(x, total as int, n as int, zone@, now));
    let mut out: Vec<TimeSlot> = Vec::new();
    let mut i: usize = 0;
    while i < b.len()
        invariant
            i <= b.len(),
            want == b@.map_values(|x: Bucket| slot_for(x, total as int, n as int, zone@, now)),
            out@ == want.take(i as int),
        decreases b.len() - i,
    {
        let x = b[i];
        let slot = TimeSlot {
            day_of_week: x.key.day,
            hour: x.key.hour,
            lift_pct: lift_pct(x.sum, x.count, total, n),
            sample_size: x.count,
            next_occurrence: next_occurrence(zone, now, x.key.day, x.key.hour),
        };
        proof {
            assert(slot == slot_for(x, total as int, n as int, zone@, now));
            assert(want[i as int] == slot);
            assert(want.take(i as int + 1) =~= want.take(i as int).push(slot));
        }
        out.push(slot);
        i = i + 1;
    }
    assert(want.take(want.len() as int) =~= want);
    out
}

/// The slots to post in, from past posts.
pub fn recommend_slots(samples: &[TimingSample], zone: &Zone, now: i64) -> (r: TimingRecommendation)
    ensures
        r@ == recommended(samples@, zone@, now),
{
    let kept = keep_dated(samples);
    let n = kept.len();
    if n < MIN_PLATFORM_SAMPLE {
        let ghost want = Seq::new(MAX_SLOTS as nat, |i: int| default_slot(zone@, now, i));
        let mut slots: Vec<TimeSlot> = Vec::new();
        let mut i: usize = 0;
        while i < 3
            invariant
                i <= 3,
                want == Seq::new(MAX_SLOTS as nat, |i: int| default_slot(zone@, now, i)),
                slots@ == want.take(i as int),
            decreases 3 - i,
        {
            let (day, hour) = DEFAULT_SLOTS[i];
            let slot = TimeSlot {
                day_of_week: Some(day),
                hour,
                lift_pct: None,
                sample_size: 0,
                next_occurrence: next_occurrence(zone, now, Some(day), hour),
            };
            proof {
                assert(slot == default_slot(zone@, now, i as int));
                assert(want.take(i as int + 1) =~= want.take(i as int).push(slot));
            }
            slots.push(slot);
            i = i + 1;
        }
        assert(want.take(3) =~= want);
        return TimingRecommendation {
            timezone: zone.name.clone(),
            basis: TimingBasis::Defaults,
            sample_size: n,
            slots,
        };
    }
    let total = total_engagement(&kept);
    let (basis, best) = choose_buckets(&place(&kept, zone, true), &place(&kept, zone, false));
    TimingRecommendation {
        timezone: zone.name.clone(),
        basis,
        sample_size: n,
        slots: slots_for(&best, total, n, zone, now),
    }
}

// ── From stored rows ───────────────────────────────────────────────────────────

pub open spec fn sample_of(item: ActivityItem) -> Option<TimingSample> {
    match item.published_at {
        Some(at) => Some(
            TimingSample { published_at: at, engagement: analytics::engagement_of(item) as u64 },
        ),
        None => None,
    }
}

/// A stored row as a sample, where it has a time.
pub fn sample_from_activity(item: &ActivityItem) -> (r: Option<TimingSample>)
    requires
        analytics::engagement_of(*item) <= u64::MAX,
    ensures
        r == sample_of(*item),
{
    match item.published_at {
        Some(at) => Some(TimingSample { published_at: at, engagement: item_engagement(item) }),
        None => None,
    }
}

/// The samples of one platform, or of all.
pub open spec fn samples_of(items: Seq<ActivityItem>, platform: Option<Platform>) -> Seq<TimingSample>
    decreases items.len(),
{
    if items.len() == 0 {
        Seq::empty()
    } else {
        let init = samples_of(items.drop_last(), platform);
        match sample_of(items.last()) {
            Some(x) => if platform is None || platform == Some(items.last().platform) {
                init.push(x)
            } else {
                init
            },
            None => init,
        }
    }
}

/// The recommendation from a workspace's stored rows, in the zone its settings name.
pub fn best_times(
    items: &[ActivityItem],
    platform: Option<Platform>,
    timezone: &str,
    now: i64,
) -> (r: TimingRecommendation)
    requires
        forall|i: int| 0 <= i < items@.len() ==> analytics::engagement_of(#[trigger] items@[i]) <= u64::MAX,
    ensures
        r@ == recommended(samples_of(items@, platform), zone::zone_of(timezone@), now),
{
    let mut samples: Vec<TimingSample> = Vec::new();
    let mut i: usize = 0;
    assert(items@.take(0) =~= Seq::<ActivityItem>::empty());
    while i < items.len()
        invariant
            i <= items.len(),
            forall|i: int|
                0 <= i < items@.len() ==> analytics::engagement_of(#[trigger] items@[i]) <= u64::MAX,
            samples@ == samples_of(items@.take(i as int), platform),
        decreases items.len() - i,
    {
        assert(items@.take(i as int + 1).drop_last() =~= items@.take(i as int));
        let wanted = match platform {
            Some(p) => p == items[i].platform,
            None => true,
        };
        if wanted {
            if let Some(x) = sample_from_activity(&items[i]) {
                samples.push(x);
            }
        }
        i = i + 1;
    }
    assert(items@.take(items@.len() as int) =~= items@);
    let zone = zone_for(timezone);
    recommend_slots(samples.as_slice(), &zone, now)
}

// ── Laws ───────────────────────────────────────────────────────────────────────

/// A recommendation claims no more than its history shows: it holds at most
/// [`MAX_SLOTS`] slots; the built-in ones exactly where fewer than
/// [`MIN_PLATFORM_SAMPLE`] posts are dated, and without a lift; a weekday only where
/// the slot repeats; and no weekday at all where hours were pooled.
pub proof fn recommendations_are_honest(samples: Seq<TimingSample>, zone: Seq<char>, now: i64)
    ensures
        ({
            let r = recommended(samples, zone, now);
            &&& r.slots.len() <= MAX_SLOTS
            &&& r.sample_size == dated(samples).len()
            &&& r.basis == TimingBasis::Defaults <==> r.sample_size < MIN_PLATFORM_SAMPLE
            &&& forall|i: int|
                0 <= i < r.slots.len() ==> match r.basis {
                    TimingBasis::Defaults => (#[trigger] r.slots[i]).lift_pct is None,
                    TimingBasis::WeekdayHour => r.slots[i].day_of_week is Some
                        && r.slots[i].sample_size >= MIN_FINE_BUCKET_SAMPLE,
                    TimingBasis::HourOfDay => r.slots[i].day_of_week is None,
                }
        }),
{
    let d = dated(samples);
    let r = recommended(samples, zone, now);
    let fine = trusted_of(buckets(placed(d, zone, true)));
    if d.len() >= MIN_PLATFORM_SAMPLE {
        lemma_trusted(buckets(placed(d, zone, true)));
        lemma_bucket_days(d, zone, true);
        lemma_bucket_days(d, zone, false);
        let b = if fine.len() > 0 {
            fine
        } else {
            buckets(placed(d, zone, false))
        };
        rank::lemma_ranked(b);
        assert forall|i: int| 0 <= i < r.slots.len() implies match r.basis {
            TimingBasis::Defaults => (#[trigger] r.slots[i]).lift_pct is None,
            TimingBasis::WeekdayHour => r.slots[i].day_of_week is Some
                && r.slots[i].sample_size >= MIN_FINE_BUCKET_SAMPLE,
            TimingBasis::HourOfDay => r.slots[i].day_of_week is None,
        } by {
            lemma_ranked_from(b, i);
        }
    }
}

proof fn lemma_ranked_from(b: Seq<Bucket>, i: int)
    requires
        0 <= i < rank::ranked(b).len(),
    ensures
        b.contains(rank::ranked(b)[i]),
{
    broadcast use vstd::seq_lib::group_to_multiset_ensures;

    let all = rank::ranked(b);
    rank::lemma_ranked(b);
    assert(all.contains(all[i]));
    assert(all.to_multiset().contains(all[i]));
}

proof fn lemma_trusted(b: Seq<Bucket>)
    ensures
        forall|x: Bucket|
            #[trigger] trusted_of(b).contains(x) ==> b.contains(x) && x.count
                >= MIN_FINE_BUCKET_SAMPLE,
    decreases b.len(),
{
    if b.len() > 0 {
        let init = b.drop_last();
        lemma_trusted(init);
        let t = trusted_of(b);
        let u = trusted_of(init);
        assert forall|x: Bucket| #[trigger] t.contains(x) implies b.contains(x) && x.count
            >= MIN_FINE_BUCKET_SAMPLE by {
            let i = choose|i: int| 0 <= i < t.len() && t[i] == x;
            if i < u.len() {
                assert(u[i] == x);
                assert(u.contains(x));
                let j = choose|j: int| 0 <= j < init.len() && init[j] == x;
                assert(b[j] == x);
            } else {
                assert(b[b.len() - 1] == x);
            }
        }
    }
}

proof fn lemma_bucket_days(d: Seq<TimingSample>, zone: Seq<char>, by_day: bool)
    ensures
        forall|x: Bucket|
            #[trigger] buckets(placed(d, zone, by_day)).contains(x) ==> (x.key.day is Some)
                == by_day,
{
    let s = placed(d, zone, by_day);
    lemma_placed_days(d, zone, by_day);
    lists::dedup_laws(slot_keys(s));
    assert forall|x: Bucket| #[trigger] buckets(s).contains(x) implies (x.key.day is Some)
        == by_day by {
        let i = choose|i: int| 0 <= i < buckets(s).len() && buckets(s)[i] == x;
        let k = lists::deduped(slot_keys(s));
        assert(k[i] == x.key);
        assert(k.contains(x.key));
        assert(slot_keys(s).contains(x.key));
        let j = choose|j: int| 0 <= j < s.len() && slot_keys(s)[j] == x.key;
        assert(s[j].0 == x.key);
    }
}

proof fn lemma_placed_days(d: Seq<TimingSample>, zone: Seq<char>, by_day: bool)
    ensures
        forall|i: int|
            0 <= i < placed(d, zone, by_day).len() ==> ((#[trigger] placed(
                d,
                zone,
                by_day,
            )[i]).0.day is Some) == by_day,
    decreases d.len(),
{
    if d.len() > 0 {
        lemma_placed_days(d.drop_last(), zone, by_day);
    }
}

/// No slot that is left out did better than one that is recommended.
pub proof fn the_best_slots_are_recommended(b: Seq<Bucket>, i: int, j: int)
    requires
        0 <= i < j < b.len(),
    ensures
        rank::ranked(b).to_multiset() == b.to_multiset(),
        !rank::ranked(b)[j].beats(rank::ranked(b)[i]),
{
    rank::lemma_ranked(b);
    let r = rank::ranked(b);
    assert(r[i].le(r[j]));
    if r[i].beats(r[j]) {
        let (x, y) = (r[i], r[j]);
        assert(!(y.sum * x.weight() > x.sum * y.weight()));
    }
}

/// Without any engagement no lift is claimed, nor of a single post; else it is at
/// least minus a hundred, and positive only for what did better than the average.
pub proof fn lifts_are_honest(sum: int, count: int, total: int, n: int)
    requires
        0 <= sum,
        0 < count,
        0 <= total,
        0 < n,
    ensures
        lift_of(sum, count, total, n) is None <==> total == 0 || count < MIN_FINE_BUCKET_SAMPLE,
        lift_of(sum, count, total, n) matches Some(p) ==> -100 <= p && (p > 0 ==> sum * n > total
            * count) && (p < 0 ==> sum * n < total * count),
{
    if total > 0 && count >= MIN_FINE_BUCKET_SAMPLE {
        let a = sum * n;
        let b = total * count;
        assert(a >= 0) by (nonlinear_arith)
            requires
                a == sum * n,
                0 <= sum,
                0 < n,
        ;
        assert(b > 0) by (nonlinear_arith)
            requires
                b == total * count,
                0 < total,
                0 < count,
        ;
        if a == b {
            assert((200 * 0 + b) / (2 * b) == 0) by (nonlinear_arith)
                requires
                    b > 0,
            ;
        } else if a < b {
            assert(0 <= (200 * (b - a) + b) / (2 * b) <= 100) by (nonlinear_arith)
                requires
                    0 <= a < b,
            ;
        } else {
            assert(0 <= (200 * (a - b) + b) / (2 * b)) by (nonlinear_arith)
                requires
                    0 < b < a,
            ;
        }
    }
}

// ── The recommendation in plain figures ────────────────────────────────────────

/// A dated post that the zone's clock reads in this hour, on this weekday where one is
/// given.
pub open spec fn posted_in(x: TimingSample, zone: Seq<char>, day: Option<u8>, hour: u8) -> bool {
    &&& x.published_at > 0
    &&& zone::zone_reading(zone, x.published_at) matches Some(p)
    &&& p.hour as u8 == hour
    &&& day is Some ==> (p.weekday + 1) as u8 == day->0
}

/// The posts of a slot.
pub open spec fn posts_in(
    samples: Seq<TimingSample>,
    zone: Seq<char>,
    day: Option<u8>,
    hour: u8,
) -> Seq<TimingSample> {
    samples.filter(|x: TimingSample| posted_in(x, zone, day, hour))
}

/// The summed engagement of a row of posts.
pub open spec fn engagement_over(samples: Seq<TimingSample>) -> nat {
    lists::sum(samples.map_values(|x: TimingSample| x.engagement as nat))
}

/// The figures of a history fit in machine words.
pub open spec fn countable(samples: Seq<TimingSample>) -> bool {
    samples.len() <= usize::MAX && engagement_over(samples) <= u64::MAX
}

proof fn lemma_over_push(samples: Seq<TimingSample>, x: TimingSample)
    ensures
        engagement_over(samples.push(x)) == engagement_over(samples) + x.engagement,
{
    let m = samples.push(x).map_values(|x: TimingSample| x.engagement as nat);
    assert(m.drop_last() =~= samples.map_values(|x: TimingSample| x.engagement as nat));
}

proof fn lemma_slot_figures(samples: Seq<TimingSample>, zone: Seq<char>, by_day: bool, k: SlotKey)
    requires
        (k.day is Some) == by_day,
    ensures
        ({
            let s = placed(dated(samples), zone, by_day);
            &&& sum_in(s, k) == engagement_over(posts_in(samples, zone, k.day, k.hour))
            &&& count_in(s, k) == posts_in(samples, zone, k.day, k.hour).len()
            &&& count_in(s, k) <= samples.len()
            &&& sum_in(s, k) <= engagement_over(samples)
        }),
    decreases samples.len(),
{
    reveal(Seq::filter);
    if samples.len() == 0 {
        assert(samples.map_values(|x: TimingSample| x.engagement as nat).len() == 0);
    } else {
        let init = samples.drop_last();
        let x = samples.last();
        lemma_slot_figures(init, zone, by_day, k);
        assert(init.push(x) =~= samples);
        lemma_over_push(init, x);
        lemma_over_push(posts_in(init, zone, k.day, k.hour), x);
        if x.published_at > 0 {
            let d = dated(init);
            assert(dated(samples).drop_last() =~= d);
            let s = placed(d, zone, by_day);
            match key_of(zone, x.published_at, by_day) {
                Some(key) => {
                    assert(s.push((key, x.engagement)).drop_last() =~= s);
                    assert(key == k <==> posted_in(x, zone, k.day, k.hour));
                },
                None => {},
            }
        }
    }
}

proof fn lemma_slot_kept(samples: Seq<TimingSample>, zone: Seq<char>, by_day: bool, i: int)
    requires
        0 <= i < samples.len(),
        samples[i].published_at > 0,
        key_of(zone, samples[i].published_at, by_day) is Some,
    ensures
        slot_keys(placed(dated(samples), zone, by_day)).contains(
            key_of(zone, samples[i].published_at, by_day)->0,
        ),
    decreases samples.len(),
{
    let init = samples.drop_last();
    let x = samples.last();
    let s = placed(dated(init), zone, by_day);
    let t = placed(dated(samples), zone, by_day);
    if x.published_at > 0 {
        assert(dated(samples).drop_last() =~= dated(init));
    }
    if i < init.len() {
        assert(init[i] == samples[i]);
        lemma_slot_kept(init, zone, by_day, i);
        let k = key_of(zone, samples[i].published_at, by_day)->0;
        let j = choose|j: int| 0 <= j < s.len() && slot_keys(s)[j] == k;
        assert(slot_keys(t)[j] == k);
    } else {
        assert(slot_keys(t)[s.len() as int] == key_of(zone, x.published_at, by_day)->0);
    }
}

/// One bucket for each slot that occurs, and none twice.
proof fn lemma_buckets(s: Seq<(SlotKey, u64)>)
    ensures
        forall|x: Bucket|
            #[trigger] buckets(s).contains(x) ==> x == bucket_in(s, x.key) && slot_keys(
                s,
            ).contains(x.key),
        forall|k: SlotKey|
            slot_keys(s).contains(k) ==> buckets(s).contains(#[trigger] bucket_in(s, k)),
        buckets(s).no_duplicates(),
{
    let d = lists::deduped(slot_keys(s));
    let b = buckets(s);
    lists::dedup_laws(slot_keys(s));
    assert forall|x: Bucket| #[trigger] b.contains(x) implies x == bucket_in(s, x.key) && slot_keys(
        s,
    ).contains(x.key) by {
        let i = choose|i: int| 0 <= i < b.len() && b[i] == x;
        assert(d[i] == x.key);
        assert(d.contains(x.key));
    }
    assert forall|k: SlotKey| slot_keys(s).contains(k) implies b.contains(
        #[trigger] bucket_in(s, k),
    ) by {
        assert(d.contains(k));
        let i = choose|i: int| 0 <= i < d.len() && d[i] == k;
        assert(b[i] == bucket_in(s, k));
    }
    assert forall|i: int, j: int| 0 <= i < b.len() && 0 <= j < b.len() && i != j implies b[i]
        != b[j] by {
        assert(d[i] != d[j]);
        assert(b[i].key == d[i] && b[j].key == d[j]);
    }
}

proof fn lemma_trusted_all(b: Seq<Bucket>)
    ensures
        forall|x: Bucket|
            b.contains(x) && x.count >= MIN_FINE_BUCKET_SAMPLE ==> #[trigger] trusted_of(
                b,
            ).contains(x),
        b.no_duplicates() ==> trusted_of(b).no_duplicates(),
    decreases b.len(),
{
    if b.len() > 0 {
        let init = b.drop_last();
        lemma_trusted_all(init);
        lemma_trusted(init);
        let t = trusted_of(b);
        let u = trusted_of(init);
        assert forall|x: Bucket| b.contains(x) && x.count >= MIN_FINE_BUCKET_SAMPLE implies
            #[trigger] t.contains(x) by {
            let i = choose|i: int| 0 <= i < b.len() && b[i] == x;
            if i < init.len() {
                assert(init[i] == x);
                assert(init.contains(x));
                assert(u.contains(x));
                let j = choose|j: int| 0 <= j < u.len() && u[j] == x;
                assert(t[j] == x);
            } else {
                assert(t[u.len() as int] == x);
            }
        }
        if b.no_duplicates() {
            assert forall|i: int, j: int|
                0 <= i < init.len() && 0 <= j < init.len() && i != j implies init[i] != init[j] by {
                assert(b[i] != b[j]);
            }
            if b.last().count >= MIN_FINE_BUCKET_SAMPLE && u.contains(b.last()) {
                assert(init.contains(b.last()));
                let j = choose|j: int| 0 <= j < init.len() && init[j] == b.last();
                assert(b[j] != b[b.len() - 1]);
            }
        }
    }
}

/// The best buckets are of the buckets, none twice, in the order of their means; and
/// what is left out, where anything is, did no better.
proof fn lemma_best_buckets(b: Seq<Bucket>)
    requires
        b.no_duplicates(),
        forall|i: int| 0 <= i < b.len() ==> (#[trigger] b[i]).count > 0,
    ensures
        ({
            let best = best_of(b);
            &&& best.len() <= 3
            &&& forall|i: int| 0 <= i < best.len() ==> b.contains(#[trigger] best[i])
            &&& forall|i: int, j: int|
                0 <= i < j < best.len() ==> {
                    let (x, y) = (#[trigger] best[i], #[trigger] best[j]);
                    &&& x != y
                    &&& x.sum * y.count >= y.sum * x.count
                    &&& x.sum * y.count == y.sum * x.count ==> key_le(x.key, y.key)
                }
            &&& forall|y: Bucket|
                #[trigger] b.contains(y) ==> best.contains(y) || (best.len() == 3 && forall|i: int|
                    0 <= i < best.len() ==> (#[trigger] best[i]).sum * y.count >= y.sum
                        * best[i].count)
        }),
{
    broadcast use vstd::seq_lib::group_to_multiset_ensures;

    let all = rank::ranked(b);
    let best = best_of(b);
    rank::lemma_ranked(b);
    b.lemma_multiset_has_no_duplicates();
    all.lemma_multiset_has_no_duplicates_conv();
    assert forall|i: int| 0 <= i < all.len() implies b.contains(#[trigger] all[i]) && all[i].count
        > 0 by {
        lemma_ranked_from(b, i);
        let j = choose|j: int| 0 <= j < b.len() && b[j] == all[i];
        assert(b[j].count > 0);
    }
    assert forall|i: int| 0 <= i < best.len() implies #[trigger] best[i] == all[i] by {}
    assert forall|i: int, j: int| 0 <= i < j < best.len() implies {
        let (x, y) = (#[trigger] best[i], #[trigger] best[j]);
        &&& x != y
        &&& x.sum * y.count >= y.sum * x.count
        &&& x.sum * y.count == y.sum * x.count ==> key_le(x.key, y.key)
    } by {
        assert(all[i].le(all[j]));
        assert(all[i] != all[j]);
    }
    assert forall|y: Bucket| #[trigger] b.contains(y) implies best.contains(y) || (best.len() == 3
        && forall|i: int|
        0 <= i < best.len() ==> (#[trigger] best[i]).sum * y.count >= y.sum * best[i].count) by {
        assert(b.to_multiset().contains(y));
        assert(all.contains(y));
        let k = choose|k: int| 0 <= k < all.len() && all[k] == y;
        if k < best.len() {
            assert(best[k] == y);
        } else {
            assert forall|i: int| 0 <= i < best.len() implies (#[trigger] best[i]).sum * y.count
                >= y.sum * best[i].count by {
                assert(all[i].le(all[k]));
            }
        }
    }
}

/// A slot that a history offers: by weekday and hour, where at least two posts share
/// one; by hour alone otherwise.
pub open spec fn offered(
    samples: Seq<TimingSample>,
    zone: Seq<char>,
    by_day: bool,
    day: Option<u8>,
    hour: u8,
) -> bool {
    &&& (day is Some) == by_day
    &&& posts_in(samples, zone, day, hour).len() >= (if by_day {
        2nat
    } else {
        1
    })
}

/// The buckets that slots are chosen from.
spec fn choices(samples: Seq<TimingSample>, zone: Seq<char>, by_day: bool) -> Seq<Bucket> {
    if by_day {
        trusted_of(buckets(placed(dated(samples), zone, true)))
    } else {
        buckets(placed(dated(samples), zone, false))
    }
}

proof fn lemma_offered(samples: Seq<TimingSample>, zone: Seq<char>, by_day: bool, k: SlotKey)
    requires
        countable(samples),
    ensures
        offered(samples, zone, by_day, k.day, k.hour) <==> exists|y: Bucket|
            #[trigger] choices(samples, zone, by_day).contains(y) && y.key == k,
        forall|y: Bucket|
            #[trigger] choices(samples, zone, by_day).contains(y) && y.key == k ==> y.sum
                == engagement_over(posts_in(samples, zone, k.day, k.hour)) && y.count == posts_in(
                samples,
                zone,
                k.day,
                k.hour,
            ).len(),
{
    let s = placed(dated(samples), zone, by_day);
    let all = buckets(s);
    let b = choices(samples, zone, by_day);
    lemma_buckets(s);
    lemma_trusted(all);
    lemma_trusted_all(all);
    lemma_bucket_days(dated(samples), zone, by_day);
    if (k.day is Some) == by_day {
        lemma_slot_figures(samples, zone, by_day, k);
    }
    assert forall|y: Bucket| #[trigger] b.contains(y) && y.key == k implies offered(
        samples,
        zone,
        by_day,
        k.day,
        k.hour,
    ) && y.sum == engagement_over(posts_in(samples, zone, k.day, k.hour)) && y.count == posts_in(
        samples,
        zone,
        k.day,
        k.hour,
    ).len() by {
        assert(all.contains(y));
        assert(y == bucket_in(s, k));
        assert(slot_keys(s).contains(k));
        lemma_count_there(s, k);
    }
    if offered(samples, zone, by_day, k.day, k.hour) {
        lemma_count(s, k);
        assert(all.contains(bucket_in(s, k)));
        assert(b.contains(bucket_in(s, k)));
    }
}

proof fn lemma_count_there(s: Seq<(SlotKey, u64)>, k: SlotKey)
    requires
        slot_keys(s).contains(k),
    ensures
        count_in(s, k) > 0,
    decreases s.len(),
{
    let i = choose|i: int| 0 <= i < s.len() && slot_keys(s)[i] == k;
    assert(s[i].0 == k);
    if i < s.len() - 1 {
        assert(slot_keys(s.drop_last())[i] == k);
        lemma_count_there(s.drop_last(), k);
    }
}

/// Slots are recommended by how well a post in them did on average: of two on the list,
/// the engagement of the first, spread over its posts, is no less than that of the
/// second (and among equals the earlier in the week comes first); and a slot that the
/// history offers but the list leaves out did no better than any on it. Each slot is
/// one that the history offers, and tells how many posts stand behind it.
pub proof fn slots_are_ranked_by_their_mean(samples: Seq<TimingSample>, zone: Seq<char>, now: i64)
    requires
        countable(samples),
    ensures
        ({
            let r = recommended(samples, zone, now);
            let by_day = r.basis == TimingBasis::WeekdayHour;
            r.basis != TimingBasis::Defaults ==> {
                &&& forall|i: int|
                    0 <= i < r.slots.len() ==> {
                        let x = #[trigger] r.slots[i];
                        &&& offered(samples, zone, by_day, x.day_of_week, x.hour)
                        &&& x.sample_size == posts_in(samples, zone, x.day_of_week, x.hour).len()
                    }
                &&& forall|i: int, j: int|
                    0 <= i < j < r.slots.len() ==> {
                        let x = #[trigger] r.slots[i];
                        let y = #[trigger] r.slots[j];
                        let p = posts_in(samples, zone, x.day_of_week, x.hour);
                        let q = posts_in(samples, zone, y.day_of_week, y.hour);
                        &&& engagement_over(p) * q.len() >= engagement_over(q) * p.len()
                        &&& engagement_over(p) * q.len() == engagement_over(q) * p.len() && by_day
                            ==> x.day_of_week->0 < y.day_of_week->0 || (x.day_of_week
                            == y.day_of_week && x.hour < y.hour)
                        &&& engagement_over(p) * q.len() == engagement_over(q) * p.len() && !by_day
                            ==> x.hour < y.hour
                        &&& x.day_of_week != y.day_of_week || x.hour != y.hour
                    }
                &&& forall|day: Option<u8>, hour: u8|
                    #[trigger] offered(samples, zone, by_day, day, hour) ==> {
                        ||| exists|i: int|
                            0 <= i < r.slots.len() && (#[trigger] r.slots[i]).day_of_week == day
                                && r.slots[i].hour == hour
                        ||| r.slots.len() == 3 && forall|i: int|
                            0 <= i < r.slots.len() ==> {
                                let x = #[trigger] r.slots[i];
                                let p = posts_in(samples, zone, x.day_of_week, x.hour);
                                let q = posts_in(samples, zone, day, hour);
                                engagement_over(p) * q.len() >= engagement_over(q) * p.len()
                            }
                    }
            }
        }),
{
    let d = dated(samples);
    let r = recommended(samples, zone, now);
    let by_day = r.basis == TimingBasis::WeekdayHour;
    if r.basis != TimingBasis::Defaults {
        let all = buckets(placed(d, zone, by_day));
        let b = choices(samples, zone, by_day);
        lemma_buckets(placed(d, zone, by_day));
        lemma_trusted_all(all);
        lemma_bucket_days(d, zone, by_day);
        assert forall|i: int| 0 <= i < b.len() implies (#[trigger] b[i]).count > 0 by {
            assert(b.contains(b[i]));
            lemma_offered(samples, zone, by_day, b[i].key);
        }
        lemma_best_buckets(b);
        let best = best_of(b);
        assert(r.slots.len() == best.len());
        assert forall|i: int| 0 <= i < r.slots.len() implies {
            let x = #[trigger] r.slots[i];
            let p = posts_in(samples, zone, x.day_of_week, x.hour);
            &&& x.day_of_week == best[i].key.day
            &&& x.hour == best[i].key.hour
            &&& offered(samples, zone, by_day, x.day_of_week, x.hour)
            &&& x.sample_size == p.len()
            &&& best[i].sum == engagement_over(p)
            &&& best[i].count == p.len()
        } by {
            assert(b.contains(best[i]));
            lemma_offered(samples, zone, by_day, best[i].key);
        }
        assert forall|i: int, j: int| 0 <= i < j < r.slots.len() implies {
            let x = #[trigger] r.slots[i];
            let y = #[trigger] r.slots[j];
            let p = posts_in(samples, zone, x.day_of_week, x.hour);
            let q = posts_in(samples, zone, y.day_of_week, y.hour);
            &&& engagement_over(p) * q.len() >= engagement_over(q) * p.len()
            &&& engagement_over(p) * q.len() == engagement_over(q) * p.len() && by_day
                ==> x.day_of_week->0 < y.day_of_week->0 || (x.day_of_week == y.day_of_week && x.hour
                < y.hour)
            &&& engagement_over(p) * q.len() == engagement_over(q) * p.len() && !by_day ==> x.hour
                < y.hour
            &&& x.day_of_week != y.day_of_week || x.hour != y.hour
        } by {
            assert(best[i] != best[j]);
            assert(b.contains(best[i]) && b.contains(best[j]));
            lemma_offered(samples, zone, by_day, best[i].key);
            lemma_offered(samples, zone, by_day, best[j].key);
        }
        assert forall|day: Option<u8>, hour: u8|
            #[trigger] offered(samples, zone, by_day, day, hour) implies {
            ||| exists|i: int|
                0 <= i < r.slots.len() && (#[trigger] r.slots[i]).day_of_week == day
                    && r.slots[i].hour == hour
            ||| r.slots.len() == 3 && forall|i: int|
                0 <= i < r.slots.len() ==> {
                    let x = #[trigger] r.slots[i];
                    let p = posts_in(samples, zone, x.day_of_week, x.hour);
                    let q = posts_in(samples, zone, day, hour);
                    engagement_over(p) * q.len() >= engagement_over(q) * p.len()
                }
        } by {
            let k = SlotKey { day, hour };
            lemma_offered(samples, zone, by_day, k);
            let y = choose|y: Bucket| #[trigger] b.contains(y) && y.key == k;
            if best.contains(y) {
                let i = choose|i: int| 0 <= i < best.len() && best[i] == y;
                assert(r.slots[i].day_of_week == day);
            } else {
                assert forall|i: int| 0 <= i < r.slots.len() implies {
                    let x = #[trigger] r.slots[i];
                    let p = posts_in(samples, zone, x.day_of_week, x.hour);
                    let q = posts_in(samples, zone, day, hour);
                    engagement_over(p) * q.len() >= engagement_over(q) * p.len()
                } by {
                    assert(best[i].sum * y.count >= y.sum * best[i].count);
                }
            }
        }
    }
}

/// The built-in slots are recommended exactly where fewer than four posts are dated;
/// weekdays and hours where four are and two of them share one; hours otherwise. Only
/// dated posts count towards the history.
pub proof fn a_recommendation_says_what_it_rests_on(
    samples: Seq<TimingSample>,
    zone: Seq<char>,
    now: i64,
)
    requires
        countable(samples),
    ensures
        ({
            let r = recommended(samples, zone, now);
            let n = samples.filter(|x: TimingSample| x.published_at > 0).len();
            &&& r.timezone == zone
            &&& r.sample_size == n
            &&& r.basis == TimingBasis::Defaults <==> n < 4
            &&& n >= 4 ==> (r.basis == TimingBasis::WeekdayHour <==> exists|day: u8, hour: u8|
                (#[trigger] posts_in(samples, zone, Some(day), hour)).len() >= 2)
            &&& r.basis == TimingBasis::Defaults ==> {
                &&& r.slots.len() == 3
                &&& r.slots[0].day_of_week == Some(2u8) && r.slots[0].hour == 11
                &&& r.slots[1].day_of_week == Some(3u8) && r.slots[1].hour == 18
                &&& r.slots[2].day_of_week == Some(4u8) && r.slots[2].hour == 13
                &&& forall|i: int|
                    0 <= i < 3 ==> (#[trigger] r.slots[i]).lift_pct is None
                        && r.slots[i].sample_size == 0
            }
            &&& forall|i: int|
                0 <= i < r.slots.len() ==> (#[trigger] r.slots[i]).next_occurrence == next_of(
                    zone,
                    now,
                    r.slots[i].day_of_week,
                    r.slots[i].hour,
                )
        }),
{
    let r = recommended(samples, zone, now);
    let d = dated(samples);
    let fine = choices(samples, zone, true);
    lemma_dated_filtered(samples);
    if r.basis == TimingBasis::WeekdayHour {
        let y = fine[0];
        assert(fine.contains(y));
        lemma_trusted(buckets(placed(d, zone, true)));
        lemma_bucket_days(d, zone, true);
        lemma_offered(samples, zone, true, y.key);
        assert(posts_in(samples, zone, Some(y.key.day->0), y.key.hour).len() >= 2);
    }
    if exists|day: u8, hour: u8| (#[trigger] posts_in(samples, zone, Some(day), hour)).len() >= 2 {
        let (day, hour) = choose|day: u8, hour: u8|
            (#[trigger] posts_in(samples, zone, Some(day), hour)).len() >= 2;
        lemma_offered(samples, zone, true, SlotKey { day: Some(day), hour });
        assert(offered(samples, zone, true, Some(day), hour));
        let y = choose|y: Bucket|
            #[trigger] fine.contains(y) && y.key == (SlotKey { day: Some(day), hour });
        assert(fine.contains(y));
    }
}

proof fn lemma_dated_filtered(samples: Seq<TimingSample>)
    ensures
        dated(samples) == samples.filter(|x: TimingSample| x.published_at > 0),
        engagement_sum(dated(samples)) == engagement_over(
            samples.filter(|x: TimingSample| x.published_at > 0),
        ),
        engagement_sum(dated(samples)) <= engagement_over(samples),
    decreases samples.len(),
{
    reveal(Seq::filter);
    if samples.len() > 0 {
        let init = samples.drop_last();
        lemma_dated_filtered(init);
        assert(init.push(samples.last()) =~= samples);
        lemma_over_push(init, samples.last());
        if samples.last().published_at > 0 {
            assert(dated(samples).drop_last() =~= dated(init));
            lemma_over_push(dated(init), samples.last());
        }
    } else {
        assert(samples.map_values(|x: TimingSample| x.engagement as nat).len() == 0);
    }
}

/// A lift is the nearest whole percentage by which the mean of a slot exceeds the mean
/// of all dated posts: off by no more than half of a percent. There is none for a
/// single post, nor where nothing engaged at all.
pub proof fn a_lift_is_the_nearest_percentage(
    samples: Seq<TimingSample>,
    zone: Seq<char>,
    now: i64,
    i: int,
)
    requires
        countable(samples),
        recommended(samples, zone, now).basis != TimingBasis::Defaults,
        0 <= i < recommended(samples, zone, now).slots.len(),
    ensures
        ({
            let x = recommended(samples, zone, now).slots[i];
            let p = posts_in(samples, zone, x.day_of_week, x.hour);
            let all = samples.filter(|s: TimingSample| s.published_at > 0);
            let mine = engagement_over(p) * all.len();
            let mean = engagement_over(all) * p.len();
            &&& x.lift_pct is None <==> engagement_over(all) == 0 || p.len() < 2
            &&& x.lift_pct matches Some(l) ==> l == i64::MAX || -mean <= 2 * (100 * (mine - mean)
                - l * mean) <= mean
        }),
{
    let x = recommended(samples, zone, now).slots[i];
    let d = dated(samples);
    let by_day = recommended(samples, zone, now).basis == TimingBasis::WeekdayHour;
    let b = choices(samples, zone, by_day);
    lemma_dated_filtered(samples);
    rank::lemma_ranked(b);
    lemma_ranked_from(b, i);
    let y = best_of(b)[i];
    assert(b.contains(y));
    lemma_offered(samples, zone, by_day, y.key);
    let p = posts_in(samples, zone, x.day_of_week, x.hour);
    let total = engagement_over(samples.filter(|s: TimingSample| s.published_at > 0));
    let a = engagement_over(p) * d.len();
    let c = total * p.len();
    assert(x.lift_pct == lift_of(
        engagement_over(p) as int,
        p.len() as int,
        total as int,
        d.len() as int,
    ));
    if total > 0 && p.len() >= 2 {
        assert(c > 0) by (nonlinear_arith)
            requires
                c == total * p.len(),
                total > 0,
                p.len() >= 2,
        ;
        lemma_nearest(a as int, c as int);
        let l = percent_over(a as int, c as int);
        assert(l >= -100) by {
            assert(a >= 0);
            if a < c {
                assert((200 * (c - a) + c) / (2 * c as int) <= 100) by (nonlinear_arith)
                    requires
                        0 <= a < c,
                ;
            } else {
                assert(0 <= (200 * (a - c) + c) / (2 * c as int)) by (nonlinear_arith)
                    requires
                        0 < c <= a,
                ;
            }
        }
    }
}

proof fn lemma_nearest(a: int, b: int)
    requires
        b > 0,
    ensures
        -b <= 2 * (100 * (a - b) - percent_over(a, b) * b) <= b,
{
    let m = if a >= b {
        a - b
    } else {
        b - a
    };
    let q = (200 * m + b) / (2 * b);
    let rem = (200 * m + b) % (2 * b);
    vstd::arithmetic::div_mod::lemma_fundamental_div_mod(200 * m + b, 2 * b);
    assert(2 * b * q == 2 * (q * b)) by (nonlinear_arith);
    assert(-b <= 2 * (100 * m - q * b) <= b);
    if a < b {
        assert(-q * b == -(q * b)) by (nonlinear_arith);
    }
}

/// The next occurrence of a slot is the first of its instants that is still to come,
/// within fifteen days of the zone's calendar from today; where none is, it is now.
pub proof fn the_next_occurrence_is_the_first_to_come(
    zone: Seq<char>,
    now: i64,
    day_of_week: Option<u8>,
    hour: u8,
)
    ensures
        zone::zone_reading(zone, now) is None ==> next_of(zone, now, day_of_week, hour) == now,
        zone::zone_reading(zone, now) matches Some(today) ==> {
            let fits = |day: int|
                (day_of_week is None || (day - 1) % 7 + 1 == day_of_week->0) && zone::slot_instant(
                    zone,
                    day,
                    hour as int,
                ) is Some && zone::slot_instant(zone, day, hour as int)->0 > now;
            let at = next_of(zone, now, day_of_week, hour);
            ||| at == now && forall|day: int|
                today.ce_day <= day < today.ce_day + 15 ==> !#[trigger] fits(day)
            ||| at > now && exists|day: int|
                today.ce_day <= day < today.ce_day + 15 && #[trigger] fits(day)
                    && zone::slot_instant(zone, day, hour as int) == Some(at) && forall|e: int|
                    today.ce_day <= e < day ==> !#[trigger] fits(e)
        },
{
    match zone::zone_reading(zone, now) {
        Some(today) => {
            lemma_first_after(zone, now, day_of_week, hour, today.ce_day as int, 15);
            let fits = |day: int|
                (day_of_week is None || (day - 1) % 7 + 1 == day_of_week->0) && zone::slot_instant(
                    zone,
                    day,
                    hour as int,
                ) is Some && zone::slot_instant(zone, day, hour as int)->0 > now;
            assert forall|day: int| #[trigger] fits(day) <==> occurs(
                zone,
                now,
                day_of_week,
                hour,
                day,
            ) by {}
            let at = next_of(zone, now, day_of_week, hour);
            if at > now {
                let day = choose|day: int|
                    today.ce_day <= day < today.ce_day + 15 && #[trigger] occurs(
                        zone,
                        now,
                        day_of_week,
                        hour,
                        day,
                    ) && zone::slot_instant(zone, day, hour as int) == Some(at) && forall|e: int|
                        today.ce_day <= e < day ==> !#[trigger] occurs(
                            zone,
                            now,
                            day_of_week,
                            hour,
                            e,
                        );
                assert(fits(day));
            }
        },
        None => {},
    }
}

proof fn lemma_first_after(
    zone: Seq<char>,
    now: i64,
    day_of_week: Option<u8>,
    hour: u8,
    from: int,
    days: nat,
)
    ensures
        ({
            let at = first_after(zone, now, day_of_week, hour, from, days);
            ||| at == now && forall|day: int|
                from <= day < from + days ==> !#[trigger] occurs(zone, now, day_of_week, hour, day)
            ||| at > now && exists|day: int|
                from <= day < from + days && #[trigger] occurs(zone, now, day_of_week, hour, day)
                    && zone::slot_instant(zone, day, hour as int) == Some(at) && forall|e: int|
                    from <= e < day ==> !#[trigger] occurs(zone, now, day_of_week, hour, e)
        }),
    decreases days,
{
    if days > 0 {
        if occurs(zone, now, day_of_week, hour, from) {
        } else {
            lemma_first_after(zone, now, day_of_week, hour, from + 1, (days - 1) as nat);
        }
    }
}

/// The history of a platform is its dated posts, each at its time with its likes,
/// comments and shares together; without a platform, that of all.
pub proof fn a_history_is_of_its_platform(items: Seq<ActivityItem>, platform: Option<Platform>)
    requires
        forall|i: int|
            0 <= i < items.len() ==> (#[trigger] items[i]).likes + items[i].comments
                + items[i].shares <= u64::MAX,
    ensures
        ({
            let mine = items.filter(
                |i: ActivityItem|
                    i.published_at is Some && (platform is None || platform == Some(i.platform)),
            );
            let s = samples_of(items, platform);
            &&& s.len() == mine.len()
            &&& forall|k: int|
                0 <= k < s.len() ==> (#[trigger] s[k]).published_at == mine[k].published_at->0
                    && s[k].engagement == mine[k].likes + mine[k].comments + mine[k].shares
        }),
    decreases items.len(),
{
    reveal(Seq::filter);
    if items.len() > 0 {
        let init = items.drop_last();
        assert forall|i: int| 0 <= i < init.len() implies (#[trigger] init[i]).likes
            + init[i].comments + init[i].shares <= u64::MAX by {
            assert(init[i] == items[i]);
        }
        assert(items[items.len() - 1].likes + items[items.len() - 1].comments + items[items.len()
            - 1].shares <= u64::MAX);
        a_history_is_of_its_platform(init, platform);
    }
}

proof fn lemma_percent_grows(a: int, b: int, c: int, d: int)
    requires
        0 <= a,
        0 <= c,
        0 < b,
        0 < d,
        a * d >= c * b,
    ensures
        percent_over(a, b) >= percent_over(c, d),
{
    if a >= b && c >= d {
        let q = (200 * (c - d) + d) / (2 * d);
        vstd::arithmetic::div_mod::lemma_fundamental_div_mod(200 * (c - d) + d, 2 * d);
        assert(q * (2 * b) <= 200 * (a - b) + b) by (nonlinear_arith)
            requires
                (2 * d) * q <= 200 * (c - d) + d,
                a * d >= c * b,
                0 < b,
                0 < d,
        ;
        lemma_quotient_at_least(200 * (a - b) + b, 2 * b, q);
    } else if a >= b {
        assert(0 <= (200 * (a - b) + b) / (2 * b)) by (nonlinear_arith)
            requires
                0 < b <= a,
        ;
        assert(0 <= (200 * (d - c) + d) / (2 * d)) by (nonlinear_arith)
            requires
                0 <= c < d,
        ;
    } else if c >= d {
        assert(false) by (nonlinear_arith)
            requires
                a < b,
                c >= d,
                0 < b,
                0 < d,
                a * d >= c * b,
        ;
    } else {
        let q = (200 * (b - a) + b) / (2 * b);
        vstd::arithmetic::div_mod::lemma_fundamental_div_mod(200 * (b - a) + b, 2 * b);
        assert(q * (2 * d) <= 200 * (d - c) + d) by (nonlinear_arith)
            requires
                (2 * b) * q <= 200 * (b - a) + b,
                a * d >= c * b,
                0 < b,
                0 < d,
        ;
        lemma_quotient_at_least(200 * (d - c) + d, 2 * d, q);
    }
}

proof fn lemma_quotient_at_least(n: int, d: int, q: int)
    requires
        0 < d,
        q * d <= n,
    ensures
        q <= n / d,
{
    vstd::arithmetic::div_mod::lemma_fundamental_div_mod(n, d);
    assert(q <= n / d) by (nonlinear_arith)
        requires
            q * d <= n,
            n == d * (n / d) + n % d,
            0 <= n % d < d,
            0 < d,
    ;
}

/// Along a recommendation the lifts never rise.
pub proof fn lifts_never_rise(samples: Seq<TimingSample>, zone: Seq<char>, now: i64, i: int, j: int)
    requires
        countable(samples),
        0 <= i < j < recommended(samples, zone, now).slots.len(),
    ensures
        recommended(samples, zone, now).slots[i].lift_pct matches Some(l) ==> (recommended(
            samples,
            zone,
            now,
        ).slots[j].lift_pct matches Some(m) ==> l >= m),
{
    let r = recommended(samples, zone, now);
    if r.basis != TimingBasis::Defaults {
        slots_are_ranked_by_their_mean(samples, zone, now);
        lemma_dated_filtered(samples);
        let by_day = r.basis == TimingBasis::WeekdayHour;
        let b = choices(samples, zone, by_day);
        rank::lemma_ranked(b);
        lemma_ranked_from(b, i);
        lemma_ranked_from(b, j);
        let x = best_of(b)[i];
        let y = best_of(b)[j];
        lemma_offered(samples, zone, by_day, x.key);
        lemma_offered(samples, zone, by_day, y.key);
        assert(r.slots[i].day_of_week == x.key.day && r.slots[j].day_of_week == y.key.day);
        let total = engagement_sum(dated(samples)) as int;
        let n = dated(samples).len() as int;
        if total > 0 && x.count >= 2 && y.count >= 2 {
            let (e, c) = (x.sum as int, x.count as int);
            let (f, d) = (y.sum as int, y.count as int);
            assert(e * d >= f * c);
            assert((e * n) * (total * d) >= (f * n) * (total * c)) by (nonlinear_arith)
                requires
                    e * d >= f * c,
                    n >= 0,
                    total > 0,
            ;
            assert(0 <= e * n && 0 <= f * n && 0 < total * c && 0 < total * d) by (nonlinear_arith)
                requires
                    0 <= e,
                    0 <= f,
                    0 <= n,
                    total > 0,
                    c >= 2,
                    d >= 2,
            ;
            lemma_percent_grows(e * n, total * c, f * n, total * d);
            lifts_are_honest(e, c, total, n);
            lifts_are_honest(f, d, total, n);
            lemma_nearest(e * n, total * c);
            assert(percent_over(f * n, total * d) >= -100) by {
                let (a, b) = (f * n, total * d);
                if a < b {
                    assert((200 * (b - a) + b) / (2 * b) <= 100) by (nonlinear_arith)
                        requires
                            0 <= a < b,
                    ;
                } else {
                    assert(0 <= (200 * (a - b) + b) / (2 * b)) by (nonlinear_arith)
                        requires
                            0 < b <= a,
                    ;
                }
            }
        }
    }
}

} // verus!
