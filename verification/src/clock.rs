//! Clocks and anchors: how a fact is placed in time.

use vstd::prelude::*;

verus! {

/// Clamps an integer into the range of `i64`; the arithmetic on clock readings saturates.
pub open spec fn sat(x: int) -> i64 {
    if x > i64::MAX as int {
        i64::MAX
    } else if x < i64::MIN as int {
        i64::MIN
    } else {
        x as i64
    }
}

/// A duration or position on a clock, in seconds with millisecond resolution.
///
/// `millis` is the number of thousandths of a second.  Sums and differences of
/// readings saturate at the bounds of `i64`.
#[derive(Debug, Clone, Copy, PartialEq, Eq, Hash, Structural)]
pub struct Seconds {
    pub millis: i64,
}

impl Seconds {
    /// The reading `millis` thousandths of a second.
    pub fn from_millis(millis: i64) -> (r: Seconds)
        ensures
            r.millis == millis,
    {
        Seconds { millis }
    }

    /// Zero seconds.
    pub fn zero() -> (r: Seconds)
        ensures
            r.millis == 0,
    {
        Seconds { millis: 0 }
    }

    /// `self + other`, saturating.
    pub fn plus(self, other: Seconds) -> (r: Seconds)
        ensures
            r.millis == sat(self.millis + other.millis),
    {
        match self.millis.checked_add(other.millis) {
            Some(v) => Seconds { millis: v },
            None => {
                if other.millis > 0 {
                    Seconds { millis: i64::MAX }
                } else {
                    Seconds { millis: i64::MIN }
                }
            },
        }
    }

    /// `self - other`, saturating.
    pub fn minus(self, other: Seconds) -> (r: Seconds)
        ensures
            r.millis == sat(self.millis - other.millis),
    {
        match self.millis.checked_sub(other.millis) {
            Some(v) => Seconds { millis: v },
            None => {
                if other.millis < 0 {
                    Seconds { millis: i64::MAX }
                } else {
                    Seconds { millis: i64::MIN }
                }
            },
        }
    }

    /// The larger of the two readings.
    pub fn max(self, other: Seconds) -> (r: Seconds)
        ensures
            r.millis == if self.millis >= other.millis { self.millis } else { other.millis },
    {
        if self.millis >= other.millis {
            self
        } else {
            other
        }
    }

    /// The smaller of the two readings.
    pub fn min(self, other: Seconds) -> (r: Seconds)
        ensures
            r.millis == if self.millis <= other.millis { self.millis } else { other.millis },
    {
        if self.millis <= other.millis {
            self
        } else {
            other
        }
    }
}


/// An instant in UTC, as nanoseconds since the Unix epoch.
#[derive(Debug, Clone, Copy, PartialEq, Eq, Hash, Structural)]
pub struct UtcDateTime {
    pub unix_nanos: i128,
}

/// The proleptic Gregorian (year, month, day) of the day `days` days after 1970-01-01
/// (days counted from 0000-03-01 in 400-year eras).
pub open spec fn civil_from_days(days: int) -> (int, int, int) {
    let z = days + 719468;
    let era = z / 146097;
    let doe = z - era * 146097;
    let yoe = (doe - doe / 1460 + doe / 36524 - doe / 146096) / 365;
    let y = yoe + era * 400;
    let doy = doe - (365 * yoe + yoe / 4 - yoe / 100);
    let mp = (5 * doy + 2) / 153;
    let d = doy - (153 * mp + 2) / 5 + 1;
    let m = if mp < 10 { mp + 3 } else { mp - 9 };
    (if m <= 2 { y + 1 } else { y }, m, d)
}

/// The last `width` decimal digits of `n`, zero-padded.
pub open spec fn padded_digits(n: int, width: nat) -> Seq<char>
    decreases width,
{
    if width == 0 {
        Seq::empty()
    } else {
        padded_digits(n / 10, (width - 1) as nat).push(((n % 10) + 48) as char)
    }
}

/// The first instant (seconds since the epoch) of year 0 and of year 10000: between them
/// chrono writes `%Y` as four plain digits.
pub open spec fn four_digit_years(secs: i64) -> bool {
    -62167219200 <= secs < 253402300800
}

/// The `yyyy-mm-dd` text of the UTC day holding the instant `secs` seconds after the
/// epoch, for a year of four digits.
pub open spec fn civil_date_text(secs: i64) -> Seq<char> {
    let (y, m, d) = civil_from_days(secs as int / 86400);
    padded_digits(y, 4).push('-') + padded_digits(m, 2).push('-') + padded_digits(d, 2)
}

/// What chrono's `%Y-%m-%d` gives for an instant outside the four-digit years (a signed,
/// longer year), or `None` where `DateTime<Utc>` cannot hold the instant.
pub uninterp spec fn utc_calendar_date_far(secs: i64, nsecs: u32) -> Option<Seq<char>>;

/// The calendar date in UTC, written `yyyy-mm-dd` as chrono's `%Y-%m-%d` writes it, of
/// the instant `secs` seconds and `nsecs` nanoseconds (below one second) after the Unix
/// epoch: [`civil_date_text`] in the four-digit years, [`utc_calendar_date_far`] beyond.
pub open spec fn utc_calendar_date(secs: i64, nsecs: u32) -> Option<Seq<char>> {
    if four_digit_years(secs) && nsecs < 1_000_000_000 {
        Some(civil_date_text(secs))
    } else {
        utc_calendar_date_far(secs, nsecs)
    }
}

/// chrono's `DateTime::<Utc>::from_timestamp(secs, nsecs)` written with
/// `format("%Y-%m-%d")`.  `from_timestamp` splits the instant into a day (`secs`
/// divided by 86 400, rounded down) and a time of day; with `nsecs` below one second
/// the time always exists, and in the four-digit years the day does too, so there the
/// answer is the proleptic Gregorian date of that day: `%Y` as four zero-padded digits
/// (chrono's `write_year` for years 0 to 9999), `%m` and `%d` as two.  Beyond those
/// years the text (a signed year) or `None` is left to the name
/// [`utc_calendar_date_far`].
#[verifier::external_body]
fn format_utc_date(secs: i64, nsecs: u32) -> (r: Option<String>)
    ensures
        match r {
            Some(s) => if four_digit_years(secs) && nsecs < 1_000_000_000 {
                s@ == civil_date_text(secs)
            } else {
                utc_calendar_date_far(secs, nsecs) == Some(s@)
            },
            None => !(four_digit_years(secs) && nsecs < 1_000_000_000) && utc_calendar_date_far(secs, nsecs) is None,
        },
{
    match chrono::DateTime::from_timestamp(secs, nsecs) {
        Some(d) => Some(d.format("%Y-%m-%d").to_string()),
        None => None,
    }
}

/// Nanoseconds in a second.
pub const NANOS_PER_SECOND: i128 = 1_000_000_000;

impl UtcDateTime {
    /// Whole seconds since the epoch (rounded down).
    pub open spec fn spec_seconds(self) -> int {
        self.unix_nanos as int / NANOS_PER_SECOND as int
    }

    /// Nanoseconds past the whole second, in `0..1_000_000_000`.
    pub open spec fn spec_subsec_nanos(self) -> int {
        self.unix_nanos as int % NANOS_PER_SECOND as int
    }

    /// The calendar date of the instant, when its seconds fit an `i64` and chrono can
    /// hold it.
    pub open spec fn spec_date_label(self) -> Option<Seq<char>> {
        if i64::MIN <= self.spec_seconds() <= i64::MAX {
            utc_calendar_date(self.spec_seconds() as i64, self.spec_subsec_nanos() as u32)
        } else {
            None
        }
    }

    /// The instant split into whole seconds (rounded down) and the nanoseconds past
    /// them.
    pub fn seconds_and_nanos(&self) -> (r: (i128, u32))
        ensures
            r.0 == self.spec_seconds(),
            r.1 == self.spec_subsec_nanos(),
    {
        let n = self.unix_nanos;
        if n >= 0 {
            let u = n as u128;
            let q = u / 1_000_000_000u128;
            let m = u % 1_000_000_000u128;
            proof {
                assert(n as int / 1_000_000_000 == u as int / 1_000_000_000);
            }
            (q as i128, m as u32)
        } else {
            let u = (-(n + 1)) as u128;
            let q = u / 1_000_000_000u128;
            let m = u % 1_000_000_000u128;
            proof {
                let ni = n as int;
                let ui = u as int;
                assert(ui == -ni - 1);
                assert(ui == (q as int) * 1_000_000_000 + m as int);
                assert(ni == (-(q as int) - 1) * 1_000_000_000 + (999_999_999 - m as int));
                vstd::arithmetic::div_mod::lemma_fundamental_div_mod_converse(
                    ni,
                    1_000_000_000,
                    -(q as int) - 1,
                    999_999_999 - m as int,
                );
            }
            (-(q as i128) - 1, (999_999_999u128 - m) as u32)
        }
    }

    /// The calendar date of the instant in UTC, `yyyy-mm-dd`; `None` where it cannot
    /// be written (seconds beyond `i64`, or out of chrono's range).
    pub fn date_label(&self) -> (r: Option<String>)
        ensures
            match r {
                Some(s) => self.spec_date_label() == Some(s@),
                None => self.spec_date_label() is None,
            },
    {
        let (secs, nanos) = self.seconds_and_nanos();
        if secs < i64::MIN as i128 || secs > i64::MAX as i128 {
            return None;
        }
        format_utc_date(secs as i64, nanos)
    }
}

/// Cumulative match-clock position.
///
/// The match clock runs only while play runs: it stands still during stoppages and
/// does not move across a regular phase boundary (the end of one phase and the start
/// of the next share a value); a shootout does not move it at all.
#[derive(Debug, Clone, Copy, PartialEq, Eq, Hash, Structural)]
pub struct MatchClock {
    pub elapsed_seconds: Seconds,
}

/// Playback position in the match video.
#[derive(Debug, Clone, Copy, PartialEq, Eq, Hash, Structural)]
pub struct VideoClock {
    pub elapsed_seconds: Seconds,
}

/// Against which clock a fact was observed.
///
/// - `MatchClock`: recorded with the manual clock (timer mode)
/// - `VideoClock`: recorded while watching the video (video mode / highlights)
/// - `Both`: a forced sync point (override used to recover from video cuts)
#[derive(Debug, Clone, Copy, PartialEq, Eq, Hash, Structural)]
pub enum FactAnchor {
    MatchClock(MatchClock),
    VideoClock(VideoClock),
    Both { match_clock: MatchClock, video_clock: VideoClock },
}

/// The kind of an anchor, without its readings.
#[derive(Debug, Clone, Copy, PartialEq, Eq, Hash, PartialOrd, Ord, Structural)]
pub enum FactAnchorKind {
    MatchClock,
    VideoClock,
    Both,
}

impl FactAnchorKind {
    /// Every kind, in declaration order.
    pub fn all_cases() -> (r: [FactAnchorKind; 3])
        ensures
            r@ == seq![FactAnchorKind::MatchClock, FactAnchorKind::VideoClock, FactAnchorKind::Both],
    {
        [FactAnchorKind::MatchClock, FactAnchorKind::VideoClock, FactAnchorKind::Both]
    }
}

impl FactAnchor {
    pub open spec fn spec_kind(self) -> FactAnchorKind {
        match self {
            FactAnchor::MatchClock(_) => FactAnchorKind::MatchClock,
            FactAnchor::VideoClock(_) => FactAnchorKind::VideoClock,
            FactAnchor::Both { .. } => FactAnchorKind::Both,
        }
    }

    /// The match-clock reading the anchor carries, if any.
    pub open spec fn spec_match_clock(self) -> Option<MatchClock> {
        match self {
            FactAnchor::MatchClock(c) => Some(c),
            FactAnchor::Both { match_clock, .. } => Some(match_clock),
            FactAnchor::VideoClock(_) => None,
        }
    }

    /// The video-clock reading the anchor carries, if any.
    pub open spec fn spec_video_clock(self) -> Option<VideoClock> {
        match self {
            FactAnchor::VideoClock(c) => Some(c),
            FactAnchor::Both { video_clock, .. } => Some(video_clock),
            FactAnchor::MatchClock(_) => None,
        }
    }

    /// Match-clock milliseconds, if the anchor carries a match clock.
    pub open spec fn match_ms(self) -> Option<i64> {
        match self.spec_match_clock() {
            Some(c) => Some(c.elapsed_seconds.millis),
            None => None,
        }
    }

    /// Video-clock milliseconds, if the anchor carries a video clock.
    pub open spec fn video_ms(self) -> Option<i64> {
        match self.spec_video_clock() {
            Some(c) => Some(c.elapsed_seconds.millis),
            None => None,
        }
    }

    pub fn kind(&self) -> (r: FactAnchorKind)
        ensures
            r == self.spec_kind(),
    {
        match self {
            FactAnchor::MatchClock(_) => FactAnchorKind::MatchClock,
            FactAnchor::VideoClock(_) => FactAnchorKind::VideoClock,
            FactAnchor::Both { .. } => FactAnchorKind::Both,
        }
    }

    pub fn match_clock(&self) -> (r: Option<MatchClock>)
        ensures
            r == self.spec_match_clock(),
    {
        match self {
            FactAnchor::MatchClock(c) => Some(*c),
            FactAnchor::Both { match_clock, .. } => Some(*match_clock),
            FactAnchor::VideoClock(_) => None,
        }
    }

    pub fn video_clock(&self) -> (r: Option<VideoClock>)
        ensures
            r == self.spec_video_clock(),
    {
        match self {
            FactAnchor::VideoClock(c) => Some(*c),
            FactAnchor::Both { video_clock, .. } => Some(*video_clock),
            FactAnchor::MatchClock(_) => None,
        }
    }

    /// The match-clock reading's elapsed seconds, if any.
    pub fn match_elapsed_seconds(&self) -> (r: Option<Seconds>)
        ensures
            r == (match self.spec_match_clock() {
                Some(c) => Some(c.elapsed_seconds),
                None => None::<Seconds>,
            }),
            match r {
                Some(s) => self.match_ms() == Some(s.millis),
                None => self.match_ms() is None,
            },
    {
        match self {
            FactAnchor::MatchClock(c) => Some(c.elapsed_seconds),
            FactAnchor::Both { match_clock, .. } => Some(match_clock.elapsed_seconds),
            FactAnchor::VideoClock(_) => None,
        }
    }

    /// The video-clock reading's elapsed seconds, if any.
    pub fn video_elapsed_seconds(&self) -> (r: Option<Seconds>)
        ensures
            r == (match self.spec_video_clock() {
                Some(c) => Some(c.elapsed_seconds),
                None => None::<Seconds>,
            }),
            match r {
                Some(s) => self.video_ms() == Some(s.millis),
                None => self.video_ms() is None,
            },
    {
        match self {
            FactAnchor::VideoClock(c) => Some(c.elapsed_seconds),
            FactAnchor::Both { video_clock, .. } => Some(video_clock.elapsed_seconds),
            FactAnchor::MatchClock(_) => None,
        }
    }

    /// The anchor after editing the clock named by `kind` to read `seconds`
    /// (negative readings become zero).
    ///
    /// Editing one side of a `Both` keeps the other side; editing the clock the anchor
    /// does not carry replaces the anchor by one carrying only the edited clock; `Both`
    /// as the edited kind counts as editing the match clock.
    pub open spec fn spec_with_elapsed_seconds(self, kind: FactAnchorKind, seconds: Seconds) -> FactAnchor {
        let s = Seconds { millis: if seconds.millis >= 0 { seconds.millis } else { 0 } };
        match (kind, self) {
            (FactAnchorKind::VideoClock, FactAnchor::Both { match_clock, .. }) =>
                FactAnchor::Both { match_clock, video_clock: VideoClock { elapsed_seconds: s } },
            (FactAnchorKind::VideoClock, _) => FactAnchor::VideoClock(VideoClock { elapsed_seconds: s }),
            (_, FactAnchor::MatchClock(_)) => FactAnchor::MatchClock(MatchClock { elapsed_seconds: s }),
            (FactAnchorKind::MatchClock, FactAnchor::VideoClock(_)) =>
                FactAnchor::MatchClock(MatchClock { elapsed_seconds: s }),
            (_, FactAnchor::VideoClock(video_clock)) =>
                FactAnchor::Both { match_clock: MatchClock { elapsed_seconds: s }, video_clock },
            (_, FactAnchor::Both { video_clock, .. }) =>
                FactAnchor::Both { match_clock: MatchClock { elapsed_seconds: s }, video_clock },
        }
    }

    /// Writes an edited cumulative reading back into the anchor; see
    /// [`FactAnchor::spec_with_elapsed_seconds`].
    pub fn with_elapsed_seconds(&self, kind: FactAnchorKind, seconds: Seconds) -> (r: FactAnchor)
        ensures
            r == self.spec_with_elapsed_seconds(kind, seconds),
    {
        let clamped = Seconds::zero().max(seconds);
        match (kind, *self) {
            (FactAnchorKind::MatchClock, FactAnchor::MatchClock(_))
            | (FactAnchorKind::MatchClock, FactAnchor::VideoClock(_))
            | (FactAnchorKind::Both, FactAnchor::MatchClock(_)) => {
                FactAnchor::MatchClock(MatchClock { elapsed_seconds: clamped })
            },
            (FactAnchorKind::MatchClock, FactAnchor::Both { video_clock, .. })
            | (FactAnchorKind::Both, FactAnchor::VideoClock(video_clock))
            | (FactAnchorKind::Both, FactAnchor::Both { video_clock, .. }) => FactAnchor::Both {
                match_clock: MatchClock { elapsed_seconds: clamped },
                video_clock,
            },
            (FactAnchorKind::VideoClock, FactAnchor::VideoClock(_))
            | (FactAnchorKind::VideoClock, FactAnchor::MatchClock(_)) => {
                FactAnchor::VideoClock(VideoClock { elapsed_seconds: clamped })
            },
            (FactAnchorKind::VideoClock, FactAnchor::Both { match_clock, .. }) => FactAnchor::Both {
                match_clock,
                video_clock: VideoClock { elapsed_seconds: clamped },
            },
        }
    }
}

/// Editing a clock never loses a sync point: the edited clock reads the new value
/// (negative values read as zero), and a `Both` anchor stays `Both` with its other clock
/// unchanged.  Editing with kind `Both` edits the match clock.
pub proof fn lemma_edit_keeps_sync_point(a: FactAnchor, kind: FactAnchorKind, seconds: Seconds)
    ensures
        kind == FactAnchorKind::VideoClock ==> a.spec_with_elapsed_seconds(kind, seconds).video_ms()
            == Some(if seconds.millis >= 0 { seconds.millis } else { 0 }),
        kind != FactAnchorKind::VideoClock ==> a.spec_with_elapsed_seconds(kind, seconds).match_ms()
            == Some(if seconds.millis >= 0 { seconds.millis } else { 0 }),
        a is Both ==> a.spec_with_elapsed_seconds(kind, seconds) is Both,
        a is Both && kind == FactAnchorKind::VideoClock ==> a.spec_with_elapsed_seconds(kind, seconds).spec_match_clock()
            == a.spec_match_clock(),
        a is Both && kind != FactAnchorKind::VideoClock ==> a.spec_with_elapsed_seconds(kind, seconds).spec_video_clock()
            == a.spec_video_clock(),
{
}

} // verus!
