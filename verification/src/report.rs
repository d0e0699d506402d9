//! What happens to the hits that the workers send: they are printed, stored and counted,
//! and now and then a line tells how the search goes.

use crate::highlight::{can_highlight, highlighted, try_highlight};
use crate::keystore::{hit_steps, plan_files, steps, FileAction};
use crate::matching::Mode;
use crate::options::{effective_limit, effective_stats_interval, Args};
use crate::search::Hit;
use crate::text::{decimal, push_decimal};
use vstd::prelude::*;

verus! {

/// A time in nanoseconds since 1970 that lies in the years from -9999 to 9999.
pub open spec fn is_instant(nanos: i128) -> bool {
    -377705116800_000000000 <= nanos <= 253402300799_999999999
}

/// Whether a time lies in the years from -9999 to 9999.
pub fn fits_calendar(nanos: i128) -> (r: bool)
    ensures
        r == is_instant(nanos),
{
    -377705116800_000000000 <= nanos && nanos <= 253402300799_999999999
}

/// The whole seconds in a difference of nanoseconds, rounded towards zero.
pub open spec fn whole_seconds(nanos: int) -> int {
    if nanos >= 0 {
        nanos / 1_000_000_000
    } else {
        -((-nanos) / 1_000_000_000)
    }
}

/// The whole seconds of a `time::OffsetDateTime` minus an earlier one, both given in
/// nanoseconds since 1970.
#[verifier::external_body]
fn time_seconds_between(earlier: i128, later: i128) -> (r: i64)
    requires
        is_instant(earlier),
        is_instant(later),
    ensures
        r == whole_seconds(later - earlier),
{
    let from = time::OffsetDateTime::from_unix_timestamp_nanos(earlier).unwrap();
    let to = time::OffsetDateTime::from_unix_timestamp_nanos(later).unwrap();
    (to - from).whole_seconds()
}

/// The UTC time `nanos` in the notation of RFC 3339.
pub uninterp spec fn rfc3339(nanos: i128) -> Seq<char>;

/// `time::error::Format`, of which nothing is known.
#[verifier::external_type_specification]
#[verifier::external_body]
pub struct ExFormatError(time::error::Format);

/// `time::OffsetDateTime::format` with `Rfc3339`, on a UTC time given in nanoseconds
/// since 1970. It fails for the years before 0. The text is a function of the time; to
/// say which one takes the rules of the calendar, so it has a name only.
#[verifier::external_body]
fn time_format_rfc3339(nanos: i128) -> (r: Result<String, time::error::Format>)
    requires
        is_instant(nanos),
    ensures
        r is Ok <==> nanos >= -62167219200_000000000,
        r is Ok ==> r->Ok_0@ == rfc3339(nanos),
{
    let at = time::OffsetDateTime::from_unix_timestamp_nanos(nanos).unwrap();
    at.format(&time::format_description::well_known::Rfc3339)
}

/// A time has no notation.
#[derive(Clone, Copy, Debug, PartialEq, Eq, Structural)]
pub struct TimestampError;

/// The UTC time `nanos`, in nanoseconds since 1970, as the reports show it. It fails for
/// the years before 0.
pub fn timestamp(nanos: i128) -> (r: Result<String, TimestampError>)
    requires
        is_instant(nanos),
    ensures
        r is Ok <==> nanos >= -62167219200_000000000,
        r is Ok ==> r->Ok_0@ == rfc3339(nanos),
{
    match time_format_rfc3339(nanos) {
        Ok(text) => Ok(text),
        Err(_) => Err(TimestampError),
    }
}

/// A report is due after `secs` seconds: at least `stats_interval` of them have gone by. None
/// is ever due for an interval of 0.
pub open spec fn is_due(stats_interval: u64, secs: int) -> bool {
    stats_interval > 0 && secs >= stats_interval
}

/// What a report tells.
#[derive(Clone, Copy, Debug, PartialEq, Eq, Structural)]
pub struct StatsReport {
    /// The hits so far.
    pub hits: usize,
    /// The attempts so far.
    pub processed: u64,
    /// The attempts since the last report.
    pub attempts: u64,
    /// The whole seconds since the last report.
    pub secs: i64,
}

/// What a worker's message, or the lack of one, comes down to.
#[derive(Debug)]
pub enum Event {
    /// A hit.
    Hit(Hit),
    /// Nothing came for a while.
    Timeout,
    /// No worker is left.
    Disconnected,
}

/// What is to be done on an event.
#[derive(Debug)]
pub enum Step {
    /// Print the line and take the actions, in this order. The search is over, for the
    /// workers too, if this is the last hit. There is no line where the part to mark does
    /// not lie within the identifier.
    Report { line: Option<String>, actions: Vec<FileAction>, last: bool },
    /// Go on.
    Wait,
    /// Leave.
    Finish,
}

/// The hit that makes `found` ends the search.
pub open spec fn is_last(limit: Option<usize>, found: nat) -> bool {
    limit matches Some(n) && found >= n
}

/// `line` is the line for the identifier `id`: the identifier, marked unless colours are
/// off.
pub open spec fn is_hit_line(
    id: Seq<char>,
    pat: Seq<char>,
    mode: Mode,
    ci: bool,
    no_color: bool,
    line: Option<String>,
) -> bool {
    match line {
        Some(text) => if no_color {
            text@ == id
        } else {
            can_highlight(id, pat, mode, ci) && text@ == highlighted(id, pat, mode, ci)
        },
        None => !no_color && !can_highlight(id, pat, mode, ci),
    }
}

/// `actions` are the steps for `hit`: none without a key, and a second copy of the key
/// only where an export is wanted and named.
pub open spec fn are_hit_actions(hit: Hit, args: &Args, actions: Seq<FileAction>) -> bool {
    match hit.sk_protobuf {
        Some(sk) => steps(actions) == hit_steps(
            hit.peer_id_b58@,
            sk@,
            if args.export_ipfs && args.key_name is Some {
                Some(args.key_name->0@)
            } else {
                None
            },
        ),
        None => actions.len() == 0,
    }
}

/// The line that is printed for a hit.
pub fn hit_line(id: &str, pat: &str, mode: Mode, ci: bool, no_color: bool) -> (r: Option<String>)
    ensures
        is_hit_line(id@, pat@, mode, ci, no_color, r),
{
    if no_color {
        Some(id.to_string())
    } else {
        try_highlight(id, pat, mode, ci)
    }
}

/// The counts of a search, and the time and the attempts of its last report.
pub struct Tally {
    found: usize,
    last_stats: i128,
    last_attempts: u64,
}

impl Tally {
    #[verifier::type_invariant]
    spec fn inv(self) -> bool {
        is_instant(self.last_stats)
    }

    /// The hits so far.
    pub closed spec fn found(&self) -> nat {
        self.found as nat
    }

    /// The time of the last report.
    pub closed spec fn last_stats(&self) -> i128 {
        self.last_stats
    }

    /// The attempts at the last report.
    pub closed spec fn last_attempts(&self) -> u64 {
        self.last_attempts
    }

    /// The counts at the start of a search, at the time `now`.
    pub fn new(now: i128) -> (r: Self)
        requires
            is_instant(now),
        ensures
            r.found() == 0,
            r.last_stats() == now,
            r.last_attempts() == 0,
    {
        Tally { found: 0, last_stats: now, last_attempts: 0 }
    }

    /// The hits so far.
    pub fn hit_count(&self) -> (r: usize)
        ensures
            r == self.found(),
    {
        self.found
    }

    /// The attempts at the last report.
    pub fn reported_attempts(&self) -> (r: u64)
        ensures
            r == self.last_attempts(),
    {
        self.last_attempts
    }

    /// What is to be done on `event`, in a search with the options `args` for the pattern
    /// `pat` that ends with the hit number `eff_limit`.
    pub fn on_event(
        &mut self,
        event: Event,
        args: &Args,
        pat: &str,
        eff_limit: Option<usize>,
        ci: bool,
    ) -> (r: Step)
        requires
            event is Hit ==> old(self).found() < usize::MAX,
        ensures
            final(self).last_stats() == old(self).last_stats(),
            final(self).last_attempts() == old(self).last_attempts(),
            final(self).found() == old(self).found() + (if event is Hit {
                1int
            } else {
                0
            }),
            match event {
                Event::Hit(hit) => r matches Step::Report { line, actions, last } && is_hit_line(
                    hit.peer_id_b58@,
                    pat@,
                    args.mode,
                    ci,
                    args.no_color,
                    line,
                ) && are_hit_actions(hit, args, actions@) && last == is_last(
                    eff_limit,
                    final(self).found(),
                ),
                Event::Timeout => r is Wait,
                Event::Disconnected => r is Finish,
            },
    {
        proof {
            use_type_invariant(&*self);
        }
        match event {
            Event::Hit(hit) => {
                self.found = self.found + 1;
                let line = hit_line(hit.peer_id_b58.as_str(), pat, args.mode, ci, args.no_color);
                let actions: Vec<FileAction> = match &hit.sk_protobuf {
                    Some(sk) => {
                        let export: Option<&String> = if args.export_ipfs {
                            args.key_name.as_ref()
                        } else {
                            None
                        };
                        plan_files(hit.peer_id_b58.as_str(), sk, export)
                    },
                    None => Vec::new(),
                };
                let last: bool = match eff_limit {
                    Some(limit) => self.found >= limit,
                    None => false,
                };
                Step::Report { line, actions, last }
            },
            Event::Timeout => Step::Wait,
            Event::Disconnected => Step::Finish,
        }
    }

    /// The report that is due at the time `now`, after `current_attempts` attempts, if
    /// `stats_interval` seconds have gone by since the last one. No report is due for an
    /// interval of 0.
    pub fn stats_due(&mut self, now: i128, stats_interval: u64, current_attempts: u64) -> (r:
        Option<StatsReport>)
        requires
            is_instant(now),
            is_due(stats_interval, whole_seconds(now - old(self).last_stats()))
                ==> old(self).last_attempts() <= current_attempts,
        ensures
            final(self).found() == old(self).found(),
            match r {
                Some(report) => {
                    &&& report.secs == whole_seconds(now - old(self).last_stats())
                    &&& is_due(stats_interval, report.secs as int)
                    &&& report.hits == old(self).found()
                    &&& report.processed == current_attempts
                    &&& report.attempts == current_attempts - old(self).last_attempts()
                    &&& final(self).last_stats() == now
                    &&& final(self).last_attempts() == current_attempts
                },
                None => {
                    &&& !is_due(stats_interval, whole_seconds(now - old(self).last_stats()))
                    &&& final(self).last_stats() == old(self).last_stats()
                    &&& final(self).last_attempts() == old(self).last_attempts()
                },
            },
    {
        proof {
            use_type_invariant(&*self);
        }
        if stats_interval == 0 {
            return None;
        }
        let secs: i64 = time_seconds_between(self.last_stats, now);
        if secs < 0 || (secs as u64) < stats_interval {
            return None;
        }
        let attempts: u64 = current_attempts - self.last_attempts;
        self.last_stats = now;
        self.last_attempts = current_attempts;
        Some(StatsReport { hits: self.found, processed: current_attempts, attempts, secs })
    }
}

/// The name of a mode in a report.
pub open spec fn mode_label(mode: Mode) -> Seq<char> {
    match mode {
        Mode::Any => "Any"@,
        Mode::Prefix => "Prefix"@,
        Mode::Suffix => "Suffix"@,
    }
}

/// The line of a report, with the time and the rate given as text.
pub open spec fn stats_text(
    at: Seq<char>,
    report: StatsReport,
    rate: Seq<char>,
    threads: usize,
    mode: Mode,
) -> Seq<char> {
    "[stats 统计 "@ + at + "] hits/命中="@ + decimal(report.hits as nat) + ", processed/已处理="@
        + decimal(report.processed as nat) + ", rate/效率="@ + rate + "/s, threads/线程="@
        + decimal(threads as nat) + ", mode/模式="@ + mode_label(mode)
}

/// The line of a report, with the time and the rate given as text.
pub fn stats_line(at: &str, report: &StatsReport, rate: &str, threads: usize, mode: Mode) -> (r:
    String)
    ensures
        r@ == stats_text(at@, *report, rate@, threads, mode),
{
    let mut r = "[stats 统计 ".to_string();
    r.append(at);
    r.append("] hits/命中=");
    push_decimal(&mut r, report.hits as u64);
    r.append(", processed/已处理=");
    push_decimal(&mut r, report.processed);
    r.append(", rate/效率=");
    r.append(rate);
    r.append("/s, threads/线程=");
    push_decimal(&mut r, threads as u64);
    r.append(", mode/模式=");
    match mode {
        Mode::Any => r.append("Any"),
        Mode::Prefix => r.append("Prefix"),
        Mode::Suffix => r.append("Suffix"),
    }
    r
}

/// The number of hits that are reported when `hits` more come in after `found`.
pub open spec fn reported(limit: Option<usize>, found: nat, hits: nat) -> nat
    decreases hits,
{
    if hits == 0 {
        found
    } else if is_last(limit, found + 1) {
        found + 1
    } else {
        reported(limit, found + 1, (hits - 1) as nat)
    }
}

/// From any count below the limit, as many hits are reported as come in, but none beyond
/// the limit.
proof fn lemma_reported(limit: Option<usize>, found: nat, hits: nat)
    requires
        limit matches Some(n) ==> found < n,
    ensures
        reported(limit, found, hits) == (match limit {
            Some(n) => if found + hits < n {
                found + hits
            } else {
                n as nat
            },
            None => found + hits,
        }),
    decreases hits,
{
    if hits > 0 && !is_last(limit, found + 1) {
        lemma_reported(limit, found + 1, (hits - 1) as nat);
    }
}

/// A search reports every hit up to the limit that the user set, and stops there: after
/// 10 hits by default, and never for 0.
pub proof fn law_search_stops_at_the_limit(limit: Option<usize>, hits: nat)
    ensures
        reported(effective_limit(limit), 0, hits) == (match limit {
            None => if hits < 10 {
                hits
            } else {
                10
            },
            Some(n) => if n == 0 || hits < n {
                hits
            } else {
                n as nat
            },
        }),
{
    lemma_reported(effective_limit(limit), 0, hits);
}

/// Whole seconds are counted in full: so many billions of nanoseconds fit into the difference
/// and one more does not, and a difference backwards counts as the one forwards, negated.
pub proof fn law_whole_seconds_have_gone_by(nanos: int)
    ensures
        nanos >= 0 ==> 0 <= 1_000_000_000 * whole_seconds(nanos) <= nanos < 1_000_000_000 * (
        whole_seconds(nanos) + 1),
        whole_seconds(-nanos) == -whole_seconds(nanos),
{
}

/// A report is due as soon as the interval has gone by, and never where it is turned off.
pub proof fn law_reports_keep_the_interval(interval: u64, extreme: bool, secs: int)
    ensures
        interval == 0 ==> !is_due(effective_stats_interval(Some(interval), extreme), secs),
        interval > 0 ==> (is_due(effective_stats_interval(Some(interval), extreme), secs) <==> secs
            >= interval),
        is_due(effective_stats_interval(None, true), secs) <==> secs >= 1,
        is_due(effective_stats_interval(None, false), secs) <==> secs >= 2,
{
}

/// The hit that reaches the limit is the last one, and without a limit there is none.
pub proof fn law_last_hit_reaches_the_limit(limit: Option<usize>, found: nat)
    ensures
        limit is None ==> !is_last(limit, found),
        limit is Some ==> (is_last(limit, found) <==> found >= limit->0),
{
}

/// The line of a hit: the identifier itself where colours are off; otherwise the identifier
/// with its mark, where it can be marked.
pub proof fn law_hit_lines_show_the_identifier(
    id: Seq<char>,
    pat: Seq<char>,
    mode: Mode,
    ci: bool,
    line: Option<String>,
)
    ensures
        is_hit_line(id, pat, mode, ci, true, line) <==> line is Some && line->0@ == id,
        is_hit_line(id, pat, mode, ci, false, line) && can_highlight(id, pat, mode, ci) ==> line
            is Some && line->0@ == highlighted(id, pat, mode, ci),
        is_hit_line(id, pat, mode, ci, false, line) && !can_highlight(id, pat, mode, ci) ==> line
            is None,
{
}

/// The steps for a hit: none without a key; with one, the key goes under the identifier, and
/// under the name of the options exactly where an export is wanted.
pub proof fn law_hits_with_a_key_are_written(hit: Hit, args: &Args, actions: Seq<FileAction>)
    requires
        are_hit_actions(hit, args, actions),
    ensures
        hit.sk_protobuf is None ==> actions.len() == 0,
        hit.sk_protobuf is Some && args.export_ipfs && args.key_name is Some ==> steps(actions)
            == hit_steps(hit.peer_id_b58@, hit.sk_protobuf->0@, Some(args.key_name->0@)),
        hit.sk_protobuf is Some && !(args.export_ipfs && args.key_name is Some) ==> steps(actions)
            == hit_steps(hit.peer_id_b58@, hit.sk_protobuf->0@, None),
        steps(actions).len() == actions.len(),
        forall|i: int| 0 <= i < actions.len() ==> steps(actions)[i] == #[trigger] actions[i]@,
{
}

/// The line of a report gives, in this order, the time, the hits, the attempts, the rate, the
/// threads and the mode.
pub proof fn law_report_lines_give_the_counts(
    at: Seq<char>,
    report: StatsReport,
    rate: Seq<char>,
    threads: usize,
)
    ensures
        ({
            let counts = "[stats 统计 "@ + at + "] hits/命中="@ + decimal(report.hits as nat)
                + ", processed/已处理="@ + decimal(report.processed as nat) + ", rate/效率="@ + rate
                + "/s, threads/线程="@ + decimal(threads as nat) + ", mode/模式="@;
            &&& stats_text(at, report, rate, threads, Mode::Any) == counts + "Any"@
            &&& stats_text(at, report, rate, threads, Mode::Prefix) == counts + "Prefix"@
            &&& stats_text(at, report, rate, threads, Mode::Suffix) == counts + "Suffix"@
        }),
{
}

/// The times that the calendar holds: from the first moment of the year -9999 to the last one
/// of the year 9999, in nanoseconds.
pub proof fn law_calendar_has_its_ends(nanos: i128)
    ensures
        is_instant(nanos) <==> -377_705_116_800 * 1_000_000_000 <= nanos < 253_402_300_800
            * 1_000_000_000,
{
}

} // verus!
