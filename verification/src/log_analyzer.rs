//! A log analyzer: lines carry a date, a time, a bracketed level and a
//! message.  Well-formed lines are counted by level; entries can be
//! filtered by level and by calendar day.

use vstd::prelude::*;

use crate::codec::{digit_val, digits_value, is_digit_char};
use crate::http::{words, words_exec};
use crate::strutil::{dec_of, str_to_chars, usize_to_string};

verus! {

/// The severity of one log line.
#[derive(Clone, Copy, Debug, PartialEq, Eq, Structural)]
pub enum LogLevel {
    Error,
    Warning,
    Info,
    Debug,
}

/// A calendar date.
#[derive(Clone, Copy, Debug, PartialEq, Eq, Structural)]
pub struct LogDate {
    pub year: u32,
    pub month: u32,
    pub day: u32,
}

/// A calendar date with a time of day.
#[derive(Clone, Copy, Debug, PartialEq, Eq, Structural)]
pub struct Timestamp {
    pub date: LogDate,
    pub hour: u32,
    pub minute: u32,
    pub second: u32,
}

/// Whether a year has a 29th of February.
pub open spec fn is_leap_year(y: u32) -> bool {
    y % 4 == 0 && (y % 100 != 0 || y % 400 == 0)
}

/// How many days the month of a year has.
pub open spec fn days_in_month(y: u32, m: u32) -> u32 {
    if m == 2 {
        if is_leap_year(y) {
            29u32
        } else {
            28u32
        }
    } else if m == 4 || m == 6 || m == 9 || m == 11 {
        30u32
    } else {
        31u32
    }
}

/// Whether a date names a real calendar day.
pub open spec fn valid_date(d: LogDate) -> bool {
    1 <= d.month <= 12 && 1 <= d.day <= days_in_month(d.year, d.month)
}

/// Whether a timestamp is a real calendar moment.
pub open spec fn valid_timestamp(t: Timestamp) -> bool {
    valid_date(t.date) && t.hour < 24 && t.minute < 60 && t.second < 60
}

/// Mathematical model of one log entry.
pub ghost struct LogEntryModel {
    pub timestamp: Timestamp,
    pub level: LogLevel,
    pub message: Seq<char>,
}

/// One parsed log line.
pub struct LogEntry {
    pub timestamp: Timestamp,
    pub level: LogLevel,
    pub message: String,
}

impl View for LogEntry {
    type V = LogEntryModel;

    open spec fn view(&self) -> LogEntryModel {
        LogEntryModel { timestamp: self.timestamp, level: self.level, message: self.message@ }
    }
}

/// How many lines were counted, in total and per level.
pub struct LogStatistics {
    pub total_lines: usize,
    pub error_count: usize,
    pub warning_count: usize,
    pub info_count: usize,
    pub debug_count: usize,
}

impl core::default::Default for LogStatistics {
    /// All counts at zero.
    fn default() -> (r: Self)
        ensures
            r.total_lines == 0,
            r.error_count == 0,
            r.warning_count == 0,
            r.info_count == 0,
            r.debug_count == 0,
    {
        LogStatistics {
            total_lines: 0,
            error_count: 0,
            warning_count: 0,
            info_count: 0,
            debug_count: 0,
        }
    }
}

// ---------------------------------------------------------------------------
// Parsing one line
// ---------------------------------------------------------------------------

/// The date a `YYYY-MM-DD` word names, when it is one.
pub open spec fn date_of(w: Seq<char>) -> Option<LogDate> {
    if w.len() == 10 && (forall|j: int|
        (0 <= j < 4 || 5 <= j < 7 || 8 <= j < 10) ==> is_digit_char(#[trigger] w[j])) && w[4]
        == '-' && w[7] == '-' {
        let d = LogDate {
            year: digits_value(w.subrange(0, 4)) as u32,
            month: digits_value(w.subrange(5, 7)) as u32,
            day: digits_value(w.subrange(8, 10)) as u32,
        };
        if valid_date(d) {
            Some(d)
        } else {
            None
        }
    } else {
        None
    }
}

/// The time of day an `HH:MM:SS` word names, when it is one.
pub open spec fn time_of(w: Seq<char>) -> Option<(u32, u32, u32)> {
    if w.len() == 8 && (forall|j: int|
        (0 <= j < 2 || 3 <= j < 5 || 6 <= j < 8) ==> is_digit_char(#[trigger] w[j])) && w[2]
        == ':' && w[5] == ':' {
        let h = digits_value(w.subrange(0, 2)) as u32;
        let mi = digits_value(w.subrange(3, 5)) as u32;
        let s = digits_value(w.subrange(6, 8)) as u32;
        if h < 24 && mi < 60 && s < 60 {
            Some((h, mi, s))
        } else {
            None
        }
    } else {
        None
    }
}

/// The level a bracketed word names, when it is one.
pub open spec fn level_of(w: Seq<char>) -> Option<LogLevel> {
    if w == "[ERROR]"@ {
        Some(LogLevel::Error)
    } else if w == "[WARNING]"@ {
        Some(LogLevel::Warning)
    } else if w == "[INFO]"@ {
        Some(LogLevel::Info)
    } else if w == "[DEBUG]"@ {
        Some(LogLevel::Debug)
    } else {
        None
    }
}

/// The words joined with single spaces.
pub open spec fn join_spaces(ws: Seq<Seq<char>>) -> Seq<char>
    decreases ws.len(),
{
    if ws.len() == 0 {
        Seq::empty()
    } else if ws.len() == 1 {
        ws[0]
    } else {
        ws[0] + " "@ + join_spaces(ws.drop_first())
    }
}

/// What parsing one line yields: date, time, level and the message words,
/// or nothing when any part is missing or malformed.
pub open spec fn parse_log_spec(line: Seq<char>) -> Option<LogEntryModel> {
    let parts = words(line);
    if parts.len() < 4 {
        None
    } else {
        match (date_of(parts[0]), time_of(parts[1]), level_of(parts[2])) {
            (Some(d), Some(t), Some(level)) => Some(
                LogEntryModel {
                    timestamp: Timestamp { date: d, hour: t.0, minute: t.1, second: t.2 },
                    level,
                    message: join_spaces(parts.skip(3)),
                },
            ),
            _ => None,
        }
    }
}

/// Reads the digits of a word at fixed positions into a number below 100.
fn two_digits(v: &Vec<char>, at: usize) -> (r: Option<u32>)
    requires
        at + 2 <= v@.len(),
    ensures
        match r {
            Some(x) => is_digit_char(v@[at as int]) && is_digit_char(v@[at + 1]) && x
                == digits_value(v@.subrange(at as int, at + 2)) && x < 100,
            None => !(is_digit_char(v@[at as int]) && is_digit_char(v@[at + 1])),
        },
{
    let n = v.len();
    let c0 = v[at] as u32;
    let c1 = v[at + 1] as u32;
    if 48 <= c0 && c0 <= 57 && 48 <= c1 && c1 <= 57 {
        proof {
            let w = v@.subrange(at as int, at + 2);
            assert(w.last() == v@[at + 1]);
            assert(w.drop_last() =~= v@.subrange(at as int, at + 1));
            assert(v@.subrange(at as int, at + 1).last() == v@[at as int]);
            assert(v@.subrange(at as int, at + 1).drop_last() =~= Seq::<char>::empty());
            assert(digits_value(Seq::<char>::empty()) == 0);
            assert(digits_value(v@.subrange(at as int, at + 1)) == digit_val(v@[at as int]));
            assert(digits_value(w) == digit_val(v@[at as int]) * 10 + digit_val(v@[at + 1]));
        }
        Some((c0 - 48) * 10 + (c1 - 48))
    } else {
        None
    }
}

/// Reads four digits at fixed positions into a number below 10000.
fn four_digits(v: &Vec<char>, at: usize) -> (r: Option<u32>)
    requires
        at + 4 <= v@.len(),
    ensures
        match r {
            Some(x) => (forall|j: int| at <= j < at + 4 ==> is_digit_char(#[trigger] v@[j])) && x
                == digits_value(v@.subrange(at as int, at + 4)) && x < 10000,
            None => !(forall|j: int| at <= j < at + 4 ==> is_digit_char(#[trigger] v@[j])),
        },
{
    let n = v.len();
    let hi = two_digits(v, at);
    let lo = two_digits(v, at + 2);
    match (hi, lo) {
        (Some(h), Some(l)) => {
            proof {
                let w = v@.subrange(at as int, at + 4);
                let wh = v@.subrange(at as int, at + 2);
                let wl = v@.subrange(at + 2, at + 4);
                assert(w.last() == v@[at + 3]);
                assert(w.drop_last() =~= v@.subrange(at as int, at + 3));
                assert(v@.subrange(at as int, at + 3).last() == v@[at + 2]);
                assert(v@.subrange(at as int, at + 3).drop_last() =~= wh);
                assert(wl.last() == v@[at + 3]);
                assert(wl.drop_last() =~= v@.subrange(at + 2, at + 3));
                assert(v@.subrange(at + 2, at + 3).last() == v@[at + 2]);
                assert(v@.subrange(at + 2, at + 3).drop_last() =~= Seq::<char>::empty());
                assert(digits_value(v@.subrange(at + 2, at + 3)) == digit_val(v@[at + 2]));
                assert(digits_value(wl) == digit_val(v@[at + 2]) * 10 + digit_val(v@[at + 3]));
                assert(digits_value(v@.subrange(at as int, at + 3)) == digits_value(wh) * 10
                    + digit_val(v@[at + 2]));
                assert(digits_value(w) == digits_value(v@.subrange(at as int, at + 3)) * 10
                    + digit_val(v@[at + 3]));
                let x = digits_value(wh);
                let a = digit_val(v@[at + 2]);
                let b = digit_val(v@[at + 3]);
                assert(digits_value(w) == x * 100 + digits_value(wl)) by (nonlinear_arith)
                    requires
                        digits_value(w) == (x * 10 + a) * 10 + b,
                        digits_value(wl) == a * 10 + b,
                ;
            }
            Some(h * 100 + l)
        },
        _ => None,
    }
}

impl LogEntry {
    /// Reads one log line, if it is well formed.
    pub fn parse(line: &str) -> (r: Option<LogEntry>)
        ensures
            match r {
                Some(e) => parse_log_spec(line@) == Some(e@),
                None => parse_log_spec(line@) is None,
            },
    {
        let v = str_to_chars(line);
        let parts = words_exec(line, &v);
        let ghost pm = parts@.map_values(|w: String| w@);
        if parts.len() < 4 {
            return None;
        }
        proof {
            assert(pm[0] == parts@[0]@);
            assert(pm[1] == parts@[1]@);
            assert(pm[2] == parts@[2]@);
        }
        let date = match Self::parse_date(parts[0].as_str()) {
            Some(d) => d,
            None => {
                return None;
            },
        };
        let time = match Self::parse_time(parts[1].as_str()) {
            Some(t) => t,
            None => {
                return None;
            },
        };
        let level = match Self::parse_level(parts[2].as_str()) {
            Some(l) => l,
            None => {
                return None;
            },
        };
        // join the message words
        let mut message = String::new();
        let n = parts.len();
        let mut i: usize = 3;
        proof {
            assert(pm.skip(3).skip(0) =~= pm.skip(3));
        }
        while i < n
            invariant
                3 <= i <= n,
                n == pm.len(),
                pm == parts@.map_values(|w: String| w@),
                join_spaces(pm.skip(3)) == message@ + sep_join(i as int > 3, pm.skip(i as int)),
            decreases n - i,
        {
            proof {
                assert(pm.skip(i as int)[0] == pm[i as int]);
                assert(pm[i as int] == parts@[i as int]@);
                assert(pm.skip(i as int).drop_first() =~= pm.skip(i + 1));
            }
            if i > 3 {
                message.append(" ");
            }
            message.append(parts[i].as_str());
            proof {
                assert(join_spaces(pm.skip(3)) =~= message@ + sep_join(true, pm.skip(i + 1)));
            }
            i = i + 1;
        }
        proof {
            assert(pm.skip(n as int).len() == 0);
            assert(join_spaces(pm.skip(3)) == message@);
        }
        let entry = LogEntry {
            timestamp: Timestamp { date, hour: time.0, minute: time.1, second: time.2 },
            level,
            message,
        };
        Some(entry)
    }

    /// Reads a `YYYY-MM-DD` word into a valid date.
    fn parse_date(w: &str) -> (r: Option<LogDate>)
        ensures
            match r {
                Some(d) => date_of(w@) == Some(d),
                None => date_of(w@) is None,
            },
    {
        let v = str_to_chars(w);
        if v.len() != 10 {
            return None;
        }
        if !(v[4] == '-' && v[7] == '-') {
            return None;
        }
        let year = match four_digits(&v, 0) {
            Some(y) => y,
            None => {
                return None;
            },
        };
        let month = match two_digits(&v, 5) {
            Some(m) => m,
            None => {
                return None;
            },
        };
        let day = match two_digits(&v, 8) {
            Some(d) => d,
            None => {
                return None;
            },
        };
        let d = LogDate { year, month, day };
        let dim = Self::days_in_month_exec(year, month);
        if 1 <= month && month <= 12 && 1 <= day && day <= dim {
            Some(d)
        } else {
            None
        }
    }

    /// How many days the month of a year has.
    fn days_in_month_exec(y: u32, m: u32) -> (r: u32)
        ensures
            r == days_in_month(y, m),
    {
        if m == 2 {
            if y % 4 == 0 && (y % 100 != 0 || y % 400 == 0) {
                29
            } else {
                28
            }
        } else if m == 4 || m == 6 || m == 9 || m == 11 {
            30
        } else {
            31
        }
    }

    /// Reads an `HH:MM:SS` word into a valid time of day.
    fn parse_time(w: &str) -> (r: Option<(u32, u32, u32)>)
        ensures
            match r {
                Some(t) => time_of(w@) == Some(t),
                None => time_of(w@) is None,
            },
    {
        let v = str_to_chars(w);
        if v.len() != 8 {
            return None;
        }
        if !(v[2] == ':' && v[5] == ':') {
            return None;
        }
        let h = match two_digits(&v, 0) {
            Some(x) => x,
            None => {
                return None;
            },
        };
        let mi = match two_digits(&v, 3) {
            Some(x) => x,
            None => {
                return None;
            },
        };
        let s = match two_digits(&v, 6) {
            Some(x) => x,
            None => {
                return None;
            },
        };
        if h < 24 && mi < 60 && s < 60 {
            Some((h, mi, s))
        } else {
            None
        }
    }

    /// Reads a bracketed level word.
    fn parse_level(w: &str) -> (r: Option<LogLevel>)
        ensures
            r == level_of(w@),
    {
        if crate::strutil::str_eq(w, "[ERROR]") {
            Some(LogLevel::Error)
        } else if crate::strutil::str_eq(w, "[WARNING]") {
            Some(LogLevel::Warning)
        } else if crate::strutil::str_eq(w, "[INFO]") {
            Some(LogLevel::Info)
        } else if crate::strutil::str_eq(w, "[DEBUG]") {
            Some(LogLevel::Debug)
        } else {
            None
        }
    }

    /// Counts the well-formed lines by level; malformed lines are skipped.
    pub fn stats_of_lines(lines: &Vec<String>) -> (r: LogStatistics)
        ensures
            ({
                let ls = lines@.map_values(|l: String| l@);
                &&& r.total_lines == count_if_level(ls, None)
                &&& r.error_count == count_if_level(ls, Some(LogLevel::Error))
                &&& r.warning_count == count_if_level(ls, Some(LogLevel::Warning))
                &&& r.info_count == count_if_level(ls, Some(LogLevel::Info))
                &&& r.debug_count == count_if_level(ls, Some(LogLevel::Debug))
            }),
    {
        let ghost ls = lines@.map_values(|l: String| l@);
        let mut total: usize = 0;
        let mut errors: usize = 0;
        let mut warnings: usize = 0;
        let mut infos: usize = 0;
        let mut debugs: usize = 0;
        let n = lines.len();
        let mut i: usize = 0;
        proof {
            assert(ls.skip(0) =~= ls);
        }
        while i < n
            invariant
                i <= n,
                n == ls.len(),
                ls == lines@.map_values(|l: String| l@),
                total <= i,
                errors <= i,
                warnings <= i,
                infos <= i,
                debugs <= i,
                count_if_level(ls, None) == total + count_if_level(ls.skip(i as int), None),
                count_if_level(ls, Some(LogLevel::Error)) == errors + count_if_level(
                    ls.skip(i as int),
                    Some(LogLevel::Error),
                ),
                count_if_level(ls, Some(LogLevel::Warning)) == warnings + count_if_level(
                    ls.skip(i as int),
                    Some(LogLevel::Warning),
                ),
                count_if_level(ls, Some(LogLevel::Info)) == infos + count_if_level(
                    ls.skip(i as int),
                    Some(LogLevel::Info),
                ),
                count_if_level(ls, Some(LogLevel::Debug)) == debugs + count_if_level(
                    ls.skip(i as int),
                    Some(LogLevel::Debug),
                ),
            decreases n - i,
        {
            proof {
                assert(ls.skip(i as int)[0] == ls[i as int]);
                assert(ls[i as int] == lines@[i as int]@);
                assert(ls.skip(i as int).drop_first() =~= ls.skip(i + 1));
            }
            match Self::parse(lines[i].as_str()) {
                Some(e) => {
                    total = total + 1;
                    match e.level {
                        LogLevel::Error => errors = errors + 1,
                        LogLevel::Warning => warnings = warnings + 1,
                        LogLevel::Info => infos = infos + 1,
                        LogLevel::Debug => debugs = debugs + 1,
                    }
                },
                None => {},
            }
            i = i + 1;
        }
        proof {
            assert(ls.skip(n as int).len() == 0);
        }
        LogStatistics {
            total_lines: total,
            error_count: errors,
            warning_count: warnings,
            info_count: infos,
            debug_count: debugs,
        }
    }

    /// Renders the counting report.
    pub fn generate_rapport(stats: &LogStatistics) -> (r: String)
        ensures
            r@ == rapport_spec(stats),
    {
        let mut out = String::from_str("Rapport d'analyse des logs :\n\n            Total des lignes : ");
        let t = usize_to_string(stats.total_lines);
        out.append(t.as_str());
        out.append("\n\n            Erreurs : ");
        let e = usize_to_string(stats.error_count);
        out.append(e.as_str());
        out.append("\n\n            Avertissements : ");
        let w = usize_to_string(stats.warning_count);
        out.append(w.as_str());
        out.append("\n\n            Infos : ");
        let inf = usize_to_string(stats.info_count);
        out.append(inf.as_str());
        out.append("\n\n            Debugs : ");
        let d = usize_to_string(stats.debug_count);
        out.append(d.as_str());
        proof {
            assert(out@ =~= rapport_spec(stats));
        }
        out
    }

    /// Keeps the entries matching the requested level and day, in order.
    pub fn filter_logs(
        entries: Vec<LogEntry>,
        level_filter: Option<LogLevel>,
        date_filter: Option<LogDate>,
    ) -> (r: Vec<LogEntry>)
        ensures
            r@.map_values(|e: LogEntry| e@) == entries@.map_values(|e: LogEntry| e@).filter(
                |e: LogEntryModel| log_kept(e, level_filter, date_filter),
            ),
    {
        let ghost orig = entries@.map_values(|e: LogEntry| e@);
        let mut rest = entries;
        let mut kept: Vec<LogEntry> = Vec::new();
        let n = rest.len();
        let mut i: usize = 0;
        while i < n
            invariant
                i <= n,
                n == orig.len(),
                rest@.map_values(|e: LogEntry| e@) =~= orig.skip(i as int),
                rest@.len() == n - i,
                kept@.map_values(|e: LogEntry| e@) == orig.take(i as int).filter(
                    |e: LogEntryModel| log_kept(e, level_filter, date_filter),
                ),
            decreases n - i,
        {
            let ghost prefix = orig.take(i as int);
            let ghost rp = rest@;
            let entry = rest.remove(0);
            proof {
                reveal_with_fuel(Seq::<_>::filter, 2);
                assert(rp.map_values(|e: LogEntry| e@)[0] == rp[0]@);
                assert(entry@ == orig[i as int]);
                assert(rest@ == rp.remove(0));
                assert(forall|q: int| 0 <= q < rest@.len() ==> #[trigger] rest@[q] == rp[q + 1]);
                assert(forall|q: int|
                    0 <= q < rp.len() ==> rp.map_values(|e: LogEntry| e@)[q] == (
                    #[trigger] rp[q])@);
                assert(forall|q: int|
                    0 <= q < rest@.len() ==> rest@.map_values(|e: LogEntry| e@)[q] == (
                    #[trigger] rest@[q])@);
                assert(rest@.map_values(|e: LogEntry| e@) =~= orig.skip(i + 1));
                assert(orig.take(i + 1) =~= prefix.push(orig[i as int]));
                assert(prefix.push(orig[i as int]).drop_last() =~= prefix);
            }
            let level_ok = match level_filter {
                Some(l) => entry.level == l,
                None => true,
            };
            let date_ok = match date_filter {
                Some(d) => entry.timestamp.date == d,
                None => true,
            };
            if level_ok && date_ok {
                let ghost kept_before = kept@.map_values(|e: LogEntry| e@);
                kept.push(entry);
                proof {
                    assert(kept@.map_values(|e: LogEntry| e@) =~= kept_before.push(orig[i as int]));
                }
            }
            i = i + 1;
        }
        proof {
            assert(orig.take(n as int) =~= orig);
        }
        kept
    }
}

/// Whether an entry passes the level and day filters.
pub open spec fn log_kept(
    e: LogEntryModel,
    level_filter: Option<LogLevel>,
    date_filter: Option<LogDate>,
) -> bool {
    (match level_filter {
        Some(l) => e.level == l,
        None => true,
    }) && (match date_filter {
        Some(d) => e.timestamp.date == d,
        None => true,
    })
}

/// The rest of a join: nothing when no words remain, else the words joined,
/// with a leading separator when some word is already written.
pub open spec fn sep_join(space: bool, ws: Seq<Seq<char>>) -> Seq<char> {
    if ws.len() == 0 {
        Seq::empty()
    } else if space {
        " "@ + join_spaces(ws)
    } else {
        join_spaces(ws)
    }
}

/// How many lines parse, restricted to one level when given.
pub open spec fn count_if_level(lines: Seq<Seq<char>>, level: Option<LogLevel>) -> nat
    decreases lines.len(),
{
    if lines.len() == 0 {
        0
    } else {
        (match parse_log_spec(lines[0]) {
            Some(e) => if level is None || level == Some(e.level) {
                1nat
            } else {
                0nat
            },
            None => 0nat,
        }) + count_if_level(lines.drop_first(), level)
    }
}

/// The counting report's text.
pub open spec fn rapport_spec(stats: &LogStatistics) -> Seq<char> {
    "Rapport d'analyse des logs :\n\n            Total des lignes : "@ + dec_of(
        stats.total_lines as nat,
    ) + "\n\n            Erreurs : "@ + dec_of(stats.error_count as nat)
        + "\n\n            Avertissements : "@ + dec_of(stats.warning_count as nat)
        + "\n\n            Infos : "@ + dec_of(stats.info_count as nat)
        + "\n\n            Debugs : "@ + dec_of(stats.debug_count as nat)
}

} // verus!
