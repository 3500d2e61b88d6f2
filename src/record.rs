//! Turning log lines into samples. A line reads
//! `<date> @ <name> RX <bytes> TX <bytes>, <name> RX <bytes> TX <bytes>, ...`.
use vstd::prelude::*;

use crate::model::{Interface, Sample, Timestamp, names_unique};
use crate::store::SampleStore;
use regex::Regex;

verus! {

/// Layout of the date field (RFC 2822 style), in strptime notation.
pub const DATE_FORMAT: &'static str = "%a, %d %b %Y %T %z";

/// Splits a line at its last ` @ `: the date before it, without surrounding
/// blanks, and the interface list after it.
pub const DATE_PATTERN: &'static str = "^\\s*(.*\\S)\\s* @ (.*)$";

/// One interface entry: its name, then the RX and TX fields.
pub const INTERFACE_PATTERN: &'static str = "([^\\s,]+) RX ([^\\s,]+) TX ([^\\s,]+)";

/// Why a line could not be turned into a sample.
#[derive(Clone, Copy, Debug, PartialEq, Eq, Structural)]
pub enum ParseError {
    /// The line has no `<date> @ ` prefix.
    DateNotFound,
    /// The date field does not read as a date in `DATE_FORMAT`.
    BadDate,
    /// No interface entry follows the date.
    NoInterfaceData,
    /// The regex engine rejected one of the line patterns.
    PatternRejected,
}

/// The first line that failed, counted from 1, and why.
#[derive(Clone, Copy, Debug, PartialEq, Eq, Structural)]
pub struct LineError {
    pub line: usize,
    pub kind: ParseError,
}

/// What `str::parse::<u64>` reads: an optional `+`, then one or more decimal
/// digits whose value fits in 64 bits.
pub open spec fn decimal_value(s: Seq<char>) -> Option<u64> {
    let d = if s.len() > 0 && s[0] == '+' {
        s.drop_first()
    } else {
        s
    };
    if d.len() > 0 && all_digits(d) && digits_value(d) <= u64::MAX {
        Some(digits_value(d) as u64)
    } else {
        None
    }
}

/// Every character is an ASCII decimal digit.
pub open spec fn all_digits(s: Seq<char>) -> bool {
    forall|i: int| 0 <= i < s.len() ==> '0' <= #[trigger] s[i] <= '9'
}

/// The number that a string of decimal digits denotes.
pub open spec fn digits_value(s: Seq<char>) -> int
    decreases s.len(),
{
    if s.len() == 0 {
        0
    } else {
        digits_value(s.drop_last()) * 10 + (s.last() as u32 - '0' as u32)
    }
}

/// A counter field's value; a field that is not a valid counter counts as 0.
pub open spec fn counter_value(s: Seq<char>) -> u64 {
    match decimal_value(s) {
        Some(v) => v,
        None => 0,
    }
}

/// A capture group as plain text.
pub open spec fn group_view(g: Option<String>) -> Option<Seq<char>> {
    match g {
        Some(s) => Some(s@),
        None => None,
    }
}

/// The groups of one match as plain text.
pub open spec fn row_view(row: Vec<Option<String>>) -> Seq<Option<Seq<char>>> {
    row@.map_values(|g: Option<String>| group_view(g))
}

/// An optional match as plain text.
pub open spec fn opt_row_view(m: Option<Vec<Option<String>>>) -> Option<Seq<Option<Seq<char>>>> {
    match m {
        Some(row) => Some(row_view(row)),
        None => None,
    }
}

/// A sequence of matches as plain text.
pub open spec fn rows_view(rows: Seq<Vec<Option<String>>>) -> Seq<Seq<Option<Seq<char>>>> {
    rows.map_values(|row: Vec<Option<String>>| row_view(row))
}

/// Whether the regex engine accepts a pattern.
pub uninterp spec fn pattern_compiles(pattern: Seq<char>) -> bool;

/// The groups of the leftmost match of a pattern in a text, if any.
pub uninterp spec fn leftmost_captures(pattern: Seq<char>, haystack: Seq<char>) -> Option<
    Seq<Option<Seq<char>>>,
>;

/// The groups of each successive non-overlapping match of a pattern in a text.
pub uninterp spec fn every_captures(pattern: Seq<char>, haystack: Seq<char>) -> Seq<
    Seq<Option<Seq<char>>>,
>;

/// What `time::strptime` makes of a text under a format, or `None` where it fails.
pub uninterp spec fn strptime_result(text: Seq<char>, format: Seq<char>) -> Option<Timestamp>;

/// Relies on `time::strptime`: parses `text` by `format`; the result depends on
/// the two strings alone. The fields of `time::Tm` are copied as they are.
/// Only `DATE_FORMAT` is admitted: each of its directives reads a bounded
/// number of digits, so nothing in the parse can overflow.
#[verifier::external_body]
fn parse_time(text: &str, format: &str) -> (r: Option<Timestamp>)
    requires
        format@ == DATE_FORMAT@,
    ensures
        r == strptime_result(text@, format@),
{
    time::strptime(text, format).ok().map(
        |tm: time::Tm|
            Timestamp {
                year: tm.tm_year,
                month: tm.tm_mon,
                day: tm.tm_mday,
                hour: tm.tm_hour,
                minute: tm.tm_min,
                second: tm.tm_sec,
                utc_offset: tm.tm_utcoff,
            },
    )
}

/// Relies on `str::parse::<u64>` (u64's `FromStr`): an optional `+`, then
/// decimal digits whose value fits in a `u64`; anything else is an error.
#[verifier::external_body]
fn parse_u64(text: &str) -> (r: Option<u64>)
    ensures
        r == decimal_value(text@),
{
    text.parse::<u64>().ok()
}

/// Relies on `regex::Regex::new` and `regex::Regex::captures`: `None` where the
/// pattern does not compile, else the groups of the leftmost match, if any,
/// the whole match first, each as its text or `None` where it took no part.
#[verifier::external_body]
fn first_match(pattern: &str, haystack: &str) -> (r: Option<Option<Vec<Option<String>>>>)
    ensures
        r is Some <==> pattern_compiles(pattern@),
        r matches Some(m) ==> opt_row_view(m) == leftmost_captures(pattern@, haystack@),
{
    Regex::new(pattern).ok().map(
        |re: Regex|
            re.captures(haystack).map(
                |c| c.iter().map(|g| g.map(|m| m.as_str().to_string())).collect(),
            ),
    )
}

/// Relies on `regex::Regex::new` and `regex::Regex::captures_iter`: `None`
/// where the pattern does not compile, else the groups of every successive
/// non-overlapping match, each as in `first_match`.
#[verifier::external_body]
fn all_matches(pattern: &str, haystack: &str) -> (r: Option<Vec<Vec<Option<String>>>>)
    ensures
        r is Some <==> pattern_compiles(pattern@),
        r matches Some(v) ==> rows_view(v@) == every_captures(pattern@, haystack@),
{
    Regex::new(pattern).ok().map(
        |re: Regex|
            re.captures_iter(haystack).map(
                |c| c.iter().map(|g| g.map(|m| m.as_str().to_string())).collect(),
            ).collect(),
    )
}

/// The text of a capture group; one that took no part in the match is empty.
pub open spec fn group_text(g: Option<Seq<char>>) -> Seq<char> {
    match g {
        Some(s) => s,
        None => Seq::empty(),
    }
}

/// The interface entry that one match of `INTERFACE_PATTERN` describes, as
/// (name, RX, TX); a match without a name group yields none.
pub open spec fn entry_of(groups: Seq<Option<Seq<char>>>) -> Option<(Seq<char>, u64, u64)> {
    if groups.len() >= 4 && groups[1] is Some {
        Some(
            (
                group_text(groups[1]),
                counter_value(group_text(groups[2])),
                counter_value(group_text(groups[3])),
            ),
        )
    } else {
        None
    }
}

/// Whether an entry list already names interface `name`.
pub open spec fn lists_entry(es: Seq<(Seq<char>, u64, u64)>, name: Seq<char>) -> bool {
    exists|j: int| 0 <= j < es.len() && #[trigger] es[j].0 == name
}

/// The interface entries of a line's matches, in order. A name that the line
/// lists again is ignored after its first entry, so names stay unique.
pub open spec fn entries_of(matches: Seq<Seq<Option<Seq<char>>>>) -> Seq<(Seq<char>, u64, u64)>
    decreases matches.len(),
{
    if matches.len() == 0 {
        Seq::empty()
    } else {
        let earlier = entries_of(matches.drop_last());
        match entry_of(matches.last()) {
            Some(e) => if lists_entry(earlier, e.0) {
                earlier
            } else {
                earlier.push(e)
            },
            None => earlier,
        }
    }
}

/// Date text and interface list from a match of `DATE_PATTERN`, when the line
/// matched and both groups took part.
pub open spec fn date_split(groups: Option<Seq<Option<Seq<char>>>>) -> Option<(Seq<char>, Seq<char>)> {
    match groups {
        Some(g) => if g.len() >= 3 && g[1] is Some && g[2] is Some {
            Some((group_text(g[1]), group_text(g[2])))
        } else {
            None
        },
        None => None,
    }
}

/// An interface as plain values.
pub open spec fn interface_fields(i: Interface) -> (Seq<char>, u64, u64) {
    (i.ifname@, i.bytes_rx, i.bytes_tx)
}

/// A sample as plain values: its timestamp and its interface entries.
pub open spec fn sample_view(s: Sample) -> (Timestamp, Seq<(Seq<char>, u64, u64)>) {
    (s.timestamp, s.interfaces@.map_values(|i: Interface| interface_fields(i)))
}

/// What one line reads as: the date before its last ` @ `, read under
/// `DATE_FORMAT`, and the interface entries after it; or the first thing that
/// went wrong, in that order.
pub open spec fn line_outcome(line: Seq<char>) -> Result<
    (Timestamp, Seq<(Seq<char>, u64, u64)>),
    ParseError,
> {
    if !pattern_compiles(DATE_PATTERN@) {
        Err(ParseError::PatternRejected)
    } else {
        match date_split(leftmost_captures(DATE_PATTERN@, line)) {
            None => Err(ParseError::DateNotFound),
            Some(parts) => match strptime_result(parts.0, DATE_FORMAT@) {
                None => Err(ParseError::BadDate),
                Some(ts) => if !pattern_compiles(INTERFACE_PATTERN@) {
                    Err(ParseError::PatternRejected)
                } else {
                    let es = entries_of(every_captures(INTERFACE_PATTERN@, parts.1));
                    if es.len() == 0 {
                        Err(ParseError::NoInterfaceData)
                    } else {
                        Ok((ts, es))
                    }
                },
            },
        }
    }
}

/// What a whole log reads as: one sample per line, or the number (from 1) and
/// error of the first line that does not parse.
pub open spec fn lines_outcome(lines: Seq<Seq<char>>) -> Result<
    Seq<(Timestamp, Seq<(Seq<char>, u64, u64)>)>,
    (nat, ParseError),
>
    decreases lines.len(),
{
    if lines.len() == 0 {
        Ok(Seq::empty())
    } else {
        match lines_outcome(lines.drop_last()) {
            Err(f) => Err(f),
            Ok(vs) => match line_outcome(lines.last()) {
                Ok(v) => Ok(vs.push(v)),
                Err(k) => Err((lines.len(), k)),
            },
        }
    }
}

/// The lines of a log as plain text.
pub open spec fn lines_view(lines: Seq<String>) -> Seq<Seq<char>> {
    lines.map_values(|s: String| s@)
}

/// A counter field's value, or 0 where the field is not a valid counter: one bad
/// field does not spoil the rest of its line.
pub fn counter_or_zero(text: &str) -> (r: u64)
    ensures
        r == counter_value(text@),
{
    match parse_u64(text) {
        Some(v) => v,
        None => 0,
    }
}

/// Whether `ifs` already holds an interface named `name`.
fn has_interface(ifs: &Vec<Interface>, name: &String) -> (r: bool)
    ensures
        r == lists_entry(ifs@.map_values(|i: Interface| interface_fields(i)), name@),
{
    let ghost es = ifs@.map_values(|i: Interface| interface_fields(i));
    let mut k: usize = 0;
    while k < ifs.len()
        invariant
            0 <= k <= ifs@.len(),
            es == ifs@.map_values(|i: Interface| interface_fields(i)),
            forall|m: int| 0 <= m < k ==> es[m].0 != name@,
        decreases ifs@.len() - k,
    {
        if ifs[k].ifname == *name {
            assert(es[k as int].0 == name@);
            return true;
        }
        k = k + 1;
    }
    assert(!lists_entry(es, name@));
    false
}

/// The interfaces that a line's matches of `INTERFACE_PATTERN` describe, in
/// order, each name once.
pub fn interfaces_from_matches(matches: &Vec<Vec<Option<String>>>) -> (r: Vec<Interface>)
    ensures
        r@.map_values(|i: Interface| interface_fields(i)) == entries_of(rows_view(matches@)),
        names_unique(r@),
{
    let mut out: Vec<Interface> = Vec::new();
    let mut k: usize = 0;
    while k < matches.len()
        invariant
            0 <= k <= matches@.len(),
            out@.map_values(|i: Interface| interface_fields(i)) == entries_of(
                rows_view(matches@.take(k as int)),
            ),
            names_unique(out@),
        decreases matches@.len() - k,
    {
        let groups = &matches[k];
        let ghost es = out@.map_values(|i: Interface| interface_fields(i));
        proof {
            assert(rows_view(matches@.take(k + 1)).drop_last() =~= rows_view(
                matches@.take(k as int),
            ));
            assert(rows_view(matches@.take(k + 1)).last() == row_view(*groups));
        }
        if groups.len() >= 4 {
            match &groups[1] {
                Some(name) => {
                    assert(row_view(*groups)[1] == Some(name@));
                    assert(row_view(*groups)[2] == group_view(groups@[2]));
                    assert(row_view(*groups)[3] == group_view(groups@[3]));
                    let rx: u64 = match &groups[2] {
                        Some(t) => counter_or_zero(t.as_str()),
                        None => 0,
                    };
                    let tx: u64 = match &groups[3] {
                        Some(t) => counter_or_zero(t.as_str()),
                        None => 0,
                    };
                    assert(entry_of(row_view(*groups)) == Some((name@, rx, tx)));
                    if !has_interface(&out, name) {
                        let ghost before = out@;
                        out.push(Interface { ifname: name.clone(), bytes_rx: rx, bytes_tx: tx });
                        assert(out@.map_values(|i: Interface| interface_fields(i)) =~= es.push(
                            (name@, rx, tx),
                        ));
                        assert forall|i: int, j: int|
                            0 <= i < j < out@.len() implies #[trigger] out@[i].ifname@
                            != #[trigger] out@[j].ifname@ by {
                            if j == out@.len() - 1 {
                                assert(es[i].0 == before[i].ifname@);
                            } else {
                                assert(before[i] == out@[i] && before[j] == out@[j]);
                            }
                        }
                    }
                },
                None => {},
            }
        }
        k = k + 1;
    }
    proof {
        assert(matches@.take(matches@.len() as int) =~= matches@);
    }
    out
}

/// A sample from the parts read off a line: the date as `time::strptime` read
/// it, and the line's matches of `INTERFACE_PATTERN`. An unreadable date is
/// `BadDate`; a line with no interface entry is `NoInterfaceData`.
pub fn sample_from_parts(timestamp: Option<Timestamp>, matches: &Vec<Vec<Option<String>>>) -> (r:
    Result<Sample, ParseError>)
    ensures
        timestamp is None ==> r == Err::<Sample, ParseError>(ParseError::BadDate),
        timestamp is Some && entries_of(rows_view(matches@)).len() == 0 ==> r == Err::<
            Sample,
            ParseError,
        >(ParseError::NoInterfaceData),
        timestamp is Some && entries_of(rows_view(matches@)).len() > 0 ==> r is Ok,
        r matches Ok(s) ==> timestamp == Some(s.timestamp) && sample_view(s) == (
            s.timestamp,
            entries_of(rows_view(matches@)),
        ) && names_unique(s.interfaces@),
{
    match timestamp {
        None => Err(ParseError::BadDate),
        Some(ts) => {
            let interfaces = interfaces_from_matches(matches);
            if interfaces.len() == 0 {
                assert(interfaces@.map_values(|i: Interface| interface_fields(i)).len() == 0);
                Err(ParseError::NoInterfaceData)
            } else {
                Ok(Sample { timestamp: ts, interfaces })
            }
        },
    }
}

/// The date text and the interface list of a line, from its match of
/// `DATE_PATTERN`: no match, or one without both groups, is `DateNotFound`.
pub fn date_and_rest(groups: &Option<Vec<Option<String>>>) -> (r: Result<(String, String), ParseError>)
    ensures
        date_split(opt_row_view(*groups)) is None ==> r == Err::<(String, String), ParseError>(
            ParseError::DateNotFound,
        ),
        date_split(opt_row_view(*groups)) matches Some(parts) ==> (r matches Ok(p) && p.0@
            == parts.0 && p.1@ == parts.1),
{
    match groups {
        Some(g) => {
            if g.len() >= 3 {
                assert(row_view(*g)[1] == group_view(g@[1]));
                assert(row_view(*g)[2] == group_view(g@[2]));
                match (&g[1], &g[2]) {
                    (Some(date), Some(rest)) => Ok((date.clone(), rest.clone())),
                    _ => Err(ParseError::DateNotFound),
                }
            } else {
                Err(ParseError::DateNotFound)
            }
        },
        None => Err(ParseError::DateNotFound),
    }
}

/// Reads one log line: the date before its last ` @ `, then the interface
/// entries after it. A field that is not a valid counter reads as 0 and the
/// rest of the line is still read; a name listed twice keeps its first entry.
pub fn parse_line(line: &str) -> (r: Result<Sample, ParseError>)
    ensures
        r matches Ok(s) ==> (line_outcome(line@) matches Ok(v) && v == sample_view(s)),
        r matches Ok(s) ==> names_unique(s.interfaces@),
        r matches Err(e) ==> (line_outcome(line@) matches Err(k) && k == e),
{
    let found = match first_match(DATE_PATTERN, line) {
        Some(m) => m,
        None => return Err(ParseError::PatternRejected),
    };
    let (date, rest) = match date_and_rest(&found) {
        Ok(parts) => parts,
        Err(e) => return Err(e),
    };
    let timestamp = match parse_time(date.as_str(), DATE_FORMAT) {
        Some(t) => t,
        None => return Err(ParseError::BadDate),
    };
    let entries = match all_matches(INTERFACE_PATTERN, rest.as_str()) {
        Some(m) => m,
        None => return Err(ParseError::PatternRejected),
    };
    sample_from_parts(Some(timestamp), &entries)
}

/// Once a prefix of the log fails, the whole log fails the same way.
proof fn lemma_failure_persists(lines: Seq<Seq<char>>, k: int)
    requires
        0 <= k <= lines.len(),
        lines_outcome(lines.take(k)) is Err,
    ensures
        lines_outcome(lines) == lines_outcome(lines.take(k)),
    decreases lines.len(),
{
    if k < lines.len() {
        assert(lines.drop_last().take(k) =~= lines.take(k));
        lemma_failure_persists(lines.drop_last(), k);
    } else {
        assert(lines.take(k) =~= lines);
    }
}

/// A counter field that is not a valid counter reads as 0, and the entry
/// still stands with its name and its other counter.
pub proof fn lemma_bad_counter_reads_zero(groups: Seq<Option<Seq<char>>>)
    requires
        groups.len() >= 4,
        groups[1] is Some,
        decimal_value(group_text(groups[2])) is None,
    ensures
        entry_of(groups) == Some(
            (group_text(groups[1]), 0u64, counter_value(group_text(groups[3]))),
        ),
{
}

/// When every line before line `i` parses, the log so far reads as samples.
proof fn lemma_prefix_parses(lines: Seq<Seq<char>>, i: int)
    requires
        0 <= i <= lines.len(),
        forall|j: int| 0 <= j < i ==> (#[trigger] line_outcome(lines[j])) is Ok,
    ensures
        lines_outcome(lines.take(i)) is Ok,
    decreases i,
{
    if i > 0 {
        lemma_prefix_parses(lines, i - 1);
        assert(lines.take(i).drop_last() =~= lines.take(i - 1));
        assert(lines.take(i).last() == lines[i - 1]);
    }
}

/// A log whose lines all parse reads as samples, one per line.
pub proof fn lemma_every_line_parses(lines: Seq<Seq<char>>)
    requires
        forall|j: int| 0 <= j < lines.len() ==> (#[trigger] line_outcome(lines[j])) is Ok,
    ensures
        lines_outcome(lines) is Ok,
{
    lemma_prefix_parses(lines, lines.len() as int);
    assert(lines.take(lines.len() as int) =~= lines);
}

/// The first line that does not parse decides the outcome of the whole log:
/// its number (from 1) and its error, whatever lines follow.
pub proof fn lemma_first_failure_aborts(lines: Seq<Seq<char>>, n: int)
    requires
        0 <= n < lines.len(),
        forall|j: int| 0 <= j < n ==> (#[trigger] line_outcome(lines[j])) is Ok,
        line_outcome(lines[n]) is Err,
    ensures
        lines_outcome(lines) matches Err(f) && f.0 == n + 1 && line_outcome(lines[n]) == Err::<
            (Timestamp, Seq<(Seq<char>, u64, u64)>),
            ParseError,
        >(f.1),
{
    lemma_prefix_parses(lines, n);
    assert(lines.take(n + 1).drop_last() =~= lines.take(n));
    assert(lines.take(n + 1).last() == lines[n]);
    lemma_failure_persists(lines, n + 1);
}

/// Reads every line into a store, in order, stopping at the first line that does
/// not parse and reporting its number (from 1) and error. No lines give an
/// empty store.
pub fn ingest(lines: &Vec<String>) -> (r: Result<SampleStore, LineError>)
    ensures
        r matches Ok(store) ==> (lines_outcome(lines_view(lines@)) matches Ok(vs) && vs
            == store@.map_values(|s: Sample| sample_view(s))),
        r matches Ok(store) ==> forall|i: int|
            0 <= i < store@.len() ==> names_unique(#[trigger] store@[i].interfaces@),
        r matches Err(e) ==> (lines_outcome(lines_view(lines@)) matches Err(f) && f == (
            e.line as nat,
            e.kind,
        )),
{
    let ghost lv = lines_view(lines@);
    let mut store = SampleStore::new();
    proof {
        assert(lv.take(0) =~= Seq::<Seq<char>>::empty());
        assert(store@.map_values(|s: Sample| sample_view(s)) =~= Seq::empty());
    }
    let mut i: usize = 0;
    while i < lines.len()
        invariant
            0 <= i <= lines@.len(),
            lv == lines_view(lines@),
            lines_outcome(lv.take(i as int)) == Ok::<
                Seq<(Timestamp, Seq<(Seq<char>, u64, u64)>)>,
                (nat, ParseError),
            >(store@.map_values(|s: Sample| sample_view(s))),
            forall|k: int| 0 <= k < store@.len() ==> names_unique(#[trigger] store@[k].interfaces@),
        decreases lines@.len() - i,
    {
        proof {
            assert(lv.take(i + 1).drop_last() =~= lv.take(i as int));
            assert(lv.take(i + 1).last() == lines@[i as int]@);
        }
        match parse_line(lines[i].as_str()) {
            Ok(sample) => {
                let ghost before = store@;
                store.append(sample);
                assert(store@.map_values(|s: Sample| sample_view(s)) =~= before.map_values(
                    |s: Sample| sample_view(s),
                ).push(sample_view(sample)));
            },
            Err(kind) => {
                proof {
                    lemma_failure_persists(lv, i + 1);
                }
                return Err(LineError { line: i + 1, kind });
            },
        }
        i = i + 1;
    }
    proof {
        assert(lv.take(lines@.len() as int) =~= lv);
    }
    Ok(store)
}

} // verus!
