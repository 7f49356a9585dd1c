//! The history state: applied migrations and the live baseline.

use vstd::prelude::*;

use crate::baseline::{is_applied, seq_lte, version_lte};
use crate::text::{
    chars_of, find_in, find_index, has_at, skip_ws_backward, skip_ws_forward, slice, starts_with,
    trim, views,
};
use crate::timestamp::{rfc3339_instant, Timestamp};
use crate::{AppliedMigration, Migration};

verus! {

/// A baseline: every migration whose version is at most `version` counts as
/// applied.
#[derive(Debug, Clone)]
pub struct Baseline {
    pub version: String,
    pub created: Timestamp,
    pub summary: Option<String>,
}

/// What the history log holds: the applied records in log order and the
/// most recent baseline.
#[derive(Debug)]
pub struct HistoryState {
    pub applied: Vec<AppliedMigration>,
    pub baseline: Option<Baseline>,
}

/// The value of a baseline.
pub struct BaselineModel {
    pub version: Seq<char>,
    pub created: Timestamp,
    pub summary: Option<Seq<char>>,
}

/// The value of a history state: each applied record as its id and instant.
pub struct HistoryModel {
    pub applied: Seq<(Seq<char>, Timestamp)>,
    pub baseline: Option<BaselineModel>,
}

impl View for Baseline {
    type V = BaselineModel;

    open spec fn view(&self) -> BaselineModel {
        BaselineModel {
            version: self.version@,
            created: self.created,
            summary: match self.summary {
                Some(t) => Some(t@),
                None => None,
            },
        }
    }
}

/// The value of an applied record.
pub open spec fn applied_view(a: AppliedMigration) -> (Seq<char>, Timestamp) {
    (a.id@, a.applied_at)
}

impl View for HistoryState {
    type V = HistoryModel;

    open spec fn view(&self) -> HistoryModel {
        HistoryModel {
            applied: self.applied@.map_values(|a: AppliedMigration| applied_view(a)),
            baseline: match self.baseline {
                Some(b) => Some(b@),
                None => None,
            },
        }
    }
}

/// A line of the history log that looks like a record but whose timestamp
/// does not read as RFC 3339.
#[derive(Debug, Clone)]
pub enum HistoryError {
    InvalidAppliedTimestamp { text: String },
    InvalidBaselineTimestamp { text: String },
}

/// The value of a `HistoryError`: the kind of record and the rejected text.
pub enum LogFault {
    Applied(Seq<char>),
    Baseline(Seq<char>),
}

impl View for HistoryError {
    type V = LogFault;

    open spec fn view(&self) -> LogFault {
        match self {
            HistoryError::InvalidAppliedTimestamp { text } => LogFault::Applied(text@),
            HistoryError::InvalidBaselineTimestamp { text } => LogFault::Baseline(text@),
        }
    }
}

impl HistoryError {
    /// The error as a sentence for the user.
    pub fn message(&self) -> (r: String)
        ensures
            r@ == match self {
                HistoryError::InvalidAppliedTimestamp { text } => "Invalid timestamp in history file: "@
                    + text@,
                HistoryError::InvalidBaselineTimestamp { text } => "Invalid timestamp in baseline: "@
                    + text@,
            },
    {
        match self {
            HistoryError::InvalidAppliedTimestamp { text } => {
                let mut r = "Invalid timestamp in history file: ".to_owned();
                r.append(text.as_str());
                r
            },
            HistoryError::InvalidBaselineTimestamp { text } => {
                let mut r = "Invalid timestamp in baseline: ".to_owned();
                r.append(text.as_str());
                r
            },
        }
    }
}

/// What one line of the history log holds, before its timestamp is read.
pub enum LogRecord {
    Applied { id: Seq<char>, at: Seq<char> },
    Baseline { version: Seq<char>, at: Seq<char>, summary: Option<Seq<char>> },
    Other,
}

/// The prefix of a baseline record.
pub open spec fn baseline_tag() -> Seq<char> {
    seq!['b', 'a', 's', 'e', 'l', 'i', 'n', 'e', ':', ' ']
}

/// A trimmed line that starts with `baseline: ` is a baseline record when the
/// rest holds a space: version up to the first space, then the timestamp up to
/// the next space, then the summary. Any other line with a space is an
/// applied record: the id up to the first space, the timestamp after it. The
/// rest (blank lines among them) are not records.
pub open spec fn log_record(line: Seq<char>) -> LogRecord {
    let t = trim(line);
    if starts_with(t, baseline_tag()) {
        let rest = t.skip(10);
        match find_index(rest, ' ') {
            Some(p) => {
                let after = rest.skip(p + 1);
                match find_index(after, ' ') {
                    Some(q) => LogRecord::Baseline {
                        version: rest.take(p),
                        at: after.take(q),
                        summary: Some(after.skip(q + 1)),
                    },
                    None => LogRecord::Baseline { version: rest.take(p), at: after, summary: None },
                }
            },
            None => LogRecord::Other,
        }
    } else {
        match find_index(t, ' ') {
            Some(p) => LogRecord::Applied { id: t.take(p), at: t.skip(p + 1) },
            None => LogRecord::Other,
        }
    }
}

/// The history after one more line: an applied record is appended, a
/// baseline record replaces the baseline, other lines change nothing; a
/// record whose timestamp does not read fails.
pub open spec fn log_step(h: HistoryModel, line: Seq<char>) -> Result<HistoryModel, LogFault> {
    match log_record(line) {
        LogRecord::Applied { id, at } => match rfc3339_instant(at) {
            Some(n) => Ok(
                HistoryModel { applied: h.applied.push((id, Timestamp { nanos: n })), ..h },
            ),
            None => Err(LogFault::Applied(at)),
        },
        LogRecord::Baseline { version, at, summary } => match rfc3339_instant(at) {
            Some(n) => Ok(
                HistoryModel {
                    baseline: Some(
                        BaselineModel { version, created: Timestamp { nanos: n }, summary },
                    ),
                    ..h
                },
            ),
            None => Err(LogFault::Baseline(at)),
        },
        LogRecord::Other => Ok(h),
    }
}

/// The history that the lines of a log hold, or the fault of the first
/// record that fails.
pub open spec fn parse_log(lines: Seq<Seq<char>>) -> Result<HistoryModel, LogFault>
    decreases lines.len(),
{
    if lines.len() == 0 {
        Ok(HistoryModel { applied: seq![], baseline: None })
    } else {
        match parse_log(lines.drop_last()) {
            Ok(h) => log_step(h, lines.last()),
            Err(e) => Err(e),
        }
    }
}

/// Reads the lines of a history log. Lines that are not records are skipped;
/// a record whose timestamp does not read fails the whole read.
pub fn parse_history(lines: &[String]) -> (r: Result<HistoryState, HistoryError>)
    ensures
        match r {
            Ok(h) => parse_log(views(lines@)) == Ok::<HistoryModel, LogFault>(h@),
            Err(e) => parse_log(views(lines@)) == Err::<HistoryModel, LogFault>(e@),
        },
{
    let mut h = HistoryState { applied: Vec::new(), baseline: None };
    let mut i: usize = 0;
    assert(views(lines@).take(0) == Seq::<Seq<char>>::empty());
    assert(h@.applied == Seq::<(Seq<char>, Timestamp)>::empty());
    while i < lines.len()
        invariant
            i <= lines.len(),
            parse_log(views(lines@).take(i as int)) == Ok::<HistoryModel, LogFault>(h@),
        decreases lines.len() - i,
    {
        assert(views(lines@).take(i + 1).drop_last() == views(lines@).take(i as int));
        assert(views(lines@).take(i + 1).last() == lines@[i as int]@);
        let step = read_line(&lines[i], &mut h);
        match step {
            Err(e) => {
                proof {
                    assert(parse_log(views(lines@).take(i + 1)) == Err::<HistoryModel, LogFault>(
                        e@,
                    ));
                    lemma_parse_log_fault_stays(views(lines@), i + 1);
                }
                return Err(e);
            },
            Ok(()) => {},
        }
        i = i + 1;
    }
    assert(views(lines@).take(lines.len() as int) == views(lines@));
    Ok(h)
}

/// Once a prefix of the lines fails, the whole log fails with the same fault.
proof fn lemma_parse_log_fault_stays(lines: Seq<Seq<char>>, k: int)
    requires
        0 <= k <= lines.len(),
        parse_log(lines.take(k)) is Err,
    ensures
        parse_log(lines) == parse_log(lines.take(k)),
    decreases lines.len() - k,
{
    if k < lines.len() {
        assert(lines.take(k + 1).drop_last() == lines.take(k));
        lemma_parse_log_fault_stays(lines, k + 1);
    } else {
        assert(lines.take(k) == lines);
    }
}

/// Applies one line of the log to `h`.
fn read_line(line: &String, h: &mut HistoryState) -> (r: Result<(), HistoryError>)
    ensures
        match log_step(old(h)@, line@) {
            Ok(m) => r is Ok && final(h)@ == m,
            Err(f) => r matches Err(e) && e@ == f,
        },
{
    let v = chars_of(line.as_str());
    let n = v.len();
    let a = skip_ws_forward(&v, 0, n);
    let b = skip_ws_backward(&v, a, n);
    assert(v@.subrange(0, n as int) == line@);
    let ghost t = trim(line@);
    assert(t == v@.subrange(a as int, b as int));
    let tag = vec!['b', 'a', 's', 'e', 'l', 'i', 'n', 'e', ':', ' '];
    assert(tag@ == baseline_tag());
    if has_at(&v, a, b, &tag) {
        let rs = a + 10;
        assert(t.skip(10) == v@.subrange(rs as int, b as int));
        match find_in(&v, rs, b, ' ') {
            None => Ok(()),
            Some(k) => {
                let version = slice(line.as_str(), rs, k);
                assert(t.skip(10).take(k - rs) == v@.subrange(rs as int, k as int));
                assert(t.skip(10).skip(k - rs + 1) == v@.subrange(k + 1, b as int));
                let (at, summary) = match find_in(&v, k + 1, b, ' ') {
                    Some(q) => {
                        assert(v@.subrange(k + 1, b as int).take(q - (k + 1)) == v@.subrange(
                            k + 1,
                            q as int,
                        ));
                        assert(v@.subrange(k + 1, b as int).skip(q - (k + 1) + 1) == v@.subrange(
                            q + 1,
                            b as int,
                        ));
                        (slice(line.as_str(), k + 1, q), Some(slice(line.as_str(), q + 1, b)))
                    },
                    None => (slice(line.as_str(), k + 1, b), None),
                };
                assert(log_record(line@) == LogRecord::Baseline {
                    version: version@,
                    at: at@,
                    summary: match summary {
                        Some(x) => Some(x@),
                        None => None,
                    },
                });
                match Timestamp::parse_rfc3339(at.as_str()) {
                    Some(created) => {
                        h.baseline = Some(Baseline { version, created, summary });
                        assert(final(h)@.applied == old(h)@.applied);
                        Ok(())
                    },
                    None => Err(HistoryError::InvalidBaselineTimestamp { text: at }),
                }
            },
        }
    } else {
        match find_in(&v, a, b, ' ') {
            None => Ok(()),
            Some(k) => {
                assert(t.take(k - a) == v@.subrange(a as int, k as int));
                assert(t.skip(k - a + 1) == v@.subrange(k + 1, b as int));
                let id = slice(line.as_str(), a, k);
                let at = slice(line.as_str(), k + 1, b);
                assert(log_record(line@) == LogRecord::Applied { id: id@, at: at@ });
                match Timestamp::parse_rfc3339(at.as_str()) {
                    Some(applied_at) => {
                        let ghost old_applied = h.applied@;
                        h.applied.push(AppliedMigration { id, applied_at });
                        assert(h.applied@ == old_applied.push(AppliedMigration { id, applied_at }));
                        assert(final(h)@.applied == old(h)@.applied.push((id@, applied_at)));
                        Ok(())
                    },
                    None => Err(HistoryError::InvalidAppliedTimestamp { text: at }),
                }
            },
        }
    }
}

/// The baseline, if any, subsumes version `v`.
pub open spec fn covered_by_baseline(baseline: Option<Baseline>, v: Seq<char>) -> bool {
    match baseline {
        Some(b) => seq_lte(v, b.version@),
        None => false,
    }
}

/// `m` still has to run: it has no applied record and no baseline subsumes it.
pub open spec fn is_pending(m: Migration, state: HistoryState) -> bool {
    !is_applied(state.applied@, m.id@) && !covered_by_baseline(state.baseline, m.version@)
}

/// Whether some record of `applied` names `id`.
pub fn applied_contains(applied: &[AppliedMigration], id: &String) -> (r: bool)
    ensures
        r == is_applied(applied@, id@),
{
    let mut j: usize = 0;
    while j < applied.len()
        invariant
            j <= applied.len(),
            forall|k: int| 0 <= k < j ==> applied@[k].id@ != id@,
        decreases applied.len() - j,
    {
        if applied[j].id == *id {
            return true;
        }
        j = j + 1;
    }
    false
}

/// The migrations that still have to run, in the order of `available`: those
/// with no applied record whose version lies after the baseline, if any.
pub fn get_pending<'a>(available: &'a [Migration], state: &HistoryState) -> (r: Vec<&'a Migration>)
    ensures
        r@.map_values(|m: &Migration| *m) == available@.filter(
            |m: Migration| is_pending(m, *state),
        ),
{
    let mut r: Vec<&'a Migration> = Vec::new();
    let mut i: usize = 0;
    while i < available.len()
        invariant
            i <= available.len(),
            r@.map_values(|m: &Migration| *m) == available@.take(i as int).filter(
                |m: Migration| is_pending(m, *state),
            ),
        decreases available.len() - i,
    {
        let m = &available[i];
        let ghost old_r = r;
        let mut keep = !applied_contains(&state.applied, &m.id);
        if keep {
            if let Some(b) = &state.baseline {
                if version_lte(m.version.as_str(), b.version.as_str()) {
                    keep = false;
                }
            }
        }
        proof {
            assert(available@.take(i + 1) == available@.take(i as int).push(*m));
            available@.take(i as int).lemma_filter_push(*m, |m: Migration| is_pending(m, *state));
        }
        if keep {
            r.push(m);
            assert(r@.map_values(|m: &Migration| *m) == old_r@.map_values(|m: &Migration| *m).push(
                *m,
            ));
        }
        i = i + 1;
    }
    assert(available@.take(available.len() as int) == available@);
    r
}

/// The last migration of `available`, from index `i` on, that has an applied
/// record is the one at `i`.
pub open spec fn last_applied_at(
    available: Seq<Migration>,
    applied: Seq<AppliedMigration>,
    i: int,
) -> bool {
    &&& 0 <= i < available.len()
    &&& is_applied(applied, available[i].id@)
    &&& forall|j: int| i < j < available.len() ==> !is_applied(applied, available[j].id@)
}

/// The version of the last available migration that has an applied record;
/// `None` when none has. The baseline plays no part.
pub fn get_current_version(available: &[Migration], applied: &[AppliedMigration]) -> (r: Option<
    String,
>)
    ensures
        match r {
            Some(v) => exists|i: int|
                last_applied_at(available@, applied@, i) && v@ == available@[i].version@,
            None => forall|i: int|
                0 <= i < available.len() ==> !is_applied(applied@, #[trigger] available@[i].id@),
        },
{
    let mut i: usize = available.len();
    while i > 0
        invariant
            i <= available.len(),
            forall|j: int|
                i <= j < available.len() ==> !is_applied(applied@, #[trigger] available@[j].id@),
        decreases i,
    {
        let m = &available[i - 1];
        if applied_contains(applied, &m.id) {
            assert(last_applied_at(available@, applied@, i - 1));
            return Some(m.version.clone());
        }
        i = i - 1;
    }
    None
}

/// The version of the last available migration; `None` when there is none.
pub fn get_target_version(available: &[Migration]) -> (r: Option<String>)
    ensures
        match r {
            Some(v) => available.len() > 0 && v@ == available@.last().version@,
            None => available.len() == 0,
        },
{
    if available.len() == 0 {
        None
    } else {
        Some(available[available.len() - 1].version.clone())
    }
}

} // verus!
