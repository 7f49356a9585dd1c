//! The text of history records: writing applied and baseline records, the
//! legacy baseline file, and the one-time merge of the legacy files into the
//! current log.

use vstd::prelude::*;

use crate::state::{Baseline, BaselineModel, HistoryError, LogFault};
use crate::text::{
    chars_of, find_in, has_at, is_ws, lemma_lines_of_append_line, lines_of, skip_ws_backward,
    skip_ws_forward, slice, starts_with, strip_cr, trim, trim_end, trim_start, views,
};
use crate::timestamp::{rfc3339_instant, rfc3339_text, Timestamp};

verus! {

/// `s` with each newline replaced by a space.
pub open spec fn flatten(s: Seq<char>) -> Seq<char> {
    s.map_values(|c: char| if c == '\n' { ' ' } else { c })
}

/// The applied record of `id` at `at`: `<id> <timestamp>`.
pub open spec fn applied_line(id: Seq<char>, at: Timestamp) -> Seq<char> {
    id + seq![' '] + rfc3339_text(at.nanos)
}

/// The baseline record of `b`: `baseline: <version> <timestamp>`, then a
/// space and the summary with its newlines flattened, if there is one.
pub open spec fn baseline_line(b: BaselineModel) -> Seq<char> {
    let head = "baseline: "@ + b.version + seq![' '] + rfc3339_text(b.created.nanos);
    match b.summary {
        Some(s) => head + seq![' '] + flatten(s),
        None => head,
    }
}

/// `s` with each newline replaced by a space.
pub fn flatten_newlines(s: &str) -> (r: String)
    ensures
        r@ == flatten(s@),
{
    let v = chars_of(s);
    let n = v.len();
    let mut r = "".to_owned();
    let mut pos: usize = 0;
    proof {
        reveal_strlit("");
    }
    assert(s@.take(0) == Seq::<char>::empty());
    while pos < n
        invariant
            v@ == s@,
            n == v@.len(),
            pos <= n,
            r@ == flatten(s@.take(pos as int)),
        decreases n - pos,
    {
        let end = match find_in(&v, pos, n, '\n') {
            Some(k) => k,
            None => n,
        };
        proof {
            crate::text::lemma_find_index(v@.subrange(pos as int, n as int), '\n');
        }
        assert forall|j: int| pos <= j < end implies v@[j] != '\n' by {
            assert(v@.subrange(pos as int, n as int)[j - pos] == v@[j]);
        }
        let piece = slice(s, pos, end);
        r.append(piece.as_str());
        assert(flatten(s@.take(end as int)) == flatten(s@.take(pos as int)) + piece@);
        if end < n {
            r.append(" ");
            proof {
                reveal_strlit(" ");
            }
            assert(flatten(s@.take(end + 1)) == flatten(s@.take(end as int)) + seq![' ']);
            pos = end + 1;
        } else {
            pos = n;
        }
    }
    assert(s@.take(n as int) == s@);
    r
}

/// The applied record of `id` at `at`, without its newline.
pub fn format_applied_line(id: &str, at: Timestamp) -> (r: String)
    ensures
        r@ == applied_line(id@, at),
{
    let mut r = id.to_owned();
    r.append(" ");
    let ts = at.to_rfc3339();
    r.append(ts.as_str());
    proof {
        reveal_strlit(" ");
    }
    r
}

/// The baseline record of `baseline`, without its newline; newlines in the
/// summary become spaces.
pub fn format_baseline_line(baseline: &Baseline) -> (r: String)
    ensures
        r@ == baseline_line(baseline@),
        (forall|i: int| 0 <= i < baseline.version@.len() ==> baseline.version@[i] != '\n') ==> (
        forall|i: int| 0 <= i < r@.len() ==> r@[i] != '\n'),
{
    let mut r = "baseline: ".to_owned();
    r.append(baseline.version.as_str());
    r.append(" ");
    let ts = baseline.created.to_rfc3339();
    r.append(ts.as_str());
    proof {
        reveal_strlit(" ");
        lemma_baseline_line_one_line(baseline@);
    }
    match &baseline.summary {
        Some(s) => {
            r.append(" ");
            let f = flatten_newlines(s.as_str());
            r.append(f.as_str());
        },
        None => {},
    }
    r
}

/// The legacy applied log, ended by a newline if it has text.
pub open spec fn log_head(h: Seq<char>) -> Seq<char> {
    if h.len() > 0 && h.last() != '\n' {
        h.push('\n')
    } else {
        h
    }
}

/// The log made of the legacy applied log `h` and, if there is one, the
/// record of the legacy baseline `b` on a line of its own after it.
pub open spec fn upgraded_log(h: Seq<char>, b: Option<BaselineModel>) -> Seq<char> {
    match b {
        Some(b) => log_head(h) + baseline_line(b) + seq!['\n'],
        None => h,
    }
}

/// The current-format log that replaces the legacy files: the legacy applied
/// log as it is, then the record of the legacy baseline, if any, on a line of
/// its own. Read by lines, the new log is the lines of the legacy log and
/// then one baseline record, its summary flattened (a version with a newline
/// would break that line).
pub fn upgrade_log_content(legacy_history: &str, legacy_baseline: Option<&Baseline>) -> (r: String)
    ensures
        r@ == upgraded_log(
            legacy_history@,
            match legacy_baseline {
                Some(b) => Some(b@),
                None => None,
            },
        ),
        match legacy_baseline {
            Some(b) => (forall|i: int| 0 <= i < b.version@.len() ==> b.version@[i] != '\n')
                ==> lines_of(r@) == lines_of(log_head(legacy_history@)) + seq![
                strip_cr(baseline_line(b@)),
            ],
            None => true,
        },
{
    let mut content = legacy_history.to_owned();
    match legacy_baseline {
        Some(b) => {
            let v = chars_of(legacy_history);
            if v.len() > 0 && v[v.len() - 1] != '\n' {
                content.append("\n");
            }
            let line = format_baseline_line(b);
            let ghost head = content@;
            content.append(line.as_str());
            content.append("\n");
            proof {
                reveal_strlit("\n");
                assert(head == log_head(legacy_history@));
                assert(content@ == head + line@ + seq!['\n']);
                let ok = forall|i: int| 0 <= i < b.version@.len() ==> b.version@[i] != '\n';
                assert(ok ==> lines_of(content@) == lines_of(head) + seq![strip_cr(line@)]) by {
                    if ok {
                        lemma_lines_of_append_line(head, line@);
                    }
                }
            }
        },
        None => {},
    }
    content
}

/// A baseline record whose version has no newline holds no newline.
proof fn lemma_baseline_line_one_line(b: BaselineModel)
    requires
        forall|i: int|
            0 <= i < rfc3339_text(b.created.nanos).len() ==> !is_ws(
                #[trigger] rfc3339_text(b.created.nanos)[i],
            ),
    ensures
        (forall|i: int| 0 <= i < b.version.len() ==> b.version[i] != '\n') ==> (forall|i: int|
            0 <= i < baseline_line(b).len() ==> baseline_line(b)[i] != '\n'),
{
    if !(forall|i: int| 0 <= i < b.version.len() ==> b.version[i] != '\n') {
        return;
    }
    reveal_strlit("baseline: ");
    let ts = rfc3339_text(b.created.nanos);
    let head = "baseline: "@ + b.version + seq![' '] + ts;
    assert forall|i: int| 0 <= i < head.len() implies head[i] != '\n' by {
        if i >= head.len() - ts.len() {
            assert(head[i] == ts[i - (head.len() - ts.len())]);
        }
    }
    match b.summary {
        Some(s) => {
            let f = flatten(s);
            let line = head + seq![' '] + f;
            assert forall|i: int| 0 <= i < line.len() implies line[i] != '\n' by {
                if i < head.len() {
                    assert(line[i] == head[i]);
                } else if i > head.len() {
                    assert(line[i] == f[i - head.len() - 1]);
                }
            }
        },
        None => {},
    }
}

/// The lines of a block joined by newlines.
pub open spec fn join_lines(block: Seq<Seq<char>>) -> Seq<char>
    decreases block.len(),
{
    if block.len() == 0 {
        seq![]
    } else if block.len() == 1 {
        block[0]
    } else {
        join_lines(block.drop_last()) + seq!['\n'] + block.last()
    }
}

/// Where a reading of the legacy baseline file stands after some lines: the
/// keys seen so far, and whether a literal summary block is open, with its
/// lines.
pub struct LegacyScan {
    pub version: Option<Seq<char>>,
    pub created: Option<Timestamp>,
    pub summary: Option<Seq<char>>,
    pub in_block: bool,
    pub block: Seq<Seq<char>>,
}

/// The key prefixes of the legacy file.
pub open spec fn version_key() -> Seq<char> {
    seq!['v', 'e', 'r', 's', 'i', 'o', 'n', ':']
}

pub open spec fn created_key() -> Seq<char> {
    seq!['c', 'r', 'e', 'a', 't', 'e', 'd', ':']
}

pub open spec fn summary_key() -> Seq<char> {
    seq!['s', 'u', 'm', 'm', 'a', 'r', 'y', ':']
}

/// A line of the legacy file read as a `key: value` pair. `created` with a
/// timestamp that does not read fails; `summary: |` opens a block.
pub open spec fn legacy_key_step(st: LegacyScan, line: Seq<char>) -> Result<LegacyScan, LogFault> {
    if starts_with(line, version_key()) {
        Ok(LegacyScan { version: Some(trim(line.skip(8))), ..st })
    } else if starts_with(line, created_key()) {
        let at = trim(line.skip(8));
        match rfc3339_instant(at) {
            Some(n) => Ok(LegacyScan { created: Some(Timestamp { nanos: n }), ..st }),
            None => Err(LogFault::Baseline(at)),
        }
    } else if starts_with(line, summary_key()) {
        let rest = trim(line.skip(8));
        if rest == seq!['|'] {
            Ok(LegacyScan { in_block: true, ..st })
        } else if rest.len() > 0 {
            Ok(LegacyScan { summary: Some(rest), ..st })
        } else {
            Ok(st)
        }
    } else {
        Ok(st)
    }
}

/// One more line of the legacy file. Inside a block, a line indented by two
/// spaces adds its text after them, a line indented by less adds its text
/// without leading whitespace, and an empty line adds an empty line; any other
/// line closes the block (its text, right-trimmed, becomes the summary) and is
/// read as a key.
pub open spec fn legacy_step(st: LegacyScan, line: Seq<char>) -> Result<LegacyScan, LogFault> {
    if st.in_block && starts_with(line, seq![' ', ' ']) {
        Ok(LegacyScan { block: st.block.push(line.skip(2)), ..st })
    } else if st.in_block && line.len() == 0 {
        Ok(LegacyScan { block: st.block.push(seq![]), ..st })
    } else if st.in_block && line[0] == ' ' {
        Ok(LegacyScan { block: st.block.push(trim_start(line)), ..st })
    } else if st.in_block {
        legacy_key_step(
            LegacyScan {
                in_block: false,
                summary: Some(trim_end(join_lines(st.block))),
                block: seq![],
                ..st
            },
            line,
        )
    } else {
        legacy_key_step(st, line)
    }
}

/// The reading after the given lines.
pub open spec fn legacy_scan(lines: Seq<Seq<char>>) -> Result<LegacyScan, LogFault>
    decreases lines.len(),
{
    if lines.len() == 0 {
        Ok(LegacyScan { version: None, created: None, summary: None, in_block: false, block: seq![] })
    } else {
        match legacy_scan(lines.drop_last()) {
            Ok(st) => legacy_step(st, lines.last()),
            Err(e) => Err(e),
        }
    }
}

/// The baseline that the lines of a legacy baseline file describe: present
/// when both `version` and `created` were given. A block still open at the
/// end, with lines, becomes the summary.
pub open spec fn legacy_baseline(lines: Seq<Seq<char>>) -> Result<Option<BaselineModel>, LogFault> {
    match legacy_scan(lines) {
        Ok(st) => {
            let summary = if st.in_block && st.block.len() > 0 {
                Some(trim_end(join_lines(st.block)))
            } else {
                st.summary
            };
            match (st.version, st.created) {
                (Some(v), Some(c)) => Ok(Some(BaselineModel { version: v, created: c, summary })),
                _ => Ok(None),
            }
        },
        Err(e) => Err(e),
    }
}

/// The exec state of a reading of the legacy baseline file.
struct LegacyReader {
    version: Option<String>,
    created: Option<Timestamp>,
    summary: Option<String>,
    in_block: bool,
    block: Vec<String>,
}

impl View for LegacyReader {
    type V = LegacyScan;

    closed spec fn view(&self) -> LegacyScan {
        LegacyScan {
            version: match self.version {
                Some(t) => Some(t@),
                None => None,
            },
            created: self.created,
            summary: match self.summary {
                Some(t) => Some(t@),
                None => None,
            },
            in_block: self.in_block,
            block: views(self.block@),
        }
    }
}

/// The lines of `block` joined by newlines.
fn join_block(block: &Vec<String>) -> (r: String)
    ensures
        r@ == join_lines(views(block@)),
{
    let mut r = "".to_owned();
    proof {
        reveal_strlit("");
    }
    let mut i: usize = 0;
    assert(views(block@).take(0) == Seq::<Seq<char>>::empty());
    while i < block.len()
        invariant
            i <= block.len(),
            r@ == join_lines(views(block@).take(i as int)),
        decreases block.len() - i,
    {
        assert(views(block@).take(i + 1).drop_last() == views(block@).take(i as int));
        if i > 0 {
            r.append("\n");
            proof {
                reveal_strlit("\n");
            }
        }
        r.append(block[i].as_str());
        i = i + 1;
    }
    assert(views(block@).take(block.len() as int) == views(block@));
    r
}

/// `s` without trailing whitespace.
fn trim_end_string(s: &str) -> (r: String)
    ensures
        r@ == trim_end(s@),
{
    let v = chars_of(s);
    let b = skip_ws_backward(&v, 0, v.len());
    assert(v@.subrange(0, v@.len() as int) == s@);
    slice(s, 0, b)
}

/// `line` from `from` on, without leading or trailing whitespace.
fn trimmed_rest(line: &str, v: &Vec<char>, from: usize) -> (r: String)
    requires
        v@ == line@,
        from <= v@.len(),
    ensures
        r@ == trim(line@.skip(from as int)),
{
    let n = v.len();
    let a = skip_ws_forward(v, from, n);
    let b = skip_ws_backward(v, a, n);
    assert(v@.subrange(from as int, n as int) == line@.skip(from as int));
    slice(line, a, b)
}

/// Reads one line as a `key: value` pair.
fn legacy_key(st: &mut LegacyReader, line: &String) -> (r: Result<(), HistoryError>)
    ensures
        match legacy_key_step(old(st)@, line@) {
            Ok(m) => r is Ok && final(st)@ == m,
            Err(f) => r matches Err(e) && e@ == f,
        },
{
    let v = chars_of(line.as_str());
    let n = v.len();
    let vk = vec!['v', 'e', 'r', 's', 'i', 'o', 'n', ':'];
    let ck = vec!['c', 'r', 'e', 'a', 't', 'e', 'd', ':'];
    let sk = vec!['s', 'u', 'm', 'm', 'a', 'r', 'y', ':'];
    assert(v@.subrange(0, n as int) == line@);
    assert(vk@ == version_key());
    assert(ck@ == created_key());
    assert(sk@ == summary_key());
    if has_at(&v, 0, n, &vk) {
        st.version = Some(trimmed_rest(line.as_str(), &v, 8));
        Ok(())
    } else if has_at(&v, 0, n, &ck) {
        let at = trimmed_rest(line.as_str(), &v, 8);
        match Timestamp::parse_rfc3339(at.as_str()) {
            Some(t) => {
                st.created = Some(t);
                Ok(())
            },
            None => Err(HistoryError::InvalidBaselineTimestamp { text: at }),
        }
    } else if has_at(&v, 0, n, &sk) {
        let rest = trimmed_rest(line.as_str(), &v, 8);
        let rv = chars_of(rest.as_str());
        if rv.len() == 1 && rv[0] == '|' {
            assert(rest@ == seq!['|']);
            st.in_block = true;
        } else if rv.len() > 0 {
            assert(rest@ != seq!['|']) by {
                if rest@ == seq!['|'] {
                    assert(rest@.len() == 1);
                }
            }
            st.summary = Some(rest);
        }
        Ok(())
    } else {
        Ok(())
    }
}

/// Reads one more line of the legacy baseline file.
fn legacy_line(st: &mut LegacyReader, line: &String) -> (r: Result<(), HistoryError>)
    ensures
        match legacy_step(old(st)@, line@) {
            Ok(m) => r is Ok && final(st)@ == m,
            Err(f) => r matches Err(e) && e@ == f,
        },
{
    if st.in_block {
        let v = chars_of(line.as_str());
        let n = v.len();
        let two = vec![' ', ' '];
        assert(v@.subrange(0, n as int) == line@);
        assert(two@ == seq![' ', ' ']);
        if has_at(&v, 0, n, &two) {
            let ghost old_block = st.block@;
            st.block.push(slice(line.as_str(), 2, n));
            assert(views(st.block@) == views(old_block).push(line@.skip(2)));
            return Ok(());
        } else if n == 0 {
            let ghost old_block = st.block@;
            st.block.push(String::new());
            assert(views(st.block@) == views(old_block).push(seq![]));
            return Ok(());
        } else if v[0] == ' ' {
            let ghost old_block = st.block@;
            let a = skip_ws_forward(&v, 0, n);
            st.block.push(slice(line.as_str(), a, n));
            assert(views(st.block@) == views(old_block).push(trim_start(line@)));
            return Ok(());
        }
        let joined = join_block(&st.block);
        st.summary = Some(trim_end_string(joined.as_str()));
        st.in_block = false;
        st.block = Vec::new();
        assert(views(st.block@) == Seq::<Seq<char>>::empty());
    }
    legacy_key(st, line)
}

/// Reads the lines of a legacy baseline file: `key: value` lines with the
/// keys `version`, `created` and `summary`, where `summary: |` opens a block
/// of indented lines. `Ok(None)` when `version` or `created` is missing; a
/// `created` timestamp that does not read fails.
pub fn parse_legacy_baseline(lines: &[String]) -> (r: Result<Option<Baseline>, HistoryError>)
    ensures
        match r {
            Ok(Some(b)) => legacy_baseline(views(lines@)) == Ok::<Option<BaselineModel>, LogFault>(
                Some(b@),
            ),
            Ok(None) => legacy_baseline(views(lines@)) == Ok::<Option<BaselineModel>, LogFault>(
                None,
            ),
            Err(e) => legacy_baseline(views(lines@)) == Err::<Option<BaselineModel>, LogFault>(
                e@,
            ),
        },
{
    let mut st = LegacyReader {
        version: None,
        created: None,
        summary: None,
        in_block: false,
        block: Vec::new(),
    };
    assert(views(st.block@) == Seq::<Seq<char>>::empty());
    assert(views(lines@).take(0) == Seq::<Seq<char>>::empty());
    let mut i: usize = 0;
    while i < lines.len()
        invariant
            i <= lines.len(),
            legacy_scan(views(lines@).take(i as int)) == Ok::<LegacyScan, LogFault>(st@),
        decreases lines.len() - i,
    {
        assert(views(lines@).take(i + 1).drop_last() == views(lines@).take(i as int));
        assert(views(lines@).take(i + 1).last() == lines@[i as int]@);
        match legacy_line(&mut st, &lines[i]) {
            Err(e) => {
                proof {
                    lemma_legacy_fault_stays(views(lines@), i + 1);
                }
                return Err(e);
            },
            Ok(()) => {},
        }
        i = i + 1;
    }
    assert(views(lines@).take(lines.len() as int) == views(lines@));
    let summary = if st.in_block && st.block.len() > 0 {
        let joined = join_block(&st.block);
        Some(trim_end_string(joined.as_str()))
    } else {
        st.summary
    };
    match (st.version, st.created) {
        (Some(version), Some(created)) => Ok(Some(Baseline { version, created, summary })),
        _ => Ok(None),
    }
}

/// Once a prefix of the lines fails, the whole reading fails with the same
/// fault.
proof fn lemma_legacy_fault_stays(lines: Seq<Seq<char>>, k: int)
    requires
        0 <= k <= lines.len(),
        legacy_scan(lines.take(k)) is Err,
    ensures
        legacy_scan(lines) == legacy_scan(lines.take(k)),
    decreases lines.len() - k,
{
    if k < lines.len() {
        assert(lines.take(k + 1).drop_last() == lines.take(k));
        lemma_legacy_fault_stays(lines, k + 1);
    } else {
        assert(lines.take(k) == lines);
    }
}

} // verus!
