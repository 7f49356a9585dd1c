//! Version ordering, baseline validation and the cleanup plan of a baseline.

use vstd::prelude::*;

use crate::state::{applied_contains, Baseline};
use crate::text::{chars_of, rfind_in, rfind_index, slice};
use crate::{AppliedMigration, Migration};

verus! {

/// `a` precedes `b` strictly in lexicographic order of code points: either the
/// first difference has the smaller character in `a`, or `a` is a proper
/// prefix of `b`.
pub open spec fn seq_lt(a: Seq<char>, b: Seq<char>) -> bool {
    ||| exists|i: int|
        0 <= i < a.len() && i < b.len() && a.take(i) == b.take(i) && (a[i] as int) < (b[i] as int)
    ||| (a.len() < b.len() && a == b.take(a.len() as int))
}

/// Lexicographic `<=` on versions.
pub open spec fn seq_lte(a: Seq<char>, b: Seq<char>) -> bool {
    a == b || seq_lt(a, b)
}

/// Compares two version strings: true when `v1 <= v2` in lexicographic order.
/// (Byte order of UTF-8 text and code-point order agree.)
pub fn version_lte(v1: &str, v2: &str) -> (r: bool)
    ensures
        r == seq_lte(v1@, v2@),
{
    let n1 = v1.unicode_len();
    let n2 = v2.unicode_len();
    let mut i: usize = 0;
    while i < n1 && i < n2
        invariant
            n1 == v1@.len(),
            n2 == v2@.len(),
            i <= n1,
            i <= n2,
            v1@.take(i as int) == v2@.take(i as int),
        decreases n1 - i,
    {
        let c1 = v1.get_char(i);
        let c2 = v2.get_char(i);
        if c1 != c2 {
            proof {
                lemma_first_difference(v1@, v2@, i as int);
            }
            return (c1 as u32) < (c2 as u32);
        }
        proof {
            assert(v1@.take(i + 1) == v1@.take(i as int).push(c1));
            assert(v2@.take(i + 1) == v2@.take(i as int).push(c2));
        }
        i = i + 1;
    }
    proof {
        assert(v1@.take(i as int) == v2@.take(i as int));
        if i == n1 {
            assert(v1@ == v1@.take(i as int));
            if n1 < n2 {
                assert(seq_lt(v1@, v2@));
            } else {
                assert(v2@ == v2@.take(i as int));
            }
        } else {
            assert(v2@ == v2@.take(i as int));
            lemma_no_earlier_difference(v1@, v2@, i as int);
            assert(!seq_lt(v1@, v2@));
        }
    }
    i == n1
}

/// An item removed by the cleanup of a baseline.
#[derive(Debug, Clone)]
pub struct DeletedItem {
    pub path: String,
    pub is_directory: bool,
}

/// A path that the cleanup of a baseline removes if it exists: a migration's
/// script, or its asset directory.
#[derive(Debug, Clone)]
pub struct CleanupTarget {
    pub path: String,
    pub is_directory: bool,
}

/// The path named `name` beside the `/`-separated path `file`: in the same
/// parent directory. An empty path has no parent.
pub open spec fn sibling_path(file: Seq<char>, name: Seq<char>) -> Option<Seq<char>> {
    if file.len() == 0 {
        None
    } else {
        match rfind_index(file, '/') {
            Some(k) => Some(file.take(k + 1) + name),
            None => Some(name),
        }
    }
}

/// What the cleanup of `m` removes, in order: its script, then the directory
/// beside the script that is named as the migration's id.
pub open spec fn migration_targets(m: Migration) -> Seq<(Seq<char>, bool)> {
    seq![(m.file_path@, false)] + match sibling_path(m.file_path@, m.id@) {
        Some(d) => seq![(d, true)],
        None => seq![],
    }
}

/// What the cleanup of a baseline at `v` removes: the targets of each
/// migration at or before `v`, in the order of `available`.
pub open spec fn cleanup_plan(v: Seq<char>, available: Seq<Migration>) -> Seq<(Seq<char>, bool)>
    decreases available.len(),
{
    if available.len() == 0 {
        seq![]
    } else {
        cleanup_plan(v, available.drop_last()) + if seq_lte(available.last().version@, v) {
            migration_targets(available.last())
        } else {
            seq![]
        }
    }
}

/// The value of a target or a deleted item: its path and whether it is a
/// directory.
pub open spec fn target_view(t: CleanupTarget) -> (Seq<char>, bool) {
    (t.path@, t.is_directory)
}

pub open spec fn deleted_view(d: DeletedItem) -> (Seq<char>, bool) {
    (d.path@, d.is_directory)
}

/// The path named `name` beside `file`.
pub fn sibling_of(file: &str, name: &str) -> (r: Option<String>)
    ensures
        match sibling_path(file@, name@) {
            Some(p) => r matches Some(x) && x@ == p,
            None => r is None,
        },
{
    let v = chars_of(file);
    if v.len() == 0 {
        return None;
    }
    match rfind_in(&v, '/') {
        Some(k) => {
            proof {
                crate::text::lemma_rfind_index(v@, '/');
            }
            let mut r = slice(file, 0, k + 1);
            r.append(name);
            Some(r)
        },
        None => Some(name.to_owned()),
    }
}

/// The paths that the cleanup of a baseline at `baseline_version` removes if
/// they exist: for each migration at or before that version, in order, its
/// script and then its asset directory.
pub fn cleanup_targets(baseline_version: &str, available: &[Migration]) -> (r: Vec<CleanupTarget>)
    ensures
        r@.map_values(|t: CleanupTarget| target_view(t)) == cleanup_plan(
            baseline_version@,
            available@,
        ),
{
    let mut r: Vec<CleanupTarget> = Vec::new();
    let mut i: usize = 0;
    assert(available@.take(0) == Seq::<Migration>::empty());
    while i < available.len()
        invariant
            i <= available.len(),
            r@.map_values(|t: CleanupTarget| target_view(t)) == cleanup_plan(
                baseline_version@,
                available@.take(i as int),
            ),
        decreases available.len() - i,
    {
        let m = &available[i];
        assert(available@.take(i + 1).drop_last() == available@.take(i as int));
        assert(available@.take(i + 1).last() == *m);
        let ghost before = r@.map_values(|t: CleanupTarget| target_view(t));
        if version_lte(m.version.as_str(), baseline_version) {
            r.push(CleanupTarget { path: m.file_path.clone(), is_directory: false });
            match sibling_of(m.file_path.as_str(), m.id.as_str()) {
                Some(d) => {
                    r.push(CleanupTarget { path: d, is_directory: true });
                },
                None => {},
            }
            assert(r@.map_values(|t: CleanupTarget| target_view(t)) == before + migration_targets(
                *m,
            ));
        } else {
            assert(before + Seq::<(Seq<char>, bool)>::empty() == before);
        }
        i = i + 1;
    }
    assert(available@.take(available.len() as int) == available@);
    r
}

/// The items that a cleanup removed: the targets, in order, that existed and
/// were removed (`removed[i]` for `targets[i]`).
pub fn deleted_items(targets: &[CleanupTarget], removed: &[bool]) -> (r: Vec<DeletedItem>)
    requires
        removed.len() == targets.len(),
    ensures
        r@.map_values(|d: DeletedItem| deleted_view(d)) == removed_targets(
            targets@.map_values(|t: CleanupTarget| target_view(t)),
            removed@,
        ),
{
    let mut r: Vec<DeletedItem> = Vec::new();
    let mut i: usize = 0;
    let ghost tv = targets@.map_values(|t: CleanupTarget| target_view(t));
    assert(tv.take(0) == Seq::<(Seq<char>, bool)>::empty());
    while i < targets.len()
        invariant
            i <= targets.len(),
            removed.len() == targets.len(),
            tv == targets@.map_values(|t: CleanupTarget| target_view(t)),
            r@.map_values(|d: DeletedItem| deleted_view(d)) == removed_targets(
                tv.take(i as int),
                removed@.take(i as int),
            ),
        decreases targets.len() - i,
    {
        assert(tv.take(i + 1).drop_last() == tv.take(i as int));
        assert(removed@.take(i + 1).drop_last() == removed@.take(i as int));
        let ghost before = r@.map_values(|d: DeletedItem| deleted_view(d));
        if removed[i] {
            r.push(
                DeletedItem { path: targets[i].path.clone(), is_directory: targets[i].is_directory },
            );
            assert(r@.map_values(|d: DeletedItem| deleted_view(d)) == before.push(tv[i as int]));
        }
        i = i + 1;
    }
    assert(tv.take(targets.len() as int) == tv);
    assert(removed@.take(targets.len() as int) == removed@);
    r
}

/// The targets whose flag is set, in order.
pub open spec fn removed_targets(targets: Seq<(Seq<char>, bool)>, removed: Seq<bool>) -> Seq<
    (Seq<char>, bool),
>
    decreases targets.len(),
{
    if targets.len() == 0 || removed.len() != targets.len() {
        seq![]
    } else if removed.last() {
        removed_targets(targets.drop_last(), removed.drop_last()).push(targets.last())
    } else {
        removed_targets(targets.drop_last(), removed.drop_last())
    }
}

/// Some migration of `available` has exactly the version `v`.
pub open spec fn has_version(available: Seq<Migration>, v: Seq<char>) -> bool {
    exists|i: int| 0 <= i < available.len() && available[i].version@ == v
}

/// Some record of `applied` names the migration `id`.
pub open spec fn is_applied(applied: Seq<AppliedMigration>, id: Seq<char>) -> bool {
    exists|j: int| 0 <= j < applied.len() && applied[j].id@ == id
}

/// A baseline at `v` would lie strictly before the existing one.
pub open spec fn moves_backward(v: Seq<char>, existing: Option<&Baseline>) -> bool {
    match existing {
        Some(b) => seq_lt(v, b.version@),
        None => false,
    }
}

/// The migration `m` lies at or before `v` but has no applied record.
pub open spec fn unapplied_at_or_before(
    m: Migration,
    applied: Seq<AppliedMigration>,
    v: Seq<char>,
) -> bool {
    seq_lte(m.version@, v) && !is_applied(applied, m.id@)
}

/// Every migration at or before `v` has an applied record.
pub open spec fn complete_up_to(
    available: Seq<Migration>,
    applied: Seq<AppliedMigration>,
    v: Seq<char>,
) -> bool {
    forall|i: int| 0 <= i < available.len() ==> !unapplied_at_or_before(available[i], applied, v)
}

/// `i` is the first migration of `available` at or before `v` that was not
/// applied.
pub open spec fn first_unapplied(
    available: Seq<Migration>,
    applied: Seq<AppliedMigration>,
    v: Seq<char>,
    i: int,
) -> bool {
    &&& 0 <= i < available.len()
    &&& unapplied_at_or_before(available[i], applied, v)
    &&& forall|j: int| 0 <= j < i ==> !unapplied_at_or_before(available[j], applied, v)
}

/// Why a baseline cannot be created.
#[derive(Debug, Clone)]
pub enum BaselineError {
    /// No available migration has the requested version.
    NoMatchingMigration { version: String },
    /// The requested version lies before the existing baseline.
    MovesBackward { existing: String, requested: String },
    /// A migration at or before the requested version was never applied.
    NotApplied { id: String },
}

impl BaselineError {
    /// The error as a sentence for the user.
    pub fn message(&self) -> (r: String)
        ensures
            r@ == match self {
                BaselineError::NoMatchingMigration { version } => "No migration found with version '"@
                    + version@ + "'"@,
                BaselineError::MovesBackward { existing, requested } =>
                    "Cannot move baseline backward from '"@ + existing@ + "' to '"@ + requested@
                    + "'"@,
                BaselineError::NotApplied { id } => "Cannot baseline: migration '"@ + id@
                    + "' has not been applied"@,
            },
    {
        match self {
            BaselineError::NoMatchingMigration { version } => {
                let mut r = "No migration found with version '".to_owned();
                r.append(version.as_str());
                r.append("'");
                r
            },
            BaselineError::MovesBackward { existing, requested } => {
                let mut r = "Cannot move baseline backward from '".to_owned();
                r.append(existing.as_str());
                r.append("' to '");
                r.append(requested.as_str());
                r.append("'");
                r
            },
            BaselineError::NotApplied { id } => {
                let mut r = "Cannot baseline: migration '".to_owned();
                r.append(id.as_str());
                r.append("' has not been applied");
                r
            },
        }
    }
}

/// Decides whether a baseline may be created at `version`. The checks come in
/// this order: the version must be that of an available migration; it must
/// not lie before the existing baseline; and every migration at or before it
/// must have been applied (the error names the first that was not).
pub fn validate_baseline(
    version: &str,
    available: &[Migration],
    applied: &[AppliedMigration],
    existing_baseline: Option<&Baseline>,
) -> (r: Result<(), BaselineError>)
    ensures
        match r {
            Ok(()) => has_version(available@, version@) && !moves_backward(
                version@,
                existing_baseline,
            ) && complete_up_to(available@, applied@, version@),
            Err(BaselineError::NoMatchingMigration { version: v }) => !has_version(
                available@,
                version@,
            ) && v@ == version@,
            Err(BaselineError::MovesBackward { existing: e, requested: q }) => has_version(
                available@,
                version@,
            ) && moves_backward(version@, existing_baseline) && e@
                == existing_baseline.unwrap().version@ && q@ == version@,
            Err(BaselineError::NotApplied { id }) => has_version(available@, version@)
                && !moves_backward(version@, existing_baseline) && exists|i: int|
                first_unapplied(available@, applied@, version@, i) && id@ == available@[i].id@,
        },
{
    let v = version.to_owned();
    let mut i: usize = 0;
    while i < available.len() && available[i].version != v
        invariant
            v@ == version@,
            i <= available.len(),
            forall|k: int| 0 <= k < i ==> available@[k].version@ != version@,
        decreases available.len() - i,
    {
        i = i + 1;
    }
    if i == available.len() {
        return Err(BaselineError::NoMatchingMigration { version: v });
    }
    assert(has_version(available@, version@)) by {
        assert(available@[i as int].version@ == version@);
    }
    if let Some(existing) = existing_baseline {
        let before = version_lte(version, existing.version.as_str());
        proof {
            lemma_lt_irreflexive(version@);
        }
        if before && existing.version != v {
            return Err(
                BaselineError::MovesBackward {
                    existing: existing.version.clone(),
                    requested: v,
                },
            );
        }
    }
    let mut i: usize = 0;
    while i < available.len()
        invariant
            v@ == version@,
            i <= available.len(),
            has_version(available@, version@),
            !moves_backward(version@, existing_baseline),
            forall|k: int|
                0 <= k < i ==> !unapplied_at_or_before(#[trigger] available@[k], applied@, version@),
        decreases available.len() - i,
    {
        let m = &available[i];
        if version_lte(m.version.as_str(), version) && !applied_contains(applied, &m.id) {
            assert(first_unapplied(available@, applied@, version@, i as int));
            return Err(BaselineError::NotApplied { id: m.id.clone() });
        }
        i = i + 1;
    }
    Ok(())
}

/// No version precedes itself.
pub proof fn lemma_lt_irreflexive(a: Seq<char>)
    ensures
        !seq_lt(a, a),
{
}

/// Every version is at most itself.
pub proof fn lemma_lte_reflexive(a: Seq<char>)
    ensures
        seq_lte(a, a),
{
}

/// A baseline at the version of the existing baseline does not move it
/// backward.
pub proof fn lemma_same_version_not_backward(v: Seq<char>, existing: Baseline)
    requires
        existing.version@ == v,
    ensures
        !moves_backward(v, Some(&existing)),
{
    lemma_lt_irreflexive(v);
}

/// A cleanup that finds none of its targets (a second cleanup at the same
/// version, say) reports no deleted item.
pub proof fn lemma_nothing_found_nothing_deleted(targets: Seq<(Seq<char>, bool)>, removed: Seq<bool>)
    requires
        removed.len() == targets.len(),
        forall|i: int| 0 <= i < removed.len() ==> !removed[i],
    ensures
        removed_targets(targets, removed) == Seq::<(Seq<char>, bool)>::empty(),
    decreases targets.len(),
{
    if targets.len() > 0 {
        lemma_nothing_found_nothing_deleted(targets.drop_last(), removed.drop_last());
    }
}

/// When `a` and `b` agree before `k`, no index before `k` holds a difference.
proof fn lemma_no_earlier_difference(a: Seq<char>, b: Seq<char>, k: int)
    requires
        0 <= k <= a.len(),
        k <= b.len(),
        a.take(k) == b.take(k),
    ensures
        forall|i: int| 0 <= i < k ==> a[i] == b[i],
{
    assert forall|i: int| 0 <= i < k implies a[i] == b[i] by {
        assert(a[i] == a.take(k)[i]);
        assert(b[i] == b.take(k)[i]);
    }
}

/// At the first difference `k` of `a` and `b`, the order of `a` and `b` is the
/// order of their characters at `k`.
proof fn lemma_first_difference(a: Seq<char>, b: Seq<char>, k: int)
    requires
        0 <= k < a.len(),
        k < b.len(),
        a.take(k) == b.take(k),
        a[k] != b[k],
    ensures
        seq_lt(a, b) <==> (a[k] as int) < (b[k] as int),
{
    lemma_no_earlier_difference(a, b, k);
    if seq_lt(a, b) {
        if exists|i: int|
            0 <= i < a.len() && i < b.len() && a.take(i) == b.take(i) && (a[i] as int) < (b[i] as int) {
            let i = choose|i: int|
                0 <= i < a.len() && i < b.len() && a.take(i) == b.take(i) && (a[i] as int) < (b[i] as int);
            if i > k {
                assert(a.take(i)[k] == b.take(i)[k]);
            }
        } else {
            assert(a[k] == b.take(a.len() as int)[k]);
        }
    }
    if (a[k] as int) < (b[k] as int) {
        assert(seq_lt(a, b));
    }
}

} // verus!
