use vstd::prelude::*;
use vstd::string::*;
use vstd::multiset::Multiset;
use crate::error::Error;
use crate::text::{
    concat_str, ends_with, is_suffix, lex_le, lemma_lex_le_order, parse_i64, parse_i64_spec,
    prefix_before, prefix_before_str, replace_all, replace_str, str_lt, trim_suffix_repeated,
    trim_suffix_str,
};

verus! {

broadcast use vstd::seq_lib::group_to_multiset_ensures;

/// The file-name suffix of an up-migration.
pub open spec fn up_suffix() -> Seq<char> {
    seq!['.', 'u', 'p', '.', 's', 'q', 'l']
}

/// The file-name suffix of a down-migration.
pub open spec fn down_suffix() -> Seq<char> {
    seq!['.', 'd', 'o', 'w', 'n', '.', 's', 'q', 'l']
}

/// The version that a migration file name carries: the text before the first
/// `_`, once the suffix is stripped, read as a decimal `i64`.
pub open spec fn version_of(name: Seq<char>, suffix: Seq<char>) -> Option<i64> {
    parse_i64_spec(prefix_before(trim_suffix_repeated(name, suffix), '_'))
}

pub open spec fn up_version(name: Seq<char>) -> Option<i64> {
    version_of(name, up_suffix())
}

pub open spec fn down_version(name: Seq<char>) -> Option<i64> {
    version_of(name, down_suffix())
}

/// The names in `names` that end with `suffix`, in their order.
pub open spec fn names_with_suffix(names: Seq<String>, suffix: Seq<char>) -> Seq<String>
    decreases names.len(),
{
    if names.len() == 0 {
        Seq::empty()
    } else {
        let rest = names_with_suffix(names.drop_last(), suffix);
        if is_suffix(suffix, names.last()@) {
            rest.push(names.last())
        } else {
            rest
        }
    }
}

/// Names in ascending lexicographic order.
pub open spec fn names_ascending(s: Seq<String>) -> bool {
    forall|i: int, j: int| 0 <= i < j < s.len() ==> lex_le(#[trigger] s[i]@, #[trigger] s[j]@)
}

/// Names in descending lexicographic order.
pub open spec fn names_descending(s: Seq<String>) -> bool {
    forall|i: int, j: int| 0 <= i < j < s.len() ==> lex_le(#[trigger] s[j]@, #[trigger] s[i]@)
}

/// The up-migrations of `up_files` whose version reads and is not in `applied`,
/// as (version, file) pairs in the order of `up_files`.
pub open spec fn pending_spec(up_files: Seq<String>, applied: Seq<i64>) -> Seq<(i64, String)>
    decreases up_files.len(),
{
    if up_files.len() == 0 {
        Seq::empty()
    } else {
        let rest = pending_spec(up_files.drop_last(), applied);
        let f = up_files.last();
        match up_version(f@) {
            Some(v) => if applied.contains(v) {
                rest
            } else {
                rest.push((v, f))
            },
            None => rest,
        }
    }
}

/// Pairs in ascending order of version.
pub open spec fn versions_ascending(s: Seq<(i64, String)>) -> bool {
    forall|i: int, j: int| 0 <= i < j < s.len() ==> (#[trigger] s[i]).0 <= (#[trigger] s[j]).0
}

/// The versions of a list of (version, file) steps, in order.
pub open spec fn versions_of(steps: Seq<(i64, String)>) -> Seq<i64> {
    steps.map_values(|s: (i64, String)| s.0)
}

/// The applied versions once each step of `steps` has been applied and recorded.
pub open spec fn applied_after_apply(applied: Seq<i64>, steps: Seq<(i64, String)>) -> Seq<i64> {
    applied + versions_of(steps)
}

/// Some up-file of `up_files` carries version `v`.
pub open spec fn has_up_version(up_files: Seq<String>, v: i64) -> bool {
    exists|i: int| 0 <= i < up_files.len() && up_version((#[trigger] up_files[i])@) == Some(v)
}

/// Some pair of `steps` carries version `v`.
pub open spec fn has_step_version(steps: Seq<(i64, String)>, v: i64) -> bool {
    exists|k: int| 0 <= k < steps.len() && (#[trigger] steps[k]).0 == v
}

/// Pending is exactly the set difference: a version is pending if and only if
/// some up-file carries it and it has not been applied.
pub proof fn lemma_pending_is_difference(up_files: Seq<String>, applied: Seq<i64>, v: i64)
    ensures
        has_step_version(pending_spec(up_files, applied), v) <==> has_up_version(up_files, v)
            && !applied.contains(v),
        forall|k: int|
            0 <= k < pending_spec(up_files, applied).len() ==> {
                let p = #[trigger] pending_spec(up_files, applied)[k];
                up_version(p.1@) == Some(p.0) && !applied.contains(p.0)
            },
    decreases up_files.len(),
{
    if up_files.len() > 0 {
        let init = up_files.drop_last();
        lemma_pending_is_difference(init, applied, v);
        let rest = pending_spec(init, applied);
        let p = pending_spec(up_files, applied);
        let f = up_files.last();
        if has_up_version(up_files, v) && !applied.contains(v) {
            let i = choose|i: int| 0 <= i < up_files.len() && up_version((#[trigger] up_files[i])@) == Some(v);
            if i < init.len() {
                assert(init[i] == up_files[i]);
                assert(has_up_version(init, v));
                let k = choose|k: int| 0 <= k < rest.len() && (#[trigger] rest[k]).0 == v;
                assert(p[k] == rest[k]);
            } else {
                assert(p[p.len() - 1].0 == v);
            }
        }
        if has_step_version(p, v) {
            let k = choose|k: int| 0 <= k < p.len() && (#[trigger] p[k]).0 == v;
            if k < rest.len() {
                assert(p[k] == rest[k]);
                assert(has_step_version(rest, v));
                let i = choose|i: int| 0 <= i < init.len() && up_version((#[trigger] init[i])@) == Some(v);
                assert(init[i] == up_files[i]);
            } else {
                assert(up_files[up_files.len() - 1] == f);
            }
        }
        assert forall|k: int| 0 <= k < p.len() implies {
            let q = #[trigger] p[k];
            up_version(q.1@) == Some(q.0) && !applied.contains(q.0)
        } by {
            if k < rest.len() {
                assert(p[k] == rest[k]);
            }
        }
    }
}

/// Applying every pending migration converges: once the pending steps are
/// recorded as applied, nothing is pending any more.
pub proof fn lemma_apply_converges(
    up_files: Seq<String>,
    applied: Seq<i64>,
    steps: Seq<(i64, String)>,
)
    requires
        steps.to_multiset() == pending_spec(up_files, applied).to_multiset(),
    ensures
        pending_spec(up_files, applied_after_apply(applied, steps)) == Seq::<(i64, String)>::empty(),
{
    let after = applied_after_apply(applied, steps);
    let still_pending = pending_spec(up_files, after);
    if still_pending.len() > 0 {
        let v = still_pending[0].0;
        lemma_pending_is_difference(up_files, after, v);
        assert(has_step_version(still_pending, v));
        lemma_pending_is_difference(up_files, applied, v);
        assert(!applied.contains(v)) by {
            if applied.contains(v) {
                let j = choose|j: int| 0 <= j < applied.len() && applied[j] == v;
                assert(after[j] == v);
            }
        }
        let first_pending = pending_spec(up_files, applied);
        let k = choose|k: int| 0 <= k < first_pending.len() && (#[trigger] first_pending[k]).0 == v;
        assert(first_pending.to_multiset().count(first_pending[k]) > 0);
        assert(steps.contains(first_pending[k]));
        let j = choose|j: int| 0 <= j < steps.len() && steps[j] == first_pending[k];
        assert(after[applied.len() + j] == v);
        assert(false);
    }
    assert(still_pending =~= Seq::<(i64, String)>::empty());
}

/// Applying when nothing is pending changes nothing: no step runs and the
/// applied versions stay as they are.
pub proof fn lemma_apply_when_current_is_noop(up_files: Seq<String>, applied: Seq<i64>)
    requires
        pending_spec(up_files, applied).len() == 0,
    ensures
        applied_after_apply(applied, pending_spec(up_files, applied)) == applied,
{
    assert(applied_after_apply(applied, pending_spec(up_files, applied)) =~= applied);
}

/// Versions in strictly ascending order.
pub open spec fn strictly_ascending(s: Seq<i64>) -> bool {
    forall|i: int, j: int| 0 <= i < j < s.len() ==> #[trigger] s[i] < #[trigger] s[j]
}

/// Versions in strictly descending order.
pub open spec fn strictly_descending(s: Seq<i64>) -> bool {
    forall|i: int, j: int| 0 <= i < j < s.len() ==> #[trigger] s[i] > #[trigger] s[j]
}

/// The applied versions above `target`, latest first.
pub open spec fn rollback_versions(applied: Seq<i64>, target: i64) -> Seq<i64>
    decreases applied.len(),
{
    if applied.len() == 0 {
        Seq::empty()
    } else {
        let rest = rollback_versions(applied.drop_last(), target);
        if applied.last() > target {
            seq![applied.last()] + rest
        } else {
            rest
        }
    }
}

/// The first file of `down_files` whose down-version is `v`.
pub open spec fn down_file_for(down_files: Seq<String>, v: i64) -> Option<String>
    decreases down_files.len(),
{
    if down_files.len() == 0 {
        None
    } else if down_version(down_files[0]@) == Some(v) {
        Some(down_files[0])
    } else {
        down_file_for(down_files.subrange(1, down_files.len() as int), v)
    }
}

/// The reverts that a rollback over `versions` performs, in order: each version
/// with its down-file, up to the first version that has none.
pub open spec fn rollback_steps(versions: Seq<i64>, down_files: Seq<String>) -> Seq<(i64, String)>
    decreases versions.len(),
{
    if versions.len() == 0 {
        Seq::empty()
    } else {
        match down_file_for(down_files, versions[0]) {
            Some(f) => seq![(versions[0], f)] + rollback_steps(
                versions.subrange(1, versions.len() as int),
                down_files,
            ),
            None => Seq::empty(),
        }
    }
}

/// The first version of `versions` that has no down-file, if any.
pub open spec fn rollback_missing(versions: Seq<i64>, down_files: Seq<String>) -> Option<i64>
    decreases versions.len(),
{
    if versions.len() == 0 {
        None
    } else {
        match down_file_for(down_files, versions[0]) {
            Some(_) => rollback_missing(versions.subrange(1, versions.len() as int), down_files),
            None => Some(versions[0]),
        }
    }
}

/// The reverts of a rollback to `target`.
pub open spec fn rollback_plan_steps(applied: Seq<i64>, target: i64, down_files: Seq<String>) -> Seq<
    (i64, String),
> {
    rollback_steps(rollback_versions(applied, target), down_files)
}

/// The version at which a rollback to `target` stops for want of a down-file.
pub open spec fn rollback_plan_missing(applied: Seq<i64>, target: i64, down_files: Seq<String>) -> Option<i64> {
    rollback_missing(rollback_versions(applied, target), down_files)
}

/// The applied versions once the versions of `steps` have been rolled back.
pub open spec fn applied_after_rollback(applied: Seq<i64>, steps: Seq<(i64, String)>) -> Seq<i64>
    decreases applied.len(),
{
    if applied.len() == 0 {
        Seq::empty()
    } else {
        let rest = applied_after_rollback(applied.drop_last(), steps);
        if has_step_version(steps, applied.last()) {
            rest
        } else {
            rest.push(applied.last())
        }
    }
}

proof fn lemma_rollback_versions(applied: Seq<i64>, target: i64)
    ensures
        forall|v: i64|
            #[trigger] rollback_versions(applied, target).contains(v) <==> applied.contains(v) && v
                > target,
        strictly_ascending(applied) ==> strictly_descending(rollback_versions(applied, target)),
    decreases applied.len(),
{
    if applied.len() > 0 {
        let init = applied.drop_last();
        let x = applied.last();
        lemma_rollback_versions(init, target);
        let rest = rollback_versions(init, target);
        let r = rollback_versions(applied, target);
        assert forall|v: i64| r.contains(v) <==> applied.contains(v) && v > target by {
            if applied.contains(v) && v > target {
                let j = choose|j: int| 0 <= j < applied.len() && applied[j] == v;
                if j < init.len() {
                    assert(init[j] == v);
                    assert(init.contains(v));
                    assert(rest.contains(v));
                    let k = choose|k: int| 0 <= k < rest.len() && rest[k] == v;
                    if x > target {
                        assert(r[k + 1] == v);
                    }
                } else {
                    assert(r[0] == v);
                }
            }
            if r.contains(v) {
                let k = choose|k: int| 0 <= k < r.len() && r[k] == v;
                if x > target && k == 0 {
                    assert(applied[applied.len() - 1] == v);
                } else {
                    let kk = if x > target { k - 1 } else { k };
                    assert(rest[kk] == v);
                    assert(rest.contains(v));
                    assert(init.contains(v));
                    let j = choose|j: int| 0 <= j < init.len() && init[j] == v;
                    assert(applied[j] == v);
                }
            }
        }
        if strictly_ascending(applied) {
            assert(strictly_ascending(init)) by {
                assert forall|i: int, j: int| 0 <= i < j < init.len() implies #[trigger] init[i]
                    < #[trigger] init[j] by {
                    assert(init[i] == applied[i] && init[j] == applied[j]);
                }
            }
            if x > target {
                assert forall|i: int, j: int| 0 <= i < j < r.len() implies #[trigger] r[i]
                    > #[trigger] r[j] by {
                    if i == 0 {
                        assert(rest.contains(r[j]));
                        assert(init.contains(r[j]));
                        let jj = choose|jj: int| 0 <= jj < init.len() && init[jj] == r[j];
                        assert(applied[jj] < applied[applied.len() - 1]);
                    } else {
                        assert(r[i] == rest[i - 1] && r[j] == rest[j - 1]);
                    }
                }
            }
        }
    }
}

proof fn lemma_rollback_steps(versions: Seq<i64>, down_files: Seq<String>)
    ensures
        rollback_steps(versions, down_files).len() <= versions.len(),
        versions_of(rollback_steps(versions, down_files)) == versions.subrange(
            0,
            rollback_steps(versions, down_files).len() as int,
        ),
        forall|j: int|
            0 <= j < rollback_steps(versions, down_files).len() ==> down_file_for(
                down_files,
                versions[j],
            ) == Some((#[trigger] rollback_steps(versions, down_files)[j]).1),
        rollback_missing(versions, down_files) == if rollback_steps(versions, down_files).len()
            < versions.len() {
            Some(versions[rollback_steps(versions, down_files).len() as int])
        } else {
            None::<i64>
        },
        rollback_steps(versions, down_files).len() < versions.len() ==> down_file_for(
            down_files,
            versions[rollback_steps(versions, down_files).len() as int],
        ) is None,
    decreases versions.len(),
{
    let st = rollback_steps(versions, down_files);
    if versions.len() == 0 {
        assert(versions_of(st) =~= versions.subrange(0, 0));
    } else {
        let tail = versions.subrange(1, versions.len() as int);
        lemma_rollback_steps(tail, down_files);
        match down_file_for(down_files, versions[0]) {
            Some(f) => {
                let rest = rollback_steps(tail, down_files);
                assert(versions_of(st) =~= versions.subrange(0, st.len() as int)) by {
                    assert forall|j: int| 0 <= j < st.len() implies versions_of(st)[j]
                        == versions[j] by {
                        if j > 0 {
                            assert(st[j] == rest[j - 1]);
                            assert(versions_of(rest)[j - 1] == tail[j - 1]);
                        }
                    }
                }
                assert forall|j: int| 0 <= j < st.len() implies down_file_for(
                    down_files,
                    versions[j],
                ) == Some((#[trigger] st[j]).1) by {
                    if j > 0 {
                        assert(st[j] == rest[j - 1]);
                        assert(versions[j] == tail[j - 1]);
                    }
                }
                if st.len() < versions.len() {
                    assert(versions[st.len() as int] == tail[rest.len() as int]);
                }
            },
            None => {
                assert(versions_of(st) =~= versions.subrange(0, 0));
            },
        }
    }
}

proof fn lemma_applied_after_rollback(applied: Seq<i64>, steps: Seq<(i64, String)>, v: i64)
    ensures
        applied_after_rollback(applied, steps).contains(v) <==> applied.contains(v)
            && !has_step_version(steps, v),
    decreases applied.len(),
{
    if applied.len() > 0 {
        let init = applied.drop_last();
        lemma_applied_after_rollback(init, steps, v);
        let rest = applied_after_rollback(init, steps);
        let r = applied_after_rollback(applied, steps);
        if applied.contains(v) && !has_step_version(steps, v) {
            let j = choose|j: int| 0 <= j < applied.len() && applied[j] == v;
            if j < init.len() {
                assert(init[j] == v);
                let k = choose|k: int| 0 <= k < rest.len() && rest[k] == v;
                assert(r[k] == v);
            } else {
                assert(r[r.len() - 1] == v);
            }
        }
        if r.contains(v) {
            let k = choose|k: int| 0 <= k < r.len() && r[k] == v;
            if k < rest.len() {
                assert(rest[k] == v);
                let j = choose|j: int| 0 <= j < init.len() && init[j] == v;
                assert(applied[j] == v);
            } else {
                assert(applied[applied.len() - 1] == v);
            }
        }
    }
}

proof fn lemma_has_step_version(steps: Seq<(i64, String)>, v: i64)
    ensures
        has_step_version(steps, v) <==> versions_of(steps).contains(v),
{
    if has_step_version(steps, v) {
        let k = choose|k: int| 0 <= k < steps.len() && (#[trigger] steps[k]).0 == v;
        assert(versions_of(steps)[k] == v);
    }
    if versions_of(steps).contains(v) {
        let k = choose|k: int| 0 <= k < versions_of(steps).len() && versions_of(steps)[k] == v;
        assert(steps[k].0 == v);
    }
}

/// A rollback to `target` that finds every down-file reverts exactly the applied
/// versions above `target` and leaves exactly those at or below it; when the
/// applied versions are listed in ascending order, it reverts them latest first.
pub proof fn lemma_rollback_removes_exactly_above_target(
    applied: Seq<i64>,
    target: i64,
    down_files: Seq<String>,
)
    requires
        rollback_plan_missing(applied, target, down_files) is None,
    ensures
        versions_of(rollback_plan_steps(applied, target, down_files)) == rollback_versions(
            applied,
            target,
        ),
        forall|v: i64|
            versions_of(rollback_plan_steps(applied, target, down_files)).contains(v) <==> (
            applied.contains(v) && v > target),
        forall|v: i64|
            applied_after_rollback(applied, rollback_plan_steps(applied, target, down_files)).contains(
                v,
            ) <==> (applied.contains(v) && v <= target),
        strictly_ascending(applied) ==> strictly_descending(
            versions_of(rollback_plan_steps(applied, target, down_files)),
        ),
{
    let vs = rollback_versions(applied, target);
    let st = rollback_plan_steps(applied, target, down_files);
    lemma_rollback_versions(applied, target);
    lemma_rollback_steps(vs, down_files);
    assert(versions_of(st) =~= vs);
    assert forall|v: i64|
        applied_after_rollback(applied, st).contains(v) <==> (applied.contains(v) && v <= target) by {
        lemma_applied_after_rollback(applied, st, v);
        lemma_has_step_version(st, v);
    }
}

/// A rollback to `target` stops at the first version it meets, above `target`,
/// that has no down-file: that version stays applied, the versions reverted
/// before it stay reverted, and nothing else changes. When the applied versions
/// are listed in ascending order, the reverted ones are exactly those above the
/// version that stopped it.
pub proof fn lemma_rollback_stops_at_missing_down_file(
    applied: Seq<i64>,
    target: i64,
    down_files: Seq<String>,
    missing: i64,
)
    requires
        rollback_plan_missing(applied, target, down_files) == Some(missing),
    ensures
        applied.contains(missing),
        missing > target,
        down_file_for(down_files, missing) is None,
        !versions_of(rollback_plan_steps(applied, target, down_files)).contains(missing),
        forall|v: i64|
            applied_after_rollback(applied, rollback_plan_steps(applied, target, down_files)).contains(
                v,
            ) <==> (applied.contains(v) && !versions_of(
                rollback_plan_steps(applied, target, down_files),
            ).contains(v)),
        applied_after_rollback(applied, rollback_plan_steps(applied, target, down_files)).contains(
            missing,
        ),
        strictly_ascending(applied) ==> forall|v: i64|
            versions_of(rollback_plan_steps(applied, target, down_files)).contains(v) <==> (
            applied.contains(v) && v > missing),
{
    let vs = rollback_versions(applied, target);
    let st = rollback_plan_steps(applied, target, down_files);
    lemma_rollback_versions(applied, target);
    lemma_rollback_steps(vs, down_files);
    let k = st.len() as int;
    assert(vs[k] == missing);
    assert(vs.contains(missing));
    assert(!versions_of(st).contains(missing)) by {
        if versions_of(st).contains(missing) {
            let j = choose|j: int| 0 <= j < versions_of(st).len() && versions_of(st)[j] == missing;
            assert(vs.subrange(0, k)[j] == vs[j]);
            assert(down_file_for(down_files, vs[j]) == Some(st[j].1));
        }
    }
    assert forall|v: i64|
        applied_after_rollback(applied, st).contains(v) <==> (applied.contains(v)
            && !versions_of(st).contains(v)) by {
        lemma_applied_after_rollback(applied, st, v);
        lemma_has_step_version(st, v);
    }
    if strictly_ascending(applied) {
        assert forall|v: i64| versions_of(st).contains(v) <==> (applied.contains(v) && v > missing) by {
            if versions_of(st).contains(v) {
                let j = choose|j: int| 0 <= j < versions_of(st).len() && versions_of(st)[j] == v;
                assert(vs.subrange(0, k)[j] == vs[j]);
                assert(vs[j] == v);
                assert(vs.contains(v));
            }
            if applied.contains(v) && v > missing {
                assert(vs.contains(v));
                let j = choose|j: int| 0 <= j < vs.len() && vs[j] == v;
                if j >= k {
                    assert(j != k);
                    assert(vs[k] > vs[j]);
                }
                assert(versions_of(st)[j] == v);
            }
        }
    }
}

fn up_suffix_str() -> (r: &'static str)
    ensures
        r@ == up_suffix(),
{
    proof {
        reveal_strlit(".up.sql");
    }
    ".up.sql"
}

fn down_suffix_str() -> (r: &'static str)
    ensures
        r@ == down_suffix(),
{
    proof {
        reveal_strlit(".down.sql");
    }
    ".down.sql"
}

fn version_from_name(name: &str, suffix: &str) -> (r: Option<i64>)
    requires
        suffix@.len() > 0,
    ensures
        r == version_of(name@, suffix@),
{
    let trimmed = trim_suffix_str(name, suffix);
    let head = prefix_before_str(trimmed, '_');
    parse_i64(head)
}

/// The names of `names` that end with `suffix`, in their order.
fn select_with_suffix(names: &Vec<String>, suffix: &str) -> (r: Vec<String>)
    ensures
        r@ == names_with_suffix(names@, suffix@),
{
    let mut out: Vec<String> = Vec::new();
    let mut i: usize = 0;
    while i < names.len()
        invariant
            i <= names.len(),
            out@ == names_with_suffix(names@.subrange(0, i as int), suffix@),
        decreases names.len() - i,
    {
        proof {
            assert(names@.subrange(0, i + 1).drop_last() =~= names@.subrange(0, i as int));
        }
        if ends_with(names[i].as_str(), suffix) {
            out.push(names[i].clone());
        }
        i = i + 1;
    }
    assert(names@.subrange(0, names.len() as int) =~= names@);
    out
}

/// Sorts names into ascending lexicographic order.
fn sort_names(names: Vec<String>) -> (r: Vec<String>)
    ensures
        r@.to_multiset() == names@.to_multiset(),
        names_ascending(r@),
{
    let ghost all = names@.to_multiset();
    let mut rest = names;
    let mut out: Vec<String> = Vec::new();
    while rest.len() > 0
        invariant
            out@.to_multiset().add(rest@.to_multiset()) == all,
            names_ascending(out@),
            forall|i: int, j: int|
                0 <= i < out.len() && 0 <= j < rest.len() ==> lex_le(
                    #[trigger] out@[i]@,
                    #[trigger] rest@[j]@,
                ),
        decreases rest.len(),
    {
        let mut m: usize = 0;
        let mut k: usize = 1;
        while k < rest.len()
            invariant
                m < rest.len(),
                1 <= k <= rest.len(),
                forall|j: int| 0 <= j < k ==> lex_le(rest@[m as int]@, #[trigger] rest@[j]@),
            decreases rest.len() - k,
        {
            proof {
                assert forall|j: int| 0 <= j < k implies lex_le(
                    rest@[k as int]@,
                    #[trigger] rest@[j]@,
                ) || lex_le(rest@[m as int]@, rest@[k as int]@) by {
                    lemma_lex_le_order(rest@[k as int]@, rest@[m as int]@, rest@[j]@);
                }
                lemma_lex_le_order(rest@[k as int]@, rest@[m as int]@, rest@[k as int]@);
            }
            if str_lt(rest[k].as_str(), rest[m].as_str()) {
                m = k;
            }
            k = k + 1;
        }
        let ghost old_rest = rest@;
        let ghost old_out = out@;
        let x = rest.remove(m);
        out.push(x);
        proof {
            assert(out@.to_multiset().add(rest@.to_multiset()) =~= old_out.to_multiset().add(
                old_rest.to_multiset(),
            ));
            assert forall|i: int, j: int|
                0 <= i < out.len() && 0 <= j < rest.len() implies lex_le(
                #[trigger] out@[i]@,
                #[trigger] rest@[j]@,
            ) by {
                let jj = if j < m { j } else { j + 1 };
                assert(rest@[j] == old_rest[jj]);
                if i < old_out.len() {
                    assert(out@[i] == old_out[i]);
                }
            }
            assert forall|i: int, j: int| 0 <= i < j < out.len() implies lex_le(
                #[trigger] out@[i]@,
                #[trigger] out@[j]@,
            ) by {
                if j == old_out.len() {
                    assert(out@[j] == old_rest[m as int]);
                    assert(out@[i] == old_out[i]);
                } else {
                    assert(out@[i] == old_out[i]);
                    assert(out@[j] == old_out[j]);
                }
            }
        }
    }
    proof {
        assert(rest@.to_multiset() =~= Multiset::empty());
        assert(out@.to_multiset().add(Multiset::empty()) =~= out@.to_multiset());
    }
    out
}

fn contains_version(applied: &Vec<i64>, v: i64) -> (r: bool)
    ensures
        r == applied@.contains(v),
{
    let mut i: usize = 0;
    while i < applied.len()
        invariant
            i <= applied.len(),
            forall|j: int| 0 <= j < i ==> applied@[j] != v,
        decreases applied.len() - i,
    {
        if applied[i] == v {
            return true;
        }
        i = i + 1;
    }
    false
}

fn contains_name(names: &Vec<String>, name: &String) -> (r: bool)
    ensures
        r == exists|i: int| 0 <= i < names.len() && (#[trigger] names@[i])@ == name@,
{
    let mut i: usize = 0;
    while i < names.len()
        invariant
            i <= names.len(),
            forall|j: int| 0 <= j < i ==> (#[trigger] names@[j])@ != name@,
        decreases names.len() - i,
    {
        if names[i] == *name {
            return true;
        }
        i = i + 1;
    }
    false
}

/// Sorts (version, file) pairs into ascending order of version.
fn sort_by_version(steps: Vec<(i64, String)>) -> (r: Vec<(i64, String)>)
    ensures
        r@.to_multiset() == steps@.to_multiset(),
        versions_ascending(r@),
{
    let ghost all = steps@.to_multiset();
    let mut rest = steps;
    let mut out: Vec<(i64, String)> = Vec::new();
    while rest.len() > 0
        invariant
            out@.to_multiset().add(rest@.to_multiset()) == all,
            versions_ascending(out@),
            forall|i: int, j: int|
                0 <= i < out.len() && 0 <= j < rest.len() ==> (#[trigger] out@[i]).0 <= (
                #[trigger] rest@[j]).0,
        decreases rest.len(),
    {
        let mut m: usize = 0;
        let mut k: usize = 1;
        while k < rest.len()
            invariant
                m < rest.len(),
                1 <= k <= rest.len(),
                forall|j: int| 0 <= j < k ==> rest@[m as int].0 <= (#[trigger] rest@[j]).0,
            decreases rest.len() - k,
        {
            if rest[k].0 < rest[m].0 {
                m = k;
            }
            k = k + 1;
        }
        let ghost old_rest = rest@;
        let ghost old_out = out@;
        let x = rest.remove(m);
        out.push(x);
        proof {
            assert(out@.to_multiset().add(rest@.to_multiset()) =~= old_out.to_multiset().add(
                old_rest.to_multiset(),
            ));
            assert forall|i: int, j: int|
                0 <= i < out.len() && 0 <= j < rest.len() implies (#[trigger] out@[i]).0 <= (
            #[trigger] rest@[j]).0 by {
                let jj = if j < m { j } else { j + 1 };
                assert(rest@[j] == old_rest[jj]);
                if i < old_out.len() {
                    assert(out@[i] == old_out[i]);
                }
            }
            assert forall|i: int, j: int| 0 <= i < j < out.len() implies (#[trigger] out@[i]).0
                <= (#[trigger] out@[j]).0 by {
                assert(out@[i] == old_out[i] || i == old_out.len());
                if j == old_out.len() {
                    assert(out@[j] == old_rest[m as int]);
                    assert(out@[i] == old_out[i]);
                } else {
                    assert(out@[i] == old_out[i]);
                    assert(out@[j] == old_out[j]);
                }
            }
        }
    }
    proof {
        assert(rest@.to_multiset() =~= Multiset::empty());
        assert(out@.to_multiset().add(Multiset::empty()) =~= out@.to_multiset());
    }
    out
}

/// The first down-file of `down_files` for version `v`.
fn find_down_file(down_files: &Vec<String>, v: i64) -> (r: Option<String>)
    ensures
        r == down_file_for(down_files@, v),
{
    let mut i: usize = 0;
    assert(down_files@.subrange(0, down_files.len() as int) =~= down_files@);
    while i < down_files.len()
        invariant
            i <= down_files.len(),
            down_file_for(down_files@.subrange(i as int, down_files.len() as int), v)
                == down_file_for(down_files@, v),
        decreases down_files.len() - i,
    {
        let ghost rest = down_files@.subrange(i as int, down_files.len() as int);
        assert(rest.subrange(1, rest.len() as int) =~= down_files@.subrange(
            i + 1,
            down_files.len() as int,
        ));
        if MigrationManager::extract_version_from_down_file(down_files[i].as_str()) == Some(v) {
            return Some(down_files[i].clone());
        }
        i = i + 1;
    }
    None
}

/// What a rollback does: the reverts to run in order, each a version and its
/// down-file, and the version at which it stopped for want of a down-file.
pub struct RollbackPlan {
    pub steps: Vec<(i64, String)>,
    pub missing: Option<i64>,
}

impl RollbackPlan {
    /// How the rollback ends once its reverts have run: `NotFound` when it
    /// stopped at a version without a down-file, success otherwise.
    pub fn outcome(&self) -> (r: Result<(), Error>)
        ensures
            r is Ok <==> self.missing is None,
            r is Err ==> (r->Err_0 is NotFound && r->Err_0->NotFound_0@ == "down file not found"@),
    {
        if self.missing.is_some() {
            Err(Error::NotFound(String::from_str("down file not found")))
        } else {
            Ok(())
        }
    }
}

/// Where a set of migrations lives: a directory of paired up and down SQL files.
pub struct MigrationManager {
    migrations_dir: String,
}

impl MigrationManager {
    /// The migrations directory.
    pub closed spec fn dir(&self) -> Seq<char> {
        self.migrations_dir@
    }

    /// A manager for the migrations in `migrations_dir`.
    pub fn new(migrations_dir: String) -> (r: Self)
        ensures
            r.dir() == migrations_dir@,
    {
        MigrationManager { migrations_dir }
    }

    /// The migrations directory.
    pub fn migrations_dir(&self) -> (r: &str)
        ensures
            r@ == self.dir(),
    {
        self.migrations_dir.as_str()
    }

    /// The path of a file of the migrations directory: the directory, `/`, the name.
    pub fn migration_file_path(&self, file_name: &str) -> (r: String)
        ensures
            r@ == self.dir() + seq!['/'] + file_name@,
    {
        proof {
            reveal_strlit("/");
        }
        let dir_slash = concat_str(self.migrations_dir.as_str(), "/");
        concat_str(dir_slash.as_str(), file_name)
    }

    /// The up-migration files among the names of the directory's regular files,
    /// in ascending lexicographic order.
    pub fn extract_up_migration_files(&self, file_names: &Vec<String>) -> (r: Vec<String>)
        ensures
            r@.to_multiset() == names_with_suffix(file_names@, up_suffix()).to_multiset(),
            names_ascending(r@),
    {
        let ups = select_with_suffix(file_names, up_suffix_str());
        sort_names(ups)
    }

    /// The down-migration files among the names of the directory's regular files,
    /// in descending lexicographic order.
    pub fn extract_down_migration_files(&self, file_names: &Vec<String>) -> (r: Vec<String>)
        ensures
            r@.to_multiset() == names_with_suffix(file_names@, down_suffix()).to_multiset(),
            names_descending(r@),
    {
        let downs = select_with_suffix(file_names, down_suffix_str());
        let mut asc = sort_names(downs);
        let ghost sorted = asc@;
        let mut out: Vec<String> = Vec::new();
        while asc.len() > 0
            invariant
                asc@ == sorted.subrange(0, asc.len() as int),
                asc.len() <= sorted.len(),
                out@ == sorted.subrange(asc.len() as int, sorted.len() as int).reverse(),
                names_ascending(sorted),
            decreases asc.len(),
        {
            let ghost n = asc.len();
            let x = asc.pop().unwrap();
            out.push(x);
            assert(out@ =~= sorted.subrange(n - 1, sorted.len() as int).reverse());
            assert(asc@ =~= sorted.subrange(0, n - 1));
        }
        proof {
            assert(sorted.subrange(0, sorted.len() as int) =~= sorted);
            sorted.lemma_reverse_to_multiset();
            assert forall|i: int, j: int| 0 <= i < j < out.len() implies lex_le(
                #[trigger] out@[j]@,
                #[trigger] out@[i]@,
            ) by {
                assert(out@[i] == sorted[sorted.len() - 1 - i]);
                assert(out@[j] == sorted[sorted.len() - 1 - j]);
            }
        }
        out
    }

    /// The version of an up-migration file name, if its prefix reads as one.
    pub fn extract_version_from_up_file(filename: &str) -> (r: Option<i64>)
        ensures
            r == up_version(filename@),
    {
        version_from_name(filename, up_suffix_str())
    }

    /// The version of a down-migration file name, if its prefix reads as one.
    pub fn extract_version_from_down_file(filename: &str) -> (r: Option<i64>)
        ensures
            r == down_version(filename@),
    {
        version_from_name(filename, down_suffix_str())
    }
    /// The down-file name paired with an up-file name (every `.up.sql` replaced
    /// by `.down.sql`), if the directory's file names hold it.
    pub fn find_down_file_for_up(&self, up_filename: &str, file_names: &Vec<String>) -> (r:
        Option<String>)
        ensures
            match r {
                Some(name) => name@ == replace_all(up_filename@, up_suffix(), down_suffix())
                    && exists|i: int|
                    0 <= i < file_names.len() && (#[trigger] file_names@[i])@ == name@,
                None => forall|i: int|
                    0 <= i < file_names.len() ==> (#[trigger] file_names@[i])@ != replace_all(
                        up_filename@,
                        up_suffix(),
                        down_suffix(),
                    ),
            },
    {
        let down_name = replace_str(up_filename, up_suffix_str(), down_suffix_str());
        if contains_name(file_names, &down_name) {
            Some(down_name)
        } else {
            None
        }
    }

    /// The pending up-migrations: each up-file whose version reads and is not
    /// applied, with its version, in ascending order of version.
    pub fn find_pending_up_migrations(&self, up_files: &Vec<String>, applied: &Vec<i64>) -> (r:
        Vec<(i64, String)>)
        ensures
            r@.to_multiset() == pending_spec(up_files@, applied@).to_multiset(),
            r@.len() == pending_spec(up_files@, applied@).len(),
            versions_ascending(r@),
    {
        let mut candidates: Vec<(i64, String)> = Vec::new();
        let mut i: usize = 0;
        while i < up_files.len()
            invariant
                i <= up_files.len(),
                candidates@ == pending_spec(up_files@.subrange(0, i as int), applied@),
            decreases up_files.len() - i,
        {
            proof {
                assert(up_files@.subrange(0, i + 1).drop_last() =~= up_files@.subrange(
                    0,
                    i as int,
                ));
            }
            match Self::extract_version_from_up_file(up_files[i].as_str()) {
                Some(v) => {
                    if !contains_version(applied, v) {
                        candidates.push((v, up_files[i].clone()));
                    }
                },
                None => {},
            }
            i = i + 1;
        }
        assert(up_files@.subrange(0, up_files.len() as int) =~= up_files@);
        let r = sort_by_version(candidates);
        proof {
            r@.to_multiset_ensures();
            pending_spec(up_files@, applied@).to_multiset_ensures();
        }
        r
    }
    /// Plans a rollback to `target_version`. `applied` lists the applied versions
    /// in ascending order, as the tracking table gives them; the plan takes those
    /// above the target in the reverse order, each with its down-file among
    /// `down_files` (the first whose version matches), and stops at the first
    /// version that has none.
    pub fn rollback_to(target_version: i64, applied: &Vec<i64>, down_files: &Vec<String>) -> (r:
        RollbackPlan)
        ensures
            r.steps@ == rollback_plan_steps(applied@, target_version, down_files@),
            r.missing == rollback_plan_missing(applied@, target_version, down_files@),
    {
        let ghost vs = rollback_versions(applied@, target_version);
        let mut steps: Vec<(i64, String)> = Vec::new();
        let mut i: usize = applied.len();
        assert(applied@.subrange(0, i as int) =~= applied@);
        while i > 0
            invariant
                i <= applied.len(),
                vs == rollback_versions(applied@, target_version),
                steps@ + rollback_steps(
                    rollback_versions(applied@.subrange(0, i as int), target_version),
                    down_files@,
                ) == rollback_steps(vs, down_files@),
                rollback_missing(
                    rollback_versions(applied@.subrange(0, i as int), target_version),
                    down_files@,
                ) == rollback_missing(vs, down_files@),
            decreases i,
        {
            let v = applied[i - 1];
            let ghost w = rollback_versions(applied@.subrange(0, i - 1), target_version);
            assert(applied@.subrange(0, i as int).drop_last() =~= applied@.subrange(0, i - 1));
            if v > target_version {
                let ghost cur = seq![v] + w;
                assert(cur.subrange(1, cur.len() as int) =~= w);
                match find_down_file(down_files, v) {
                    Some(f) => {
                        let ghost old_steps = steps@;
                        steps.push((v, f));
                        assert(steps@ + rollback_steps(w, down_files@) =~= old_steps + rollback_steps(
                            cur,
                            down_files@,
                        ));
                    },
                    None => {
                        assert(steps@ =~= steps@ + rollback_steps(cur, down_files@));
                        return RollbackPlan { steps, missing: Some(v) };
                    },
                }
            }
            i = i - 1;
        }
        assert(steps@ =~= steps@ + rollback_steps(Seq::empty(), down_files@));
        RollbackPlan { steps, missing: None }
    }
}

} // verus!
