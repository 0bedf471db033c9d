//! "Check for updates" of imported skills: run only on request and never
//! written without confirmation. A check reports, per source, what an import
//! would add or overwrite, judged file by file; this module turns the planning
//! outcomes into the report.
use crate::skill::import::{
    count_actionable, import_error_message, FileChange, FileDiff, ImportError, ImportReport, SkillImportPlan,
};
use crate::skill::source::{SourceRecord, SpecSourceRecord};
use crate::text::{chars_string, decimal, decimal_vec, opt_view, push_all, push_str, str_chars};
use vstd::prelude::*;

verus! {

/// The check of one source.
#[derive(Debug, Clone)]
pub struct SourceCheck {
    pub url: String,
    /// The commit recorded at import time
    pub recorded_commit: Option<String>,
    /// The commit the repository has now
    pub remote_commit: Option<String>,
    /// Whether the commit moved (a hint only; the file diffs decide)
    pub commit_changed: bool,
    pub plans: Vec<SkillImportPlan>,
    /// Skills that would be written
    pub actionable_count: usize,
    /// Files kept because only the local copy has them
    pub local_only_count: usize,
    /// Why the check failed (network, unreachable repository...)
    pub error: Option<String>,
}

/// The check of every source.
#[derive(Debug, Clone)]
pub struct UpdateCheckReport {
    pub sources: Vec<SourceCheck>,
    pub actionable_total: usize,
    pub source_count: usize,
    pub message: String,
}

pub open spec fn sum_local_only(ps: Seq<SkillImportPlan>) -> int
    decreases ps.len(),
{
    if ps.len() == 0 {
        0
    } else {
        sum_local_only(ps.drop_last()) + ps.last().local_only
    }
}

/// Whether the commit moved: unknown on either side counts as moved.
pub open spec fn spec_commit_changed(recorded: Option<Seq<char>>, remote: Option<Seq<char>>) -> bool {
    match (recorded, remote) {
        (Some(a), Some(b)) => a != b,
        _ => true,
    }
}

/// The check of one source from the planning report of its repository.
/// `None` when the local-only file total does not fit in `usize`.
pub fn build_check(record: &SourceRecord, report: ImportReport) -> (c: Option<SourceCheck>)
    ensures
        c is None <==> sum_local_only(report.plans@) > usize::MAX,
        c matches Some(ch) ==> {
            &&& ch.url@ == report.url@
            &&& opt_view(ch.recorded_commit) == opt_view(record.commit)
            &&& opt_view(ch.remote_commit) == opt_view(report.commit)
            &&& ch.commit_changed == spec_commit_changed(opt_view(record.commit), opt_view(report.commit))
            &&& ch.plans@ == report.plans@
            &&& ch.actionable_count == count_actionable(report.plans@)
            &&& ch.local_only_count == sum_local_only(report.plans@)
            &&& ch.error is None
        },
{
    let (_importable, actionable) = crate::skill::import::plan_counts(&report.plans);
    let mut local: usize = 0;
    let mut i: usize = 0;
    while i < report.plans.len()
        invariant
            i <= report.plans.len(),
            local == sum_local_only(report.plans@.subrange(0, i as int)),
        decreases report.plans.len() - i,
    {
        assert(report.plans@.subrange(0, i + 1).drop_last() =~= report.plans@.subrange(0, i as int));
        if local > usize::MAX - report.plans[i].local_only {
            proof {
                lemma_sum_local_only_mono(report.plans@, i + 1);
            }
            return None;
        }
        local = local + report.plans[i].local_only;
        i = i + 1;
    }
    assert(report.plans@.subrange(0, report.plans.len() as int) =~= report.plans@);
    let changed = match (&record.commit, &report.commit) {
        (Some(a), Some(b)) => !crate::text::eq_vec(&str_chars(a.as_str()), &str_chars(b.as_str())),
        _ => true,
    };
    Some(
        SourceCheck {
            url: report.url,
            recorded_commit: record.commit.clone(),
            remote_commit: report.commit,
            commit_changed: changed,
            plans: report.plans,
            actionable_count: actionable,
            local_only_count: local,
            error: None,
        },
    )
}

proof fn lemma_sum_local_only_mono(ps: Seq<SkillImportPlan>, k: int)
    requires
        0 <= k <= ps.len(),
    ensures
        sum_local_only(ps) >= sum_local_only(ps.subrange(0, k)),
    decreases ps.len() - k,
{
    if k < ps.len() {
        lemma_sum_local_only_mono(ps, k + 1);
        assert(ps.subrange(0, k + 1).drop_last() =~= ps.subrange(0, k));
    } else {
        assert(ps.subrange(0, k) =~= ps);
    }
}

/// The check of a source whose repository could not be planned.
pub fn failed_check(record: &SourceRecord, error: &ImportError) -> (c: SourceCheck)
    ensures
        c.url@ == record.url@,
        opt_view(c.recorded_commit) == opt_view(record.commit),
        c.remote_commit is None,
        !c.commit_changed,
        c.plans@.len() == 0,
        c.actionable_count == 0,
        c.local_only_count == 0,
        opt_view(c.error) == Some(import_error_message(error)),
{
    SourceCheck {
        url: record.url.clone(),
        recorded_commit: match &record.commit {
            Some(c) => Some(c.clone()),
            None => None,
        },
        remote_commit: None,
        commit_changed: false,
        plans: Vec::new(),
        actionable_count: 0,
        local_only_count: 0,
        error: Some(error.message()),
    }
}

pub open spec fn sum_actionable(v: Seq<SourceCheck>) -> int
    decreases v.len(),
{
    if v.len() == 0 {
        0
    } else {
        sum_actionable(v.drop_last()) + v.last().actionable_count
    }
}

pub open spec fn count_failed(v: Seq<SourceCheck>) -> nat
    decreases v.len(),
{
    if v.len() == 0 {
        0
    } else {
        count_failed(v.drop_last()) + (if v.last().error is Some {
            1nat
        } else {
            0nat
        })
    }
}

pub open spec fn failed_note(failed: nat) -> Seq<char> {
    if failed > 0 {
        "（"@ + decimal(failed) + " 个来源检查失败）"@
    } else {
        Seq::empty()
    }
}

/// The summary line of a check.
pub open spec fn check_message(source_count: nat, checked: nat, actionable: nat, failed: nat) -> Seq<char> {
    if source_count == 0 {
        "尚无已登记来源（通过「从 URL 导入」登记后才可检查更新）"@
    } else if actionable == 0 {
        "已检查 "@ + decimal(checked) + " 个来源，全部为最新"@ + failed_note(failed)
    } else {
        "已检查 "@ + decimal(checked) + " 个来源，"@ + decimal(actionable) + " 个技能有可用更新"@ + failed_note(failed)
    }
}

fn failed_note_vec(failed: usize) -> (v: Vec<char>)
    ensures
        v@ == failed_note(failed as nat),
{
    if failed > 0 {
        let mut v = str_chars("（");
        push_all(&mut v, &decimal_vec(failed));
        push_str(&mut v, " 个来源检查失败）");
        v
    } else {
        Vec::new()
    }
}

/// The report over the checks of the `source_count` registered sources.
/// `None` when the actionable total does not fit in `usize`.
pub fn check_report(results: Vec<SourceCheck>, source_count: usize) -> (r: Option<UpdateCheckReport>)
    ensures
        r is None <==> sum_actionable(results@) > usize::MAX,
        r matches Some(rep) ==> {
            &&& rep.sources@ == results@
            &&& rep.actionable_total == sum_actionable(results@)
            &&& rep.source_count == source_count
            &&& rep.message@ == check_message(
                source_count as nat,
                results.len() as nat,
                rep.actionable_total as nat,
                count_failed(results@),
            )
        },
{
    let mut total: usize = 0;
    let mut failed: usize = 0;
    let mut i: usize = 0;
    while i < results.len()
        invariant
            i <= results.len(),
            total == sum_actionable(results@.subrange(0, i as int)),
            failed == count_failed(results@.subrange(0, i as int)),
            failed <= i,
        decreases results.len() - i,
    {
        assert(results@.subrange(0, i + 1).drop_last() =~= results@.subrange(0, i as int));
        if total > usize::MAX - results[i].actionable_count {
            proof {
                lemma_sum_actionable_mono(results@, i + 1);
            }
            return None;
        }
        total = total + results[i].actionable_count;
        if results[i].error.is_some() {
            failed = failed + 1;
        }
        i = i + 1;
    }
    assert(results@.subrange(0, results.len() as int) =~= results@);
    let m = if source_count == 0 {
        str_chars("尚无已登记来源（通过「从 URL 导入」登记后才可检查更新）")
    } else if total == 0 {
        let mut m = str_chars("已检查 ");
        push_all(&mut m, &decimal_vec(results.len()));
        push_str(&mut m, " 个来源，全部为最新");
        push_all(&mut m, &failed_note_vec(failed));
        m
    } else {
        let mut m = str_chars("已检查 ");
        push_all(&mut m, &decimal_vec(results.len()));
        push_str(&mut m, " 个来源，");
        push_all(&mut m, &decimal_vec(total));
        push_str(&mut m, " 个技能有可用更新");
        push_all(&mut m, &failed_note_vec(failed));
        m
    };
    Some(UpdateCheckReport { sources: results, actionable_total: total, source_count, message: chars_string(m.as_slice()) })
}

proof fn lemma_sum_actionable_mono(v: Seq<SourceCheck>, k: int)
    requires
        0 <= k <= v.len(),
    ensures
        sum_actionable(v) >= sum_actionable(v.subrange(0, k)),
    decreases v.len() - k,
{
    if k < v.len() {
        lemma_sum_actionable_mono(v, k + 1);
        assert(v.subrange(0, k + 1).drop_last() =~= v.subrange(0, k));
    } else {
        assert(v.subrange(0, k) =~= v);
    }
}

/// The record of a source after an applied update: the check time and the
/// number of skills the update wrote; everything else is kept.
pub fn checked_record(record: SourceRecord, now: String, report: &ImportReport) -> (r: SourceRecord)
    ensures
        r@ == (SpecSourceRecord {
            checked_at: Some(now@),
            last_update_count: count_actionable(report.plans@) as usize,
            ..record@
        }),
{
    let (_i, count) = crate::skill::import::plan_counts(&report.plans);
    SourceRecord { checked_at: Some(now), last_update_count: count, ..record }
}

pub open spec fn plan_summary(p: SkillImportPlan) -> Seq<char> {
    "新增 "@ + decimal(p.added as nat) + " / 覆盖 "@ + decimal(p.updated as nat) + " / 相同 "@ + decimal(
        p.same as nat,
    ) + " / 保留本地 "@ + decimal(p.local_only as nat)
}

/// The file counts of one plan.
pub fn summarize_plan(plan: &SkillImportPlan) -> (s: String)
    ensures
        s@ == plan_summary(*plan),
{
    let mut m = str_chars("新增 ");
    push_all(&mut m, &decimal_vec(plan.added));
    push_str(&mut m, " / 覆盖 ");
    push_all(&mut m, &decimal_vec(plan.updated));
    push_str(&mut m, " / 相同 ");
    push_all(&mut m, &decimal_vec(plan.same));
    push_str(&mut m, " / 保留本地 ");
    push_all(&mut m, &decimal_vec(plan.local_only));
    chars_string(m.as_slice())
}

/// Whether a diff writes to disk: only added and updated files do.
pub fn is_write(diff: &FileDiff) -> (b: bool)
    ensures
        b == (diff.change == FileChange::Added || diff.change == FileChange::Updated),
{
    match diff.change {
        FileChange::Added | FileChange::Updated => true,
        _ => false,
    }
}

/// What a source's check counts: the actionable skills of its planning, none for a failure.
pub open spec fn outcome_actionable(o: Result<ImportReport, ImportError>) -> int {
    match o {
        Ok(rep) => count_actionable(rep.plans@) as int,
        Err(_) => 0,
    }
}

pub open spec fn sum_outcomes(os: Seq<Result<ImportReport, ImportError>>) -> int
    decreases os.len(),
{
    if os.len() == 0 {
        0
    } else {
        sum_outcomes(os.drop_last()) + outcome_actionable(os.last())
    }
}

/// Every planning that succeeded counts its local-only files within `usize`.
pub open spec fn local_counts_fit(os: Seq<Result<ImportReport, ImportError>>) -> bool {
    forall|i: int|
        0 <= i < os.len() ==> match #[trigger] os[i] {
            Ok(x) => sum_local_only(x.plans@) <= usize::MAX,
            Err(_) => true,
        }
}

/// Checking every recorded source from what planning each one's repository gave
/// (`outcomes[i]` for `records[i]`): every source is reported, in order; a
/// failure is reported with its error and nothing actionable, and never stops the
/// others; the total is the sum over the sources. The report comes whenever the
/// counts fit in `usize`, and an error names the count that does not.
pub fn check_sources(records: &Vec<SourceRecord>, outcomes: Vec<Result<ImportReport, ImportError>>) -> (r: Result<
    UpdateCheckReport,
    String,
>)
    requires
        outcomes.len() == records.len(),
    ensures
        r is Ok <==> (local_counts_fit(outcomes@) && sum_outcomes(outcomes@) <= usize::MAX),
        !local_counts_fit(outcomes@) ==> (r matches Err(m) && m@ == "本地独有文件计数溢出"@),
        local_counts_fit(outcomes@) && sum_outcomes(outcomes@) > usize::MAX ==> (r matches Err(m) && m@
            == "可更新技能计数溢出"@),
        r matches Ok(rep) ==> {
            &&& rep.source_count == records.len()
            &&& rep.sources.len() == records.len()
            &&& rep.actionable_total == sum_outcomes(outcomes@)
            &&& rep.actionable_total == sum_actionable(rep.sources@)
            &&& rep.message@ == check_message(
                records.len() as nat,
                records.len() as nat,
                rep.actionable_total as nat,
                count_failed(rep.sources@),
            )
            &&& forall|i: int|
                0 <= i < records.len() ==> match #[trigger] outcomes@[i] {
                    Ok(rep_i) => rep.sources@[i].url@ == rep_i.url@ && rep.sources@[i].error is None
                        && rep.sources@[i].actionable_count == count_actionable(rep_i.plans@),
                    Err(e) => rep.sources@[i].url@ == records@[i].url@ && rep.sources@[i].error is Some
                        && rep.sources@[i].actionable_count == 0,
                }
        },
        records.len() == 0 ==> (r matches Ok(rep) && rep.actionable_total == 0 && rep.message@
            == "尚无已登记来源（通过「从 URL 导入」登记后才可检查更新）"@),
{
    let ghost outs = outcomes@;
    let mut rest = outcomes;
    let mut results: Vec<SourceCheck> = Vec::new();
    let mut i: usize = 0;
    while i < records.len()
        invariant
            i <= records.len(),
            outs.len() == records.len(),
            outs == outcomes@,
            results.len() == i,
            rest@ == outs.subrange(i as int, outs.len() as int),
            sum_actionable(results@) == sum_outcomes(outs.subrange(0, i as int)),
            forall|k: int|
                0 <= k < i ==> match #[trigger] outs[k] {
                    Ok(x) => sum_local_only(x.plans@) <= usize::MAX,
                    Err(_) => true,
                },
            forall|k: int|
                0 <= k < i ==> match #[trigger] outs[k] {
                    Ok(rep_k) => results@[k].url@ == rep_k.url@ && results@[k].error is None
                        && results@[k].actionable_count == count_actionable(rep_k.plans@),
                    Err(e) => results@[k].url@ == records@[k].url@ && results@[k].error is Some
                        && results@[k].actionable_count == 0,
                },
        decreases records.len() - i,
    {
        let outcome = rest.remove(0);
        assert(outcome == outs[i as int]);
        let ghost prev = results@;
        let check = match outcome {
            Ok(report) => match build_check(&records[i], report) {
                Some(c) => c,
                None => {
                    assert(!local_counts_fit(outs)) by {
                        assert(match outs[i as int] {
                            Ok(x) => sum_local_only(x.plans@) > usize::MAX,
                            Err(_) => false,
                        });
                    }
                    return Err("本地独有文件计数溢出".to_owned());
                },
            },
            Err(error) => failed_check(&records[i], &error),
        };
        results.push(check);
        assert(results@.drop_last() =~= prev);
        assert(outs.subrange(0, i + 1).drop_last() =~= outs.subrange(0, i as int));
        assert(rest@ =~= outs.subrange(i + 1, outs.len() as int));
        i = i + 1;
    }
    assert(outs.subrange(0, records.len() as int) =~= outs);
    assert(local_counts_fit(outs));
    match check_report(results, records.len()) {
        Some(rep) => Ok(rep),
        None => Err("可更新技能计数溢出".to_owned()),
    }
}

} // verus!
