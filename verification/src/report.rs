//! Reports of started and finished tasks, and the decisions that turn the outcomes
//! of a group's items into the group's own report.
use vstd::prelude::*;

use chrono::NaiveDateTime;

use crate::text::same_text;


verus! {

/// A point in time (in UTC), carried as it is.
#[verifier::external_type_specification]
#[verifier::external_body]
pub struct ExNaiveDateTime(chrono::NaiveDateTime);

/// A span of time, carried as it is.
#[verifier::external_type_specification]
#[verifier::external_body]
pub struct ExTimeDelta(chrono::TimeDelta);

/// The outcome of a task as the tree display shows it: it succeeded or it failed.
#[derive(Debug)]
pub enum SimpleReport {
    Success { id: String, time: NaiveDateTime },
    Failure { id: String, time: NaiveDateTime },
}

/// What happened to a task or a group of tasks.
#[derive(Debug)]
pub enum Report {
    Started { id: String, time: NaiveDateTime },
    GroupStarted { id: String, time: NaiveDateTime },
    End { id: String, time: NaiveDateTime, dur: chrono::Duration },
    EndGroup { id: String, reports: Vec<Result<Report, Report>>, time: NaiveDateTime, dur: chrono::Duration },
    Error { id: String, time: NaiveDateTime, dur: chrono::Duration },
    ErrorGroup { id: String, reports: Vec<Result<Report, Report>>, time: NaiveDateTime, dur: chrono::Duration },
}

/// The value of a report: its kind, id, times and nested outcomes.
pub enum ReportView {
    Started { id: Seq<char>, time: NaiveDateTime },
    GroupStarted { id: Seq<char>, time: NaiveDateTime },
    End { id: Seq<char>, time: NaiveDateTime, dur: chrono::Duration },
    EndGroup { id: Seq<char>, reports: Seq<OutcomeView>, time: NaiveDateTime, dur: chrono::Duration },
    Error { id: Seq<char>, time: NaiveDateTime, dur: chrono::Duration },
    ErrorGroup { id: Seq<char>, reports: Seq<OutcomeView>, time: NaiveDateTime, dur: chrono::Duration },
}

/// The value of an outcome: whether it went well, and its report.
pub struct OutcomeView {
    pub ok: bool,
    pub report: ReportView,
}

/// The value of a report.
pub open spec fn report_view(r: Report) -> ReportView
    decreases r,
{
    match r {
        Report::Started { id, time } => ReportView::Started { id: id@, time },
        Report::GroupStarted { id, time } => ReportView::GroupStarted { id: id@, time },
        Report::End { id, time, dur } => ReportView::End { id: id@, time, dur },
        Report::EndGroup { id, reports, time, dur } => ReportView::EndGroup {
            id: id@,
            reports: outcome_views(reports@),
            time,
            dur,
        },
        Report::Error { id, time, dur } => ReportView::Error { id: id@, time, dur },
        Report::ErrorGroup { id, reports, time, dur } => ReportView::ErrorGroup {
            id: id@,
            reports: outcome_views(reports@),
            time,
            dur,
        },
    }
}

/// The values of a list of outcomes.
pub open spec fn outcome_views(rs: Seq<Result<Report, Report>>) -> Seq<OutcomeView>
    decreases rs,
{
    if rs.len() == 0 {
        seq![]
    } else {
        outcome_views(rs.subrange(0, rs.len() - 1)).push(
            match rs[rs.len() - 1] {
                Ok(r) => OutcomeView { ok: true, report: report_view(r) },
                Err(r) => OutcomeView { ok: false, report: report_view(r) },
            },
        )
    }
}

impl View for Report {
    type V = ReportView;

    open spec fn view(&self) -> ReportView {
        report_view(*self)
    }
}

/// The value of one outcome.
pub open spec fn outcome_view(o: Result<Report, Report>) -> OutcomeView {
    match o {
        Ok(r) => OutcomeView { ok: true, report: r@ },
        Err(r) => OutcomeView { ok: false, report: r@ },
    }
}

/// `outcome_views` keeps the length and maps each outcome to its value.
pub proof fn lemma_outcome_views(rs: Seq<Result<Report, Report>>)
    ensures
        outcome_views(rs).len() == rs.len(),
        forall|i: int| 0 <= i < rs.len() ==> #[trigger] outcome_views(rs)[i] == outcome_view(rs[i]),
    decreases rs.len(),
{
    if rs.len() > 0 {
        lemma_outcome_views(rs.subrange(0, rs.len() - 1));
    }
}

/// The id a report is about.
pub open spec fn view_id(r: ReportView) -> Seq<char> {
    match r {
        ReportView::Started { id, .. } => id,
        ReportView::GroupStarted { id, .. } => id,
        ReportView::End { id, .. } => id,
        ReportView::EndGroup { id, .. } => id,
        ReportView::Error { id, .. } => id,
        ReportView::ErrorGroup { id, .. } => id,
    }
}

/// A report followed by the reports nested in it, depth first, in order.
pub open spec fn flat(r: ReportView) -> Seq<ReportView>
    decreases r,
{
    match r {
        ReportView::EndGroup { reports, .. } => seq![r] + flat_outcomes(reports),
        ReportView::ErrorGroup { reports, .. } => seq![r] + flat_outcomes(reports),
        _ => seq![r],
    }
}

/// The flattenings of the reports of a list of outcomes, one after the other.
pub open spec fn flat_outcomes(rs: Seq<OutcomeView>) -> Seq<ReportView>
    decreases rs,
{
    if rs.len() == 0 {
        seq![]
    } else {
        flat_outcomes(rs.subrange(0, rs.len() - 1)) + flat(rs[rs.len() - 1].report)
    }
}

/// The values of a list of reports.
pub open spec fn report_views(v: Seq<Report>) -> Seq<ReportView> {
    v.map_values(|r: Report| r@)
}

fn copy_outcomes(rs: &Vec<Result<Report, Report>>) -> (out: Vec<Result<Report, Report>>)
    ensures
        outcome_views(out@) == outcome_views(rs@),
    decreases rs, 0nat,
{
    proof {
        lemma_outcome_views(rs@);
    }
    let mut out: Vec<Result<Report, Report>> = Vec::new();
    for i in 0..rs.len()
        invariant
            out@.len() == i,
            outcome_views(rs@).len() == rs@.len(),
            forall|j: int| 0 <= j < rs@.len() ==> #[trigger] outcome_views(rs@)[j] == outcome_view(rs@[j]),
            forall|j: int| 0 <= j < i ==> outcome_view(#[trigger] out@[j]) == outcome_view(rs@[j]),
    {
        let o = match &rs[i] {
            Ok(r) => Ok(r.duplicate()),
            Err(r) => Err(r.duplicate()),
        };
        out.push(o);
    }
    proof {
        lemma_outcome_views(out@);
        assert(outcome_views(out@) == outcome_views(rs@));
    }
    out
}

fn collect_outcomes(rs: &Vec<Result<Report, Report>>, target: &mut Vec<Report>)
    ensures
        report_views(final(target)@) == report_views(old(target)@) + flat_outcomes(outcome_views(rs@)),
    decreases rs, 0nat,
{
    proof {
        lemma_outcome_views(rs@);
    }
    let ghost start = report_views(target@);
    for i in 0..rs.len()
        invariant
            outcome_views(rs@).len() == rs@.len(),
            forall|j: int| 0 <= j < rs@.len() ==> #[trigger] outcome_views(rs@)[j] == outcome_view(rs@[j]),
            report_views(target@) == start + flat_outcomes(outcome_views(rs@).take(i as int)),
    {
        match &rs[i] {
            Ok(r) => collect_vec(r, target),
            Err(r) => collect_vec(r, target),
        }
        assert(outcome_views(rs@).take(i + 1).subrange(0, i as int) == outcome_views(rs@).take(i as int));
    }
    assert(outcome_views(rs@).take(rs.len() as int) == outcome_views(rs@));
}

fn collect_vec(report: &Report, target: &mut Vec<Report>)
    ensures
        report_views(final(target)@) == report_views(old(target)@) + flat(report@),
    decreases report, 1nat,
{
    let ghost start = target@;
    target.push(report.duplicate());
    assert(report_views(target@) == report_views(start).push(report@));
    match report {
        Report::EndGroup { reports, .. } => collect_outcomes(reports, target),
        Report::ErrorGroup { reports, .. } => collect_outcomes(reports, target),
        _ => {},
    }
}

impl Report {
    /// A copy of this report.
    pub fn duplicate(&self) -> (r: Report)
        ensures
            r@ == self@,
        decreases self, 1nat,
    {
        match self {
            Report::Started { id, time } => Report::Started { id: id.clone(), time: *time },
            Report::GroupStarted { id, time } => Report::GroupStarted { id: id.clone(), time: *time },
            Report::End { id, time, dur } => Report::End { id: id.clone(), time: *time, dur: *dur },
            Report::EndGroup { id, reports, time, dur } => Report::EndGroup {
                id: id.clone(),
                reports: copy_outcomes(reports),
                time: *time,
                dur: *dur,
            },
            Report::Error { id, time, dur } => Report::Error { id: id.clone(), time: *time, dur: *dur },
            Report::ErrorGroup { id, reports, time, dur } => Report::ErrorGroup {
                id: id.clone(),
                reports: copy_outcomes(reports),
                time: *time,
                dur: *dur,
            },
        }
    }

    /// This report and every report nested in it, depth first.
    pub fn flatten(&self) -> (v: Vec<Report>)
        ensures
            report_views(v@) == flat(self@),
    {
        let mut output: Vec<Report> = Vec::new();
        collect_vec(self, &mut output);
        output
    }

    /// The id this report is about.
    pub fn id(&self) -> (s: String)
        ensures
            s@ == view_id(self@),
    {
        match self {
            Report::Started { id, .. } => id.clone(),
            Report::GroupStarted { id, .. } => id.clone(),
            Report::End { id, .. } => id.clone(),
            Report::EndGroup { id, .. } => id.clone(),
            Report::Error { id, .. } => id.clone(),
            Report::ErrorGroup { id, .. } => id.clone(),
        }
    }
}

/// Whether a report marks the start of a task or group.
pub open spec fn is_start(r: ReportView) -> bool {
    r is Started || r is GroupStarted
}

/// Whether a report marks the end of a task or group, well or badly.
pub open spec fn is_end(r: ReportView) -> bool {
    r is End || r is EndGroup || r is Error || r is ErrorGroup
}

/// Whether a report marks a failure.
pub open spec fn is_failure(r: ReportView) -> bool {
    r is Error || r is ErrorGroup
}

/// The time of a report.
pub open spec fn view_time(r: ReportView) -> NaiveDateTime {
    match r {
        ReportView::Started { time, .. } => time,
        ReportView::GroupStarted { time, .. } => time,
        ReportView::End { time, .. } => time,
        ReportView::EndGroup { time, .. } => time,
        ReportView::Error { time, .. } => time,
        ReportView::ErrorGroup { time, .. } => time,
    }
}

/// The time of the first start report (if `start`) or end report (if not) about `id`.
pub open spec fn first_time(v: Seq<ReportView>, id: Seq<char>, start: bool) -> Option<NaiveDateTime>
    decreases v.len(),
{
    if v.len() == 0 {
        None
    } else if (if start { is_start(v[0]) } else { is_end(v[0]) }) && view_id(v[0]) == id {
        Some(view_time(v[0]))
    } else {
        first_time(v.skip(1), id, start)
    }
}

fn report_time(r: &Report) -> (t: NaiveDateTime)
    ensures
        t == view_time(r@),
{
    match r {
        Report::Started { time, .. } => *time,
        Report::GroupStarted { time, .. } => *time,
        Report::End { time, .. } => *time,
        Report::EndGroup { time, .. } => *time,
        Report::Error { time, .. } => *time,
        Report::ErrorGroup { time, .. } => *time,
    }
}

fn report_is_start(r: &Report) -> (b: bool)
    ensures
        b == is_start(r@),
{
    match r {
        Report::Started { .. } | Report::GroupStarted { .. } => true,
        _ => false,
    }
}

proof fn lemma_first_time(v: Seq<ReportView>, id: Seq<char>, start: bool, k: int)
    requires
        0 <= k <= v.len(),
        forall|j: int| 0 <= j < k ==> !((if start { is_start(#[trigger] v[j]) } else { is_end(v[j]) }) && view_id(v[j]) == id),
    ensures
        first_time(v, id, start) == first_time(v.skip(k), id, start),
    decreases k,
{
    if k > 0 {
        let w = v.skip(1);
        assert forall|j: int| 0 <= j < k - 1 implies !((if start { is_start(#[trigger] w[j]) } else { is_end(w[j]) }) && view_id(w[j]) == id) by {
            assert(w[j] == v[j + 1]);
        }
        lemma_first_time(w, id, start, k - 1);
        assert(w.skip(k - 1) == v.skip(k));
        assert(!((if start { is_start(v[0]) } else { is_end(v[0]) }) && view_id(v[0]) == id));
    } else {
        assert(v.skip(0) == v);
    }
}

fn find_time(match_id: &str, reports: &Vec<Report>, start: bool) -> (t: Option<NaiveDateTime>)
    ensures
        t == first_time(report_views(reports@), match_id@, start),
{
    let ghost v = report_views(reports@);
    for i in 0..reports.len()
        invariant
            v == report_views(reports@),
            forall|j: int| 0 <= j < i ==> !((if start { is_start(#[trigger] v[j]) } else { is_end(v[j]) }) && view_id(v[j]) == match_id@),
    {
        let r = &reports[i];
        let kind_matches = if start { report_is_start(r) } else { !report_is_start(r) };
        if kind_matches {
            let id = r.id();
            if same_text(id.as_str(), match_id) {
                proof {
                    lemma_first_time(v, match_id@, start, i as int);
                    assert(v.skip(i as int)[0] == v[i as int]);
                }
                return Some(report_time(r));
            }
        }
    }
    proof {
        lemma_first_time(v, match_id@, start, v.len() as int);
    }
    None
}

/// The start time found for `id` is that of the first report, among `v`, that says
/// `id` started, a task (`Started`) or a group (`GroupStarted`) alike, and there is
/// none exactly when no report says so. The end time found is that of the first
/// report that says `id` ended, well or badly, alone or as a group (`End`, `EndGroup`,
/// `Error`, `ErrorGroup`), and there is none exactly when no report says so.
pub proof fn law_times_come_from_first_start_and_end(v: Seq<ReportView>, id: Seq<char>)
    ensures
        forall|k: int|
            0 <= k < v.len() && (v[k] is Started || v[k] is GroupStarted) && view_id(#[trigger] v[k]) == id
                && (forall|j: int| 0 <= j < k ==> !((v[j] is Started || v[j] is GroupStarted) && view_id(v[j]) == id))
                ==> first_time(v, id, true) == Some(view_time(v[k])),
        (forall|j: int| 0 <= j < v.len() ==> !((v[j] is Started || v[j] is GroupStarted) && view_id(v[j]) == id))
            ==> first_time(v, id, true) is None,
        forall|k: int|
            0 <= k < v.len() && (v[k] is End || v[k] is EndGroup || v[k] is Error || v[k] is ErrorGroup) && view_id(#[trigger] v[k]) == id
                && (forall|j: int| 0 <= j < k ==> !((v[j] is End || v[j] is EndGroup || v[j] is Error || v[j] is ErrorGroup) && view_id(v[j]) == id))
                ==> first_time(v, id, false) == Some(view_time(v[k])),
        (forall|j: int| 0 <= j < v.len() ==> !((v[j] is End || v[j] is EndGroup || v[j] is Error || v[j] is ErrorGroup) && view_id(v[j]) == id))
            ==> first_time(v, id, false) is None,
{
    assert forall|k: int|
        0 <= k < v.len() && (v[k] is Started || v[k] is GroupStarted) && view_id(#[trigger] v[k]) == id
            && (forall|j: int| 0 <= j < k ==> !((v[j] is Started || v[j] is GroupStarted) && view_id(v[j]) == id))
            implies first_time(v, id, true) == Some(view_time(v[k])) by {
        lemma_first_time(v, id, true, k);
        assert(v.skip(k)[0] == v[k]);
    }
    if forall|j: int| 0 <= j < v.len() ==> !((v[j] is Started || v[j] is GroupStarted) && view_id(v[j]) == id) {
        lemma_first_time(v, id, true, v.len() as int);
    }
    assert forall|k: int|
        0 <= k < v.len() && (v[k] is End || v[k] is EndGroup || v[k] is Error || v[k] is ErrorGroup) && view_id(#[trigger] v[k]) == id
            && (forall|j: int| 0 <= j < k ==> !((v[j] is End || v[j] is EndGroup || v[j] is Error || v[j] is ErrorGroup) && view_id(v[j]) == id))
            implies first_time(v, id, false) == Some(view_time(v[k])) by {
        lemma_first_time(v, id, false, k);
        assert(v.skip(k)[0] == v[k]);
    }
    if forall|j: int| 0 <= j < v.len() ==> !((v[j] is End || v[j] is EndGroup || v[j] is Error || v[j] is ErrorGroup) && view_id(v[j]) == id) {
        lemma_first_time(v, id, false, v.len() as int);
    }
}

/// The time of the first report that `match_id` started, and of the first that it
/// ended (well or badly).
pub fn start_and_end_times(match_id: &str, reports: &Vec<Report>) -> (r: (Option<NaiveDateTime>, Option<NaiveDateTime>))
    ensures
        r.0 == first_time(report_views(reports@), match_id@, true),
        r.1 == first_time(report_views(reports@), match_id@, false),
{
    (find_time(match_id, reports, true), find_time(match_id, reports, false))
}

/// A finished report as an outcome: `Err` for a failure, else `Ok`.
pub fn report_wrap(report: Report) -> (r: Result<Report, Report>)
    ensures
        r == if is_failure(report@) { Err::<Report, Report>(report) } else { Ok(report) },
{
    match report {
        Report::Error { .. } | Report::ErrorGroup { .. } => Err(report),
        _ => Ok(report),
    }
}

/// The report of a finished task: `End` when it succeeded, else `Error`.
pub fn finished_report(id: String, success: bool, time: NaiveDateTime, dur: chrono::Duration) -> (r: Report)
    ensures
        r == if success { Report::End { id, time, dur } } else { Report::Error { id, time, dur } },
{
    if success {
        Report::End { id, time, dur }
    } else {
        Report::Error { id, time, dur }
    }
}

/// Whether every outcome went well.
pub open spec fn all_ok(rs: Seq<Result<Report, Report>>) -> bool {
    forall|i: int| 0 <= i < rs.len() ==> #[trigger] rs[i] is Ok
}

/// The outcome of a group from those of its items: `EndGroup` when all went well,
/// else `ErrorGroup`.
pub fn group_report(id: String, reports: Vec<Result<Report, Report>>, time: NaiveDateTime, dur: chrono::Duration) -> (r: Result<Report, Report>)
    ensures
        r == if all_ok(reports@) {
            Ok::<Report, Report>(Report::EndGroup { id, reports, time, dur })
        } else {
            Err(Report::ErrorGroup { id, reports, time, dur })
        },
{
    let mut all_valid = true;
    for i in 0..reports.len()
        invariant
            all_valid == forall|j: int| 0 <= j < i ==> #[trigger] reports@[j] is Ok,
    {
        let ok = match &reports[i] {
            Ok(_) => true,
            Err(_) => false,
        };
        if !ok {
            all_valid = false;
        }
    }
    if all_valid {
        Ok(Report::EndGroup { id, reports, time, dur })
    } else {
        Err(Report::ErrorGroup { id, reports, time, dur })
    }
}

/// Records the outcome of one item of a group run in series, and says whether the
/// next item is to run: only after an item that went well. A run that failed to
/// report counts as a failure.
pub fn record_step(results: &mut Vec<Result<Report, Report>>, outcome: Result<Result<Report, Report>, Report>) -> (go_on: bool)
    ensures
        final(results)@ == old(results)@.push(recorded(outcome)),
        go_on == (outcome matches Ok(Ok(_))),
{
    match outcome {
        Ok(Ok(s)) => {
            results.push(Ok(s));
            true
        },
        Ok(Err(s)) => {
            results.push(Err(s));
            false
        },
        Err(e) => {
            results.push(Err(e));
            false
        },
    }
}

/// The outcome `record_step` records for what one item's run gave.
pub open spec fn recorded(outcome: Result<Result<Report, Report>, Report>) -> Result<Report, Report> {
    match outcome {
        Ok(o) => o,
        Err(e) => Err(e),
    }
}

/// A group run in series stops at its first failure: while every recorded outcome
/// went well, the next one keeps them all well exactly when `record_step` says to go
/// on. So the group's report (`group_report`) is `EndGroup` exactly when every step
/// said to go on.
pub proof fn law_series_stops_at_first_failure(
    results: Seq<Result<Report, Report>>,
    outcome: Result<Result<Report, Report>, Report>,
)
    requires
        all_ok(results),
    ensures
        all_ok(results.push(recorded(outcome))) <==> (outcome matches Ok(Ok(_))),
{
    let r = results.push(recorded(outcome));
    assert(r[results.len() as int] == recorded(outcome));
    if outcome matches Ok(Ok(_)) {
        assert forall|i: int| 0 <= i < r.len() implies #[trigger] r[i] is Ok by {
            if i < results.len() {
                assert(r[i] == results[i]);
            }
        }
    }
}

/// The number of reports in a report's tree: the report itself and, for a group, every
/// report nested in its outcomes, whether they went well or not.
pub open spec fn report_count(r: ReportView) -> nat
    decreases r,
{
    match r {
        ReportView::EndGroup { reports, .. } => 1 + outcomes_count(reports),
        ReportView::ErrorGroup { reports, .. } => 1 + outcomes_count(reports),
        _ => 1,
    }
}

/// The number of reports in the trees of a list of outcomes.
pub open spec fn outcomes_count(rs: Seq<OutcomeView>) -> nat
    decreases rs,
{
    if rs.len() == 0 {
        0
    } else {
        outcomes_count(rs.subrange(0, rs.len() - 1)) + report_count(rs[rs.len() - 1].report)
    }
}

proof fn lemma_flat_count(r: ReportView)
    ensures
        flat(r).len() == report_count(r),
    decreases r,
{
    match r {
        ReportView::EndGroup { reports, .. } => lemma_flat_outcomes_count(reports),
        ReportView::ErrorGroup { reports, .. } => lemma_flat_outcomes_count(reports),
        _ => {},
    }
}

proof fn lemma_flat_outcomes_count(rs: Seq<OutcomeView>)
    ensures
        flat_outcomes(rs).len() == outcomes_count(rs),
    decreases rs,
{
    if rs.len() > 0 {
        lemma_flat_outcomes_count(rs.subrange(0, rs.len() - 1));
        lemma_flat_count(rs[rs.len() - 1].report);
    }
}

proof fn lemma_flat_outcomes_holds(rs: Seq<OutcomeView>, i: int, x: ReportView)
    requires
        0 <= i < rs.len(),
        flat(rs[i].report).contains(x),
    ensures
        flat_outcomes(rs).contains(x),
    decreases rs,
{
    let init = rs.subrange(0, rs.len() - 1);
    let a = flat_outcomes(init);
    let b = flat(rs[rs.len() - 1].report);
    assert(flat_outcomes(rs) == a + b);
    if i < rs.len() - 1 {
        assert(init[i] == rs[i]);
        lemma_flat_outcomes_holds(init, i, x);
        let k = choose|k: int| 0 <= k < a.len() && a[k] == x;
        assert((a + b)[k] == x);
    } else {
        let k = choose|k: int| 0 <= k < b.len() && b[k] == x;
        assert((a + b)[a.len() + k] == x);
    }
}

/// The outcomes nested in a group report; none for any other report.
pub open spec fn nested_outcomes(r: ReportView) -> Seq<OutcomeView> {
    match r {
        ReportView::EndGroup { reports, .. } => reports,
        ReportView::ErrorGroup { reports, .. } => reports,
        _ => seq![],
    }
}

/// Flattening lists every report of the tree, at any depth: the group itself first,
/// then, for each of its outcomes, whether it went well or not, every report of that
/// outcome's own flattening; and nothing more, so the list is as long as the tree has
/// reports.
pub proof fn law_flatten_lists_every_nested_report(r: ReportView)
    ensures
        flat(r).len() == report_count(r),
        flat(r)[0] == r,
        forall|i: int, x: ReportView|
            0 <= i < nested_outcomes(r).len() && #[trigger] flat(nested_outcomes(r)[i].report).contains(x) ==> flat(r).contains(x),
{
    lemma_flat_count(r);
    let rs = nested_outcomes(r);
    assert forall|i: int, x: ReportView|
        0 <= i < rs.len() && #[trigger] flat(nested_outcomes(r)[i].report).contains(x) implies flat(r).contains(x) by {
        lemma_flat_outcomes_holds(rs, i, x);
        let f = flat_outcomes(rs);
        let k = choose|k: int| 0 <= k < f.len() && f[k] == x;
        assert(flat(r) == seq![r] + f);
        assert(flat(r)[k + 1] == x);
    }
}

/// Flattening a report lists the report itself first.
pub proof fn law_flatten_starts_with_report(r: ReportView)
    ensures
        flat(r).len() >= 1,
        flat(r)[0] == r,
{
}

/// The outcomes of a group run in parallel: those of its items, or the single
/// failure that stopped their collection.
pub fn parallel_outcomes(collected: Result<Vec<Result<Report, Report>>, Report>) -> (r: Vec<Result<Report, Report>>)
    ensures
        r@ == match collected {
            Ok(items) => items@,
            Err(e) => seq![Err(e)],
        },
{
    match collected {
        Ok(items) => items,
        Err(e) => {
            let mut v: Vec<Result<Report, Report>> = Vec::new();
            v.push(Err(e));
            v
        },
    }
}

} // verus!
