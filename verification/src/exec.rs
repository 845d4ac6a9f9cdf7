//! The execution engine: runs a task list in order, gating each task on the
//! prior success of labeled tasks, templating its arguments, and producing
//! the exact report lines that the caller prints.
//!
//! Spawning an external process is the caller's business: the engine receives
//! a spawner as a function value and states what holds of the run whatever
//! outcomes that spawner reports.
use vstd::prelude::*;
use vstd::string::*;

use crate::strutil::lex_lt;
use crate::strutil::spec_dec;
use crate::strutil::spec_join_space;
use crate::template::spec_compile;
use crate::template::EnvMap;
use crate::template::TemplateError;
use crate::template::TemplateErrorV;

verus! {

/// One planned invocation of an external program.
#[derive(Clone, Debug)]
pub struct ExecItem {
    /// Optional name; an empty string means unlabeled.  Unlabeled tasks never
    /// satisfy a prerequisite and are excluded from duplicate detection.
    pub label: String,
    /// The executable to invoke (the `exec` field of the configuration document).
    pub program: String,
    /// Arguments, each templated before use.
    pub args: Vec<String>,
    /// Whether to print a status line after execution.
    pub print_status: bool,
    /// Whether to print the captured output after execution.
    pub print_output: bool,
    /// Labels that must all have succeeded earlier for the command to run.
    pub prerequisites: Vec<String>,
}

/// An ordered task list together with the path it was loaded from, kept for
/// diagnostics.
#[derive(Clone, Debug)]
pub struct NansiFile {
    /// The tasks, in execution order.
    pub exec_list: Vec<ExecItem>,
    /// Where the list came from, named in the opening diagnostic line.
    pub file_path: String,
}

/// The outcome class of one task.
#[derive(PartialEq, Eq, Structural, Clone, Copy, Debug)]
pub enum ExecStatus {
    OK,
    ERR,
    WARN,
    SKIP,
}

/// What the spawner reports for one attempted process invocation.
#[derive(Debug)]
pub enum SpawnOutcome {
    /// The process ran to completion; `exit_zero` says whether its exit
    /// status was zero, and both output streams come decoded.
    Completed { exit_zero: bool, stdout: String, stderr: String },
    /// The process could not be started; `error` describes why.
    SpawnFailed { error: String },
    /// The process ran but its captured output was not decodable text.
    Undecodable,
}

/// Per-task record of a run: the outcome class, and the captured output for
/// tasks that were spawned (`None` for skipped tasks).
#[derive(Debug)]
pub struct TaskReport {
    pub status: ExecStatus,
    pub output: Option<String>,
}

/// Ghost form of a `TaskReport`.
pub struct TaskV {
    pub status: ExecStatus,
    pub output: Option<Seq<char>>,
}

impl View for TaskReport {
    type V = TaskV;

    open spec fn view(&self) -> TaskV {
        TaskV {
            status: self.status,
            output: match self.output {
                Option::Some(ref s) => Option::Some(s@),
                Option::None => Option::None,
            },
        }
    }
}

impl DeepView for TaskReport {
    type V = TaskV;

    open spec fn deep_view(&self) -> TaskV {
        self.view()
    }
}

/// One line of the run's report.  The caller prints these in order; status
/// and warning tokens are kept structured so a printer can highlight them.
#[derive(Debug)]
pub enum ReportLine {
    /// A plain diagnostic line.
    Nominal { text: String },
    /// A line to prefix with the `[WARN]` token.
    Warn { text: String },
    /// A task's status line: the token for `status`, then the text.
    Status { status: ExecStatus, text: String },
}

/// Ghost form of a `ReportLine`.
pub enum LineV {
    Nominal { text: Seq<char> },
    Warn { text: Seq<char> },
    Status { status: ExecStatus, text: Seq<char> },
}

impl View for ReportLine {
    type V = LineV;

    open spec fn view(&self) -> LineV {
        match self {
            ReportLine::Nominal { text } => LineV::Nominal { text: text@ },
            ReportLine::Warn { text } => LineV::Warn { text: text@ },
            ReportLine::Status { status, text } => LineV::Status {
                status: *status,
                text: text@,
            },
        }
    }
}

impl DeepView for ReportLine {
    type V = LineV;

    open spec fn deep_view(&self) -> LineV {
        self.view()
    }
}

/// Ghost form of a run-aborting failure's kind.
pub enum ExecErrorV {
    Template { err: TemplateErrorV },
    UndecodableOutput,
}

/// A failure that aborts the whole run: a templating error, or captured
/// process output that was not decodable text.
#[derive(Debug)]
pub enum ExecError {
    Template { err: TemplateError },
    UndecodableOutput,
}

impl View for ExecError {
    type V = ExecErrorV;

    open spec fn view(&self) -> ExecErrorV {
        match self {
            ExecError::Template { err } => ExecErrorV::Template { err: err@ },
            ExecError::UndecodableOutput => ExecErrorV::UndecodableOutput,
        }
    }
}

/// Everything a completed run produced: the report lines in print order, one
/// record per processed task, and the accumulated success-label set.
#[derive(Debug)]
pub struct RunReport {
    pub lines: Vec<ReportLine>,
    pub tasks: Vec<TaskReport>,
    pub succ_labels: Vec<String>,
}

/// An aborted run: what had been produced up to the failing task, and why the
/// run stopped.  The failing task itself contributes no lines.
#[derive(Debug)]
pub struct ExecFailure {
    pub partial: RunReport,
    pub error: ExecError,
}

/// The configuration default for `print_output`: off.
pub fn default_as_false() -> (r: bool)
    ensures
        r == false,
{
    false
}

/// The configuration default for `print_status`: on.
pub fn default_as_true() -> (r: bool)
    ensures
        r == true,
{
    true
}

/// The configuration default for `args` and `prerequisites`: none.
pub fn default_as_empty_vec_string() -> (r: Vec<String>)
    ensures
        r@.len() == 0,
{
    Vec::new()
}

/// The configuration default for `label`: unlabeled.
pub fn default_as_empty_string() -> (r: String)
    ensures
        r@.len() == 0,
{
    String::new()
}

impl ExecItem {
    /// A task for `program` with every other field at its configuration
    /// default.
    pub fn new(program: String) -> (r: ExecItem)
        ensures
            r.label@.len() == 0,
            r.program@ == program@,
            r.args@.len() == 0,
            r.print_status == true,
            r.print_output == false,
            r.prerequisites@.len() == 0,
    {
        ExecItem {
            label: default_as_empty_string(),
            program,
            args: default_as_empty_vec_string(),
            print_status: default_as_true(),
            print_output: default_as_false(),
            prerequisites: default_as_empty_vec_string(),
        }
    }
}

/// Whether every prerequisite label is in the success set.  An empty
/// prerequisite list is always satisfied.
pub open spec fn prereqs_met(prereqs: Seq<Seq<char>>, succ: Seq<Seq<char>>) -> bool {
    forall|i: int| 0 <= i < prereqs.len() ==> succ.contains(prereqs[i])
}

/// How many tasks carry exactly this label.
pub open spec fn count_label(items: Seq<ExecItem>, label: Seq<char>) -> nat
    decreases items.len(),
{
    if items.len() == 0 {
        0
    } else {
        count_label(items.drop_last(), label) + (if items.last().label@ == label {
            1nat
        } else {
            0nat
        })
    }
}

/// The status class a spawn outcome maps to: success exactly on a zero exit.
pub open spec fn spec_status_of(oc: SpawnOutcome) -> ExecStatus {
    match oc {
        SpawnOutcome::Completed { exit_zero, stdout, stderr } => if exit_zero {
            ExecStatus::OK
        } else {
            ExecStatus::ERR
        },
        SpawnOutcome::SpawnFailed { error } => ExecStatus::ERR,
        SpawnOutcome::Undecodable => ExecStatus::ERR,
    }
}

/// The captured output a spawn outcome reports: stdout on success, stderr on
/// a non-zero exit, the error's description on a spawn failure.
pub open spec fn spec_output_of(oc: SpawnOutcome) -> Seq<char> {
    match oc {
        SpawnOutcome::Completed { exit_zero, stdout, stderr } => if exit_zero {
            stdout@
        } else {
            stderr@
        },
        SpawnOutcome::SpawnFailed { error } => error@,
        SpawnOutcome::Undecodable => Seq::empty(),
    }
}

/// The statuses of a sequence of task records.
pub open spec fn statuses_of(reps: Seq<TaskV>) -> Seq<ExecStatus> {
    Seq::new(reps.len(), |i: int| reps[i].status)
}

/// The success-label set after the first `n` tasks: the non-empty label of
/// each succeeding task is appended once, in first-success order.
pub open spec fn succ_after(items: Seq<ExecItem>, sts: Seq<ExecStatus>, n: int) -> Seq<Seq<char>>
    decreases n,
{
    if n <= 0 {
        Seq::empty()
    } else {
        let prev = succ_after(items, sts, n - 1);
        if sts[n - 1] == ExecStatus::OK && items[n - 1].label@.len() > 0 && !prev.contains(
            items[n - 1].label@,
        ) {
            prev.push(items[n - 1].label@)
        } else {
            prev
        }
    }
}

/// Compiles the arguments in order; the first failing argument decides.
pub open spec fn compile_args_spec(
    args: Seq<Seq<char>>,
    env: Seq<(Seq<char>, Seq<char>)>,
) -> Result<Seq<Seq<char>>, TemplateErrorV>
    decreases args.len(),
{
    if args.len() == 0 {
        Result::Ok(Seq::empty())
    } else {
        match compile_args_spec(args.drop_last(), env) {
            Result::Err(e) => Result::Err(e),
            Result::Ok(pre) => match spec_compile(args.last(), env) {
                Result::Err(e) => Result::Err(e),
                Result::Ok(v) => Result::Ok(pre.push(v)),
            },
        }
    }
}

/// What one processed task's record must look like: skipped exactly when its
/// prerequisites are unmet, and otherwise classified from a spawn outcome
/// after its arguments templated successfully.
pub open spec fn step_ok(
    items: Seq<ExecItem>,
    env: Seq<(Seq<char>, Seq<char>)>,
    reps: Seq<TaskV>,
    i: int,
) -> bool {
    let succ = succ_after(items, statuses_of(reps), i);
    if !prereqs_met(items[i].prerequisites.deep_view(), succ) {
        reps[i].status == ExecStatus::SKIP && reps[i].output is None
    } else {
        &&& (reps[i].status == ExecStatus::OK || reps[i].status == ExecStatus::ERR)
        &&& compile_args_spec(items[i].args.deep_view(), env) is Ok
        &&& reps[i].output is Some
    }
}

/// Every processed task's record is consistent with the gating rules.
pub open spec fn run_consistent(
    items: Seq<ExecItem>,
    env: Seq<(Seq<char>, Seq<char>)>,
    reps: Seq<TaskV>,
) -> bool {
    &&& reps.len() <= items.len()
    &&& forall|i: int| 0 <= i < reps.len() ==> step_ok(items, env, reps, i)
}

/// The item reference used in diagnostics: `[<position>][<label>]`, or
/// `[<position>]` for an unlabeled task.  Positions are 1-based.
pub open spec fn spec_item_ref(label: Seq<char>, pos: nat) -> Seq<char> {
    if label.len() == 0 {
        "["@ + spec_dec(pos) + "]"@
    } else {
        "["@ + spec_dec(pos) + "]["@ + label + "]"@
    }
}

/// The body of a task's status line: the item reference, the program, and
/// the space-joined original (untemplated) arguments.
pub open spec fn spec_status_text(item: ExecItem, pos: nat) -> Seq<char> {
    spec_item_ref(item.label@, pos) + " "@ + item.program@ + " "@ + spec_join_space(
        item.args.deep_view(),
    )
}

/// The literal token of a status.
pub open spec fn spec_status_token(s: ExecStatus) -> Seq<char> {
    match s {
        ExecStatus::OK => "OK"@,
        ExecStatus::ERR => "FAIL"@,
        ExecStatus::WARN => "WARN"@,
        ExecStatus::SKIP => "SKIP"@,
    }
}

/// The plain text of one report line, token prefixes included.
pub open spec fn spec_render(l: LineV) -> Seq<char> {
    match l {
        LineV::Nominal { text } => text,
        LineV::Warn { text } => "[WARN] "@ + text,
        LineV::Status { status, text } => "["@ + spec_status_token(status) + "] "@ + text,
    }
}

/// The lines one processed task contributes: its status line when
/// `print_status`, then for a skipped task the unmet-prerequisites
/// diagnostic, and otherwise the captured output when `print_output`.
pub open spec fn task_lines(item: ExecItem, pos: nat, rep: TaskV) -> Seq<LineV> {
    if rep.status == ExecStatus::SKIP {
        (if item.print_status {
            seq![LineV::Status { status: ExecStatus::SKIP, text: spec_status_text(item, pos) }]
        } else {
            Seq::empty()
        }) + seq![
            LineV::Nominal {
                text: "Prerequisites for item "@ + spec_item_ref(item.label@, pos)
                    + " are not met."@,
            },
        ]
    } else {
        (if item.print_status {
            seq![LineV::Status { status: rep.status, text: spec_status_text(item, pos) }]
        } else {
            Seq::empty()
        }) + (if item.print_output {
            seq![LineV::Nominal { text: rep.output->Some_0 }]
        } else {
            Seq::empty()
        })
    }
}

/// The lines of the first `n` processed tasks, in order.
pub open spec fn tasks_lines(items: Seq<ExecItem>, reps: Seq<TaskV>, n: int) -> Seq<LineV>
    decreases n,
{
    if n <= 0 {
        Seq::empty()
    } else {
        tasks_lines(items, reps, n - 1) + task_lines(items[n - 1], n as nat, reps[n - 1])
    }
}

/// `l` placed at its ordered position in `s`; already-present labels are not
/// added again.
pub open spec fn insert_sorted_spec(s: Seq<Seq<char>>, l: Seq<char>) -> Seq<Seq<char>>
    decreases s.len(),
{
    if s.len() == 0 {
        seq![l]
    } else if lex_lt(l, s[0]) {
        seq![l] + s
    } else if s[0] == l {
        s
    } else {
        seq![s[0]] + insert_sorted_spec(s.skip(1), l)
    }
}

/// The sorted list of duplicated non-empty labels among the first `k` tasks
/// (counting occurrences over the whole list).
pub open spec fn dup_list(items: Seq<ExecItem>, k: int) -> Seq<Seq<char>>
    decreases k,
{
    if k <= 0 {
        Seq::empty()
    } else {
        let prev = dup_list(items, k - 1);
        let l = items[k - 1].label@;
        if l.len() > 0 && count_label(items, l) >= 2 {
            insert_sorted_spec(prev, l)
        } else {
            prev
        }
    }
}

/// The duplicated non-empty labels of the whole list, sorted, each once.
pub open spec fn spec_duplicates(items: Seq<ExecItem>) -> Seq<Seq<char>> {
    dup_list(items, items.len() as int)
}

/// The `["a", "b"]`-style rendering of the duplicate labels, without the
/// brackets.
pub open spec fn spec_debug_inner(ls: Seq<Seq<char>>) -> Seq<char>
    decreases ls.len(),
{
    if ls.len() == 0 {
        Seq::empty()
    } else if ls.len() == 1 {
        "\""@ + ls[0] + "\""@
    } else {
        spec_debug_inner(ls.drop_last()) + ", \""@ + ls.last() + "\""@
    }
}

/// The `["a", "b"]`-style rendering of the duplicate labels.
pub open spec fn spec_debug_list(ls: Seq<Seq<char>>) -> Seq<char> {
    "["@ + spec_debug_inner(ls) + "]"@
}

/// The lines printed before any task: the source diagnostic, and the
/// duplicate-label warning when there are duplicates.
pub open spec fn header_lines(path: Seq<char>, items: Seq<ExecItem>) -> Seq<LineV> {
    let base = seq![LineV::Nominal { text: "Using NansiFile: "@ + path }];
    let dups = spec_duplicates(items);
    if dups.len() > 0 {
        base + seq![
            LineV::Warn {
                text:
                    "The following aliases are duplicated which may cause issues with conditional execution:"@,
            },
            LineV::Nominal { text: spec_debug_list(dups) },
        ]
    } else {
        base
    }
}

/// Every line of a run that processed `reps.len()` tasks.
pub open spec fn all_lines(path: Seq<char>, items: Seq<ExecItem>, reps: Seq<TaskV>) -> Seq<
    LineV,
> {
    header_lines(path, items) + tasks_lines(items, reps, reps.len() as int)
}

/// Whether every prerequisite of the given item is in the success-label list.
pub fn exec_meets_prerequisites(exec_item: &ExecItem, succ_label_list: &Vec<String>) -> (r:
    bool)
    ensures
        r == prereqs_met(exec_item.prerequisites.deep_view(), succ_label_list.deep_view()),
{
    let n = exec_item.prerequisites.len();
    let mut i: usize = 0;
    while i < n
        invariant
            i <= n,
            n == exec_item.prerequisites@.len(),
            forall|k: int|
                0 <= k < i ==> succ_label_list.deep_view().contains(
                    exec_item.prerequisites.deep_view()[k],
                ),
        decreases n - i,
    {
        proof {
            assert(exec_item.prerequisites.deep_view()[i as int] == exec_item.prerequisites@[
                i as int
            ]@);
        }
        if !crate::strutil::contains_string(succ_label_list, &exec_item.prerequisites[i]) {
            return false;
        }
        i = i + 1;
    }
    true
}

/// How many tasks of the list carry exactly this label.
fn count_of_label(exec_list: &Vec<ExecItem>, label: &String) -> (r: usize)
    ensures
        r == count_label(exec_list@, label@),
{
    let n = exec_list.len();
    let mut i: usize = 0;
    let mut r: usize = 0;
    proof {
        assert(exec_list@.subrange(0, 0) =~= Seq::<ExecItem>::empty());
    }
    while i < n
        invariant
            i <= n,
            r <= i,
            n == exec_list@.len(),
            r == count_label(exec_list@.subrange(0, i as int), label@),
        decreases n - i,
    {
        proof {
            assert(exec_list@.subrange(0, i + 1).drop_last() =~= exec_list@.subrange(0, i as int));
            assert(exec_list@.subrange(0, i + 1).last() == exec_list@[i as int]);
        }
        if exec_list[i].label.eq(label) {
            r = r + 1;
        }
        i = i + 1;
    }
    proof {
        assert(exec_list@.subrange(0, n as int) =~= exec_list@);
    }
    r
}

/// Places `label` at its ordered position, unless it is already present.
#[verifier::loop_isolation(false)]
fn insert_sorted(res: Vec<String>, label: String) -> (r: Vec<String>)
    ensures
        r.deep_view() == insert_sorted_spec(res.deep_view(), label@),
{
    let ghost dv = res.deep_view();
    let ghost l = label@;
    let mut res = res;
    let n = res.len();
    let mut j: usize = 0;
    proof {
        assert(dv.subrange(0, 0) =~= Seq::<Seq<char>>::empty());
        assert(dv.skip(0) =~= dv);
        assert(insert_sorted_spec(dv, l) == dv.subrange(0, 0) + insert_sorted_spec(dv.skip(0), l));
    }
    while j < n
        invariant
            j <= n,
            n == res@.len(),
            res.deep_view() == dv,
            res@.len() == dv.len(),
            label@ == l,
            insert_sorted_spec(dv, l) == dv.subrange(0, j as int) + insert_sorted_spec(
                dv.skip(j as int),
                l,
            ),
        decreases n - j,
    {
        proof {
            assert(res.deep_view()[j as int] == res@[j as int]@);
            assert(dv.skip(j as int)[0] == dv[j as int]);
        }
        if crate::strutil::str_lex_lt(&label, &res[j]) {
            proof {
                assert(insert_sorted_spec(dv.skip(j as int), l) == seq![l] + dv.skip(j as int));
            }
            res.insert(j, label);
            proof {
                assert(res.deep_view() =~= dv.subrange(0, j as int) + (seq![l] + dv.skip(
                    j as int,
                )));
                assert(res.deep_view() == insert_sorted_spec(dv, l));
            }
            return res;
        }
        if res[j].eq(&label) {
            proof {
                assert(insert_sorted_spec(dv.skip(j as int), l) == dv.skip(j as int));
                assert(dv.subrange(0, j as int) + dv.skip(j as int) =~= dv);
                assert(res.deep_view() == insert_sorted_spec(dv, l));
            }
            return res;
        }
        proof {
            assert(insert_sorted_spec(dv.skip(j as int), l) == seq![dv[j as int]]
                + insert_sorted_spec(dv.skip(j as int).skip(1), l));
            assert(dv.skip(j as int).skip(1) =~= dv.skip(j + 1));
            assert(dv.subrange(0, j as int) + (seq![dv[j as int]] + insert_sorted_spec(
                dv.skip(j + 1),
                l,
            )) =~= dv.subrange(0, j + 1) + insert_sorted_spec(dv.skip(j + 1), l));
        }
        j = j + 1;
    }
    proof {
        assert(dv.skip(n as int) =~= Seq::<Seq<char>>::empty());
        assert(insert_sorted_spec(dv.skip(n as int), l) == seq![l]);
    }
    res.push(label);
    proof {
        assert(res.deep_view() =~= dv.subrange(0, n as int) + seq![l]);
    }
    res
}

/// The non-empty labels that occur more than once, sorted, each once.
pub fn get_label_duplicates(exec_list: &Vec<ExecItem>) -> (r: Vec<String>)
    ensures
        r.deep_view() == spec_duplicates(exec_list@),
{
    let n = exec_list.len();
    let mut r: Vec<String> = Vec::new();
    let mut k: usize = 0;
    proof {
        assert(r.deep_view() =~= dup_list(exec_list@, 0));
    }
    while k < n
        invariant
            k <= n,
            n == exec_list@.len(),
            r.deep_view() == dup_list(exec_list@, k as int),
        decreases n - k,
    {
        if !exec_list[k].label.as_str().is_empty() {
            let c = count_of_label(exec_list, &exec_list[k].label);
            if c >= 2 {
                r = insert_sorted(r, exec_list[k].label.clone());
            }
        }
        k = k + 1;
    }
    r
}

/// The item reference for diagnostics, with a 1-based position.
pub fn get_item_str(exec_item: &ExecItem, pos: usize) -> (r: String)
    ensures
        r@ == spec_item_ref(exec_item.label@, pos as nat),
{
    let mut r = String::from_str("[");
    let num = crate::strutil::usize_to_string(pos);
    r.append(num.as_str());
    r.append("]");
    if !exec_item.label.as_str().is_empty() {
        r.append("[");
        r.append(exec_item.label.as_str());
        r.append("]");
    }
    proof {
        reveal_strlit("[");
        reveal_strlit("]");
        reveal_strlit("][");
        assert(r@ =~= spec_item_ref(exec_item.label@, pos as nat));
    }
    r
}

/// The literal token of a status: `OK`, `FAIL`, `WARN` or `SKIP`.
pub fn status_token(status: &ExecStatus) -> (r: String)
    ensures
        r@ == spec_status_token(*status),
{
    match status {
        ExecStatus::OK => String::from_str("OK"),
        ExecStatus::ERR => String::from_str("FAIL"),
        ExecStatus::WARN => String::from_str("WARN"),
        ExecStatus::SKIP => String::from_str("SKIP"),
    }
}

/// The body of a task's status line.
pub fn get_status_text(exec_item: &ExecItem, pos: usize) -> (r: String)
    ensures
        r@ == spec_status_text(*exec_item, pos as nat),
{
    let mut r = get_item_str(exec_item, pos);
    r.append(" ");
    r.append(exec_item.program.as_str());
    r.append(" ");
    let joined = crate::strutil::join_space(&exec_item.args);
    r.append(joined.as_str());
    proof {
        assert(r@ =~= spec_status_text(*exec_item, pos as nat));
    }
    r
}

/// The plain text of one report line, exactly as `spec_render` says.
pub fn render_plain(line: &ReportLine) -> (r: String)
    ensures
        r@ == spec_render(line@),
{
    match line {
        ReportLine::Nominal { text } => text.clone(),
        ReportLine::Warn { text } => {
            let mut r = String::from_str("[WARN] ");
            r.append(text.as_str());
            r
        },
        ReportLine::Status { status, text } => {
            let mut r = String::from_str("[");
            let tok = status_token(status);
            r.append(tok.as_str());
            r.append("] ");
            r.append(text.as_str());
            proof {
                assert(r@ =~= spec_render(line@));
            }
            r
        },
    }
}

/// The duplicate labels rendered as a quoted, comma-separated list in
/// brackets.
fn debug_list(labels: &Vec<String>) -> (r: String)
    ensures
        r@ == spec_debug_list(labels.deep_view()),
{
    let ghost dv = labels.deep_view();
    let n = labels.len();
    let mut inner = String::new();
    let mut i: usize = 0;
    proof {
        assert(dv.subrange(0, 0) =~= Seq::<Seq<char>>::empty());
        assert(inner@ =~= spec_debug_inner(dv.subrange(0, 0)));
    }
    while i < n
        invariant
            i <= n,
            n == labels@.len(),
            dv == labels.deep_view(),
            dv.len() == n,
            inner@ == spec_debug_inner(dv.subrange(0, i as int)),
        decreases n - i,
    {
        if i > 0 {
            inner.append(", \"");
        } else {
            inner.append("\"");
        }
        inner.append(labels[i].as_str());
        inner.append("\"");
        proof {
            assert(dv[i as int] == labels@[i as int]@);
            let ext = dv.subrange(0, i + 1);
            assert(ext.drop_last() =~= dv.subrange(0, i as int));
            assert(ext.last() == dv[i as int]);
            if i == 0 {
                assert(inner@ =~= "\""@ + ext[0] + "\""@);
            } else {
                assert(inner@ =~= spec_debug_inner(dv.subrange(0, i as int)) + ", \""@ + dv[i as int]
                    + "\""@);
            }
        }
        i = i + 1;
    }
    let mut r = String::from_str("[");
    r.append(inner.as_str());
    r.append("]");
    proof {
        assert(dv.subrange(0, n as int) =~= dv);
        assert(r@ =~= spec_debug_list(dv));
    }
    r
}

/// Classifies what the spawner reported: the status class and the captured
/// output, or the fatal undecodable-output failure.
pub fn classify_outcome(outcome: SpawnOutcome) -> (r: Result<(ExecStatus, String), ExecError>)
    ensures
        (match r {
            Result::Ok(p) => !(outcome is Undecodable) && p.0 == spec_status_of(outcome) && p.1@
                == spec_output_of(outcome),
            Result::Err(e) => outcome is Undecodable && e@ == ExecErrorV::UndecodableOutput,
        }),
{
    match outcome {
        SpawnOutcome::Completed { exit_zero, stdout, stderr } => {
            if exit_zero {
                Ok((ExecStatus::OK, stdout))
            } else {
                Ok((ExecStatus::ERR, stderr))
            }
        },
        SpawnOutcome::SpawnFailed { error } => Ok((ExecStatus::ERR, error)),
        SpawnOutcome::Undecodable => Err(ExecError::UndecodableOutput),
    }
}

/// An argument erring under templating makes the whole list err with that
/// argument's failure, provided every earlier argument templates cleanly.
proof fn lemma_compile_args_err(
    args: Seq<Seq<char>>,
    env: Seq<(Seq<char>, Seq<char>)>,
    i: int,
)
    requires
        0 <= i < args.len(),
        compile_args_spec(args.subrange(0, i), env) is Ok,
        spec_compile(args[i], env) is Err,
    ensures
        compile_args_spec(args, env) == Result::<Seq<Seq<char>>, TemplateErrorV>::Err(
            spec_compile(args[i], env)->Err_0,
        ),
    decreases args.len(),
{
    if i == args.len() - 1 {
        assert(args.drop_last() =~= args.subrange(0, i));
    } else {
        assert(args.drop_last().subrange(0, i) =~= args.subrange(0, i));
        assert(args.drop_last()[i] == args[i]);
        lemma_compile_args_err(args.drop_last(), env, i);
    }
}

/// The success-label set after `n` tasks depends only on the first `n`
/// statuses.
pub proof fn lemma_succ_after_agree(
    items: Seq<ExecItem>,
    sts1: Seq<ExecStatus>,
    sts2: Seq<ExecStatus>,
    n: int,
)
    requires
        forall|k: int| 0 <= k < n ==> sts1[k] == sts2[k],
    ensures
        succ_after(items, sts1, n) == succ_after(items, sts2, n),
    decreases n,
{
    if n > 0 {
        lemma_succ_after_agree(items, sts1, sts2, n - 1);
    }
}

/// The lines of the first `n` tasks depend only on the first `n` records.
proof fn lemma_tasks_lines_agree(
    items: Seq<ExecItem>,
    reps1: Seq<TaskV>,
    reps2: Seq<TaskV>,
    n: int,
)
    requires
        forall|k: int| 0 <= k < n ==> reps1[k] == reps2[k],
    ensures
        tasks_lines(items, reps1, n) == tasks_lines(items, reps2, n),
    decreases n,
{
    if n > 0 {
        lemma_tasks_lines_agree(items, reps1, reps2, n - 1);
    }
}

/// Every non-skipped record was classified from an outcome the spawner can
/// report for that task's program and templated arguments.
pub open spec fn spawned_ok<F: Fn(String, Vec<String>) -> SpawnOutcome>(
    items: Seq<ExecItem>,
    env: Seq<(Seq<char>, Seq<char>)>,
    reps: Seq<TaskV>,
    spawn: F,
) -> bool {
    forall|i: int|
        #![trigger reps[i]]
        0 <= i < reps.len() && reps[i].status != ExecStatus::SKIP ==> exists|
            p: String,
            a: Vec<String>,
            oc: SpawnOutcome,
        |
            {
                &&& p@ == items[i].program@
                &&& compile_args_spec(items[i].args.deep_view(), env) == Result::<Seq<Seq<char>>,
                TemplateErrorV>::Ok(a.deep_view())
                &&& call_ensures(spawn, (p, a), oc)
                &&& reps[i].status == spec_status_of(oc)
                &&& reps[i].output == Some(spec_output_of(oc))
            }
}

/// Templates every argument of a task, in order; the first failure aborts.
pub fn compile_args(args: &Vec<String>, env: &EnvMap) -> (r: Result<Vec<String>, TemplateError>)
    ensures
        (match r {
            Result::Ok(v) => compile_args_spec(args.deep_view(), env@) == Result::<Seq<Seq<char>>,
            TemplateErrorV>::Ok(v.deep_view()),
            Result::Err(e) => compile_args_spec(args.deep_view(), env@) == Result::<Seq<Seq<char>>,
            TemplateErrorV>::Err(e@),
        }),
{
    let ghost dv = args.deep_view();
    let n = args.len();
    let mut out: Vec<String> = Vec::new();
    let mut i: usize = 0;
    proof {
        assert(dv.subrange(0, 0) =~= Seq::<Seq<char>>::empty());
        assert(out.deep_view() =~= Seq::<Seq<char>>::empty());
    }
    while i < n
        invariant
            i <= n,
            n == args@.len(),
            dv == args.deep_view(),
            dv.len() == n,
            compile_args_spec(dv.subrange(0, i as int), env@) == Result::<Seq<Seq<char>>,
            TemplateErrorV>::Ok(out.deep_view()),
        decreases n - i,
    {
        proof {
            assert(dv[i as int] == args@[i as int]@);
        }
        match crate::template::compile_arg(&args[i], env) {
            Ok(v) => {
                let ghost oldout = out.deep_view();
                let ghost vv = v@;
                out.push(v);
                proof {
                    let ext = dv.subrange(0, i + 1);
                    assert(ext.drop_last() =~= dv.subrange(0, i as int));
                    assert(ext.last() == dv[i as int]);
                    assert(out.deep_view() =~= oldout.push(vv));
                }
            },
            Err(e) => {
                proof {
                    lemma_compile_args_err(dv, env@, i as int);
                }
                return Err(e);
            },
        }
        i = i + 1;
    }
    proof {
        assert(dv.subrange(0, n as int) =~= dv);
    }
    Ok(out)
}

/// Strictly ascending under `lex_lt`; such a list holds each label once.
pub open spec fn sorted_strict(s: Seq<Seq<char>>) -> bool {
    forall|p: int, q: int| 0 <= p < q < s.len() ==> lex_lt(s[p], s[q])
}

proof fn lemma_insert_sorted_contains(s: Seq<Seq<char>>, l: Seq<char>)
    ensures
        forall|x: Seq<char>|
            #[trigger] insert_sorted_spec(s, l).contains(x) <==> (s.contains(x) || x == l),
    decreases s.len(),
{
    broadcast use vstd::seq_lib::group_seq_properties;

    if s.len() == 0 {
        assert(insert_sorted_spec(s, l) == seq![l]);
        assert(seq![l][0] == l);
        assert forall|x: Seq<char>| #[trigger]
            insert_sorted_spec(s, l).contains(x) implies (s.contains(x) || x == l) by {
            let j = choose|j: int|
                0 <= j < insert_sorted_spec(s, l).len() && insert_sorted_spec(s, l)[j] == x;
            assert(j == 0);
        }
    } else if lex_lt(l, s[0]) {
        assert(insert_sorted_spec(s, l) == seq![l] + s);
        assert forall|x: Seq<char>| #[trigger]
            insert_sorted_spec(s, l).contains(x) implies (s.contains(x) || x == l) by {
            assert(seq![l].contains(x) || s.contains(x));
            if seq![l].contains(x) {
                let j = choose|j: int| 0 <= j < seq![l].len() && seq![l][j] == x;
                assert(j == 0);
            }
        }
        assert(seq![l][0] == l);
    } else if s[0] == l {
        assert(insert_sorted_spec(s, l) == s);
        assert(s.contains(l));
    } else {
        lemma_insert_sorted_contains(s.skip(1), l);
        let tail = insert_sorted_spec(s.skip(1), l);
        assert(insert_sorted_spec(s, l) == seq![s[0]] + tail);
        assert(s =~= seq![s[0]] + s.skip(1));
        assert forall|x: Seq<char>| #[trigger]
            insert_sorted_spec(s, l).contains(x) implies (s.contains(x) || x == l) by {
            assert(seq![s[0]].contains(x) || tail.contains(x));
            if seq![s[0]].contains(x) {
                let j = choose|j: int| 0 <= j < seq![s[0]].len() && seq![s[0]][j] == x;
                assert(j == 0);
                assert(s[0] == x);
            } else {
                assert(s.skip(1).contains(x) || x == l);
            }
        }
        assert forall|x: Seq<char>| s.contains(x) || x == l implies #[trigger]
            insert_sorted_spec(s, l).contains(x) by {
            if s.contains(x) {
                let j = choose|j: int| 0 <= j < s.len() && s[j] == x;
                if j == 0 {
                    assert(seq![s[0]].contains(x));
                } else {
                    assert(s.skip(1)[j - 1] == x);
                    assert(s.skip(1).contains(x));
                }
            }
        }
    }
}

proof fn lemma_insert_sorted_sorted(s: Seq<Seq<char>>, l: Seq<char>)
    requires
        sorted_strict(s),
    ensures
        sorted_strict(insert_sorted_spec(s, l)),
    decreases s.len(),
{
    broadcast use vstd::seq_lib::group_seq_properties;

    if s.len() == 0 {
        assert(insert_sorted_spec(s, l) == seq![l]);
    } else if lex_lt(l, s[0]) {
        let r = seq![l] + s;
        assert(insert_sorted_spec(s, l) == r);
        assert forall|p: int, q: int| 0 <= p < q < r.len() implies lex_lt(r[p], r[q]) by {
            if p == 0 {
                if q > 1 {
                    crate::strutil::lemma_lex_lt_transitive(l, s[0], s[q - 1]);
                }
            }
        }
    } else if s[0] == l {
        assert(insert_sorted_spec(s, l) == s);
    } else {
        crate::strutil::lemma_lex_lt_connected(l, s[0]);
        assert(lex_lt(s[0], l));
        assert forall|p: int, q: int|
            0 <= p < q < s.skip(1).len() implies lex_lt(s.skip(1)[p], s.skip(1)[q]) by {
            assert(s.skip(1)[p] == s[p + 1]);
            assert(s.skip(1)[q] == s[q + 1]);
        }
        lemma_insert_sorted_sorted(s.skip(1), l);
        lemma_insert_sorted_contains(s.skip(1), l);
        let tail = insert_sorted_spec(s.skip(1), l);
        let r = seq![s[0]] + tail;
        assert(insert_sorted_spec(s, l) == r);
        assert forall|p: int, q: int| 0 <= p < q < r.len() implies lex_lt(r[p], r[q]) by {
            if p == 0 {
                assert(tail[q - 1] == r[q]);
                assert(tail.contains(tail[q - 1]));
                if s.skip(1).contains(r[q]) {
                    let j = choose|j: int| 0 <= j < s.skip(1).len() && s.skip(1)[j] == r[q];
                    assert(s[j + 1] == r[q]);
                    assert(lex_lt(s[0], s[j + 1]));
                } else {
                    assert(r[q] == l);
                }
            } else {
                assert(r[p] == tail[p - 1]);
                assert(r[q] == tail[q - 1]);
            }
        }
    }
}

proof fn lemma_count_label_occurrence(items: Seq<ExecItem>, l: Seq<char>)
    requires
        count_label(items, l) >= 1,
    ensures
        exists|i: int| 0 <= i < items.len() && items[i].label@ == l,
    decreases items.len(),
{
    if items.last().label@ == l {
        assert(items[items.len() - 1].label@ == l);
    } else {
        lemma_count_label_occurrence(items.drop_last(), l);
        let i = choose|i: int| 0 <= i < items.drop_last().len() && items.drop_last()[i].label@ == l;
        assert(items[i].label@ == l);
    }
}

proof fn lemma_dup_list_props(items: Seq<ExecItem>, k: int)
    requires
        0 <= k <= items.len(),
    ensures
        sorted_strict(dup_list(items, k)),
        forall|l: Seq<char>|
            #[trigger] dup_list(items, k).contains(l) <==> (l.len() > 0 && count_label(items, l)
                >= 2 && exists|i: int| 0 <= i < k && items[i].label@ == l),
    decreases k,
{
    if k > 0 {
        lemma_dup_list_props(items, k - 1);
        let prev = dup_list(items, k - 1);
        let cur = dup_list(items, k);
        let l0 = items[k - 1].label@;
        if l0.len() > 0 && count_label(items, l0) >= 2 {
            assert(cur == insert_sorted_spec(prev, l0));
            lemma_insert_sorted_contains(prev, l0);
            lemma_insert_sorted_sorted(prev, l0);
            assert forall|l: Seq<char>| #[trigger]
                cur.contains(l) implies (l.len() > 0 && count_label(items, l) >= 2 && exists|
                i: int,
            | 0 <= i < k && items[i].label@ == l) by {
                if prev.contains(l) {
                    let i = choose|i: int| 0 <= i < k - 1 && items[i].label@ == l;
                    assert(0 <= i < k && items[i].label@ == l);
                } else {
                    assert(l == l0);
                    assert(items[k - 1].label@ == l);
                }
            }
            assert forall|l: Seq<char>|
                (l.len() > 0 && count_label(items, l) >= 2 && exists|i: int|
                    0 <= i < k && items[i].label@ == l) implies #[trigger] cur.contains(l) by {
                let i = choose|i: int| 0 <= i < k && items[i].label@ == l;
                if i < k - 1 {
                    assert(prev.contains(l));
                }
            }
        } else {
            assert(cur == prev);
            assert forall|l: Seq<char>|
                (l.len() > 0 && count_label(items, l) >= 2 && exists|i: int|
                    0 <= i < k && items[i].label@ == l) implies #[trigger] cur.contains(l) by {
                let i = choose|i: int| 0 <= i < k && items[i].label@ == l;
                assert(i != k - 1);
            }
        }
    }
}

/// Duplicate detection is exact: the warned list holds exactly the non-empty
/// labels carried by more than one task, in strictly ascending order, so
/// each at most once.
pub proof fn lemma_duplicates_exact(items: Seq<ExecItem>)
    ensures
        sorted_strict(spec_duplicates(items)),
        forall|l: Seq<char>|
            #[trigger] spec_duplicates(items).contains(l) <==> (l.len() > 0 && count_label(
                items,
                l,
            ) >= 2),
        forall|p: int, q: int|
            0 <= p < q < spec_duplicates(items).len() ==> spec_duplicates(items)[p]
                != spec_duplicates(items)[q],
{
    lemma_dup_list_props(items, items.len() as int);
    assert forall|l: Seq<char>|
        l.len() > 0 && count_label(items, l) >= 2 implies #[trigger] spec_duplicates(
        items,
    ).contains(l) by {
        lemma_count_label_occurrence(items, l);
    }
    assert forall|p: int, q: int|
        0 <= p < q < spec_duplicates(items).len() implies spec_duplicates(items)[p]
        != spec_duplicates(items)[q] by {
        crate::strutil::lemma_lex_lt_irreflexive(spec_duplicates(items)[p]);
    }
}

/// The success-label set after `n` tasks holds exactly the non-empty labels
/// of the tasks among the first `n` whose outcome was OK, each at most once
/// however many succeeding tasks share it.
pub proof fn lemma_success_labels_exact(items: Seq<ExecItem>, sts: Seq<ExecStatus>, n: int)
    ensures
        forall|l: Seq<char>|
            #[trigger] succ_after(items, sts, n).contains(l) <==> (l.len() > 0 && exists|i: int|
                0 <= i < n && items[i].label@ == l && sts[i] == ExecStatus::OK),
        forall|p: int, q: int|
            0 <= p < q < succ_after(items, sts, n).len() ==> succ_after(items, sts, n)[p]
                != succ_after(items, sts, n)[q],
    decreases n,
{
    broadcast use vstd::seq_lib::group_seq_properties;

    if n > 0 {
        lemma_success_labels_exact(items, sts, n - 1);
        let prev = succ_after(items, sts, n - 1);
        let cur = succ_after(items, sts, n);
        if sts[n - 1] == ExecStatus::OK && items[n - 1].label@.len() > 0 && !prev.contains(
            items[n - 1].label@,
        ) {
            let l0 = items[n - 1].label@;
            assert(cur == prev.push(l0));
            assert forall|l: Seq<char>| #[trigger]
                cur.contains(l) implies (l.len() > 0 && exists|i: int|
                0 <= i < n && items[i].label@ == l && sts[i] == ExecStatus::OK) by {
                if l == l0 {
                    assert(items[n - 1].label@ == l && sts[n - 1] == ExecStatus::OK);
                } else {
                    assert(prev.contains(l));
                }
            }
            assert forall|l: Seq<char>|
                (l.len() > 0 && exists|i: int|
                    0 <= i < n && items[i].label@ == l && sts[i] == ExecStatus::OK) implies #[trigger]
                cur.contains(l) by {
                let i = choose|i: int|
                    0 <= i < n && items[i].label@ == l && sts[i] == ExecStatus::OK;
                if i < n - 1 {
                    assert(prev.contains(l));
                }
            }
            assert forall|p: int, q: int| 0 <= p < q < cur.len() implies cur[p] != cur[q] by {
                if q == cur.len() - 1 {
                    assert(prev.contains(prev[p]));
                }
            }
        } else {
            assert(cur == prev);
            assert forall|l: Seq<char>|
                (l.len() > 0 && exists|i: int|
                    0 <= i < n && items[i].label@ == l && sts[i] == ExecStatus::OK) implies #[trigger]
                cur.contains(l) by {
                let i = choose|i: int|
                    0 <= i < n && items[i].label@ == l && sts[i] == ExecStatus::OK;
                if i == n - 1 {
                    assert(items[n - 1].label@ == l && l.len() > 0 && sts[n - 1]
                        == ExecStatus::OK);
                    assert(prev.contains(l));
                }
            }
        }
    }
}

/// A task with no prerequisites is never skipped for gating reasons.
pub proof fn lemma_empty_prerequisites_run(
    items: Seq<ExecItem>,
    env: Seq<(Seq<char>, Seq<char>)>,
    reps: Seq<TaskV>,
    i: int,
)
    requires
        run_consistent(items, env, reps),
        0 <= i < reps.len(),
        items[i].prerequisites.deep_view().len() == 0,
    ensures
        reps[i].status != ExecStatus::SKIP,
{
    assert(prereqs_met(
        items[i].prerequisites.deep_view(),
        succ_after(items, statuses_of(reps), i),
    ));
    assert(step_ok(items, env, reps, i));
}

/// A task with a prerequisite label that no earlier task both carried and
/// completed successfully is always skipped, never run.
pub proof fn lemma_unmet_prerequisite_skips(
    items: Seq<ExecItem>,
    env: Seq<(Seq<char>, Seq<char>)>,
    reps: Seq<TaskV>,
    i: int,
    l: Seq<char>,
)
    requires
        run_consistent(items, env, reps),
        0 <= i < reps.len(),
        items[i].prerequisites.deep_view().contains(l),
        forall|j: int|
            0 <= j < i ==> !(items[j].label@ == l && reps[j].status == ExecStatus::OK),
    ensures
        reps[i].status == ExecStatus::SKIP,
{
    lemma_success_labels_exact(items, statuses_of(reps), i);
    let succ = succ_after(items, statuses_of(reps), i);
    if succ.contains(l) {
        let j = choose|j: int|
            0 <= j < i && items[j].label@ == l && statuses_of(reps)[j] == ExecStatus::OK;
        assert(reps[j].status == ExecStatus::OK);
        assert(false);
    }
    assert(!prereqs_met(items[i].prerequisites.deep_view(), succ));
    assert(step_ok(items, env, reps, i));
}

/// Runs the whole task list in order.  `spawn` is called once per non-skipped
/// task, with the program and the templated arguments, and reports the
/// process's outcome; everything else — gating, duplicate detection,
/// success-label accrual, templating, reporting — is decided here, and the
/// contract pins it down whatever the spawner reports.
#[verifier::loop_isolation(false)]
pub fn execute<F: Fn(String, Vec<String>) -> SpawnOutcome>(
    nansi_file: &NansiFile,
    env: &EnvMap,
    spawn: F,
) -> (r: Result<RunReport, ExecFailure>)
    requires
        forall|p: String, a: Vec<String>| #[trigger] call_requires(spawn, (p, a)),
    ensures
        (match r {
            Result::Ok(rep) => {
                let items = nansi_file.exec_list@;
                let reps = rep.tasks.deep_view();
                &&& reps.len() == items.len()
                &&& run_consistent(items, env@, reps)
                &&& rep.lines.deep_view() == all_lines(nansi_file.file_path@, items, reps)
                &&& rep.succ_labels.deep_view() == succ_after(
                    items,
                    statuses_of(reps),
                    items.len() as int,
                )
                &&& spawned_ok(items, env@, reps, spawn)
            },
            Result::Err(f) => {
                let items = nansi_file.exec_list@;
                let reps = f.partial.tasks.deep_view();
                let j = reps.len() as int;
                &&& j < items.len()
                &&& run_consistent(items, env@, reps)
                &&& prereqs_met(
                    items[j].prerequisites.deep_view(),
                    succ_after(items, statuses_of(reps), j),
                )
                &&& f.partial.lines.deep_view() == all_lines(nansi_file.file_path@, items, reps)
                &&& f.partial.succ_labels.deep_view() == succ_after(items, statuses_of(reps), j)
                &&& spawned_ok(items, env@, reps, spawn)
                &&& (match f.error {
                    ExecError::Template { err } => compile_args_spec(
                        items[j].args.deep_view(),
                        env@,
                    ) == Result::<Seq<Seq<char>>, TemplateErrorV>::Err(err@),
                    ExecError::UndecodableOutput => exists|
                        p: String,
                        a: Vec<String>,
                        oc: SpawnOutcome,
                    |
                        {
                            &&& p@ == items[j].program@
                            &&& compile_args_spec(items[j].args.deep_view(), env@)
                                == Result::<Seq<Seq<char>>, TemplateErrorV>::Ok(a.deep_view())
                            &&& call_ensures(spawn, (p, a), oc)
                            &&& oc is Undecodable
                        },
                })
            },
        }),
{
    let ghost items = nansi_file.exec_list@;
    let mut lines: Vec<ReportLine> = Vec::new();
    let mut header = String::from_str("Using NansiFile: ");
    header.append(nansi_file.file_path.as_str());
    lines.push(ReportLine::Nominal { text: header });
    let dups = get_label_duplicates(&nansi_file.exec_list);
    if dups.len() > 0 {
        lines.push(
            ReportLine::Warn {
                text: String::from_str(
                    "The following aliases are duplicated which may cause issues with conditional execution:",
                ),
            },
        );
        let dbg = debug_list(&dups);
        lines.push(ReportLine::Nominal { text: dbg });
    }
    proof {
        assert(dups.deep_view().len() == dups@.len());
        assert(lines.deep_view() =~= header_lines(nansi_file.file_path@, items));
    }
    let mut succ_labels: Vec<String> = Vec::new();
    let mut tasks: Vec<TaskReport> = Vec::new();
    let mut idx: usize = 0;
    let n = nansi_file.exec_list.len();
    proof {
        assert(tasks.deep_view() =~= Seq::<TaskV>::empty());
        assert(succ_labels.deep_view() =~= Seq::<Seq<char>>::empty());
        assert(tasks_lines(items, tasks.deep_view(), 0) == Seq::<LineV>::empty());
        assert(lines.deep_view() =~= all_lines(nansi_file.file_path@, items, tasks.deep_view()));
    }
    while idx < n
        invariant
            idx <= n,
            tasks.deep_view().len() == idx,
            forall|i: int| 0 <= i < idx ==> step_ok(items, env@, tasks.deep_view(), i),
            succ_labels.deep_view() == succ_after(
                items,
                statuses_of(tasks.deep_view()),
                idx as int,
            ),
            lines.deep_view() == all_lines(nansi_file.file_path@, items, tasks.deep_view()),
            spawned_ok(items, env@, tasks.deep_view(), spawn),
        decreases n - idx,
    {
        let exec_item = &nansi_file.exec_list[idx];
        let pos = idx + 1;
        let ghost dv0 = tasks.deep_view();
        let ghost lines0 = lines.deep_view();
        let met = exec_meets_prerequisites(exec_item, &succ_labels);
        if !met {
            if exec_item.print_status {
                let txt = get_status_text(exec_item, pos);
                lines.push(ReportLine::Status { status: ExecStatus::SKIP, text: txt });
            }
            let iref = get_item_str(exec_item, pos);
            let mut diag = String::from_str("Prerequisites for item ");
            diag.append(iref.as_str());
            diag.append(" are not met.");
            lines.push(ReportLine::Nominal { text: diag });
            tasks.push(TaskReport { status: ExecStatus::SKIP, output: None });
            proof {
                let dv1 = tasks.deep_view();
                assert(dv1 =~= dv0.push(TaskV { status: ExecStatus::SKIP, output: None }));
                assert forall|k: int| 0 <= k < idx implies statuses_of(dv1)[k] == statuses_of(
                    dv0,
                )[k] by {}
                lemma_succ_after_agree(items, statuses_of(dv1), statuses_of(dv0), idx as int);
                assert forall|i: int| 0 <= i < idx + 1 implies step_ok(items, env@, dv1, i) by {
                    lemma_succ_after_agree(items, statuses_of(dv1), statuses_of(dv0), i);
                    if i < idx {
                        assert(step_ok(items, env@, dv0, i));
                        assert(dv1[i] == dv0[i]);
                    } else {
                        assert(!prereqs_met(
                            items[i].prerequisites.deep_view(),
                            succ_after(items, statuses_of(dv1), i),
                        ));
                    }
                }
                assert(statuses_of(dv1)[idx as int] != ExecStatus::OK);
                assert(succ_after(items, statuses_of(dv1), idx + 1) == succ_after(
                    items,
                    statuses_of(dv1),
                    idx as int,
                ));
                lemma_tasks_lines_agree(items, dv1, dv0, idx as int);
                let tl = task_lines(items[idx as int], (idx + 1) as nat, dv1[idx as int]);
                assert(tl =~= (if items[idx as int].print_status {
                    seq![
                        LineV::Status {
                            status: ExecStatus::SKIP,
                            text: spec_status_text(items[idx as int], (idx + 1) as nat),
                        },
                    ]
                } else {
                    Seq::<LineV>::empty()
                }) + seq![
                    LineV::Nominal {
                        text: "Prerequisites for item "@ + spec_item_ref(
                            items[idx as int].label@,
                            (idx + 1) as nat,
                        ) + " are not met."@,
                    },
                ]);
                assert(lines.deep_view() =~= lines0 + tl);
                assert(tasks_lines(items, dv1, idx + 1) == tasks_lines(items, dv1, idx as int)
                    + tl);
                assert(all_lines(nansi_file.file_path@, items, dv1) =~= lines0 + tl);
                assert(lines.deep_view() == all_lines(nansi_file.file_path@, items, dv1));
            }
        } else {
            let compiled = match compile_args(&exec_item.args, env) {
                Ok(v) => v,
                Err(e) => {
                    return Err(
                        ExecFailure {
                            partial: RunReport { lines, tasks, succ_labels },
                            error: ExecError::Template { err: e },
                        },
                    );
                },
            };
            let prog = exec_item.program.clone();
            let ghost prog_snap = prog;
            let ghost compiled_snap = compiled;
            let outcome = spawn(prog, compiled);
            let ghost oc_snap = outcome;
            let (st, out) = match classify_outcome(outcome) {
                Ok(p) => p,
                Err(e) => {
                    proof {
                        assert(call_ensures(spawn, (prog_snap, compiled_snap), oc_snap));
                        assert(oc_snap is Undecodable);
                    }
                    return Err(
                        ExecFailure {
                            partial: RunReport { lines, tasks, succ_labels },
                            error: e,
                        },
                    );
                },
            };
            let ghost succ0 = succ_labels.deep_view();
            if st == ExecStatus::OK && !exec_item.label.as_str().is_empty()
                && !crate::strutil::contains_string(&succ_labels, &exec_item.label) {
                let ghost l = exec_item.label@;
                succ_labels.push(exec_item.label.clone());
                proof {
                    assert(succ_labels.deep_view() =~= succ0.push(l));
                }
            }
            if exec_item.print_status {
                let txt = get_status_text(exec_item, pos);
                lines.push(ReportLine::Status { status: st, text: txt });
            }
            let ghost out_v = out@;
            if exec_item.print_output {
                lines.push(ReportLine::Nominal { text: out.clone() });
            }
            tasks.push(TaskReport { status: st, output: Some(out) });
            proof {
                let dv1 = tasks.deep_view();
                assert(dv1 =~= dv0.push(TaskV { status: st, output: Some(out_v) }));
                lemma_succ_after_agree(items, statuses_of(dv1), statuses_of(dv0), idx as int);
                assert forall|i: int| 0 <= i < idx + 1 implies step_ok(items, env@, dv1, i) by {
                    lemma_succ_after_agree(items, statuses_of(dv1), statuses_of(dv0), i);
                    if i < idx {
                        assert(step_ok(items, env@, dv0, i));
                        assert(dv1[i] == dv0[i]);
                    } else {
                        assert(prereqs_met(
                            items[i].prerequisites.deep_view(),
                            succ_after(items, statuses_of(dv1), i),
                        ));
                    }
                }
                assert(statuses_of(dv1)[idx as int] == st);
                assert(succ_labels.deep_view() == succ_after(
                    items,
                    statuses_of(dv1),
                    idx + 1,
                ));
                lemma_tasks_lines_agree(items, dv1, dv0, idx as int);
                let tl = task_lines(items[idx as int], (idx + 1) as nat, dv1[idx as int]);
                assert(dv1[idx as int].status != ExecStatus::SKIP);
                assert(tl =~= (if items[idx as int].print_status {
                    seq![
                        LineV::Status {
                            status: st,
                            text: spec_status_text(items[idx as int], (idx + 1) as nat),
                        },
                    ]
                } else {
                    Seq::<LineV>::empty()
                }) + (if items[idx as int].print_output {
                    seq![LineV::Nominal { text: out_v }]
                } else {
                    Seq::<LineV>::empty()
                }));
                assert(lines.deep_view() =~= lines0 + tl);
                assert(tasks_lines(items, dv1, idx + 1) == tasks_lines(items, dv1, idx as int)
                    + tl);
                assert(all_lines(nansi_file.file_path@, items, dv1) =~= lines0 + tl);
                assert(lines.deep_view() == all_lines(nansi_file.file_path@, items, dv1));
                assert(call_ensures(spawn, (prog_snap, compiled_snap), oc_snap));
                assert(spawned_ok(items, env@, dv1, spawn));
            }
        }
        idx = idx + 1;
    }
    Ok(RunReport { lines, tasks, succ_labels })
}

} // verus!
