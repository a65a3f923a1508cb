//! The data the floating window shows: tasks, quota snapshots and their states.
use vstd::prelude::*;

verus! {

/// Version stamped on every snapshot that the store publishes.
pub const SNAPSHOT_SCHEMA_VERSION: &'static str = "1.1";

/// Lifecycle state of a Codex task as shown by the floating window.
#[derive(Debug, Clone, Copy, PartialEq, Eq, Structural)]
pub enum TaskStatus {
    Inactive,
    NeedsAction,
    Running,
    Completed,
}

/// How trustworthy the quota data of a snapshot is.
#[derive(Debug, Clone, Copy, PartialEq, Eq, Structural)]
pub enum DataStatus {
    Fresh,
    Stale,
    Error,
    Unauthenticated,
}

/// Raw lifecycle flags reported for a task.
#[derive(Debug, Clone, PartialEq, Eq)]
pub struct TaskEvent {
    pub id: String,
    pub title: String,
    pub waiting_reason: Option<String>,
    pub approval_request_id: Option<String>,
    pub waiting_for_user: bool,
    pub running: bool,
    pub completed: bool,
    pub token_count: Option<u64>,
    pub updated_at: i64,
}

/// One row of the task list.
#[derive(Debug, Clone, PartialEq, Eq)]
pub struct TaskSummary {
    pub id: String,
    pub title: String,
    pub activity: Option<String>,
    pub waiting_reason: Option<String>,
    pub approval_request_id: Option<String>,
    pub status: TaskStatus,
    pub token_count: Option<u64>,
    pub updated_at: i64,
    pub acknowledged: bool,
    pub source: Option<String>,
    pub turn_id: Option<String>,
    pub received_at: i64,
}

/// The last hook delivery seen by the window.
#[derive(Debug, Clone, PartialEq, Eq)]
pub struct HookDiagnostic {
    pub event: String,
    pub session_id: Option<String>,
    pub turn_id: Option<String>,
    pub received_at: i64,
    pub http_status: Option<u16>,
    pub delivered: bool,
    pub error: Option<String>,
}

#[derive(Debug, Clone, PartialEq, Eq)]
pub struct HookDiagnostics {
    pub last: Option<HookDiagnostic>,
    pub received_count: u64,
}

/// One hourly sample of the weekly quota.
#[derive(Debug, Clone, Copy, PartialEq, Eq, Structural)]
pub struct UsagePoint {
    pub at: i64,
    pub quota_remaining_percent: Option<u8>,
}

/// Number of shown tasks in each state.
#[derive(Debug, Clone, Copy, PartialEq, Eq, Structural)]
pub struct TaskCounts {
    pub none: u32,
    pub needs_action: u32,
    pub running: u32,
    pub completed: u32,
}

/// Everything the window and the paired phone display.
#[derive(Debug, Clone, PartialEq, Eq)]
pub struct Snapshot {
    pub status: DataStatus,
    pub changed_at: Option<i64>,
    pub source: Option<String>,
    pub fetched_at: Option<i64>,
    pub quota_remaining_percent: Option<u8>,
    pub quota_resets_at: Option<i64>,
    pub five_hour_remaining_percent: Option<u8>,
    pub five_hour_resets_at: Option<i64>,
    pub plan: Option<String>,
    pub reset_credits: Option<u64>,
    pub today_tokens: Option<u64>,
    pub usage_date: Option<String>,
    pub active_task_count: u32,
    pub task_counts: TaskCounts,
    pub tasks: Vec<TaskSummary>,
    pub error: Option<String>,
    pub history: Vec<UsagePoint>,
    pub history_cycle_key: Option<i64>,
    pub previous_history: Vec<UsagePoint>,
    pub previous_history_cycle_key: Option<i64>,
    pub hook_diagnostics: HookDiagnostics,
    pub schema_version: String,
}

/// `a.or(b)`.
pub open spec fn or_opt<T>(a: Option<T>, b: Option<T>) -> Option<T> {
    match a {
        Some(_) => a,
        None => b,
    }
}

pub open spec fn max_i64(a: i64, b: i64) -> i64 {
    if a >= b {
        a
    } else {
        b
    }
}

pub fn max_of(a: i64, b: i64) -> (r: i64)
    ensures
        r == max_i64(a, b),
{
    if a >= b {
        a
    } else {
        b
    }
}

/// `a.saturating_sub(b)` on `i64`.
pub open spec fn sat_sub(a: i64, b: i64) -> int {
    if a - b > i64::MAX {
        i64::MAX as int
    } else if a - b < i64::MIN {
        i64::MIN as int
    } else {
        a - b
    }
}

pub fn sat_sub_exec(a: i64, b: i64) -> (r: i64)
    ensures
        r == sat_sub(a, b),
{
    let d = a as i128 - b as i128;
    if d > i64::MAX as i128 {
        i64::MAX
    } else if d < i64::MIN as i128 {
        i64::MIN
    } else {
        d as i64
    }
}

pub fn copy_opt_u64(a: &Option<u64>) -> (r: Option<u64>)
    ensures
        r == *a,
{
    match a {
        Some(v) => Some(*v),
        None => None,
    }
}

impl TaskSummary {
    /// A field-by-field copy.
    pub fn duplicate(&self) -> (r: Self)
        ensures
            r == *self,
    {
        TaskSummary {
            id: self.id.clone(),
            title: self.title.clone(),
            activity: crate::text::copy_opt_string(&self.activity),
            waiting_reason: crate::text::copy_opt_string(&self.waiting_reason),
            approval_request_id: crate::text::copy_opt_string(&self.approval_request_id),
            status: self.status,
            token_count: self.token_count,
            updated_at: self.updated_at,
            acknowledged: self.acknowledged,
            source: crate::text::copy_opt_string(&self.source),
            turn_id: crate::text::copy_opt_string(&self.turn_id),
            received_at: self.received_at,
        }
    }
}

/// Copies a list of tasks, row by row.
pub fn copy_tasks(tasks: &[TaskSummary]) -> (r: Vec<TaskSummary>)
    ensures
        r@ == tasks@,
{
    let mut r: Vec<TaskSummary> = Vec::new();
    let mut i: usize = 0;
    while i < tasks.len()
        invariant
            i <= tasks.len(),
            r@ == tasks@.take(i as int),
        decreases tasks.len() - i,
    {
        r.push(tasks[i].duplicate());
        assert(tasks@.take(i as int).push(tasks@[i as int]) =~= tasks@.take(i + 1));
        i = i + 1;
    }
    assert(tasks@.take(tasks.len() as int) =~= tasks@);
    r
}

impl HookDiagnostics {
    pub fn new() -> (r: Self)
        ensures
            r.last is None,
            r.received_count == 0,
    {
        HookDiagnostics { last: None, received_count: 0 }
    }
}

impl TaskCounts {
    pub fn zero() -> (r: Self)
        ensures
            r == (TaskCounts { none: 0, needs_action: 0, running: 0, completed: 0 }),
    {
        TaskCounts { none: 0, needs_action: 0, running: 0, completed: 0 }
    }
}

/// The status that a set of lifecycle flags stands for: waiting beats running,
/// running beats completed.
pub open spec fn status_of_flags(waiting_for_user: bool, running: bool, completed: bool) -> TaskStatus {
    if waiting_for_user {
        TaskStatus::NeedsAction
    } else if running {
        TaskStatus::Running
    } else if completed {
        TaskStatus::Completed
    } else {
        TaskStatus::Inactive
    }
}

pub fn map_task_status(event: &TaskEvent) -> (status: TaskStatus)
    ensures
        status == status_of_flags(event.waiting_for_user, event.running, event.completed),
{
    if event.waiting_for_user {
        TaskStatus::NeedsAction
    } else if event.running {
        TaskStatus::Running
    } else if event.completed {
        TaskStatus::Completed
    } else {
        TaskStatus::Inactive
    }
}

/// Seconds after which a successful read no longer counts as fresh.
pub open spec fn stale_after() -> int {
    900
}

pub open spec fn spec_snapshot_status(
    last_success: Option<i64>,
    now: i64,
    has_error: bool,
    authenticated: bool,
) -> DataStatus {
    if !authenticated {
        DataStatus::Unauthenticated
    } else if last_success is None {
        if has_error {
            DataStatus::Error
        } else {
            DataStatus::Stale
        }
    } else if now - last_success->0 > stale_after() {
        DataStatus::Stale
    } else if has_error {
        DataStatus::Error
    } else {
        DataStatus::Fresh
    }
}

pub fn snapshot_status(last_success: Option<i64>, now: i64, has_error: bool, authenticated: bool) -> (r:
    DataStatus)
    requires
        authenticated && last_success is Some ==> i64::MIN <= now - last_success->0 <= i64::MAX,
    ensures
        r == spec_snapshot_status(last_success, now, has_error, authenticated),
{
    if !authenticated {
        return DataStatus::Unauthenticated;
    }
    match last_success {
        None => if has_error {
            DataStatus::Error
        } else {
            DataStatus::Stale
        },
        Some(last) => if now - last > 900 {
            DataStatus::Stale
        } else if has_error {
            DataStatus::Error
        } else {
            DataStatus::Fresh
        },
    }
}

/// A task shows in the counts unless it is a completed task the user has already seen.
pub open spec fn is_counted(t: TaskSummary) -> bool {
    !(t.acknowledged && t.status == TaskStatus::Completed)
}

/// How many shown tasks of `tasks` have status `st`.
pub open spec fn count_of(tasks: Seq<TaskSummary>, st: TaskStatus) -> nat
    decreases tasks.len(),
{
    if tasks.len() == 0 {
        0
    } else {
        count_of(tasks.drop_last(), st) + if is_counted(tasks.last()) && tasks.last().status == st {
            1nat
        } else {
            0nat
        }
    }
}

pub open spec fn counts_of(tasks: Seq<TaskSummary>) -> TaskCounts {
    TaskCounts {
        none: count_of(tasks, TaskStatus::Inactive) as u32,
        needs_action: count_of(tasks, TaskStatus::NeedsAction) as u32,
        running: count_of(tasks, TaskStatus::Running) as u32,
        completed: count_of(tasks, TaskStatus::Completed) as u32,
    }
}

pub proof fn lemma_count_of_bound(tasks: Seq<TaskSummary>, st: TaskStatus)
    ensures
        count_of(tasks, st) <= tasks.len(),
    decreases tasks.len(),
{
    if tasks.len() > 0 {
        lemma_count_of_bound(tasks.drop_last(), st);
    }
}

impl TaskCounts {
    pub fn from_tasks(tasks: &[TaskSummary]) -> (counts: Self)
        requires
            tasks@.len() <= u32::MAX,
        ensures
            counts == counts_of(tasks@),
            counts.none == count_of(tasks@, TaskStatus::Inactive),
            counts.needs_action == count_of(tasks@, TaskStatus::NeedsAction),
            counts.running == count_of(tasks@, TaskStatus::Running),
            counts.completed == count_of(tasks@, TaskStatus::Completed),
    {
        let mut counts = TaskCounts::zero();
        let mut i: usize = 0;
        while i < tasks.len()
            invariant
                i <= tasks@.len() <= u32::MAX,
                counts.none == count_of(tasks@.take(i as int), TaskStatus::Inactive),
                counts.needs_action == count_of(tasks@.take(i as int), TaskStatus::NeedsAction),
                counts.running == count_of(tasks@.take(i as int), TaskStatus::Running),
                counts.completed == count_of(tasks@.take(i as int), TaskStatus::Completed),
            decreases tasks.len() - i,
        {
            let ghost prev = tasks@.take(i as int);
            assert(tasks@.take(i + 1).drop_last() =~= prev);
            proof {
                lemma_count_of_bound(prev, TaskStatus::Inactive);
                lemma_count_of_bound(prev, TaskStatus::NeedsAction);
                lemma_count_of_bound(prev, TaskStatus::Running);
                lemma_count_of_bound(prev, TaskStatus::Completed);
            }
            let task = &tasks[i];
            if !(task.acknowledged && task.status == TaskStatus::Completed) {
                match task.status {
                    TaskStatus::Inactive => counts.none = counts.none + 1,
                    TaskStatus::NeedsAction => counts.needs_action = counts.needs_action + 1,
                    TaskStatus::Running => counts.running = counts.running + 1,
                    TaskStatus::Completed => counts.completed = counts.completed + 1,
                }
            }
            i = i + 1;
        }
        assert(tasks@.take(tasks.len() as int) =~= tasks@);
        counts
    }
}


pub fn copy_points(points: &[UsagePoint]) -> (r: Vec<UsagePoint>)
    ensures
        r@ == points@,
{
    let mut r: Vec<UsagePoint> = Vec::new();
    let mut i: usize = 0;
    while i < points.len()
        invariant
            i <= points.len(),
            r@ == points@.take(i as int),
        decreases points.len() - i,
    {
        r.push(points[i]);
        assert(points@.take(i as int).push(points@[i as int]) =~= points@.take(i + 1));
        i = i + 1;
    }
    assert(points@.take(points.len() as int) =~= points@);
    r
}

impl HookDiagnostic {
    pub fn duplicate(&self) -> (r: Self)
        ensures
            r == *self,
    {
        HookDiagnostic {
            event: self.event.clone(),
            session_id: crate::text::copy_opt_string(&self.session_id),
            turn_id: crate::text::copy_opt_string(&self.turn_id),
            received_at: self.received_at,
            http_status: self.http_status,
            delivered: self.delivered,
            error: crate::text::copy_opt_string(&self.error),
        }
    }
}

impl HookDiagnostics {
    pub fn duplicate(&self) -> (r: Self)
        ensures
            r == *self,
    {
        HookDiagnostics {
            last: match &self.last {
                Some(d) => Some(d.duplicate()),
                None => None,
            },
            received_count: self.received_count,
        }
    }
}

/// Two snapshots hold the same values (lists compared element by element).
pub open spec fn same_snapshot(a: Snapshot, b: Snapshot) -> bool {
    &&& a.status == b.status
    &&& a.changed_at == b.changed_at
    &&& a.source == b.source
    &&& a.fetched_at == b.fetched_at
    &&& a.quota_remaining_percent == b.quota_remaining_percent
    &&& a.quota_resets_at == b.quota_resets_at
    &&& a.five_hour_remaining_percent == b.five_hour_remaining_percent
    &&& a.five_hour_resets_at == b.five_hour_resets_at
    &&& a.plan == b.plan
    &&& a.reset_credits == b.reset_credits
    &&& a.today_tokens == b.today_tokens
    &&& a.usage_date == b.usage_date
    &&& a.active_task_count == b.active_task_count
    &&& a.task_counts == b.task_counts
    &&& a.tasks@ == b.tasks@
    &&& a.error == b.error
    &&& a.history@ == b.history@
    &&& a.history_cycle_key == b.history_cycle_key
    &&& a.previous_history@ == b.previous_history@
    &&& a.previous_history_cycle_key == b.previous_history_cycle_key
    &&& a.hook_diagnostics == b.hook_diagnostics
    &&& a.schema_version == b.schema_version
}

impl Snapshot {
    /// A field-by-field copy.
    pub fn duplicate(&self) -> (r: Self)
        ensures
            same_snapshot(r, *self),
    {
        Snapshot {
            status: self.status,
            changed_at: self.changed_at,
            source: crate::text::copy_opt_string(&self.source),
            fetched_at: self.fetched_at,
            quota_remaining_percent: self.quota_remaining_percent,
            quota_resets_at: self.quota_resets_at,
            five_hour_remaining_percent: self.five_hour_remaining_percent,
            five_hour_resets_at: self.five_hour_resets_at,
            plan: crate::text::copy_opt_string(&self.plan),
            reset_credits: self.reset_credits,
            today_tokens: self.today_tokens,
            usage_date: crate::text::copy_opt_string(&self.usage_date),
            active_task_count: self.active_task_count,
            task_counts: self.task_counts,
            tasks: copy_tasks(self.tasks.as_slice()),
            error: crate::text::copy_opt_string(&self.error),
            history: copy_points(self.history.as_slice()),
            history_cycle_key: self.history_cycle_key,
            previous_history: copy_points(self.previous_history.as_slice()),
            previous_history_cycle_key: self.previous_history_cycle_key,
            hook_diagnostics: self.hook_diagnostics.duplicate(),
            schema_version: self.schema_version.clone(),
        }
    }
}

/// Tasks that are running or waiting for the user.
pub open spec fn active_count(tasks: Seq<TaskSummary>) -> nat
    decreases tasks.len(),
{
    if tasks.len() == 0 {
        0
    } else {
        active_count(tasks.drop_last()) + if tasks.last().status == TaskStatus::Running
            || tasks.last().status == TaskStatus::NeedsAction {
            1nat
        } else {
            0nat
        }
    }
}

/// `tasks.iter().filter(running or waiting).count() as u32`.
pub fn count_active(tasks: &[TaskSummary]) -> (r: u32)
    ensures
        r == active_count(tasks@) as u32,
{
    let mut n: usize = 0;
    let mut i: usize = 0;
    while i < tasks.len()
        invariant
            i <= tasks.len(),
            n == active_count(tasks@.take(i as int)),
            n <= i,
        decreases tasks.len() - i,
    {
        assert(tasks@.take(i + 1).drop_last() =~= tasks@.take(i as int));
        if tasks[i].status == TaskStatus::Running || tasks[i].status == TaskStatus::NeedsAction {
            n = n + 1;
        }
        i = i + 1;
    }
    assert(tasks@.take(tasks.len() as int) =~= tasks@);
    n as u32
}
} // verus!
