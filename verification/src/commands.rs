//! What the window's commands and its connection loop decide.
use vstd::prelude::*;
use crate::domain::{count_of, counts_of, DataStatus, Snapshot, TaskCounts, TaskStatus, TaskSummary};
use crate::task_registry::{find_index, find_task, lemma_find_index};
use crate::rollout_watcher::chars_opt;
use crate::text::{chars_of, copy_opt_string, has_prefix, starts_with, str_eq, string_of};

verus! {

/// A cached row as shown after a restart: its lifecycle is unknown until a live
/// source confirms it.
pub open spec fn unconfirmed_task(t: TaskSummary, r: TaskSummary) -> bool {
    &&& r.id == t.id
    &&& r.title == t.title
    &&& r.activity == t.activity
    &&& r.token_count == t.token_count
    &&& r.updated_at == t.updated_at
    &&& r.acknowledged == t.acknowledged
    &&& r.status == TaskStatus::Inactive
    &&& r.waiting_reason is None
    &&& r.approval_request_id is None
    &&& r.source is None
    &&& r.turn_id is None
    &&& r.received_at == 0
}

/// `r` is the cached snapshot `s` as published after a restart.
pub open spec fn unconfirmed(s: Snapshot, r: Snapshot) -> bool {
    &&& r.tasks@.len() == s.tasks@.len()
    &&& forall|i: int| 0 <= i < s.tasks@.len() ==> unconfirmed_task(s.tasks@[i], #[trigger] r.tasks@[i])
    &&& r.active_task_count == 0
    &&& r.task_counts == counts_of(r.tasks@)
    &&& r.status == DataStatus::Stale
    &&& r.error is Some && r.error->0@ == "已恢复历史数据，等待实时状态确认"@
    &&& r.source is Some && r.source->0@ == "cache-unconfirmed"@
    &&& r.changed_at == s.changed_at
    &&& r.fetched_at == s.fetched_at
    &&& r.quota_remaining_percent == s.quota_remaining_percent
    &&& r.quota_resets_at == s.quota_resets_at
    &&& r.five_hour_remaining_percent == s.five_hour_remaining_percent
    &&& r.five_hour_resets_at == s.five_hour_resets_at
    &&& r.plan == s.plan
    &&& r.reset_credits == s.reset_credits
    &&& r.today_tokens == s.today_tokens
    &&& r.usage_date == s.usage_date
    &&& r.history == s.history
    &&& r.history_cycle_key == s.history_cycle_key
    &&& r.previous_history == s.previous_history
    &&& r.previous_history_cycle_key == s.previous_history_cycle_key
    &&& r.hook_diagnostics == s.hook_diagnostics
    &&& r.schema_version == s.schema_version
}

/// The cached snapshot as published after a restart: quota and tokens carry over, but
/// no task is shown as live until a hook or the app-server says so.
pub fn unconfirmed_cache(cached: Snapshot) -> (r: Snapshot)
    requires
        cached.tasks@.len() <= u32::MAX,
    ensures
        unconfirmed(cached, r),
{
    let mut tasks: Vec<TaskSummary> = Vec::new();
    let mut i: usize = 0;
    while i < cached.tasks.len()
        invariant
            i <= cached.tasks.len(),
            tasks@.len() == i,
            forall|j: int| 0 <= j < i ==> unconfirmed_task(cached.tasks@[j], #[trigger] tasks@[j]),
        decreases cached.tasks.len() - i,
    {
        let t = &cached.tasks[i];
        tasks.push(
            TaskSummary {
                id: t.id.clone(),
                title: t.title.clone(),
                activity: copy_opt_string(&t.activity),
                waiting_reason: None,
                approval_request_id: None,
                status: TaskStatus::Inactive,
                token_count: t.token_count,
                updated_at: t.updated_at,
                acknowledged: t.acknowledged,
                source: None,
                turn_id: None,
                received_at: 0,
            },
        );
        i = i + 1;
    }
    let counts = TaskCounts::from_tasks(tasks.as_slice());
    Snapshot {
        tasks,
        active_task_count: 0,
        task_counts: counts,
        status: DataStatus::Stale,
        error: Some("已恢复历史数据，等待实时状态确认".to_owned()),
        source: Some("cache-unconfirmed".to_owned()),
        ..cached
    }
}

/// Where the answer to an approval goes: a waiting hook, or the app-server.
#[derive(Debug, PartialEq, Eq)]
pub enum ApprovalRoute {
    Hook(String),
    AppServer(String),
}

/// Why an approval cannot be answered.
pub open spec fn invalid_decision_message() -> Seq<char> {
    "批准决定无效"@
}

pub open spec fn no_request_message() -> Seq<char> {
    "任务当前没有待处理的批准请求"@
}

/// `r` is where the user's `decision` on the task `task_id` goes.
pub open spec fn approval_routed(tasks: Seq<TaskSummary>, task_id: Seq<char>, decision: Seq<char>, r: Result<
    ApprovalRoute,
    String,
>) -> bool {
    if !(decision == "accept"@ || decision == "decline"@) {
        r matches Err(m) && m@ == invalid_decision_message()
    } else {
        let req = match find_index(tasks, task_id) {
            Some(i) => tasks[i].approval_request_id,
            None => None,
        };
        match req {
            None => r matches Err(m) && m@ == no_request_message(),
            Some(id) => if has_prefix(id@, "hook:"@) {
                r matches Ok(ApprovalRoute::Hook(x)) && x@ == id@
            } else {
                r matches Ok(ApprovalRoute::AppServer(x)) && x@ == id@
            },
        }
    }
}

/// Where the user's decision on a task's approval request goes.
pub fn route_approval(tasks: &Vec<TaskSummary>, task_id: &str, decision: &str) -> (r: Result<ApprovalRoute, String>)
    ensures
        approval_routed(tasks@, task_id@, decision@, r),
{
    if !(str_eq(decision, "accept") || str_eq(decision, "decline")) {
        return Err("批准决定无效".to_owned());
    }
    proof {
        lemma_find_index(tasks@, task_id@);
    }
    let req = match find_task(tasks, task_id) {
        Some(i) => copy_opt_string(&tasks[i].approval_request_id),
        None => None,
    };
    match req {
        None => Err("任务当前没有待处理的批准请求".to_owned()),
        Some(id) => if starts_with(id.as_str(), "hook:") {
            Ok(ApprovalRoute::Hook(id))
        } else {
            Ok(ApprovalRoute::AppServer(id))
        },
    }
}

/// Seconds to wait before the next connection attempt: twice the last wait, at most 30.
pub fn next_retry_secs(last: u64) -> (r: u64)
    requires
        last <= u64::MAX / 2,
    ensures
        r == if 2 * last < 30 {
            2 * last
        } else {
            30
        },
{
    if 2 * last < 30 {
        2 * last
    } else {
        30
    }
}

/// `r` is `s` with a new status, error and nothing else changed.
pub open spec fn with_status(s: Snapshot, status: DataStatus, error: Seq<char>, r: Snapshot) -> bool {
    &&& r.status == status
    &&& r.error is Some && r.error->0@ == error
    &&& r.changed_at == s.changed_at
    &&& r.source == s.source
    &&& r.fetched_at == s.fetched_at
    &&& r.quota_remaining_percent == s.quota_remaining_percent
    &&& r.quota_resets_at == s.quota_resets_at
    &&& r.five_hour_remaining_percent == s.five_hour_remaining_percent
    &&& r.five_hour_resets_at == s.five_hour_resets_at
    &&& r.plan == s.plan
    &&& r.reset_credits == s.reset_credits
    &&& r.today_tokens == s.today_tokens
    &&& r.usage_date == s.usage_date
    &&& r.active_task_count == s.active_task_count
    &&& r.task_counts == s.task_counts
    &&& r.tasks == s.tasks
    &&& r.history == s.history
    &&& r.history_cycle_key == s.history_cycle_key
    &&& r.previous_history == s.previous_history
    &&& r.previous_history_cycle_key == s.previous_history_cycle_key
    &&& r.hook_diagnostics == s.hook_diagnostics
    &&& r.schema_version == s.schema_version
}

/// The snapshot shown after the app-server went away.
pub fn disconnected_snapshot(current: Snapshot) -> (r: Snapshot)
    ensures
        with_status(current, DataStatus::Stale, "Codex app-server 已断开，正在重连…"@, r),
{
    Snapshot { status: DataStatus::Stale, error: Some("Codex app-server 已断开，正在重连…".to_owned()), ..current }
}

/// The message shown when the app-server cannot be started.
pub open spec fn connect_failed_message(error: Seq<char>) -> Seq<char> {
    "无法连接 Codex app-server，正在重试… ("@ + error + ")"@
}

/// The snapshot shown when the app-server cannot be started, with the error's text.
pub fn connect_failed_snapshot(current: Snapshot, error: &str) -> (r: Snapshot)
    ensures
        with_status(current, DataStatus::Error, connect_failed_message(error@), r),
{
    let a = chars_of("无法连接 Codex app-server，正在重试… (");
    let b = chars_of(error);
    let mut v: Vec<char> = Vec::new();
    let mut i: usize = 0;
    while i < a.len()
        invariant
            i <= a.len(),
            v@ == a@.take(i as int),
        decreases a.len() - i,
    {
        v.push(a[i]);
        assert(a@.take(i + 1) =~= a@.take(i as int).push(a@[i as int]));
        i = i + 1;
    }
    assert(a@.take(a.len() as int) =~= a@);
    let mut j: usize = 0;
    while j < b.len()
        invariant
            j <= b.len(),
            v@ == a@ + b@.take(j as int),
        decreases b.len() - j,
    {
        v.push(b[j]);
        assert(b@.take(j + 1) =~= b@.take(j as int).push(b@[j as int]));
        assert(v@ =~= a@ + b@.take(j + 1));
        j = j + 1;
    }
    assert(b@.take(b.len() as int) =~= b@);
    v.push(')');
    proof {
        reveal_strlit(")");
    }
    assert(v@ =~= connect_failed_message(error@));
    Snapshot { status: DataStatus::Error, error: Some(string_of(v.as_slice())), ..current }
}

/// A snapshot read on the user's request, stamped with the time of the request.
pub fn manual_refresh_stamp(snapshot: Snapshot, at: i64) -> (r: Snapshot)
    ensures
        r.changed_at == Some(at),
        r.source is Some && r.source->0@ == "manual-refresh"@,
        r.status == snapshot.status,
        r.fetched_at == snapshot.fetched_at,
        r.quota_remaining_percent == snapshot.quota_remaining_percent,
        r.quota_resets_at == snapshot.quota_resets_at,
        r.five_hour_remaining_percent == snapshot.five_hour_remaining_percent,
        r.five_hour_resets_at == snapshot.five_hour_resets_at,
        r.plan == snapshot.plan,
        r.reset_credits == snapshot.reset_credits,
        r.today_tokens == snapshot.today_tokens,
        r.usage_date == snapshot.usage_date,
        r.active_task_count == snapshot.active_task_count,
        r.task_counts == snapshot.task_counts,
        r.tasks == snapshot.tasks,
        r.error == snapshot.error,
        r.history == snapshot.history,
        r.history_cycle_key == snapshot.history_cycle_key,
        r.previous_history == snapshot.previous_history,
        r.previous_history_cycle_key == snapshot.previous_history_cycle_key,
        r.hook_diagnostics == snapshot.hook_diagnostics,
        r.schema_version == snapshot.schema_version,
{
    Snapshot { changed_at: Some(at), source: Some("manual-refresh".to_owned()), ..snapshot }
}


// ---------------------------------------------------------------------------
// Which Codex binary to launch
// ---------------------------------------------------------------------------

/// A place to look for the Codex binary: the path `base`, with `join` appended to it
/// as a path component when there is one.
#[derive(Debug)]
pub struct BinaryCandidate {
    pub base: String,
    pub join: Option<String>,
}

/// A candidate as text: its base and the component appended to it.
pub open spec fn cand_view(c: BinaryCandidate) -> (Seq<char>, Option<Seq<char>>) {
    (c.base@, chars_opt(c.join))
}

pub open spec fn cand_views(s: Seq<BinaryCandidate>) -> Seq<(Seq<char>, Option<Seq<char>>)> {
    s.map_values(|c: BinaryCandidate| cand_view(c))
}

/// Where npm installs the Windows x64 binary of the Codex CLI, under `%APPDATA%`.
pub open spec fn npm_vendor_binary() -> Seq<char> {
    "npm/node_modules/@openai/codex/node_modules/@openai/codex-win32-x64/vendor/x86_64-pc-windows-msvc/bin/codex.exe"@
}

/// Each directory with the binary's file name appended.
pub open spec fn in_dirs(dirs: Seq<Seq<char>>, name: Seq<char>) -> Seq<(Seq<char>, Option<Seq<char>>)> {
    dirs.map_values(|d: Seq<char>| (d, Some(name)))
}

/// The places under the home directory where npm, the user's local tools and Volta
/// put the macOS binary.
pub open spec fn home_binaries(home: Seq<char>) -> Seq<(Seq<char>, Option<Seq<char>>)> {
    seq![
        (home, Some(".npm/node_modules/@openai/codex/node_modules/@openai/codex-darwin-arm64/vendor/aarch64-apple-darwin/bin/codex"@)),
        (home, Some(".npm/node_modules/@openai/codex/node_modules/@openai/codex-darwin-x64/vendor/x86_64-apple-darwin/bin/codex"@)),
        (home, Some(".npm-global/lib/node_modules/@openai/codex/node_modules/@openai/codex-darwin-arm64/vendor/aarch64-apple-darwin/bin/codex"@)),
        (home, Some(".npm-global/lib/node_modules/@openai/codex/node_modules/@openai/codex-darwin-x64/vendor/x86_64-apple-darwin/bin/codex"@)),
        (home, Some(".local/lib/node_modules/@openai/codex/node_modules/@openai/codex-darwin-arm64/vendor/aarch64-apple-darwin/bin/codex"@)),
        (home, Some(".local/lib/node_modules/@openai/codex/node_modules/@openai/codex-darwin-x64/vendor/x86_64-apple-darwin/bin/codex"@)),
        (home, Some(".local/bin/codex"@)),
        (home, Some(".volta/bin/codex"@)),
    ]
}

/// A single plain path when there is one.
pub open spec fn plain_opt(p: Option<Seq<char>>) -> Seq<(Seq<char>, Option<Seq<char>>)> {
    match p {
        Some(x) => seq![(x, None)],
        None => Seq::empty(),
    }
}

/// The places to look for the Codex binary, in the order they are tried. The path in
/// `CODEX_BINARY` comes first everywhere. On Windows the binary npm installed under
/// `%APPDATA%` comes next, then `codex.exe` in each `PATH` directory, then `codex.exe`
/// as it stands. On macOS `codex` in each `PATH` directory comes next, then the places
/// under the home directory, then Homebrew's and the system's. Elsewhere `codex` in
/// each `PATH` directory, then `codex` as it stands.
pub open spec fn candidate_list(
    codex_binary: Option<Seq<char>>,
    path_dirs: Seq<Seq<char>>,
    app_data: Option<Seq<char>>,
    home: Option<Seq<char>>,
    windows: bool,
    macos: bool,
) -> Seq<(Seq<char>, Option<Seq<char>>)> {
    let own = plain_opt(codex_binary);
    if windows {
        own + match app_data {
            Some(a) => seq![(a, Some(npm_vendor_binary()))],
            None => Seq::empty(),
        } + in_dirs(path_dirs, "codex.exe"@) + seq![("codex.exe"@, None)]
    } else if macos {
        own + in_dirs(path_dirs, "codex"@) + match home {
            Some(h) => home_binaries(h),
            None => Seq::empty(),
        } + seq![("/opt/homebrew/bin/codex"@, None), ("/usr/local/bin/codex"@, None), ("/usr/bin/codex"@, None)]
    } else {
        own + in_dirs(path_dirs, "codex"@) + seq![("codex"@, None)]
    }
}

fn push_plain(r: &mut Vec<BinaryCandidate>, path: String)
    ensures
        cand_views(final(r)@) == cand_views(old(r)@).push((path@, None)),
{
    r.push(BinaryCandidate { base: path, join: None });
    assert(cand_views(r@) =~= cand_views(old(r)@).push((path@, None)));
}

fn push_joined(r: &mut Vec<BinaryCandidate>, base: String, join: &str)
    ensures
        cand_views(final(r)@) == cand_views(old(r)@).push((base@, Some(join@))),
{
    r.push(BinaryCandidate { base, join: Some(join.to_owned()) });
    assert(cand_views(r@) =~= cand_views(old(r)@).push((base@, Some(join@))));
}

fn push_dirs(r: &mut Vec<BinaryCandidate>, dirs: &Vec<String>, name: &str)
    ensures
        cand_views(final(r)@) == cand_views(old(r)@) + in_dirs(dirs@.map_values(|s: String| s@), name@),
{
    let ghost start = cand_views(r@);
    let ghost ds = dirs@.map_values(|s: String| s@);
    let mut i: usize = 0;
    while i < dirs.len()
        invariant
            i <= dirs.len(),
            ds == dirs@.map_values(|s: String| s@),
            cand_views(r@) == start + in_dirs(ds.take(i as int), name@),
        decreases dirs.len() - i,
    {
        push_joined(r, dirs[i].clone(), name);
        assert(in_dirs(ds.take(i + 1), name@) =~= in_dirs(ds.take(i as int), name@).push((ds[i as int], Some(name@))));
        assert(start + in_dirs(ds.take(i + 1), name@) =~= (start + in_dirs(ds.take(i as int), name@)).push(
            (dirs@[i as int]@, Some(name@)),
        ));
        i = i + 1;
    }
    assert(ds.take(dirs.len() as int) =~= ds);
}

/// The places to look for the Codex binary, in the order `candidate_list` gives:
/// `codex_binary` is the `CODEX_BINARY` setting, `path_dirs` the directories of
/// `PATH`, `app_data` and `home` the `APPDATA` and `HOME` settings.
pub fn codex_binary_candidates(
    codex_binary: Option<String>,
    path_dirs: Vec<String>,
    app_data: Option<String>,
    home: Option<String>,
    windows: bool,
    macos: bool,
) -> (r: Vec<BinaryCandidate>)
    ensures
        cand_views(r@) == candidate_list(
            chars_opt(codex_binary),
            path_dirs@.map_values(|s: String| s@),
            chars_opt(app_data),
            chars_opt(home),
            windows,
            macos,
        ),
{
    let mut r: Vec<BinaryCandidate> = Vec::new();
    assert(cand_views(r@) =~= Seq::empty());
    match codex_binary {
        Some(c) => push_plain(&mut r, c),
        None => {},
    }
    let ghost own = cand_views(r@);
    assert(own =~= plain_opt(chars_opt(codex_binary)));
    let ghost ds = path_dirs@.map_values(|s: String| s@);
    if windows {
        match app_data {
            Some(a) => push_joined(
                &mut r,
                a,
                "npm/node_modules/@openai/codex/node_modules/@openai/codex-win32-x64/vendor/x86_64-pc-windows-msvc/bin/codex.exe",
            ),
            None => {},
        }
        let ghost mid = cand_views(r@);
        push_dirs(&mut r, &path_dirs, "codex.exe");
        push_plain(&mut r, "codex.exe".to_owned());
        proof {
            reveal_strlit("npm/node_modules/@openai/codex/node_modules/@openai/codex-win32-x64/vendor/x86_64-pc-windows-msvc/bin/codex.exe");
            let npm: Seq<(Seq<char>, Option<Seq<char>>)> = match chars_opt(app_data) {
                Some(a) => seq![(a, Some(npm_vendor_binary()))],
                None => Seq::empty(),
            };
            assert(mid =~= own + npm);
        }
    } else if macos {
        push_dirs(&mut r, &path_dirs, "codex");
        let ghost mid = cand_views(r@);
        match home {
            Some(h) => {
                push_joined(&mut r, h.clone(), ".npm/node_modules/@openai/codex/node_modules/@openai/codex-darwin-arm64/vendor/aarch64-apple-darwin/bin/codex");
                push_joined(&mut r, h.clone(), ".npm/node_modules/@openai/codex/node_modules/@openai/codex-darwin-x64/vendor/x86_64-apple-darwin/bin/codex");
                push_joined(&mut r, h.clone(), ".npm-global/lib/node_modules/@openai/codex/node_modules/@openai/codex-darwin-arm64/vendor/aarch64-apple-darwin/bin/codex");
                push_joined(&mut r, h.clone(), ".npm-global/lib/node_modules/@openai/codex/node_modules/@openai/codex-darwin-x64/vendor/x86_64-apple-darwin/bin/codex");
                push_joined(&mut r, h.clone(), ".local/lib/node_modules/@openai/codex/node_modules/@openai/codex-darwin-arm64/vendor/aarch64-apple-darwin/bin/codex");
                push_joined(&mut r, h.clone(), ".local/lib/node_modules/@openai/codex/node_modules/@openai/codex-darwin-x64/vendor/x86_64-apple-darwin/bin/codex");
                push_joined(&mut r, h.clone(), ".local/bin/codex");
                push_joined(&mut r, h, ".volta/bin/codex");
                assert(cand_views(r@) =~= mid + home_binaries(h@));
            },
            None => {
                assert(cand_views(r@) =~= mid + Seq::<(Seq<char>, Option<Seq<char>>)>::empty());
            },
        }
        let ghost after_home = cand_views(r@);
        push_plain(&mut r, "/opt/homebrew/bin/codex".to_owned());
        push_plain(&mut r, "/usr/local/bin/codex".to_owned());
        push_plain(&mut r, "/usr/bin/codex".to_owned());
        assert(cand_views(r@) =~= after_home + seq![
            ("/opt/homebrew/bin/codex"@, None),
            ("/usr/local/bin/codex"@, None),
            ("/usr/bin/codex"@, None),
        ]);
    } else {
        push_dirs(&mut r, &path_dirs, "codex");
        push_plain(&mut r, "codex".to_owned());
    }
    r
}

/// The index of the first place that holds a file, if any does.
pub open spec fn first_true(exists: Seq<bool>) -> Option<int>
    decreases exists.len(),
{
    if exists.len() == 0 {
        None
    } else {
        match first_true(exists.drop_last()) {
            Some(i) => Some(i),
            None => if exists.last() {
                Some(exists.len() - 1)
            } else {
                None
            },
        }
    }
}

proof fn lemma_first_true(exists: Seq<bool>)
    ensures
        match first_true(exists) {
            Some(i) => 0 <= i < exists.len() && exists[i] && forall|j: int| 0 <= j < i ==> !exists[j],
            None => forall|j: int| 0 <= j < exists.len() ==> !exists[j],
        },
    decreases exists.len(),
{
    if exists.len() > 0 {
        let d = exists.drop_last();
        lemma_first_true(d);
        assert forall|j: int| 0 <= j < d.len() implies d[j] == exists[j] by {}
        assert(exists[exists.len() - 1] == exists.last());
    }
}

/// The binary to launch: the first candidate that `exists` marks as a file, else
/// `codex.exe`. `exists[i]` says whether candidate `i` is a file.
pub fn first_existing(candidates: &Vec<BinaryCandidate>, exists: &Vec<bool>) -> (r: BinaryCandidate)
    requires
        candidates.len() == exists.len(),
    ensures
        cand_view(r) == match first_true(exists@) {
            Some(i) => cand_view(candidates@[i]),
            None => ("codex.exe"@, None),
        },
{
    proof {
        lemma_first_true(exists@);
    }
    let mut i: usize = 0;
    while i < exists.len()
        invariant
            i <= exists.len(),
            candidates.len() == exists.len(),
            forall|j: int| 0 <= j < i ==> !exists@[j],
            match first_true(exists@) {
                Some(k) => 0 <= k < exists.len() && exists@[k] && forall|j: int| 0 <= j < k ==> !exists@[j],
                None => forall|j: int| 0 <= j < exists.len() ==> !exists@[j],
            },
        decreases exists.len() - i,
    {
        if exists[i] {
            proof {
                match first_true(exists@) {
                    Some(k) => {
                        if k < i {
                            assert(!exists@[k]);
                        }
                        if k > i {
                            assert(!exists@[i as int]);
                        }
                    },
                    None => {
                        assert(!exists@[i as int]);
                    },
                }
            }
            return BinaryCandidate {
                base: candidates[i].base.clone(),
                join: copy_opt_string(&candidates[i].join),
            };
        }
        i = i + 1;
    }
    BinaryCandidate { base: "codex.exe".to_owned(), join: None }
}

} // verus!
