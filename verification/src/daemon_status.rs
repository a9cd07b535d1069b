//! Daemon health: task and model summaries, health grading and status text.

use vstd::prelude::*;
use crate::text::{decimal, join, join_strings, push_decimal, str_eq};

verus! {

/// Overall daemon health, from best to worst.
#[derive(Debug, Clone, Copy, PartialEq, Eq, Structural)]
pub enum HealthStatus {
    Healthy,
    Degraded,
    Unhealthy,
}

/// How bad a status is: 0 for healthy, 1 for degraded, 2 for unhealthy.
pub open spec fn severity(s: HealthStatus) -> nat {
    match s {
        HealthStatus::Healthy => 0,
        HealthStatus::Degraded => 1,
        HealthStatus::Unhealthy => 2,
    }
}

/// The lower-case label of a status.
pub open spec fn status_label(s: HealthStatus) -> Seq<char> {
    match s {
        HealthStatus::Healthy => "healthy"@,
        HealthStatus::Degraded => "degraded"@,
        HealthStatus::Unhealthy => "unhealthy"@,
    }
}

/// The worse of two statuses; the first one on a tie.
pub open spec fn worse_status(a: HealthStatus, b: HealthStatus) -> HealthStatus {
    if severity(a) >= severity(b) { a } else { b }
}

fn health_severity(status: &HealthStatus) -> (res: u8)
    ensures
        res == severity(*status),
{
    match status {
        HealthStatus::Healthy => 0,
        HealthStatus::Degraded => 1,
        HealthStatus::Unhealthy => 2,
    }
}

/// The worse of two statuses, the first on a tie.
pub fn max_health_status(a: &HealthStatus, b: &HealthStatus) -> (res: HealthStatus)
    ensures
        res == worse_status(*a, *b),
{
    if health_severity(a) >= health_severity(b) {
        *a
    } else {
        *b
    }
}

/// The label of `status`.
pub fn health_status_label(status: &HealthStatus) -> (res: &'static str)
    ensures
        res@ == status_label(*status),
{
    match status {
        HealthStatus::Healthy => "healthy",
        HealthStatus::Degraded => "degraded",
        HealthStatus::Unhealthy => "unhealthy",
    }
}

/// Task counts by state.
#[derive(Debug, Clone, Copy, PartialEq, Eq, Structural)]
pub struct TaskSummary {
    pub total: usize,
    pub chatting: usize,
    pub ready: usize,
    pub submitting: usize,
    pub awaiting_merge: usize,
    pub merged: usize,
    pub stopped: usize,
}

impl Default for TaskSummary {
    fn default() -> (res: Self)
        ensures
            res == (TaskSummary { total: 0, chatting: 0, ready: 0, submitting: 0, awaiting_merge: 0, merged: 0, stopped: 0 }),
    {
        TaskSummary { total: 0, chatting: 0, ready: 0, submitting: 0, awaiting_merge: 0, merged: 0, stopped: 0 }
    }
}

/// The sum of all counts.
pub open spec fn sum_counts(s: Seq<(String, usize)>) -> nat
    decreases s.len(),
{
    if s.len() == 0 {
        0
    } else {
        sum_counts(s.drop_last()) + s.last().1 as nat
    }
}

/// The count of the last entry named `name`, or 0 when there is none.
pub open spec fn last_count(s: Seq<(String, usize)>, name: Seq<char>) -> nat
    decreases s.len(),
{
    if s.len() == 0 {
        0
    } else if s.last().0@ == name {
        s.last().1 as nat
    } else {
        last_count(s.drop_last(), name)
    }
}

/// The summary of a list of (state, count) pairs.
pub open spec fn summary_of(s: Seq<(String, usize)>) -> TaskSummary {
    TaskSummary {
        total: sum_counts(s) as usize,
        chatting: last_count(s, "chatting"@) as usize,
        ready: last_count(s, "ready"@) as usize,
        submitting: last_count(s, "submitting"@) as usize,
        awaiting_merge: last_count(s, "awaiting_merge"@) as usize,
        merged: last_count(s, "merged"@) as usize,
        stopped: last_count(s, "stopped"@) as usize,
    }
}

proof fn lemma_prefix_sum_bounded(s: Seq<(String, usize)>, i: int)
    requires
        0 <= i <= s.len(),
    ensures
        sum_counts(s.subrange(0, i)) <= sum_counts(s),
    decreases s.len() - i,
{
    if i < s.len() {
        lemma_prefix_sum_bounded(s, i + 1);
        assert(s.subrange(0, i + 1).drop_last() =~= s.subrange(0, i));
    } else {
        assert(s.subrange(0, i) =~= s);
    }
}

proof fn lemma_last_count_bounded(s: Seq<(String, usize)>, name: Seq<char>)
    ensures
        last_count(s, name) <= usize::MAX,
    decreases s.len(),
{
    if s.len() > 0 {
        lemma_last_count_bounded(s.drop_last(), name);
    }
}

/// A state listed once counts with its own entry's count.
pub proof fn lemma_last_count_single(s: Seq<(String, usize)>, name: Seq<char>, k: int)
    requires
        0 <= k < s.len(),
        s[k].0@ == name,
        forall|j: int| 0 <= j < s.len() && j != k ==> (#[trigger] s[j]).0@ != name,
    ensures
        last_count(s, name) == s[k].1,
    decreases s.len(),
{
    if k < s.len() - 1 {
        assert forall|j: int| 0 <= j < s.drop_last().len() && j != k implies (#[trigger] s.drop_last()[j]).0@ != name by {
            assert(s.drop_last()[j] == s[j]);
        }
        assert(s.last() == s[s.len() - 1]);
        lemma_last_count_single(s.drop_last(), name, k);
    }
}

/// A state that is not listed counts zero.
pub proof fn lemma_last_count_absent(s: Seq<(String, usize)>, name: Seq<char>)
    requires
        forall|j: int| 0 <= j < s.len() ==> (#[trigger] s[j]).0@ != name,
    ensures
        last_count(s, name) == 0,
    decreases s.len(),
{
    if s.len() > 0 {
        assert forall|j: int| 0 <= j < s.drop_last().len() implies (#[trigger] s.drop_last()[j]).0@ != name by {
            assert(s.drop_last()[j] == s[j]);
        }
        assert(s.last() == s[s.len() - 1]);
        lemma_last_count_absent(s.drop_last(), name);
    }
}

impl TaskSummary {
    /// Sums every count into `total`; each known state takes the count of
    /// its last entry. Unknown states only add to the total.
    pub fn from_counts(states: &[(String, usize)]) -> (res: Self)
        requires
            sum_counts(states@) <= usize::MAX,
        ensures
            res == summary_of(states@),
    {
        let mut summary = TaskSummary::default();
        let mut i: usize = 0;
        while i < states.len()
            invariant
                i <= states@.len(),
                sum_counts(states@) <= usize::MAX,
                summary == summary_of(states@.subrange(0, i as int)),
            decreases states@.len() - i,
        {
            proof {
                reveal_strlit("chatting");
                reveal_strlit("ready");
                reveal_strlit("submitting");
                reveal_strlit("awaiting_merge");
                reveal_strlit("merged");
                reveal_strlit("stopped");
                assert("chatting"@.len() == 8 && "ready"@.len() == 5 && "submitting"@.len() == 10);
                assert("awaiting_merge"@.len() == 14 && "merged"@.len() == 6 && "stopped"@.len() == 7);
                lemma_prefix_sum_bounded(states@, i + 1);
            }
            let ghost pre = states@.subrange(0, i as int);
            let ghost next = states@.subrange(0, i + 1);
            assert(next.drop_last() =~= pre);
            assert(next.last() == states@[i as int]);
            proof {
                lemma_last_count_bounded(pre, "chatting"@);
                lemma_last_count_bounded(pre, "ready"@);
                lemma_last_count_bounded(pre, "submitting"@);
                lemma_last_count_bounded(pre, "awaiting_merge"@);
                lemma_last_count_bounded(pre, "merged"@);
                lemma_last_count_bounded(pre, "stopped"@);
            }
            let (state, count) = &states[i];
            summary.total = summary.total + *count;
            if str_eq(state.as_str(), "chatting") {
                summary.chatting = *count;
            } else if str_eq(state.as_str(), "ready") {
                summary.ready = *count;
            } else if str_eq(state.as_str(), "submitting") {
                summary.submitting = *count;
            } else if str_eq(state.as_str(), "awaiting_merge") {
                summary.awaiting_merge = *count;
            } else if str_eq(state.as_str(), "merged") {
                summary.merged = *count;
            } else if str_eq(state.as_str(), "stopped") {
                summary.stopped = *count;
            }
            i = i + 1;
        }
        assert(states@.subrange(0, states@.len() as int) =~= states@);
        summary
    }
}

/// Which models are configured, healthy and cooling down.
#[derive(Debug, Clone)]
pub struct ModelSummary {
    pub enabled_models: Vec<String>,
    pub healthy_models: Vec<String>,
    pub cooldown_models: Vec<String>,
    pub total_invocations: u64,
}

impl Default for ModelSummary {
    fn default() -> (res: Self)
        ensures
            res.enabled_models@.len() == 0,
            res.healthy_models@.len() == 0,
            res.cooldown_models@.len() == 0,
            res.total_invocations == 0,
    {
        ModelSummary {
            enabled_models: Vec::new(),
            healthy_models: Vec::new(),
            cooldown_models: Vec::new(),
            total_invocations: 0,
        }
    }
}

/// Facts about the machine the daemon runs on.
#[derive(Debug, Clone)]
pub struct SystemInfo {
    pub os: String,
    pub arch: String,
    pub rust_version: String,
    pub nix_available: bool,
    pub graphite_available: bool,
    pub git_version: Option<String>,
}

/// The status that the model summary alone calls for.
pub open spec fn model_status(m: ModelSummary) -> HealthStatus {
    if m.enabled_models@.len() > 0 && m.healthy_models@.len() == 0 {
        HealthStatus::Unhealthy
    } else if m.cooldown_models@.len() > 0 || m.healthy_models@.len() < m.enabled_models@.len() {
        HealthStatus::Degraded
    } else {
        HealthStatus::Healthy
    }
}

/// Uptime as `Nd Nh Nm`, `Nh Nm`, `Nm Ns` or `Ns`, by the largest nonzero unit.
pub open spec fn uptime_text(secs: nat) -> Seq<char> {
    let days = secs / 86400;
    let hours = (secs % 86400) / 3600;
    let minutes = (secs % 3600) / 60;
    let seconds = secs % 60;
    if days > 0 {
        decimal(days) + "d "@ + decimal(hours) + "h "@ + decimal(minutes) + "m"@
    } else if hours > 0 {
        decimal(hours) + "h "@ + decimal(minutes) + "m"@
    } else if minutes > 0 {
        decimal(minutes) + "m "@ + decimal(seconds) + "s"@
    } else {
        decimal(seconds) + "s"@
    }
}

/// Formats an uptime in seconds.
pub fn format_uptime(secs: u64) -> (res: String)
    ensures
        res@ == uptime_text(secs as nat),
{
    let days = secs / 86_400;
    let hours = (secs % 86_400) / 3_600;
    let minutes = (secs % 3_600) / 60;
    let seconds = secs % 60;
    let mut out = String::new();
    if days > 0 {
        push_decimal(&mut out, days);
        out.append("d ");
        push_decimal(&mut out, hours);
        out.append("h ");
        push_decimal(&mut out, minutes);
        out.append("m");
    } else if hours > 0 {
        push_decimal(&mut out, hours);
        out.append("h ");
        push_decimal(&mut out, minutes);
        out.append("m");
    } else if minutes > 0 {
        push_decimal(&mut out, minutes);
        out.append("m ");
        push_decimal(&mut out, seconds);
        out.append("s");
    } else {
        push_decimal(&mut out, seconds);
        out.append("s");
    }
    out
}

/// A snapshot of the daemon's health.
#[derive(Debug)]
pub struct DaemonHealth {
    pub status: HealthStatus,
    pub uptime_secs: u64,
    pub version: String,
    pub pid: u32,
    /// Start time, as RFC 3339 text.
    pub started_at: String,
    pub task_summary: TaskSummary,
    pub model_summary: ModelSummary,
    pub system_info: SystemInfo,
}

/// The one-line status text.
pub open spec fn compact_text(h: DaemonHealth) -> Seq<char> {
    let health = worse_status(h.status, model_status(h.model_summary));
    "status="@ + status_label(health) + " uptime="@ + uptime_text(h.uptime_secs as nat)
        + " pid="@ + decimal(h.pid as nat) + " version="@ + h.version@
        + " tasks="@ + decimal(h.task_summary.ready as nat) + "/"@ + decimal(h.task_summary.total as nat)
        + " models="@ + decimal(h.model_summary.healthy_models@.len()) + "/"@
        + decimal(h.model_summary.enabled_models@.len())
}

/// `true` or `false`.
pub open spec fn bool_text(b: bool) -> Seq<char> {
    if b { "true"@ } else { "false"@ }
}

/// The multi-section status report.
pub open spec fn full_text(h: DaemonHealth) -> Seq<char> {
    let health = worse_status(h.status, model_status(h.model_summary));
    let t = h.task_summary;
    let m = h.model_summary;
    let s = h.system_info;
    "Daemon Health\nStatus: "@ + status_label(health)
        + "\nUptime: "@ + uptime_text(h.uptime_secs as nat)
        + "\nVersion: "@ + h.version@
        + "\nPID: "@ + decimal(h.pid as nat)
        + "\nStarted At: "@ + h.started_at@
        + "\n\nTask Summary\n  Total: "@ + decimal(t.total as nat)
        + "\n  Chatting: "@ + decimal(t.chatting as nat)
        + "\n  Ready: "@ + decimal(t.ready as nat)
        + "\n  Submitting: "@ + decimal(t.submitting as nat)
        + "\n  Awaiting Merge: "@ + decimal(t.awaiting_merge as nat)
        + "\n  Merged: "@ + decimal(t.merged as nat)
        + "\n  Stopped: "@ + decimal(t.stopped as nat)
        + "\n\nModel Summary\n  Enabled: "@ + join(m.enabled_models.deep_view(), ", "@)
        + "\n  Healthy: "@ + join(m.healthy_models.deep_view(), ", "@)
        + "\n  Cooldown: "@ + join(m.cooldown_models.deep_view(), ", "@)
        + "\n  Total Invocations: "@ + decimal(m.total_invocations as nat)
        + "\n\nSystem Info\n  OS: "@ + s.os@
        + "\n  Arch: "@ + s.arch@
        + "\n  Rust: "@ + s.rust_version@
        + "\n  Nix Available: "@ + bool_text(s.nix_available)
        + "\n  Graphite Available: "@ + bool_text(s.graphite_available)
        + "\n  Git Version: "@ + (match s.git_version {
            Some(g) => g@,
            None => "unknown"@,
        })
}

fn push_bool(out: &mut String, b: bool)
    ensures
        final(out)@ == old(out)@ + bool_text(b),
{
    if b {
        out.append("true");
    } else {
        out.append("false");
    }
}

impl DaemonHealth {
    /// A healthy snapshot with no uptime, empty summaries and the given
    /// identity.
    pub fn new(version: String, pid: u32, started_at: String, system_info: SystemInfo) -> (res: Self)
        ensures
            res.status == HealthStatus::Healthy,
            res.uptime_secs == 0,
            res.version == version,
            res.pid == pid,
            res.started_at == started_at,
            res.task_summary == (TaskSummary { total: 0, chatting: 0, ready: 0, submitting: 0, awaiting_merge: 0, merged: 0, stopped: 0 }),
            res.model_summary.enabled_models@.len() == 0,
            res.model_summary.healthy_models@.len() == 0,
            res.model_summary.cooldown_models@.len() == 0,
            res.model_summary.total_invocations == 0,
            res.system_info == system_info,
    {
        DaemonHealth {
            status: HealthStatus::Healthy,
            uptime_secs: 0,
            version,
            pid,
            started_at,
            task_summary: TaskSummary::default(),
            model_summary: ModelSummary::default(),
            system_info,
        }
    }

    /// The worse of the recorded status and the one the models call for.
    pub fn check_health(&self) -> (res: HealthStatus)
        ensures
            res == worse_status(self.status, model_status(self.model_summary)),
    {
        let m = &self.model_summary;
        let computed = if m.enabled_models.len() > 0 && m.healthy_models.len() == 0 {
            HealthStatus::Unhealthy
        } else if m.cooldown_models.len() > 0 || m.healthy_models.len() < m.enabled_models.len() {
            HealthStatus::Degraded
        } else {
            HealthStatus::Healthy
        };
        max_health_status(&self.status, &computed)
    }

    /// One line: status, uptime, pid, version, ready/total tasks and
    /// healthy/enabled models.
    pub fn display_compact(&self) -> (res: String)
        ensures
            res@ == compact_text(*self),
    {
        let health = self.check_health();
        let mut out = String::from_str("status=");
        out.append(health_status_label(&health));
        out.append(" uptime=");
        let up = format_uptime(self.uptime_secs);
        out.append(up.as_str());
        out.append(" pid=");
        push_decimal(&mut out, self.pid as u64);
        out.append(" version=");
        out.append(self.version.as_str());
        out.append(" tasks=");
        push_decimal(&mut out, self.task_summary.ready as u64);
        out.append("/");
        push_decimal(&mut out, self.task_summary.total as u64);
        out.append(" models=");
        push_decimal(&mut out, self.model_summary.healthy_models.len() as u64);
        out.append("/");
        push_decimal(&mut out, self.model_summary.enabled_models.len() as u64);
        out
    }

    /// The full report, section by section.
    pub fn display_full(&self) -> (res: String)
        ensures
            res@ == full_text(*self),
    {
        let health = self.check_health();
        let t = &self.task_summary;
        let m = &self.model_summary;
        let s = &self.system_info;
        let mut out = String::from_str("Daemon Health\nStatus: ");
        out.append(health_status_label(&health));
        out.append("\nUptime: ");
        let up = format_uptime(self.uptime_secs);
        out.append(up.as_str());
        out.append("\nVersion: ");
        out.append(self.version.as_str());
        out.append("\nPID: ");
        push_decimal(&mut out, self.pid as u64);
        out.append("\nStarted At: ");
        out.append(self.started_at.as_str());
        out.append("\n\nTask Summary\n  Total: ");
        push_decimal(&mut out, t.total as u64);
        out.append("\n  Chatting: ");
        push_decimal(&mut out, t.chatting as u64);
        out.append("\n  Ready: ");
        push_decimal(&mut out, t.ready as u64);
        out.append("\n  Submitting: ");
        push_decimal(&mut out, t.submitting as u64);
        out.append("\n  Awaiting Merge: ");
        push_decimal(&mut out, t.awaiting_merge as u64);
        out.append("\n  Merged: ");
        push_decimal(&mut out, t.merged as u64);
        out.append("\n  Stopped: ");
        push_decimal(&mut out, t.stopped as u64);
        out.append("\n\nModel Summary\n  Enabled: ");
        let e = join_strings(&m.enabled_models, ", ");
        out.append(e.as_str());
        out.append("\n  Healthy: ");
        let h = join_strings(&m.healthy_models, ", ");
        out.append(h.as_str());
        out.append("\n  Cooldown: ");
        let c = join_strings(&m.cooldown_models, ", ");
        out.append(c.as_str());
        out.append("\n  Total Invocations: ");
        push_decimal(&mut out, m.total_invocations);
        out.append("\n\nSystem Info\n  OS: ");
        out.append(s.os.as_str());
        out.append("\n  Arch: ");
        out.append(s.arch.as_str());
        out.append("\n  Rust: ");
        out.append(s.rust_version.as_str());
        out.append("\n  Nix Available: ");
        push_bool(&mut out, s.nix_available);
        out.append("\n  Graphite Available: ");
        push_bool(&mut out, s.graphite_available);
        out.append("\n  Git Version: ");
        match &s.git_version {
            Some(g) => out.append(g.as_str()),
            None => out.append("unknown"),
        }
        out
    }
}

} // verus!
