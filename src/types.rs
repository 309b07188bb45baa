//! Records of the Buildkite API that hold plain values only.
use vstd::prelude::*;
use vstd::string::*;

verus! {

/// Whether an agent is connected.
#[derive(Clone, Copy, Debug, PartialEq, Eq, Structural)]
pub enum ConnectionState {
    Connected,
    Disconnected,
}

/// The state of a build.
#[derive(Clone, Copy, Debug, PartialEq, Eq, Structural)]
pub enum BuildState {
    Creating,
    Scheduled,
    Running,
    Passed,
    Failed,
    Blocked,
    Canceling,
    Canceled,
    Skipped,
    NotRunning,
    Finished,
}

/// The name of a build state, as its variant is written.
pub open spec fn build_state_name(s: BuildState) -> Seq<char> {
    match s {
        BuildState::Creating => "Creating"@,
        BuildState::Scheduled => "Scheduled"@,
        BuildState::Running => "Running"@,
        BuildState::Passed => "Passed"@,
        BuildState::Failed => "Failed"@,
        BuildState::Blocked => "Blocked"@,
        BuildState::Canceling => "Canceling"@,
        BuildState::Canceled => "Canceled"@,
        BuildState::Skipped => "Skipped"@,
        BuildState::NotRunning => "NotRunning"@,
        BuildState::Finished => "Finished"@,
    }
}

impl BuildState {
    /// The name of the state, as its variant is written.
    pub fn to_string(&self) -> (r: String)
        ensures
            r@ == build_state_name(*self),
    {
        let name = match self {
            BuildState::Creating => "Creating",
            BuildState::Scheduled => "Scheduled",
            BuildState::Running => "Running",
            BuildState::Passed => "Passed",
            BuildState::Failed => "Failed",
            BuildState::Blocked => "Blocked",
            BuildState::Canceling => "Canceling",
            BuildState::Canceled => "Canceled",
            BuildState::Skipped => "Skipped",
            BuildState::NotRunning => "NotRunning",
            BuildState::Finished => "Finished",
        };
        String::from_str(name)
    }
}

/// The state of a job.
#[derive(Clone, Copy, Debug, PartialEq, Eq, Structural)]
pub enum JobState {
    Passed,
    Failed,
    Pending,
    Waiting,
    WaitingFailed,
    Blocked,
    BlockedFailed,
    Unblocked,
    UnblockedFailed,
    Limiting,
    Limited,
    Scheduled,
    Assigned,
    Accepted,
    Running,
    Finished,
    Canceling,
    Canceled,
    TimingOut,
    TimedOut,
    Skipped,
    Broken,
}

/// The author of a build's commit.
#[derive(Clone, Debug)]
pub struct Author {
    pub username: Option<String>,
    pub name: String,
    pub email: String,
}

/// The pull request that a build belongs to.
#[derive(Clone, Debug)]
pub struct PullRequest {
    pub id: String,
    pub base: String,
    pub repository: String,
}

/// The build that a build was rebuilt from.
#[derive(Clone, Debug)]
pub struct RebuiltFrom {
    pub id: String,
    pub number: u64,
    pub url: String,
}

/// The log of a job.
#[derive(Debug)]
pub struct Log {
    pub content: String,
    pub header_times: Option<Vec<u64>>,
    pub size: u64,
    pub url: String,
}

/// How a pipeline's source provider triggers and reports builds.
#[derive(Clone, Debug)]
pub struct ProviderSettings {
    pub trigger_mode: String,
    pub build_pull_requests: Option<bool>,
    pub pull_request_branch_filter_enabled: Option<bool>,
    pub skip_builds_for_existing_commits: Option<bool>,
    pub skip_pull_request_builds_for_existing_commits: Option<bool>,
    pub build_pull_request_ready_for_review: Option<bool>,
    pub build_pull_request_labels_changed: Option<bool>,
    pub build_pull_request_forks: Option<bool>,
    pub prefix_pull_request_fork_branch_names: Option<bool>,
    pub build_branches: Option<bool>,
    pub build_tags: Option<bool>,
    pub cancel_deleted_branch_builds: Option<bool>,
    pub publish_commit_status: Option<bool>,
    pub publish_commit_status_per_step: Option<bool>,
    pub separate_pull_request_statuses: Option<bool>,
    pub publish_blocked_as_pending: Option<bool>,
    pub use_step_key_as_commit_status: Option<bool>,
    pub filter_enabled: Option<bool>,
    pub repository: Option<String>,
    pub pull_request_branch_filter_configuration: Option<String>,
    pub filter_condition: Option<String>,
}

/// The source provider of a pipeline.
#[derive(Clone, Debug)]
pub struct Provider {
    pub id: String,
    pub settings: ProviderSettings,
    pub webhook_url: String,
}

/// A step of a pipeline.
#[derive(Clone, Debug)]
pub struct Step {
    pub step_type: String,
    pub name: String,
    pub command: String,
    pub artifact_paths: Option<String>,
    pub branch_configuration: Option<String>,
    pub env: std::collections::HashMap<String, String>,
    pub timeout_in_minutes: Option<u64>,
    pub agent_query_rules: Vec<String>,
    pub concurrency: Option<u64>,
    pub parallelism: Option<u64>,
}

} // verus!
