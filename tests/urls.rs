use buildkite::http::{
    agent_url, agents_url, base_url, builds_url, job_log_url, org_url, organizations_url,
    pipeline_url, pipelines_url, BUILDKITE_URL_BASE,
};
use buildkite::types::BuildState;

#[test]
fn base_url_is_v2_api() {
    assert_eq!(base_url(), "https://api.buildkite.com/v2");
    assert_eq!(base_url(), BUILDKITE_URL_BASE);
}

#[test]
fn org_url_appends_slug() {
    assert_eq!(org_url("my-org"), "https://api.buildkite.com/v2/organizations/my-org");
    assert_eq!(org_url(""), "https://api.buildkite.com/v2/organizations/");
}

#[test]
fn build_state_names() {
    assert_eq!(BuildState::Passed.to_string(), "Passed");
    assert_eq!(BuildState::NotRunning.to_string(), "NotRunning");
    assert_eq!(BuildState::Canceling.to_string(), "Canceling");
}

#[test]
fn listing_urls() {
    assert_eq!(organizations_url(), "https://api.buildkite.com/v2/organizations");
    assert_eq!(agents_url("acme"), "https://api.buildkite.com/v2/organizations/acme/agents");
    assert_eq!(pipelines_url("acme"), "https://api.buildkite.com/v2/organizations/acme/pipelines");
    assert_eq!(
        builds_url("acme", "web"),
        "https://api.buildkite.com/v2/organizations/acme/pipelines/web/builds"
    );
}

#[test]
fn item_urls() {
    assert_eq!(agent_url("acme", "a1"), "https://api.buildkite.com/v2/organizations/acme/agents/a1");
    assert_eq!(pipeline_url("acme", "web"), "https://api.buildkite.com/v2/organizations/acme/pipelines/web");
    assert_eq!(
        job_log_url("acme", "web", "12", "j9"),
        "https://api.buildkite.com/v2/organizations/acme/pipelines/web/builds/12/jobs/j9/log"
    );
}
