//! Addresses of the Buildkite v2 API.
use vstd::prelude::*;
use vstd::string::*;

verus! {

/// Base URL for the Buildkite V2 API.
pub const BUILDKITE_URL_BASE: &'static str = "https://api.buildkite.com/v2";

/// The base URL as characters.
pub open spec fn base_url_spec() -> Seq<char> {
    "https://api.buildkite.com/v2"@
}

/// The URL of the organization whose slug is `org`.
pub open spec fn org_url_spec(org: Seq<char>) -> Seq<char> {
    base_url_spec() + "/organizations/"@ + org
}

/// Returns the base URL of the API.
pub fn base_url() -> (r: String)
    ensures
        r@ == base_url_spec(),
{
    proof {
        reveal_strlit("https://api.buildkite.com/v2");
    }
    String::from_str(BUILDKITE_URL_BASE)
}

/// Returns the URL of the organization `org`.
pub fn org_url(org: &str) -> (r: String)
    ensures
        r@ == org_url_spec(org@),
{
    base_url().concat("/organizations/").concat(org)
}

/// The URL of the organization listing.
pub fn organizations_url() -> (r: String)
    ensures
        r@ == base_url_spec() + "/organizations"@,
{
    base_url().concat("/organizations")
}

/// The URL of the agent listing of `org`.
pub fn agents_url(org: &str) -> (r: String)
    ensures
        r@ == org_url_spec(org@) + "/agents"@,
{
    org_url(org).concat("/agents")
}

/// The URL of the agent `agent_id` of `org`.
pub fn agent_url(org: &str, agent_id: &str) -> (r: String)
    ensures
        r@ == org_url_spec(org@) + "/agents/"@ + agent_id@,
{
    org_url(org).concat("/agents/").concat(agent_id)
}

/// The URL of the pipeline listing of `org`.
pub fn pipelines_url(org: &str) -> (r: String)
    ensures
        r@ == org_url_spec(org@) + "/pipelines"@,
{
    org_url(org).concat("/pipelines")
}

/// The URL of the pipeline `slug` of `org`.
pub fn pipeline_url(org: &str, slug: &str) -> (r: String)
    ensures
        r@ == org_url_spec(org@) + "/pipelines/"@ + slug@,
{
    org_url(org).concat("/pipelines/").concat(slug)
}

/// The URL of the build listing of the pipeline `pipeline` of `org`.
pub fn builds_url(org: &str, pipeline: &str) -> (r: String)
    ensures
        r@ == org_url_spec(org@) + "/pipelines/"@ + pipeline@ + "/builds"@,
{
    org_url(org).concat("/pipelines/").concat(pipeline).concat("/builds")
}

/// The URL of the log of job `job` of build `build` of the pipeline
/// `pipeline` of `org`.
pub fn job_log_url(org: &str, pipeline: &str, build: &str, job: &str) -> (r: String)
    ensures
        r@ == org_url_spec(org@) + "/pipelines/"@ + pipeline@ + "/builds/"@ + build@ + "/jobs/"@
            + job@ + "/log"@,
{
    org_url(org).concat("/pipelines/").concat(pipeline).concat("/builds/").concat(build).concat(
        "/jobs/",
    ).concat(job).concat("/log")
}

} // verus!
