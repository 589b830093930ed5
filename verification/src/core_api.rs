//! The entry points a host (the on-device runner, the command line) calls:
//! the version, reading a flow, and running one.

use vstd::prelude::*;
use vstd::string::StringExecFns;
use crate::driver::{CallView, Driver};
use crate::engine::{flow_result_shape, run_steps, step_view, FlowResult, StepResult};
use crate::model::Flow;
use crate::parser::{env_pairs, parse_error_text, parse_flow_spec};
use crate::text::string_from;
use crate::text_map::EnvVars;

verus! {

/// Why a host request failed.
#[derive(Debug)]
pub enum PodiumError {
    ParseError { details: String },
}

impl PodiumError {
    /// The text shown for this error.
    pub fn message(&self) -> (r: String)
        ensures
            match self {
                PodiumError::ParseError { details } => r@ == "Parse error: "@ + details@,
            },
    {
        match self {
            PodiumError::ParseError { details } => {
                let mut s = string_from("Parse error: ");
                s.append(details.as_str());
                s
            },
        }
    }
}

/// The library's name and version.
pub fn core_version() -> (r: String)
    ensures
        r@ == "podium-core 0.1.0"@,
{
    string_from("podium-core 0.1.0")
}

/// Reads a flow; a parse error is reported with its message.
pub fn parse_flow(yaml: String, env: EnvVars) -> (r: Result<Flow, PodiumError>)
    ensures
        r is Ok <==> parse_flow_spec(yaml@, env_pairs(&env)) is Ok,
        r matches Ok(f) ==> parse_flow_spec(yaml@, env_pairs(&env))->Ok_0 == f@,
        r matches Err(e) ==> e matches PodiumError::ParseError { details } && details@
            == parse_error_text(parse_flow_spec(yaml@, env_pairs(&env))->Err_0),
{
    let res = crate::parser::parse_flow(yaml.as_str(), &env);
    assert(crate::parser::flow_result_view(res) == parse_flow_spec(yaml@, env_pairs(&env)));
    match res {
        Ok(f) => Ok(f),
        Err(e) => {
            let details = e.message();
            Err(PodiumError::ParseError { details })
        },
    }
}

/// Runs a flow on a driver: the steps are those `run_steps` makes of the
/// calls the run made and what the driver answered.
pub fn run_flow<D: Driver>(flow: Flow, driver: D) -> (r: FlowResult)
    ensures
        flow_result_shape(flow@.commands, r),
        exists|calls: Seq<CallView>|
            #[trigger] run_steps(calls, flow@.commands, flow@.app_id, true) == Some(
                r.steps@.map_values(|s: StepResult| step_view(s)),
            ),
{
    crate::engine::run_flow(flow, driver)
}

} // verus!
