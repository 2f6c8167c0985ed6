//! The decision logic behind the boundary commands that shell out to
//! external tools: the caller runs the tool and hands the raw output in;
//! everything that is decided or computed from it is decided here.

use vstd::prelude::*;

use crate::config::HintCategory;
use crate::errors::TerminalError;
use crate::strutil;
use crate::strutil::{first_token, trim_of};
use vstd::string::StringExecFns;

verus! {

/// The request to create one session, as the boundary layer hands it in.
#[derive(Debug)]
pub struct CreateTerminalRequest {
    pub label: String,
    pub working_directory: String,
    pub claude_args: Vec<String>,
    pub env_vars: Vec<(String, String)>,
    pub color_tag: Option<String>,
    pub nickname: Option<String>,
}

/// The verdict of an update check: the installed and the newest published
/// version, and whether they differ.
#[derive(Debug)]
pub struct UpdateCheckResult {
    pub current_version: String,
    pub latest_version: String,
    pub update_available: bool,
}

/// What of the required tooling is installed, and in which version.
#[derive(Debug)]
pub struct SystemStatus {
    pub node_installed: bool,
    pub node_version: Option<String>,
    pub npm_installed: bool,
    pub npm_version: Option<String>,
    pub claude_installed: bool,
    pub claude_version: Option<String>,
}

/// The version a tool reported: its output without surrounding
/// whitespace.
pub fn version_from_output(stdout: &str) -> (r: String)
    ensures
        r@ == trim_of(stdout@),
{
    strutil::trimmed(stdout)
}

/// Decides the update check from the two raw outputs: the installed
/// version reported by the tool itself, and the newest version the
/// registry reports. An empty installed version means the tool is not
/// there; an empty registry answer is a fetch failure. Otherwise an update
/// is available exactly when the version number at the head of the
/// installed report differs from the registry's version.
pub fn evaluate_update_check(current_output: &str, latest_output: &str) -> (r: Result<
    UpdateCheckResult,
    TerminalError,
>)
    ensures
        r is Err <==> (trim_of(current_output@).len() == 0 || trim_of(latest_output@).len() == 0),
        r matches Err(e) ==> (if trim_of(current_output@).len() == 0 {
            e is ValidationFailure
        } else {
            e is IoFailure
        }),
        r matches Ok(u) ==> ({
            &&& u.current_version@ == trim_of(current_output@)
            &&& u.latest_version@ == trim_of(latest_output@)
            &&& u.update_available == (first_token(trim_of(current_output@)) != trim_of(
                latest_output@,
            ))
        }),
{
    let current_version = strutil::trimmed(current_output);
    if current_version.as_str().is_empty() {
        return Err(TerminalError::ValidationFailure("Assistant CLI is not installed".to_owned()));
    }
    let latest_version = strutil::trimmed(latest_output);
    if latest_version.as_str().is_empty() {
        return Err(TerminalError::IoFailure(
            "Failed to fetch latest version from npm".to_owned(),
        ));
    }
    let current_ver_clean = strutil::extract_first_token(current_version.as_str());
    let update_available = !strutil::str_eq(
        current_ver_clean.as_str(),
        latest_version.as_str(),
    );
    Ok(UpdateCheckResult { current_version, latest_version, update_available })
}

/// Assembles the system status from the versions the three tools
/// reported, if they answered: a tool is installed exactly when it
/// reported a version.
pub fn check_system_requirements(
    node_version: Option<String>,
    npm_version: Option<String>,
    claude_version: Option<String>,
) -> (r: SystemStatus)
    ensures
        r.node_installed == node_version is Some,
        r.node_version.deep_view() == node_version.deep_view(),
        r.npm_installed == npm_version is Some,
        r.npm_version.deep_view() == npm_version.deep_view(),
        r.claude_installed == claude_version is Some,
        r.claude_version.deep_view() == claude_version.deep_view(),
{
    SystemStatus {
        node_installed: node_version.is_some(),
        node_version,
        npm_installed: npm_version.is_some(),
        npm_version,
        claude_installed: claude_version.is_some(),
        claude_version,
    }
}

/// Decides the outcome of the update command from the tool's exit: a
/// fixed success message, or the tool's own error and regular output as
/// the failure text.
pub fn update_claude_code(success: bool, stdout: &str, stderr: &str) -> (r: Result<
    String,
    TerminalError,
>)
    ensures
        r is Ok <==> success,
        r matches Ok(m) ==> m@ == "Assistant CLI updated successfully!"@,
        r matches Err(e) ==> (e matches TerminalError::IoFailure(m) && m@ == stderr@ + stdout@),
{
    if success {
        Ok("Assistant CLI updated successfully!".to_owned())
    } else {
        Err(TerminalError::IoFailure(stderr.to_owned().concat(stdout)))
    }
}

/// Decides the outcome of the install command from the tool's exit: a
/// fixed success message, or the tool's error output as the failure text.
pub fn install_claude_code(success: bool, stderr: &str) -> (r: Result<String, TerminalError>)
    ensures
        r is Ok <==> success,
        r matches Ok(m) ==> m@ == "Assistant CLI installed successfully!"@,
        r matches Err(e) ==> (e matches TerminalError::IoFailure(m) && m@ == stderr@),
{
    if success {
        Ok("Assistant CLI installed successfully!".to_owned())
    } else {
        Err(TerminalError::IoFailure(stderr.to_owned()))
    }
}

/// The built-in hint catalogue, as the boundary layer serves it.
pub fn get_hints() -> (r: Vec<HintCategory>)
    ensures
        r@.len() == 7,
{
    crate::config::get_default_hints()
}

} // verus!
