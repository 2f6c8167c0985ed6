//! Session descriptors: the durable, serializable metadata record of one
//! terminal session.
//!
//! A descriptor's identifier and creation timestamp are assigned when the
//! session is created and never change afterwards; the registry enforces
//! that identifiers are unique among live sessions.

use vstd::prelude::*;

verus! {

/// Lifecycle status of a session.
#[derive(Debug, Clone, Copy, PartialEq, Eq, Structural)]
pub enum TerminalStatus {
    Running,
    Idle,
    Error,
    Stopped,
}

/// The durable metadata record describing one session's configuration.
///
/// `env_vars` is an association list of environment variable name/value
/// pairs with unique names; it overrides or extends (never replaces) the
/// environment the child inherits. `created_at` is a UTC wall-clock
/// timestamp in milliseconds.
#[derive(Debug)]
pub struct TerminalConfig {
    pub id: String,
    pub label: String,
    pub profile_id: Option<String>,
    pub working_directory: String,
    pub claude_args: Vec<String>,
    pub env_vars: Vec<(String, String)>,
    pub created_at: i64,
    pub status: TerminalStatus,
    pub color_tag: Option<String>,
    pub nickname: Option<String>,
}

/// The mathematical value of a [`TerminalConfig`]: every field as a plain
/// sequence, option or integer.
#[verifier::ext_equal]
pub ghost struct ConfigView {
    pub id: Seq<char>,
    pub label: Seq<char>,
    pub profile_id: Option<Seq<char>>,
    pub working_directory: Seq<char>,
    pub claude_args: Seq<Seq<char>>,
    pub env_vars: Seq<(Seq<char>, Seq<char>)>,
    pub created_at: int,
    pub status: TerminalStatus,
    pub color_tag: Option<Seq<char>>,
    pub nickname: Option<Seq<char>>,
}

impl View for TerminalConfig {
    type V = ConfigView;

    open spec fn view(&self) -> ConfigView {
        ConfigView {
            id: self.id@,
            label: self.label@,
            profile_id: self.profile_id.deep_view(),
            working_directory: self.working_directory@,
            claude_args: self.claude_args.deep_view(),
            env_vars: self.env_vars.deep_view(),
            created_at: self.created_at as int,
            status: self.status,
            color_tag: self.color_tag.deep_view(),
            nickname: self.nickname.deep_view(),
        }
    }
}

impl DeepView for TerminalConfig {
    type V = ConfigView;

    open spec fn deep_view(&self) -> ConfigView {
        self.view()
    }
}

impl Clone for TerminalConfig {
    /// A clone carries exactly the same descriptor value.
    fn clone(&self) -> (r: Self)
        ensures
            r@ == self@,
    {
        TerminalConfig {
            id: self.id.clone(),
            label: self.label.clone(),
            profile_id: crate::strutil::clone_opt_string(&self.profile_id),
            working_directory: self.working_directory.clone(),
            claude_args: crate::strutil::clone_string_vec(&self.claude_args),
            env_vars: crate::strutil::clone_env_vec(&self.env_vars),
            created_at: self.created_at,
            status: self.status,
            color_tag: crate::strutil::clone_opt_string(&self.color_tag),
            nickname: crate::strutil::clone_opt_string(&self.nickname),
        }
    }
}

/// The map an association list of environment overrides denotes: later
/// entries override earlier ones with the same name.
pub open spec fn pairs_to_map(ps: Seq<(Seq<char>, Seq<char>)>) -> Map<Seq<char>, Seq<char>>
    decreases ps.len(),
{
    if ps.len() == 0 {
        Map::empty()
    } else {
        pairs_to_map(ps.drop_last()).insert(ps.last().0, ps.last().1)
    }
}

} // verus!
