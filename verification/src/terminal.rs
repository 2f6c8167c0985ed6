//! The PTY session manager: a registry of live sessions keyed by unique
//! identifier, with the lifecycle operations the boundary layer calls.
//!
//! The registry is the single unit of concurrency control: callers guard a
//! [`TerminalManager`] with one lock and every operation holds it for its
//! whole (short) duration, so operations on one session id are totally
//! ordered. Each live session owns its PTY pair and the single writable
//! handle to it; removing a session from the registry is the only path
//! that releases those resources, which signals end-of-file to the child.

use vstd::prelude::*;

use crate::errors::TerminalError;
use crate::pty;
use crate::pty::{builder_argv, builder_cwd, builder_extra_env, PtyReader, PtyWriter};
use crate::session::{pairs_to_map, ConfigView, TerminalConfig, TerminalStatus};
use crate::strutil;
use vstd::string::StringExecFns;

verus! {

/// One live session: its descriptor, its PTY pair, and the single
/// writable handle to the PTY master.
pub struct Terminal {
    pub config: TerminalConfig,
    pub pty_pair: portable_pty::PtyPair,
    pub writer: PtyWriter,
}

/// The registry of live sessions. Identifiers of registered sessions are
/// pairwise distinct; every registered session has fully-initialized OS
/// resources behind it.
pub struct TerminalManager {
    pub terminals: Vec<Terminal>,
}

impl TerminalManager {
    /// The descriptors of the registered sessions, in registration order.
    pub open spec fn configs(self) -> Seq<ConfigView> {
        self.terminals@.map_values(|t: Terminal| t.config@)
    }

    /// Some registered session has this identifier.
    pub open spec fn contains_id(self, id: Seq<char>) -> bool {
        exists|i: int| 0 <= i < self.configs().len() && self.configs()[i].id == id
    }

    /// Well-formed: registered identifiers are pairwise distinct.
    pub open spec fn wf(self) -> bool {
        forall|i: int, j: int|
            0 <= i < j < self.configs().len() ==> #[trigger] self.configs()[i].id != #[trigger] self.configs()[j].id
    }

    /// An empty registry.
    pub fn new() -> (r: Self)
        ensures
            r.wf(),
            r.configs() == Seq::<ConfigView>::empty(),
    {
        let r = TerminalManager { terminals: Vec::new() };
        proof {
            assert(r.configs() =~= Seq::<ConfigView>::empty());
        }
        r
    }

    /// The index of the session with this identifier, if one is
    /// registered.
    fn find_index(&self, id: &str) -> (r: Option<usize>)
        ensures
            r matches Some(i) ==> i < self.configs().len() && self.configs()[i as int].id == id@,
            r is None ==> !self.contains_id(id@),
    {
        let n = self.terminals.len();
        let mut i: usize = 0;
        while i < n
            invariant
                n == self.terminals@.len(),
                i <= n,
                forall|j: int| 0 <= j < i ==> #[trigger] self.configs()[j].id != id@,
            decreases n - i,
        {
            if strutil::str_eq(self.terminals[i].config.id.as_str(), id) {
                return Some(i);
            }
            i = i + 1;
        }
        None
    }

    /// Creates one session atomically: opens a PTY with the default
    /// geometry, spawns the child attached to its slave side, takes the
    /// reader and writer handles, allocates a fresh identifier distinct
    /// from every registered one, and registers the session. On any
    /// failure nothing is registered and every resource acquired so far is
    /// released. Returns the new descriptor (status `Running`) and the
    /// readable handle for the session's dedicated reader task.
    pub fn create_terminal(
        &mut self,
        label: String,
        working_directory: String,
        claude_args: Vec<String>,
        env_vars: Vec<(String, String)>,
        color_tag: Option<String>,
        nickname: Option<String>,
    ) -> (r: Result<(TerminalConfig, PtyReader), TerminalError>)
        requires
            (*old(self)).wf(),
        ensures
            (*final(self)).wf(),
            r is Err ==> *final(self) == *old(self),
            r matches Err(e) ==> e is SpawnFailure,
            r matches Ok(pair) ==> ({
                &&& !(*old(self)).contains_id(pair.0@.id)
                &&& (*final(self)).configs() == (*old(self)).configs().push(pair.0@)
                &&& pair.0@.id.len() == 36
                &&& pair.0@.label == label@
                &&& pair.0@.profile_id is None
                &&& pair.0@.working_directory == working_directory@
                &&& pair.0@.claude_args == claude_args.deep_view()
                &&& pair.0@.env_vars == env_vars.deep_view()
                &&& pair.0@.status == TerminalStatus::Running
                &&& pair.0@.color_tag == color_tag.deep_view()
                &&& pair.0@.nickname == nickname.deep_view()
            }),
    {
        let pty_pair = match pty::open_pty(30, 120) {
            Ok(p) => p,
            Err(e) => {
                return Err(TerminalError::SpawnFailure(
                    "Failed to open pty: ".to_owned().concat(e.as_str()),
                ));
            },
        };

        let cmd = build_command("bash", working_directory.as_str(), &claude_args, &env_vars);

        if let Err(e) = pty::spawn_in_slave(&pty_pair, cmd) {
            return Err(TerminalError::SpawnFailure(
                "Failed to spawn command: ".to_owned().concat(e.as_str()),
            ));
        }

        let reader = match pty::clone_pty_reader(&pty_pair) {
            Ok(rd) => rd,
            Err(e) => {
                return Err(TerminalError::SpawnFailure(
                    "Failed to clone reader: ".to_owned().concat(e.as_str()),
                ));
            },
        };
        let writer = match pty::take_pty_writer(&pty_pair) {
            Ok(w) => w,
            Err(e) => {
                return Err(TerminalError::SpawnFailure(
                    "Failed to take writer: ".to_owned().concat(e.as_str()),
                ));
            },
        };

        let id = crate::ids::new_session_id();
        if self.find_index(id.as_str()).is_some() {
            return Err(TerminalError::SpawnFailure(
                "Failed to allocate a fresh session identifier".to_owned(),
            ));
        }

        let config = TerminalConfig {
            id,
            label,
            profile_id: None,
            working_directory,
            claude_args,
            env_vars,
            created_at: crate::clock::now_millis(),
            status: TerminalStatus::Running,
            color_tag,
            nickname,
        };

        let returned = config.clone();
        let ghost old_configs = self.configs();
        self.terminals.push(Terminal { config, pty_pair, writer });
        proof {
            assert(self.configs() =~= old_configs.push(self.terminals@.last().config@));
        }
        Ok((returned, reader))
    }

    /// Writes the bytes to the session's PTY and flushes. A partial write
    /// is never reported as success. Fails with `NotFound` exactly when no
    /// session has this identifier; no descriptor changes either way.
    pub fn write(&mut self, id: &str, data: &[u8]) -> (r: Result<(), TerminalError>)
        requires
            (*old(self)).wf(),
        ensures
            (*final(self)).wf(),
            (*final(self)).configs() == (*old(self)).configs(),
            (r matches Err(e) && e is NotFound) <==> !(*old(self)).contains_id(id@),
            r matches Err(e) ==> e is NotFound || e is IoFailure,
    {
        let idx = match self.find_index(id) {
            Some(i) => i,
            None => {
                return Err(TerminalError::NotFound);
            },
        };
        let ghost old_terminals = self.terminals@;
        let mut t = self.terminals.remove(idx);
        let write_result = pty::pty_write_all(&mut t.writer, data);
        let result = match write_result {
            Ok(()) => {
                match pty::pty_flush(&mut t.writer) {
                    Ok(()) => Ok(()),
                    Err(e) => Err(TerminalError::IoFailure(
                        "Failed to flush: ".to_owned().concat(e.as_str()),
                    )),
                }
            },
            Err(e) => Err(TerminalError::IoFailure(
                "Failed to write: ".to_owned().concat(e.as_str()),
            )),
        };
        self.terminals.insert(idx, t);
        proof {
            assert(t.config@ == old_terminals.map_values(|x: Terminal| x.config@)[idx as int]);
            assert(self.configs() =~= (*old(self)).configs());
        }
        result
    }

    /// Forwards a geometry change to the session's PTY. Fails with
    /// `NotFound` exactly when no session has this identifier; no
    /// descriptor changes either way.
    pub fn resize(&mut self, id: &str, cols: u16, rows: u16) -> (r: Result<(), TerminalError>)
        requires
            (*old(self)).wf(),
        ensures
            (*final(self)).wf(),
            *final(self) == *old(self),
            (r matches Err(e) && e is NotFound) <==> !(*old(self)).contains_id(id@),
            r matches Err(e) ==> e is NotFound || e is IoFailure,
    {
        let idx = match self.find_index(id) {
            Some(i) => i,
            None => {
                return Err(TerminalError::NotFound);
            },
        };
        match pty::resize_pty(&self.terminals[idx].pty_pair, rows, cols) {
            Ok(()) => Ok(()),
            Err(e) => Err(TerminalError::IoFailure(
                "Failed to resize: ".to_owned().concat(e.as_str()),
            )),
        }
    }

    /// Removes the session from the registry, dropping its writer and PTY
    /// pair, which signals end-of-file to its reader and terminates the
    /// child's controlling terminal. Fails with `NotFound` exactly when no
    /// session has this identifier; no other session is affected.
    pub fn close(&mut self, id: &str) -> (r: Result<(), TerminalError>)
        requires
            (*old(self)).wf(),
        ensures
            (*final(self)).wf(),
            r is Err ==> *final(self) == *old(self) && (r matches Err(e) ==> e is NotFound),
            r is Err <==> !(*old(self)).contains_id(id@),
            r is Ok ==> !(*final(self)).contains_id(id@),
            r is Ok ==> (exists|i: int|
                0 <= i < (*old(self)).configs().len() && (*old(self)).configs()[i].id == id@
                    && (*final(self)).configs() == (*old(self)).configs().remove(i)),
    {
        let idx = match self.find_index(id) {
            Some(i) => i,
            None => {
                return Err(TerminalError::NotFound);
            },
        };
        let ghost old_configs = self.configs();
        let _removed = self.terminals.remove(idx);
        proof {
            assert(self.configs() =~= old_configs.remove(idx as int));
            assert forall|j: int| 0 <= j < self.configs().len() implies #[trigger] self.configs()[j].id
                != id@ by {
                if j < idx {
                    assert(old_configs[j].id != old_configs[idx as int].id);
                } else {
                    assert(self.configs()[j] == old_configs[j + 1]);
                    assert(old_configs[idx as int].id != old_configs[j + 1].id);
                }
            }
        }
        Ok(())
    }

    /// Removes every session from the registry, releasing all of their OS
    /// resources.
    pub fn close_all(&mut self)
        ensures
            (*final(self)).wf(),
            (*final(self)).configs() == Seq::<ConfigView>::empty(),
    {
        self.terminals = Vec::new();
        proof {
            assert(self.configs() =~= Seq::<ConfigView>::empty());
        }
    }

    /// A snapshot, by value, of every registered descriptor, in
    /// registration order. Callers never observe in-progress mutation.
    pub fn get_all_configs(&self) -> (r: Vec<TerminalConfig>)
        ensures
            r.deep_view() == self.configs(),
    {
        let n = self.terminals.len();
        let mut out: Vec<TerminalConfig> = Vec::new();
        let mut i: usize = 0;
        while i < n
            invariant
                n == self.terminals@.len(),
                i <= n,
                out@.len() == i,
                forall|j: int| 0 <= j < i ==> #[trigger] out@[j]@ == self.configs()[j],
            decreases n - i,
        {
            out.push(self.terminals[i].config.clone());
            i = i + 1;
        }
        proof {
            assert(out.deep_view() =~= self.configs());
        }
        out
    }

    /// Replaces the session's display label. Fails with `NotFound` exactly
    /// when no session has this identifier; OS resources and every other
    /// descriptor are untouched.
    pub fn update_label(&mut self, id: &str, label: String) -> (r: Result<(), TerminalError>)
        requires
            (*old(self)).wf(),
        ensures
            (*final(self)).wf(),
            r is Err ==> *final(self) == *old(self) && (r matches Err(e) ==> e is NotFound),
            r is Err <==> !(*old(self)).contains_id(id@),
            r is Ok ==> (exists|i: int|
                0 <= i < (*old(self)).configs().len() && (*old(self)).configs()[i].id == id@
                    && (*final(self)).configs() == (*old(self)).configs().update(
                    i,
                    relabeled((*old(self)).configs()[i], label@),
                )),
    {
        let idx = match self.find_index(id) {
            Some(i) => i,
            None => {
                return Err(TerminalError::NotFound);
            },
        };
        let ghost old_configs = self.configs();
        let mut t = self.terminals.remove(idx);
        t.config.label = label;
        self.terminals.insert(idx, t);
        proof {
            assert(self.configs() =~= old_configs.update(
                idx as int,
                relabeled(old_configs[idx as int], label@),
            ));
        }
        Ok(())
    }

    /// Replaces the session's user nickname. Fails with `NotFound` exactly
    /// when no session has this identifier; OS resources and every other
    /// descriptor are untouched.
    pub fn update_nickname(&mut self, id: &str, nickname: String) -> (r: Result<
        (),
        TerminalError,
    >)
        requires
            (*old(self)).wf(),
        ensures
            (*final(self)).wf(),
            r is Err ==> *final(self) == *old(self) && (r matches Err(e) ==> e is NotFound),
            r is Err <==> !(*old(self)).contains_id(id@),
            r is Ok ==> (exists|i: int|
                0 <= i < (*old(self)).configs().len() && (*old(self)).configs()[i].id == id@
                    && (*final(self)).configs() == (*old(self)).configs().update(
                    i,
                    renicknamed((*old(self)).configs()[i], nickname@),
                )),
    {
        let idx = match self.find_index(id) {
            Some(i) => i,
            None => {
                return Err(TerminalError::NotFound);
            },
        };
        let ghost old_configs = self.configs();
        let mut t = self.terminals.remove(idx);
        t.config.nickname = Some(nickname);
        self.terminals.insert(idx, t);
        proof {
            assert(self.configs() =~= old_configs.update(
                idx as int,
                renicknamed(old_configs[idx as int], self.terminals@[idx as int].config@.nickname->0),
            ));
        }
        Ok(())
    }
}

/// Registered identifiers never collide: any two distinct registry
/// entries carry distinct identifiers. So a run of successful creations
/// yields pairwise distinct identifiers, and the snapshot lists exactly
/// one descriptor per live session.
pub proof fn lemma_registry_ids_distinct(m: TerminalManager, i: int, j: int)
    requires
        m.wf(),
        0 <= i < m.configs().len(),
        0 <= j < m.configs().len(),
        i != j,
    ensures
        m.configs()[i].id != m.configs()[j].id,
{
}

/// The descriptor with its display label replaced and everything else
/// unchanged.
pub open spec fn relabeled(c: ConfigView, label: Seq<char>) -> ConfigView {
    ConfigView { label, ..c }
}

/// The descriptor with its user nickname replaced and everything else
/// unchanged.
pub open spec fn renicknamed(c: ConfigView, nickname: Seq<char>) -> ConfigView {
    ConfigView { nickname: Some(nickname), ..c }
}

/// Builds the child-process command: argv is the program followed by the
/// launch arguments verbatim (nothing shell-interprets them); the working
/// directory is set only when the caller names one (an empty path leaves
/// the platform default); the environment overrides extend, not replace,
/// the environment the child inherits.
pub fn build_command(
    program: &str,
    working_directory: &str,
    claude_args: &Vec<String>,
    env_vars: &Vec<(String, String)>,
) -> (cmd: portable_pty::CommandBuilder)
    ensures
        builder_argv(cmd) == seq![program@] + claude_args.deep_view(),
        builder_cwd(cmd) == (if working_directory@.len() == 0 {
            Option::<Seq<char>>::None
        } else {
            Some(working_directory@)
        }),
        builder_extra_env(cmd) == pairs_to_map(env_vars.deep_view()),
{
    let mut cmd = pty::new_command(program);
    if !working_directory.is_empty() {
        pty::command_cwd(&mut cmd, working_directory);
    }
    let mut i: usize = 0;
    while i < claude_args.len()
        invariant
            i <= claude_args@.len(),
            builder_argv(cmd) == seq![program@] + claude_args.deep_view().take(i as int),
            builder_cwd(cmd) == (if working_directory@.len() == 0 {
                Option::<Seq<char>>::None
            } else {
                Some(working_directory@)
            }),
            builder_extra_env(cmd) == pairs_to_map(Seq::<(Seq<char>, Seq<char>)>::empty()),
        decreases claude_args@.len() - i,
    {
        pty::command_arg(&mut cmd, claude_args[i].as_str());
        proof {
            assert((seq![program@] + claude_args.deep_view().take(i as int)).push(
                claude_args.deep_view()[i as int],
            ) =~= seq![program@] + claude_args.deep_view().take(i + 1 as int));
        }
        i = i + 1;
    }
    proof {
        assert(claude_args.deep_view().take(claude_args@.len() as int) =~= claude_args.deep_view());
    }
    let mut k: usize = 0;
    while k < env_vars.len()
        invariant
            k <= env_vars@.len(),
            builder_argv(cmd) == seq![program@] + claude_args.deep_view(),
            builder_cwd(cmd) == (if working_directory@.len() == 0 {
                Option::<Seq<char>>::None
            } else {
                Some(working_directory@)
            }),
            builder_extra_env(cmd) == pairs_to_map(env_vars.deep_view().take(k as int)),
        decreases env_vars@.len() - k,
    {
        pty::command_env(&mut cmd, env_vars[k].0.as_str(), env_vars[k].1.as_str());
        proof {
            assert(env_vars.deep_view().take(k + 1 as int).drop_last() =~= env_vars.deep_view()
                .take(k as int));
        }
        k = k + 1;
    }
    proof {
        assert(env_vars.deep_view().take(env_vars@.len() as int) =~= env_vars.deep_view());
    }
    cmd
}

} // verus!
