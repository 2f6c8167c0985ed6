//! Trusted boundary to the `portable_pty` crate.
//!
//! Everything here either declares an outside type or wraps exactly one
//! outside call. The verified manager builds commands, opens PTYs, spawns
//! children and moves bytes only through these items.

use vstd::prelude::*;

verus! {

/// Declares `portable_pty::PtyPair` (one master/slave pseudo-terminal
/// pair) so that it can be held in verified fields. Opaque: nothing of its
/// contents is visible to verification.
#[verifier::external_type_specification]
#[verifier::external_body]
pub struct ExPtyPair(portable_pty::PtyPair);

/// Declares `portable_pty::CommandBuilder`, the description of a child
/// process to spawn into a PTY.
#[verifier::external_type_specification]
#[verifier::external_body]
pub struct ExCommandBuilder(portable_pty::CommandBuilder);

/// The argument vector a `CommandBuilder` holds: element 0 is the program,
/// the rest are the arguments handed to it verbatim.
pub uninterp spec fn builder_argv(c: portable_pty::CommandBuilder) -> Seq<Seq<char>>;

/// The working directory a `CommandBuilder` holds, if one was set.
pub uninterp spec fn builder_cwd(c: portable_pty::CommandBuilder) -> Option<Seq<char>>;

/// The environment overrides a `CommandBuilder` holds: only the variables
/// set by the caller, which override or extend (never replace) the
/// environment the child inherits.
pub uninterp spec fn builder_extra_env(c: portable_pty::CommandBuilder) -> Map<
    Seq<char>,
    Seq<char>,
>;

/// The empty set of environment overrides.
pub open spec fn no_env_overrides() -> Map<Seq<char>, Seq<char>> {
    Map::empty()
}

/// Relies on `portable_pty::CommandBuilder::new`: argv starts as just the
/// program, no working directory is set, and the environment holds no
/// caller overrides yet.
#[verifier::external_body]
pub(crate) fn new_command(program: &str) -> (c: portable_pty::CommandBuilder)
    ensures
        builder_argv(c) == seq![program@],
        builder_cwd(c) is None,
        builder_extra_env(c) == no_env_overrides(),
{
    portable_pty::CommandBuilder::new(program)
}

/// Relies on `portable_pty::CommandBuilder::arg`: appends one argument to
/// argv, touching nothing else. The argument is not shell-interpreted.
/// `arg` panics on a builder whose argv is empty (one made for the default
/// program), so only builders that already name a program are admitted.
#[verifier::external_body]
pub(crate) fn command_arg(c: &mut portable_pty::CommandBuilder, a: &str)
    requires
        builder_argv(*old(c)).len() >= 1,
    ensures
        builder_argv(*final(c)) == builder_argv(*old(c)).push(a@),
        builder_cwd(*final(c)) == builder_cwd(*old(c)),
        builder_extra_env(*final(c)) == builder_extra_env(*old(c)),
{
    c.arg(a);
}

/// Relies on `portable_pty::CommandBuilder::cwd`: sets the child's working
/// directory, touching nothing else.
#[verifier::external_body]
pub(crate) fn command_cwd(c: &mut portable_pty::CommandBuilder, dir: &str)
    ensures
        builder_cwd(*final(c)) == Some(dir@),
        builder_argv(*final(c)) == builder_argv(*old(c)),
        builder_extra_env(*final(c)) == builder_extra_env(*old(c)),
{
    c.cwd(dir);
}

/// Relies on `portable_pty::CommandBuilder::env`: overrides the value of
/// one environment variable, touching nothing else.
#[verifier::external_body]
pub(crate) fn command_env(c: &mut portable_pty::CommandBuilder, key: &str, value: &str)
    ensures
        builder_extra_env(*final(c)) == builder_extra_env(*old(c)).insert(key@, value@),
        builder_argv(*final(c)) == builder_argv(*old(c)),
        builder_cwd(*final(c)) == builder_cwd(*old(c)),
{
    c.env(key, value);
}

/// Relies on `portable_pty::native_pty_system` and
/// `portable_pty::PtySystem::openpty`: allocates one OS pseudo-terminal
/// pair with the given visible geometry, or reports why it could not.
#[verifier::external_body]
pub(crate) fn open_pty(rows: u16, cols: u16) -> (r: Result<portable_pty::PtyPair, String>)
{
    let size = portable_pty::PtySize { rows, cols, pixel_width: 0, pixel_height: 0 };
    portable_pty::native_pty_system().openpty(size).map_err(|e| e.to_string())
}

/// Relies on `portable_pty::SlavePty::spawn_command`: spawns the described
/// child attached to the slave side of the pair. The child handle is
/// dropped; the session's lifetime is governed by the PTY handles alone.
#[verifier::external_body]
pub(crate) fn spawn_in_slave(p: &portable_pty::PtyPair, cmd: portable_pty::CommandBuilder) -> (r:
    Result<(), String>)
{
    match p.slave.spawn_command(cmd) {
        Ok(_child) => Ok(()),
        Err(e) => Err(e.to_string()),
    }
}

/// Relies on `portable_pty::MasterPty::resize`: informs the kernel, and
/// thus the child, that the window geometry changed.
#[verifier::external_body]
pub(crate) fn resize_pty(p: &portable_pty::PtyPair, rows: u16, cols: u16) -> (r: Result<
    (),
    String,
>)
{
    let size = portable_pty::PtySize { rows, cols, pixel_width: 0, pixel_height: 0 };
    p.master.resize(size).map_err(|e| e.to_string())
}

/// The exclusively-owned writable handle to one session's PTY master:
/// bytes written here reach the child as terminal input, and dropping it
/// sends end-of-file to the child. Holds the boxed writer that
/// `portable_pty::MasterPty::take_writer` hands out; a trait object cannot
/// be declared to the verifier, so the whole struct is opaque and only the
/// trusted calls below touch it.
#[verifier::external_body]
pub struct PtyWriter {
    inner: Box<dyn std::io::Write + Send>,
}

/// The readable handle onto one session's PTY output stream, owned by the
/// session's dedicated reader task. Holds the boxed reader that
/// `portable_pty::MasterPty::try_clone_reader` hands out; a trait object
/// cannot be declared to the verifier, so the whole struct is opaque and
/// only the trusted call below touches it.
#[verifier::external_body]
pub struct PtyReader {
    inner: Box<dyn std::io::Read + Send>,
}

/// Relies on `portable_pty::MasterPty::take_writer`: hands out the single
/// writable handle of the pair; a second take fails.
#[verifier::external_body]
pub(crate) fn take_pty_writer(p: &portable_pty::PtyPair) -> (r: Result<PtyWriter, String>)
{
    match p.master.take_writer() {
        Ok(w) => Ok(PtyWriter { inner: w }),
        Err(e) => Err(e.to_string()),
    }
}

/// Relies on `portable_pty::MasterPty::try_clone_reader`: hands out a
/// readable handle onto the pair's output stream.
#[verifier::external_body]
pub(crate) fn clone_pty_reader(p: &portable_pty::PtyPair) -> (r: Result<PtyReader, String>)
{
    match p.master.try_clone_reader() {
        Ok(rd) => Ok(PtyReader { inner: rd }),
        Err(e) => Err(e.to_string()),
    }
}

/// Relies on `std::io::Write::write_all`: on `Ok`, the whole buffer was
/// handed to the OS; a partial write is never reported as success.
#[verifier::external_body]
pub(crate) fn pty_write_all(w: &mut PtyWriter, data: &[u8]) -> (r: Result<(), String>)
{
    w.inner.write_all(data).map_err(|e| e.to_string())
}

/// Relies on `std::io::Write::flush`: pushes buffered bytes down to the
/// OS.
#[verifier::external_body]
pub(crate) fn pty_flush(w: &mut PtyWriter) -> (r: Result<(), String>)
{
    w.inner.flush().map_err(|e| e.to_string())
}

/// Relies on `std::io::Read::read`: blocks for the next chunk of output.
/// `Ok` carries at most 8192 bytes; an empty `Ok` means the stream hit
/// end-of-file because the child closed its end.
#[verifier::external_body]
pub(crate) fn read_pty_chunk(r: &mut PtyReader) -> (chunk: Result<Vec<u8>, String>)
    ensures
        chunk matches Ok(data) ==> data@.len() <= 8192,
{
    let mut buf = [0u8; 8192];
    match r.inner.read(&mut buf) {
        Ok(n) => Ok(buf[..n].to_vec()),
        Err(e) => Err(e.to_string()),
    }
}

} // verus!
