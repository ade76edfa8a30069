//! Connecting to a remote host, maintaining the connection, and executing
//! commands over SSH.

use vstd::prelude::*;
use vstd::string::StringExecFns;

use crate::errors::SshError;
use crate::util::escape_for_bash;
use crate::util::escaped;

verus! {

/// The mathematical model of an [`SshCommand`]: the raw command line and the
/// five execution options.
pub ghost struct CommandModel {
    /// The raw command line, never re-escaped by the caller.
    pub text: Seq<char>,
    /// If present, the invocation is prefixed with a change into this
    /// directory.
    pub cwd: Option<Seq<char>>,
    /// If true, the text is escaped and wrapped as `bash -c <escaped>`.
    pub use_bash: bool,
    /// If true, a non-zero remote exit status is tolerated instead of being
    /// turned into an error.
    pub allow_error: bool,
    /// If true, the command is never executed remotely; an empty success
    /// result is returned.
    pub dry_run: bool,
    /// If true, no pseudo-terminal is requested before executing.
    pub no_pty: bool,
}

/// An immutable, builder-configured description of one remote shell
/// invocation.
#[derive(Debug)]
pub struct SshCommand {
    cmd: String,
    cwd: Option<String>,
    use_bash: bool,
    allow_error: bool,
    dry_run: bool,
    no_pty: bool,
}

impl View for SshCommand {
    type V = CommandModel;

    closed spec fn view(&self) -> CommandModel {
        CommandModel {
            text: self.cmd@,
            cwd: match self.cwd {
                Some(d) => Some(d@),
                None => None,
            },
            use_bash: self.use_bash,
            allow_error: self.allow_error,
            dry_run: self.dry_run,
            no_pty: self.no_pty,
        }
    }
}

/// The model of a freshly built command: the given text with every option at
/// its default.
pub open spec fn fresh_command(text: Seq<char>) -> CommandModel {
    CommandModel {
        text: text,
        cwd: None,
        use_bash: false,
        allow_error: false,
        dry_run: false,
        no_pty: false,
    }
}

/// What the `cwd` builder does to a command's model.
pub open spec fn with_cwd(m: CommandModel, d: Seq<char>) -> CommandModel {
    CommandModel { cwd: Some(d), ..m }
}

/// What the `use_bash` builder does to a command's model.
pub open spec fn with_use_bash(m: CommandModel) -> CommandModel {
    CommandModel { use_bash: true, ..m }
}

/// What the `allow_error` builder does to a command's model.
pub open spec fn with_allow_error(m: CommandModel) -> CommandModel {
    CommandModel { allow_error: true, ..m }
}

/// What the `dry_run` builder does to a command's model.
pub open spec fn with_dry_run(m: CommandModel, is_dry: bool) -> CommandModel {
    CommandModel { dry_run: is_dry, ..m }
}

/// What the `no_pty` builder does to a command's model.
pub open spec fn with_no_pty(m: CommandModel) -> CommandModel {
    CommandModel { no_pty: true, ..m }
}

impl SshCommand {
    /// Create a new builder for the given command with default options.
    pub fn new(cmd: &str) -> (r: Self)
        ensures
            r@ == fresh_command(cmd@),
    {
        SshCommand {
            cmd: cmd.to_owned(),
            cwd: None,
            use_bash: false,
            allow_error: false,
            dry_run: false,
            no_pty: false,
        }
    }

    /// Change the current working directory to `cwd` before executing.
    pub fn cwd(self, cwd: &str) -> (r: Self)
        ensures
            r@ == with_cwd(self@, cwd@),
    {
        SshCommand { cwd: Some(cwd.to_owned()), ..self }
    }

    /// Execute using bash.
    pub fn use_bash(self) -> (r: Self)
        ensures
            r@ == with_use_bash(self@),
    {
        SshCommand { use_bash: true, ..self }
    }

    /// Allow a non-zero exit code.  Normally, an error would occur and we
    /// would return early.
    pub fn allow_error(self) -> (r: Self)
        ensures
            r@ == with_allow_error(self@),
    {
        SshCommand { allow_error: true, ..self }
    }

    /// Don't actually execute any command remotely.  Just return success as
    /// if the command had run and produced no output.  Note that we still
    /// connect to the remote.  This is useful for debugging.
    pub fn dry_run(self, is_dry: bool) -> (r: Self)
        ensures
            r@ == with_dry_run(self@, is_dry),
    {
        SshCommand { dry_run: is_dry, ..self }
    }

    /// Don't request a pseudo-terminal (pty).  Some commands behave
    /// differently under a pty and must avoid one.
    ///
    /// NOTE: You need a pty for `sudo`.
    pub fn no_pty(self) -> (r: Self)
        ensures
            r@ == with_no_pty(self@),
    {
        SshCommand { no_pty: true, ..self }
    }

    /// Helper for tests that makes an `SshCommand` with the given values.
    pub fn make_cmd(
        cmd: &str,
        cwd: Option<String>,
        use_bash: bool,
        allow_error: bool,
        dry_run: bool,
        no_pty: bool,
    ) -> (r: Self)
        ensures
            r@ == (CommandModel {
                text: cmd@,
                cwd: match cwd {
                    Some(d) => Some(d@),
                    None => None,
                },
                use_bash: use_bash,
                allow_error: allow_error,
                dry_run: dry_run,
                no_pty: no_pty,
            }),
    {
        SshCommand { cmd: cmd.to_owned(), cwd, use_bash, allow_error, dry_run, no_pty }
    }

    /// Helper for tests to get the raw command text of this `SshCommand`.
    pub fn cmd(&self) -> (r: &str)
        ensures
            r@ == self@.text,
    {
        self.cmd.as_str()
    }
}

impl PartialEq for SshCommand {
    /// Structural equality of all fields, used heavily for testing expected
    /// command sequences.
    fn eq(&self, other: &Self) -> (r: bool) {
        let cwd_eq: bool = match (&self.cwd, &other.cwd) {
            (Some(a), Some(b)) => *a == *b,
            (None, None) => true,
            _ => false,
        };
        self.cmd == other.cmd && cwd_eq && self.use_bash == other.use_bash
            && self.allow_error == other.allow_error && self.dry_run == other.dry_run
            && self.no_pty == other.no_pty
    }
}

impl vstd::std_specs::cmp::PartialEqSpecImpl for SshCommand {
    open spec fn obeys_eq_spec() -> bool {
        true
    }

    open spec fn eq_spec(&self, other: &Self) -> bool {
        self@ == other@
    }
}

impl Eq for SshCommand {}

/// Builder steps are independent: applying any two distinct configuration
/// steps to a command model yields the same value in either order.
pub proof fn lemma_builder_order_insensitive(m: CommandModel, d: Seq<char>, is_dry: bool)
    ensures
        with_use_bash(with_cwd(m, d)) == with_cwd(with_use_bash(m), d),
        with_allow_error(with_cwd(m, d)) == with_cwd(with_allow_error(m), d),
        with_dry_run(with_cwd(m, d), is_dry) == with_cwd(with_dry_run(m, is_dry), d),
        with_no_pty(with_cwd(m, d)) == with_cwd(with_no_pty(m), d),
        with_allow_error(with_use_bash(m)) == with_use_bash(with_allow_error(m)),
        with_dry_run(with_use_bash(m), is_dry) == with_use_bash(with_dry_run(m, is_dry)),
        with_no_pty(with_use_bash(m)) == with_use_bash(with_no_pty(m)),
        with_dry_run(with_allow_error(m), is_dry) == with_allow_error(with_dry_run(m, is_dry)),
        with_no_pty(with_allow_error(m)) == with_allow_error(with_no_pty(m)),
        with_no_pty(with_dry_run(m, is_dry)) == with_dry_run(with_no_pty(m), is_dry),
{
}

/// The fully buffered captured streams of one completed invocation (or empty
/// strings for a dry run).
#[derive(Debug)]
pub struct SshOutput {
    pub stdout: String,
    pub stderr: String,
}

/// One entry of a shell's history: a command run on it, or a
/// reconnection.
pub ghost enum ShellEvent {
    /// A command was submitted, with this model.
    Ran(CommandModel),
    /// The connection was re-established.
    Reconnected,
}

/// The events for running each of the given commands, in order.
pub open spec fn ran_events(cmds: Seq<CommandModel>) -> Seq<ShellEvent> {
    cmds.map_values(|c: CommandModel| ShellEvent::Ran(c))
}

/// A trait representing types that can run an `SshCommand`: a shell backed
/// by a live SSH connection, or a scripted stand-in for testing.
///
/// Its contract models a shell as an oracle with a transcript: `log()` is
/// the history of what has been asked of it, `reply(cmd)` the answer it
/// gives to a command, and `reconnect_reply()` the outcome of asking it to
/// reconnect; the answers do not change as the transcript grows.  A
/// scripted stand-in, whose answers are fixed in advance, satisfies this
/// model literally; of a live connection it is the assumption under which
/// the command-sequence helpers are verified.
pub trait Execute: Sized {
    /// The history of this shell: every command run on it and every
    /// reconnection, in order.  The default is the empty history; a
    /// verified implementation would supply its own.
    open spec fn log(&self) -> Seq<ShellEvent> {
        Seq::empty()
    }

    /// The answer this shell gives to the given command.  The default
    /// leaves the answer unspecified; a verified implementation would
    /// supply its own.
    open spec fn reply(&self, cmd: CommandModel) -> Result<SshOutput, SshError> {
        vstd::pervasive::arbitrary()
    }

    /// The outcome of asking this shell to reconnect.  The default always
    /// succeeds; a verified implementation would supply its own.
    open spec fn reconnect_reply(&self) -> Result<(), SshError> {
        Ok(())
    }

    /// Run a command on the remote machine, blocking until the command
    /// completes.
    ///
    /// Note that a command using `sudo` will hang indefinitely if `sudo`
    /// asks for a password.
    fn run(&mut self, cmd: SshCommand) -> (r: Result<SshOutput, SshError>)
        ensures
            final(self).log() == old(self).log().push(ShellEvent::Ran(cmd@)),
            forall|c: CommandModel| #[trigger] final(self).reply(c) == old(self).reply(c),
            final(self).reconnect_reply() == old(self).reconnect_reply(),
            r == old(self).reply(cmd@),
    ;

    /// Attempt to reconnect to the remote until it reconnects (possibly
    /// indefinitely), failing fast only when the credentials are rejected.
    fn reconnect(&mut self) -> (r: Result<(), SshError>)
        ensures
            final(self).log() == old(self).log().push(ShellEvent::Reconnected),
            forall|c: CommandModel| #[trigger] final(self).reply(c) == old(self).reply(c),
            final(self).reconnect_reply() == old(self).reconnect_reply(),
            r == old(self).reconnect_reply(),
    ;
}

/// Declares `ssh2::Session`, the underlying SSH client library's handle for
/// one authenticated connection.  The value is opaque to verification; the
/// library's view of it is reference-counted and internally locked, so
/// handles to the same session can be shared with background tasks.
#[verifier::external_type_specification]
#[verifier::external_body]
pub struct ExSession(ssh2::Session);

/// Declares `ssh2::Channel`, the underlying SSH client library's handle for
/// one command's execution context.  The value is opaque to verification.
#[verifier::external_type_specification]
#[verifier::external_body]
pub struct ExChannel(ssh2::Channel);

/// Relies on `ssh2::Session::handshake`: performs the SSH protocol
/// negotiation over the attached transport stream.  The session value is a
/// reference-counted handle, and the call mutates only what it points to,
/// never the handle itself.
#[verifier::external_body]
fn sess_handshake(sess: &mut ssh2::Session) -> (r: Result<(), ssh2::Error>)
    ensures
        *final(sess) == *old(sess),
{
    sess.handshake()
}

/// Relies on `ssh2::Session::userauth_pubkey_file`: authenticates as the
/// given user with the private key file at the given path, no passphrase.
#[verifier::external_body]
fn sess_auth(sess: &ssh2::Session, username: &str, key: &str) -> (r: Result<(), ssh2::Error>) {
    sess.userauth_pubkey_file(username, None, std::path::Path::new(key), None)
}

/// Relies on `ssh2::Session::authenticated`: whether the session has been
/// successfully authenticated.
#[verifier::external_body]
fn sess_authenticated(sess: &ssh2::Session) -> (r: bool) {
    sess.authenticated()
}

/// Relies on `ssh2::Session::channel_session`: establishes a new
/// session-based channel for one command's lifetime.
#[verifier::external_body]
fn sess_channel(sess: &ssh2::Session) -> (r: Result<ssh2::Channel, ssh2::Error>) {
    sess.channel_session()
}

/// Relies on `ssh2::Session::clone`: another handle to the same shared,
/// internally locked session.
#[verifier::external_body]
fn sess_clone(sess: &ssh2::Session) -> (r: ssh2::Session) {
    sess.clone()
}

/// Relies on `ssh2::Channel::request_pty`: requests a "vt100"
/// pseudo-terminal on the channel.
#[verifier::external_body]
fn chan_request_pty(chan: &mut ssh2::Channel) -> (r: Result<(), ssh2::Error>) {
    chan.request_pty("vt100", None, None)
}

/// Relies on `ssh2::Channel::exec`: executes the given command string on
/// the remote host.
#[verifier::external_body]
fn chan_exec(chan: &mut ssh2::Channel, cmd: &str) -> (r: Result<(), ssh2::Error>) {
    chan.exec(cmd)
}

/// Relies on `std::io::Read::read_to_end` through `ssh2::Channel`'s `Read`
/// implementation: appends the rest of the remote standard output stream,
/// up to its end, to the buffer.
#[verifier::external_body]
fn chan_read_to_end(chan: &mut ssh2::Channel, buf: &mut Vec<u8>) -> (r: Result<
    usize,
    std::io::Error,
>) {
    std::io::Read::read_to_end(chan, buf)
}

/// Relies on `ssh2::Channel::stderr` and `std::io::Read::read_to_end`:
/// appends the rest of the remote standard error stream, up to its end, to
/// the buffer.
#[verifier::external_body]
fn chan_read_stderr_to_end(chan: &ssh2::Channel, buf: &mut Vec<u8>) -> (r: Result<
    usize,
    std::io::Error,
>) {
    std::io::Read::read_to_end(&mut chan.stderr(), buf)
}

/// Relies on `ssh2::Channel::close`: tells the remote host that no further
/// data will be sent.
#[verifier::external_body]
fn chan_close(chan: &mut ssh2::Channel) -> (r: Result<(), ssh2::Error>) {
    chan.close()
}

/// Relies on `ssh2::Channel::wait_close`: blocks until the remote host
/// closes the channel; required before the exit status is reliable.
#[verifier::external_body]
fn chan_wait_close(chan: &mut ssh2::Channel) -> (r: Result<(), ssh2::Error>) {
    chan.wait_close()
}

/// Relies on `ssh2::Channel::exit_status`: the exit code of the remote
/// process, available once the channel has finished closing.
#[verifier::external_body]
fn chan_exit_status(chan: &ssh2::Channel) -> (r: Result<i32, ssh2::Error>) {
    chan.exit_status()
}

/// The characters that a byte sequence decodes to as UTF-8 when invalid
/// sequences are replaced instead of rejected; a function of the bytes
/// alone.
pub uninterp spec fn lossy_of(bytes: Seq<u8>) -> Seq<char>;

/// Relies on `String::from_utf8_lossy`: decodes the bytes as UTF-8,
/// replacing invalid sequences with the replacement character; the result
/// depends on the bytes alone.
#[verifier::external_body]
fn utf8_lossy(bytes: &Vec<u8>) -> (r: String)
    ensures
        r@ == lossy_of(bytes@),
{
    String::from_utf8_lossy(bytes.as_slice()).into_owned()
}

/// The command text as actually executed: wrapped through bash if asked,
/// then prefixed with a directory change if one is set.
pub open spec fn spec_resolved(m: CommandModel) -> Seq<char> {
    let after_bash = if m.use_bash {
        "bash -c "@ + escaped(m.text)
    } else {
        m.text
    };
    match m.cwd {
        Some(d) => "cd "@ + d + " ; "@ + after_bash,
        None => after_bash,
    }
}

/// Builds the command text actually executed for `cmd`.
fn resolve_command(cmd: &SshCommand) -> (r: String)
    ensures
        r@ == spec_resolved(cmd@),
{
    let after_bash: String = if cmd.use_bash {
        "bash -c ".to_owned().concat(escape_for_bash(cmd.cmd.as_str()).as_str())
    } else {
        cmd.cmd.clone()
    };
    match &cmd.cwd {
        Some(d) => "cd ".to_owned().concat(d.as_str()).concat(" ; ").concat(after_bash.as_str()),
        None => after_bash,
    }
}

/// Turns the exit status of a completed remote command into its result: a
/// non-zero status becomes a `NonZeroExit` error carrying the rewritten
/// command text and the code, unless the command tolerates non-zero exits,
/// in which case the captured output is returned as a success.
pub fn interpret_exit_status(
    cmd_text: String,
    allow_error: bool,
    exit: i32,
    stdout: String,
    stderr: String,
) -> (r: Result<SshOutput, SshError>)
    ensures
        exit == 0 || allow_error ==> (r matches Ok(out) && out.stdout@ == stdout@ && out.stderr@
            == stderr@),
        exit != 0 && !allow_error ==> (r matches Err(SshError::NonZeroExit { cmd: c, exit: e })
            && c@ == cmd_text@ && e == exit),
{
    if exit != 0 && !allow_error {
        Err(SshError::NonZeroExit { cmd: cmd_text, exit })
    } else {
        Ok(SshOutput { stdout, stderr })
    }
}

/// Drives the execution protocol for one command on an open, not yet
/// executed channel: resolve the command text, stop early for a dry run,
/// request a pseudo-terminal unless suppressed, execute, drain standard
/// output, close and wait for the remote close, drain standard error, and
/// interpret the exit status.
fn run_with_chan(chan: ssh2::Channel, cmd_opts: SshCommand) -> (r: Result<SshOutput, SshError>)
    ensures
        cmd_opts@.dry_run ==> (r matches Ok(out) ==> out.stdout@ == Seq::<char>::empty()
            && out.stderr@ == Seq::<char>::empty()),
        r matches Err(SshError::NonZeroExit { cmd: c, exit: code }) ==> !cmd_opts@.dry_run
            && !cmd_opts@.allow_error && code != 0 && c@ == spec_resolved(cmd_opts@),
        cmd_opts@.allow_error || cmd_opts@.dry_run ==> !(r matches Err(
            SshError::NonZeroExit { .. },
        )),
        r matches Err(e) ==> !(e is KeyNotFound) && !(e is AuthFailed),
        cmd_opts@.dry_run ==> (r matches Err(e) ==> e is SshError),
        !cmd_opts@.dry_run ==> (r matches Ok(out) ==> (exists|b: Seq<u8>| out.stdout@ == lossy_of(
            b,
        )) && (exists|b: Seq<u8>| out.stderr@ == lossy_of(b))),
{
    let mut chan = chan;
    let resolved = resolve_command(&cmd_opts);

    // If dry run, close and return early without actually doing anything.
    if cmd_opts.dry_run {
        match chan_close(&mut chan) {
            Ok(()) => {},
            Err(e) => {
                return Err(SshError::SshError { error: e });
            },
        }
        match chan_wait_close(&mut chan) {
            Ok(()) => {},
            Err(e) => {
                return Err(SshError::SshError { error: e });
            },
        }
        return Ok(SshOutput { stdout: String::new(), stderr: String::new() });
    }
    // Request a pty so that `sudo` commands work fine.
    if !cmd_opts.no_pty {
        match chan_request_pty(&mut chan) {
            Ok(()) => {},
            Err(e) => {
                return Err(SshError::SshError { error: e });
            },
        }
    }
    match chan_exec(&mut chan, resolved.as_str()) {
        Ok(()) => {},
        Err(e) => {
            return Err(SshError::SshError { error: e });
        },
    }
    // Drain stdout; only then may the channel be closed.
    let mut raw_out: Vec<u8> = Vec::new();
    match chan_read_to_end(&mut chan, &mut raw_out) {
        Ok(_) => {},
        Err(e) => {
            return Err(SshError::IoError { error: e });
        },
    }
    let stdout = utf8_lossy(&raw_out);

    // Close, and wait for the remote side to finish closing: the exit
    // status and stderr are not reliable before that.
    match chan_close(&mut chan) {
        Ok(()) => {},
        Err(e) => {
            return Err(SshError::SshError { error: e });
        },
    }
    match chan_wait_close(&mut chan) {
        Ok(()) => {},
        Err(e) => {
            return Err(SshError::SshError { error: e });
        },
    }
    // Drain stderr.
    let mut raw_err: Vec<u8> = Vec::new();
    match chan_read_stderr_to_end(&chan, &mut raw_err) {
        Ok(_) => {},
        Err(e) => {
            return Err(SshError::IoError { error: e });
        },
    }
    let stderr = utf8_lossy(&raw_err);

    // Check the exit status, only now that both streams are drained and the
    // close has completed.
    let exit = match chan_exit_status(&chan) {
        Ok(code) => code,
        Err(e) => {
            return Err(SshError::SshError { error: e });
        },
    };
    interpret_exit_status(resolved, cmd_opts.allow_error, exit, stdout, stderr)
}

/// Runs a command on a shared session handle: opens a new channel for the
/// command's lifetime and drives the execution protocol on it.  This is
/// what a background task runs for a spawned command; the session's
/// internal lock keeps concurrent commands from interleaving on the wire.
pub fn run_on_session(sess: &ssh2::Session, cmd: SshCommand) -> (r: Result<SshOutput, SshError>)
    ensures
        cmd@.dry_run ==> (r matches Ok(out) ==> out.stdout@ == Seq::<char>::empty()
            && out.stderr@ == Seq::<char>::empty()),
        r matches Err(SshError::NonZeroExit { cmd: c, exit: code }) ==> !cmd@.dry_run
            && !cmd@.allow_error && code != 0 && c@ == spec_resolved(cmd@),
        cmd@.allow_error || cmd@.dry_run ==> !(r matches Err(SshError::NonZeroExit { .. })),
        r matches Err(e) ==> !(e is KeyNotFound) && !(e is AuthFailed),
        cmd@.dry_run ==> (r matches Err(e) ==> e is SshError),
        !cmd@.dry_run ==> (r matches Ok(out) ==> (exists|b: Seq<u8>| out.stdout@ == lossy_of(
            b,
        )) && (exists|b: Seq<u8>| out.stderr@ == lossy_of(b))),
{
    let chan = match sess_channel(sess) {
        Ok(c) => c,
        Err(e) => {
            return Err(SshError::SshError { error: e });
        },
    };
    run_with_chan(chan, cmd)
}

/// Relies on `dirs::home_dir`: the user's home directory as the
/// environment reports it, or `None` when it cannot be determined.
#[verifier::external_body]
fn home_dir_path() -> (r: Option<String>) {
    match dirs::home_dir() {
        Some(p) => Some(p.to_string_lossy().into_owned()),
        None => None,
    }
}

/// The conventional location of the default private key under a home
/// directory.
pub open spec fn spec_default_key(home: Seq<char>) -> Seq<char> {
    home + "/.ssh/id_rsa"@
}

/// The path of the default private key, `.ssh/id_rsa`, under the given
/// home directory.
pub fn default_key_path(home: &str) -> (r: String)
    ensures
        r@ == spec_default_key(home@),
{
    home.to_owned().concat("/.ssh/id_rsa")
}

/// Resolves the path of the default private key, `~/.ssh/id_rsa`.  Fails
/// with `KeyNotFound` exactly when the home directory cannot be
/// determined.
pub fn resolve_default_key() -> (r: Result<String, SshError>)
    ensures
        r matches Ok(p) ==> exists|home: Seq<char>| p@ == spec_default_key(home),
        r matches Err(e) ==> e is KeyNotFound,
        r matches Err(SshError::KeyNotFound { file }) ==> file@ == ".ssh/id_rsa"@,
{
    match home_dir_path() {
        Some(home) => {
            let p = default_key_path(home.as_str());
            proof {
                assert(p@ == spec_default_key(home@));
            }
            Ok(p)
        },
        None => Err(SshError::KeyNotFound { file: ".ssh/id_rsa".to_owned() }),
    }
}

/// Whether a file name ends in `.pub`, marking it as a public key.
pub open spec fn ends_in_pub(name: Seq<char>) -> bool {
    name.len() >= 4 && name.subrange(name.len() - 4, name.len() as int) == ".pub"@
}

/// The private key names among the given directory entries: each name
/// ending in `.pub` names a public key, and its private twin is that name
/// with the suffix stripped; other names contribute nothing.
pub open spec fn spec_private_keys(names: Seq<Seq<char>>) -> Seq<Seq<char>>
    decreases names.len(),
{
    if names.len() == 0 {
        Seq::empty()
    } else {
        let rest = spec_private_keys(names.drop_first());
        if ends_in_pub(names[0]) {
            seq![names[0].take(names[0].len() - 4)] + rest
        } else {
            rest
        }
    }
}

/// Whether the file name ends in `.pub`.
fn ends_with_pub(name: &str) -> (r: bool)
    ensures
        r == ends_in_pub(name@),
{
    let n: usize = name.unicode_len();
    if n < 4 {
        return false;
    }
    let r = name.get_char(n - 4) == '.' && name.get_char(n - 3) == 'p' && name.get_char(n - 2)
        == 'u' && name.get_char(n - 1) == 'b';
    proof {
        reveal_strlit(".pub");
        let sub = name@.subrange(n - 4, n as int);
        if r {
            assert(sub =~= ".pub"@);
        } else {
            assert(sub[0] == name@[n - 4] && sub[1] == name@[n - 3] && sub[2] == name@[n - 2]
                && sub[3] == name@[n - 1]);
        }
    }
    r
}

/// The candidate private keys among the given directory entries, in order:
/// for every name ending in `.pub`, the name with that suffix stripped.
pub fn private_key_candidates(names: &Vec<String>) -> (r: Vec<String>)
    ensures
        r.deep_view() == spec_private_keys(names.deep_view()),
{
    let ghost all = names.deep_view();
    let mut out: Vec<String> = Vec::new();
    let mut i: usize = 0;
    proof {
        assert(all.skip(0) =~= all);
        assert(out.deep_view() + spec_private_keys(all.skip(0)) =~= spec_private_keys(all));
    }
    while i < names.len()
        invariant
            all == names.deep_view(),
            all.len() == names@.len(),
            i <= names@.len(),
            out.deep_view() + spec_private_keys(all.skip(i as int)) == spec_private_keys(all),
        decreases names.len() - i,
    {
        let ghost prev_out = out.deep_view();
        let ghost rem = all.skip(i as int);
        let name = &names[i];
        proof {
            assert(name@ == all[i as int]);
            assert(rem[0] == all[i as int]);
            assert(rem.drop_first() =~= all.skip(i + 1int));
        }
        if ends_with_pub(name.as_str()) {
            let n: usize = name.as_str().unicode_len();
            let stem = name.as_str().substring_char(0, n - 4).to_owned();
            out.push(stem);
            proof {
                assert(name@.subrange(0, n as int - 4) =~= name@.take(name@.len() - 4));
                assert(out.deep_view() =~= prev_out.push(name@.take(name@.len() - 4)));
                assert(spec_private_keys(rem) == seq![rem[0].take(rem[0].len() - 4)]
                    + spec_private_keys(rem.drop_first()));
                assert(out.deep_view() + spec_private_keys(all.skip(i + 1int)) =~= prev_out
                    + spec_private_keys(rem));
            }
        } else {
            proof {
                assert(spec_private_keys(rem) == spec_private_keys(rem.drop_first()));
            }
        }
        i = i + 1;
    }
    proof {
        assert(all.skip(all.len() as int) =~= Seq::<Seq<char>>::empty());
        assert(out.deep_view() + Seq::<Seq<char>>::empty() =~= out.deep_view());
    }
    out
}

/// The mathematical model of an [`SshShell`]: its identity and its dry-run
/// mode.  The live session handle is opaque and has no model.
pub ghost struct ShellModel {
    /// The user the shell is authenticated as.
    pub username: Seq<char>,
    /// The path of the private key file the shell authenticated with.
    pub key: Seq<char>,
    /// The remote's display name, used for reporting.
    pub remote_name: Seq<char>,
    /// The remote's address, used to open further connections to it.
    pub remote_addr: Seq<char>,
    /// When on, every command run on this shell is forced into dry run.
    pub dry_run_mode: bool,
}

/// Represents a connection via SSH to a particular host.
pub struct SshShell {
    sess: ssh2::Session,
    username: String,
    key: String,
    remote_name: String,
    remote_addr: String,
    dry_run_mode: bool,
}

impl View for SshShell {
    type V = ShellModel;

    closed spec fn view(&self) -> ShellModel {
        ShellModel {
            username: self.username@,
            key: self.key@,
            remote_name: self.remote_name@,
            remote_addr: self.remote_addr@,
            dry_run_mode: self.dry_run_mode,
        }
    }
}

/// The command as actually submitted to a shell: forced into dry run when
/// the shell's dry-run mode is on.
pub open spec fn spec_effective(shell: ShellModel, m: CommandModel) -> CommandModel {
    if shell.dry_run_mode {
        with_dry_run(m, true)
    } else {
        m
    }
}

/// The session handle a shell holds; the handle is reference-counted, so
/// two equal handles share one underlying connection.
pub closed spec fn spec_sess(sh: SshShell) -> ssh2::Session {
    sh.sess
}

/// Relies on `ssh2::Error::code`: the error's code, where it originates in
/// the SSH session layer rather than the file-transfer sublayer.
#[verifier::external_body]
fn ssh2_error_code(error: &ssh2::Error) -> (r: Option<i32>) {
    match error.code() {
        ssh2::ErrorCode::Session(code) => Some(code),
        ssh2::ErrorCode::SFTP(_) => None,
    }
}

/// The code with which the underlying library reports that authentication
/// was refused outright.
pub const AUTH_REJECTED_CODE: i32 = -18;

/// The code with which the underlying library reports that the supplied
/// key could not be verified.
pub const KEY_UNVERIFIED_CODE: i32 = -19;

/// Classifies a failure of the authentication step, given the error's
/// code as [`ssh2_error_code`] reports it: exactly the codes with which
/// the underlying library reports rejected credentials become the
/// distinct `AuthFailed` error carrying the key path, so that callers can
/// tell them from transport errors and try another key; every other error
/// is surfaced as it is.
pub fn classify_auth_error(key: &str, error: ssh2::Error, code: Option<i32>) -> (r: SshError)
    ensures
        (r is AuthFailed) == (code == Some(AUTH_REJECTED_CODE) || code == Some(
            KEY_UNVERIFIED_CODE,
        )),
        r matches SshError::AuthFailed { key: k } ==> k@ == key@,
        !(r is AuthFailed) ==> (r matches SshError::SshError { error: e } && e == error),
{
    match code {
        Some(c) => {
            if c == AUTH_REJECTED_CODE || c == KEY_UNVERIFIED_CODE {
                SshError::AuthFailed { key: key.to_owned() }
            } else {
                SshError::SshError { error }
            }
        },
        None => SshError::SshError { error },
    }
}

impl SshShell {
    /// Completes the lifecycle of a new connection whose transport stream
    /// is already attached to the given session: protocol handshake, then
    /// public-key authentication as the given user with the private key
    /// file at the given path.  Rejected credentials give `AuthFailed`
    /// carrying the key path; transport and protocol errors are surfaced
    /// as they are.  The new shell starts with dry-run mode off.
    pub fn establish(
        sess: ssh2::Session,
        username: &str,
        key: &str,
        remote_addr: &str,
        remote_name: &str,
    ) -> (r: Result<SshShell, SshError>)
        ensures
            r matches Ok(sh) ==> sh@ == (ShellModel {
                username: username@,
                key: key@,
                remote_name: remote_name@,
                remote_addr: remote_addr@,
                dry_run_mode: false,
            }),
            r matches Ok(sh) ==> spec_sess(sh) == sess,
            r matches Err(SshError::AuthFailed { key: k }) ==> k@ == key@,
            r matches Err(e) ==> !(e is NonZeroExit) && !(e is KeyNotFound) && !(e is IoError),
    {
        let mut sess = sess;
        match sess_handshake(&mut sess) {
            Ok(()) => {},
            Err(e) => {
                return Err(SshError::SshError { error: e });
            },
        }
        match sess_auth(&sess, username, key) {
            Ok(()) => {},
            Err(e) => {
                let code = ssh2_error_code(&e);
                return Err(classify_auth_error(key, e, code));
            },
        }
        if !sess_authenticated(&sess) {
            return Err(SshError::AuthFailed { key: key.to_owned() });
        }
        Ok(
            SshShell {
                sess,
                username: username.to_owned(),
                key: key.to_owned(),
                remote_name: remote_name.to_owned(),
                remote_addr: remote_addr.to_owned(),
                dry_run_mode: false,
            },
        )
    }

    /// Completes a reconnection attempt on a freshly connected transport
    /// stream attached to the given session: handshake and authentication
    /// exactly as for a new shell.  Rejected credentials give `AuthFailed`
    /// at once — only the transport connection itself is ever retried, by
    /// the caller.  On success the shell's session is replaced; its
    /// identity and dry-run mode are unchanged either way.  Must not be
    /// called while a command is in flight on this shell.
    pub fn resume(&mut self, sess: ssh2::Session) -> (r: Result<(), SshError>)
        ensures
            final(self)@ == old(self)@,
            r matches Ok(()) ==> spec_sess(*final(self)) == sess,
            r matches Err(_) ==> spec_sess(*final(self)) == spec_sess(*old(self)),
            r matches Err(SshError::AuthFailed { key: k }) ==> k@ == old(self)@.key,
            r matches Err(e) ==> !(e is NonZeroExit) && !(e is KeyNotFound) && !(e is IoError),
    {
        let mut sess = sess;
        match sess_handshake(&mut sess) {
            Ok(()) => {},
            Err(e) => {
                return Err(SshError::SshError { error: e });
            },
        }
        match sess_auth(&sess, self.username.as_str(), self.key.as_str()) {
            Ok(()) => {},
            Err(e) => {
                let code = ssh2_error_code(&e);
                return Err(classify_auth_error(self.key.as_str(), e, code));
            },
        }
        if !sess_authenticated(&sess) {
            return Err(SshError::AuthFailed { key: self.key.clone() });
        }
        self.sess = sess;
        Ok(())
    }

    /// Toggles _dry run mode_.  In dry run mode, commands are not executed
    /// remotely; every command passed to `run` is forced into dry run
    /// regardless of its own flag.  Note that we do connect remotely,
    /// though.  This is off by default.
    pub fn set_dry_run(&mut self, on: bool)
        ensures
            final(self)@ == (ShellModel { dry_run_mode: on, ..old(self)@ }),
    {
        self.dry_run_mode = on;
    }

    /// The command as this shell will actually submit it: forced into dry
    /// run when the shell's dry-run mode is on.
    pub fn apply_dry_run(&self, cmd: SshCommand) -> (r: SshCommand)
        ensures
            r@ == spec_effective(self@, cmd@),
    {
        if self.dry_run_mode {
            cmd.dry_run(true)
        } else {
            cmd
        }
    }

    /// Runs a command on the remote machine, blocking until the command
    /// completes: applies the shell's dry-run override, opens a channel on
    /// the shared session for the command's lifetime, and drives the
    /// execution protocol.
    ///
    /// Note that a command using `sudo` will hang indefinitely if `sudo`
    /// asks for a password.
    pub fn run(&self, cmd: SshCommand) -> (r: Result<SshOutput, SshError>)
        ensures
            spec_effective(self@, cmd@).dry_run ==> (r matches Ok(out) ==> out.stdout@
                == Seq::<char>::empty() && out.stderr@ == Seq::<char>::empty()),
            r matches Err(SshError::NonZeroExit { cmd: c, exit: code }) ==> ({
                let eff = spec_effective(self@, cmd@);
                &&& !eff.dry_run
                &&& !eff.allow_error
                &&& code != 0
                &&& c@ == spec_resolved(eff)
            }),
            spec_effective(self@, cmd@).allow_error || spec_effective(self@, cmd@).dry_run ==> !(
            r matches Err(SshError::NonZeroExit { .. })),
            r matches Err(e) ==> !(e is KeyNotFound) && !(e is AuthFailed),
            spec_effective(self@, cmd@).dry_run ==> (r matches Err(e) ==> e is SshError),
            !spec_effective(self@, cmd@).dry_run ==> (r matches Ok(out) ==> (exists|b: Seq<u8>|
                out.stdout@ == lossy_of(b)) && (exists|b: Seq<u8>| out.stderr@ == lossy_of(b))),
    {
        let cmd = self.apply_dry_run(cmd);
        run_on_session(&self.sess, cmd)
    }

    /// Another handle to this shell's shared session, for a background
    /// task to run a spawned command on.  The session is reference-counted
    /// and internally locked, so commands run on the two handles serialize
    /// instead of interleaving on the wire.
    pub fn shared_session(&self) -> ssh2::Session {
        sess_clone(&self.sess)
    }

    /// The user this shell is authenticated as.
    pub fn username(&self) -> (r: &str)
        ensures
            r@ == self@.username,
    {
        self.username.as_str()
    }

    /// The path of the private key file this shell authenticated with.
    pub fn key_path(&self) -> (r: &str)
        ensures
            r@ == self@.key,
    {
        self.key.as_str()
    }

    /// The remote's address, for opening further connections to it.
    pub fn remote_addr(&self) -> (r: &str)
        ensures
            r@ == self@.remote_addr,
    {
        self.remote_addr.as_str()
    }

    /// The remote's display name, for reporting.
    pub fn remote_name(&self) -> (r: &str)
        ensures
            r@ == self@.remote_name,
    {
        self.remote_name.as_str()
    }

    /// Whether dry-run mode is on.
    pub fn is_dry_run(&self) -> (r: bool)
        ensures
            r == self@.dry_run_mode,
    {
        self.dry_run_mode
    }
}

} // verus!
