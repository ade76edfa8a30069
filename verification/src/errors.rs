//! The error type for everything that can go wrong when using an `SshShell`.

use vstd::prelude::*;
use vstd::string::StringExecFns;

verus! {

/// Declares `ssh2::Error`, the error type of the underlying SSH client
/// library, so that it can be carried inside [`SshError`].  The value is
/// opaque to verification.
#[verifier::external_type_specification]
#[verifier::external_body]
pub struct ExSsh2Error(ssh2::Error);

/// Declares `std::io::Error` so that it can be carried inside [`SshError`].
/// The value is opaque to verification.
#[verifier::external_type_specification]
#[verifier::external_body]
pub struct ExIoError(std::io::Error);

/// An error type representing things that could possibly go wrong when using
/// an `SshShell`.
#[derive(Debug)]
#[allow(inconsistent_fields)]
pub enum SshError {
    /// Unable to find a usable private key at the given path.
    KeyNotFound { file: String },
    /// The SSH handshake succeeded but authentication with the private key at
    /// the given path was rejected.
    AuthFailed { key: String },
    /// The command run over SSH completed but returned a non-zero exit code,
    /// and the command did not opt into tolerating that.  Carries the fully
    /// rewritten command text and the code.
    NonZeroExit { cmd: String, exit: i32 },
    /// An error reported by the underlying SSH client library.
    SshError { error: ssh2::Error },
    /// An I/O error occurred while talking to the remote.
    IoError { error: std::io::Error },
}

/// Relies on `ssh2::Error::message`: the error message text.
#[verifier::external_body]
fn ssh2_error_message(error: &ssh2::Error) -> (r: String) {
    error.message().to_owned()
}

/// Relies on `std::io::Error`'s `Display` implementation, through
/// `ToString`: the error's description.
#[verifier::external_body]
fn io_error_message(error: &std::io::Error) -> (r: String) {
    error.to_string()
}

/// The decimal digit character for a value below ten.
pub open spec fn spec_digit(d: int) -> char {
    if d == 0 {
        '0'
    } else if d == 1 {
        '1'
    } else if d == 2 {
        '2'
    } else if d == 3 {
        '3'
    } else if d == 4 {
        '4'
    } else if d == 5 {
        '5'
    } else if d == 6 {
        '6'
    } else if d == 7 {
        '7'
    } else if d == 8 {
        '8'
    } else {
        '9'
    }
}

/// The decimal digits of a non-negative value, most significant first.
pub open spec fn spec_dec(n: int) -> Seq<char>
    decreases n,
{
    if n < 10 {
        seq![spec_digit(n)]
    } else {
        spec_dec(n / 10) + seq![spec_digit(n % 10)]
    }
}

/// The decimal rendering of a value, with a leading minus sign when it is
/// negative.
pub open spec fn spec_dec_signed(n: int) -> Seq<char> {
    if n < 0 {
        seq!['-'] + spec_dec(-n)
    } else {
        spec_dec(n)
    }
}

fn digit_char(d: u32) -> (c: char)
    requires
        d < 10,
    ensures
        c == spec_digit(d as int),
{
    if d == 0 {
        '0'
    } else if d == 1 {
        '1'
    } else if d == 2 {
        '2'
    } else if d == 3 {
        '3'
    } else if d == 4 {
        '4'
    } else if d == 5 {
        '5'
    } else if d == 6 {
        '6'
    } else if d == 7 {
        '7'
    } else if d == 8 {
        '8'
    } else {
        '9'
    }
}

fn u32_dec(n: u32) -> (r: String)
    ensures
        r@ == spec_dec(n as int),
    decreases n,
{
    if n < 10 {
        let mut s = String::new();
        s.push(digit_char(n));
        proof {
            assert(s@ =~= seq![spec_digit(n as int)]);
        }
        s
    } else {
        let mut s = u32_dec(n / 10);
        s.push(digit_char(n % 10));
        proof {
            assert(s@ =~= spec_dec(n as int / 10) + seq![spec_digit(n as int % 10)]);
        }
        s
    }
}

/// Renders a value in decimal, with a leading minus sign when it is
/// negative.
pub fn i32_dec(n: i32) -> (r: String)
    ensures
        r@ == spec_dec_signed(n as int),
{
    if n < 0 {
        let mag: u32 = (-(n as i64)) as u32;
        let mut s = "-".to_owned();
        s.append(u32_dec(mag).as_str());
        proof {
            reveal_strlit("-");
            assert("-"@ =~= seq!['-']);
            assert(mag as int == -(n as int));
            assert(s@ =~= seq!['-'] + spec_dec(-(n as int)));
        }
        s
    } else {
        u32_dec(n as u32)
    }
}

impl SshError {
    /// The human-readable description of this error, as it is reported to
    /// someone watching a run.
    pub fn to_message(&self) -> (r: String)
        ensures
            self matches SshError::KeyNotFound { file } ==> r@ == "no such key: "@ + file@,
            self matches SshError::AuthFailed { key } ==> r@
                == "authentication failed with private key: "@ + key@,
            self matches SshError::NonZeroExit { cmd, exit } ==> r@ == "non-zero exit ("@
                + spec_dec_signed(exit as int) + ") for command: "@ + cmd@,
    {
        match self {
            SshError::KeyNotFound { file } => "no such key: ".to_owned().concat(file.as_str()),
            SshError::AuthFailed { key } => "authentication failed with private key: "
                .to_owned()
                .concat(key.as_str()),
            SshError::NonZeroExit { cmd, exit } => "non-zero exit ("
                .to_owned()
                .concat(i32_dec(*exit).as_str())
                .concat(") for command: ")
                .concat(cmd.as_str()),
            SshError::SshError { error } => ssh2_error_message(error),
            SshError::IoError { error } => io_error_message(error),
        }
    }
}

} // verus!
