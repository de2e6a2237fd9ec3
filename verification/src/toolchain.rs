use vstd::prelude::*;

use crate::otp::{
    decimal_digits, decimal_string, is_ascii_digit, law_major_reads_back_decimal, otp_major,
    parse_otp_major, REQUIRED_OTP_MAJOR,
};
use crate::text::{trim, trimmed};

verus! {

/// Why the Erlang toolchain cannot be used.
#[derive(Debug, PartialEq, Eq)]
pub enum ToolchainError {
    /// `erlc` was not found on the `PATH`.
    ErlcNotInstalled,
    /// `rebar3` was not found on the `PATH`.
    Rebar3NotInstalled,
    /// `erl` could not be started; the reason the system gave.
    ErlNotRunnable(String),
    /// `erl` ran and reported failure; what it wrote to stdout and stderr.
    ErlFailed { stdout: String, stderr: String },
    /// `erl` printed nothing but white space as its OTP release.
    EmptyOtpRelease,
    /// The OTP release that `erl` printed has no major release number.
    UnparsableOtpRelease(String),
    /// The OTP release that `erl` printed is not the one this tool needs.
    UnsupportedOtp(String),
}

/// What `erl` gave back when it ran: its exit status and its output, decoded
/// as text.
pub struct ErlOutput {
    pub success: bool,
    pub stdout: String,
    pub stderr: String,
}

/// The text that reports a toolchain error to the user.
pub open spec fn error_message(e: ToolchainError) -> Seq<char> {
    match e {
        ToolchainError::ErlcNotInstalled => "erlc is not installed, to compile and run mond code please install it"@,
        ToolchainError::Rebar3NotInstalled => "rebar3 is not installed, to create a bahn release please install it"@,
        ToolchainError::ErlNotRunnable(reason) => "failed to run `erl`: "@ + reason@,
        ToolchainError::ErlFailed { stdout, stderr } => "`erl` failed while checking OTP version:\n"@
            + stdout@ + stderr@,
        ToolchainError::EmptyOtpRelease => "`erl` returned an empty OTP version"@,
        ToolchainError::UnparsableOtpRelease(release) => "failed to parse OTP release `"@ + release@
            + "`"@,
        ToolchainError::UnsupportedOtp(release) => "unsupported Erlang/OTP version `"@ + release@
            + "`; bahn requires OTP "@ + decimal_digits(REQUIRED_OTP_MAJOR as nat),
    }
}

impl ToolchainError {
    /// The text that reports this error to the user.
    pub fn message(&self) -> (m: String)
        ensures
            m@ == error_message(*self),
    {
        match self {
            ToolchainError::ErlcNotInstalled => {
                "erlc is not installed, to compile and run mond code please install it".to_owned()
            },
            ToolchainError::Rebar3NotInstalled => {
                "rebar3 is not installed, to create a bahn release please install it".to_owned()
            },
            ToolchainError::ErlNotRunnable(reason) => {
                let mut m = "failed to run `erl`: ".to_owned();
                m.append(reason.as_str());
                m
            },
            ToolchainError::ErlFailed { stdout, stderr } => {
                let mut m = "`erl` failed while checking OTP version:\n".to_owned();
                m.append(stdout.as_str());
                m.append(stderr.as_str());
                m
            },
            ToolchainError::EmptyOtpRelease => "`erl` returned an empty OTP version".to_owned(),
            ToolchainError::UnparsableOtpRelease(release) => {
                let mut m = "failed to parse OTP release `".to_owned();
                m.append(release.as_str());
                m.append("`");
                m
            },
            ToolchainError::UnsupportedOtp(release) => {
                let mut m = "unsupported Erlang/OTP version `".to_owned();
                m.append(release.as_str());
                m.append("`; bahn requires OTP ");
                let required = decimal_string(REQUIRED_OTP_MAJOR);
                m.append(required.as_str());
                m
            },
        }
    }
}

/// Whether a program was found, from the output of `which <program>`: `None`
/// when `which` could not be run, else whether it printed anything.
pub fn check_dep(which_stdout: Option<&[u8]>) -> (found: Option<bool>)
    ensures
        found == match which_stdout {
            Some(out) => Some(out@.len() > 0),
            None => None::<bool>,
        },
{
    match which_stdout {
        Some(out) => Some(out.len() > 0),
        None => None,
    }
}

/// The OTP release that `erl` reported, from how running it went: `Err(reason)`
/// when it could not be started, else its exit status and output. The release
/// is what `erl` printed, without surrounding white space.
pub fn otp_release(run: Result<ErlOutput, String>) -> (release: Result<String, ToolchainError>)
    ensures
        match run {
            Err(reason) => release == Err::<String, ToolchainError>(
                ToolchainError::ErlNotRunnable(reason),
            ),
            Ok(out) => if !out.success {
                release == Err::<String, ToolchainError>(
                    ToolchainError::ErlFailed { stdout: out.stdout, stderr: out.stderr },
                )
            } else if trimmed(out.stdout@).len() == 0 {
                release == Err::<String, ToolchainError>(ToolchainError::EmptyOtpRelease)
            } else {
                release matches Ok(text) && text@ == trimmed(out.stdout@)
            },
        },
{
    match run {
        Err(reason) => Err(ToolchainError::ErlNotRunnable(reason)),
        Ok(out) => {
            if !out.success {
                return Err(ToolchainError::ErlFailed { stdout: out.stdout, stderr: out.stderr });
            }
            let text = trim(out.stdout.as_str());
            if text.as_str().is_empty() {
                Err(ToolchainError::EmptyOtpRelease)
            } else {
                Ok(text)
            }
        },
    }
}

/// Whether an OTP release is the one the tool needs.
pub open spec fn otp_release_check(release: String) -> Result<(), ToolchainError> {
    match otp_major(release@) {
        None => Err(ToolchainError::UnparsableOtpRelease(release)),
        Some(major) => if major == REQUIRED_OTP_MAJOR {
            Ok(())
        } else {
            Err(ToolchainError::UnsupportedOtp(release))
        },
    }
}

/// What the OTP check concludes from what asking `erl` for its release gave.
pub open spec fn otp_outcome(release: Result<String, ToolchainError>) -> Result<(), ToolchainError> {
    match release {
        Ok(text) => otp_release_check(text),
        Err(e) => Err(e),
    }
}

/// Checks that an OTP release has the major release the tool needs.
pub fn check_otp_release(release: String) -> (r: Result<(), ToolchainError>)
    ensures
        r == otp_release_check(release),
{
    match parse_otp_major(release.as_str()) {
        None => Err(ToolchainError::UnparsableOtpRelease(release)),
        Some(major) => {
            if major != REQUIRED_OTP_MAJOR {
                Err(ToolchainError::UnsupportedOtp(release))
            } else {
                Ok(())
            }
        },
    }
}

/// Asks for the installed OTP release (by calling `otp_release`) and checks
/// that it is the one the tool needs.
pub fn verify_otp_28<F: FnOnce() -> Result<String, ToolchainError>>(otp_release: F) -> (r: Result<
    (),
    ToolchainError,
>)
    requires
        otp_release.requires(()),
    ensures
        exists|release: Result<String, ToolchainError>|
            #[trigger] otp_release.ensures((), release) && r == otp_outcome(release),
{
    let release = otp_release();
    match release {
        Ok(text) => check_otp_release(text),
        Err(e) => Err(e),
    }
}

/// Checks that `erlc` is installed (from what looking it up found) and, only
/// then, that the OTP release (asked for by calling `otp_release`) is the one
/// the tool needs.
pub fn verify_erlc_installed<F: FnOnce() -> Result<String, ToolchainError>>(
    erlc_found: Option<bool>,
    otp_release: F,
) -> (r: Result<(), ToolchainError>)
    requires
        otp_release.requires(()),
    ensures
        erlc_found != Some(true) ==> r == Err::<(), ToolchainError>(
            ToolchainError::ErlcNotInstalled,
        ),
        erlc_found == Some(true) ==> exists|release: Result<String, ToolchainError>|
            #[trigger] otp_release.ensures((), release) && r == otp_outcome(release),
{
    let is_installed = match erlc_found {
        Some(found) => found,
        None => false,
    };
    if !is_installed {
        Err(ToolchainError::ErlcNotInstalled)
    } else {
        verify_otp_28(otp_release)
    }
}

/// Checks that `rebar3` is installed, from what looking it up found.
pub fn verify_rebar3_installed(rebar3_found: Option<bool>) -> (r: Result<(), ToolchainError>)
    ensures
        r == if rebar3_found == Some(true) {
            Ok::<(), ToolchainError>(())
        } else {
            Err(ToolchainError::Rebar3NotInstalled)
        },
{
    let is_installed = match rebar3_found {
        Some(found) => found,
        None => false,
    };
    if !is_installed {
        Err(ToolchainError::Rebar3NotInstalled)
    } else {
        Ok(())
    }
}

/// Every release that starts with 28, followed by nothing or by a character
/// that is not a digit ("28", "28.0.2"), passes the OTP check; every other
/// release fails it.
pub proof fn law_otp_28_accepted(release: String, rest: Seq<char>)
    requires
        release@ == decimal_digits(REQUIRED_OTP_MAJOR as nat) + rest,
        rest.len() == 0 || !is_ascii_digit(rest[0]),
    ensures
        otp_release_check(release) == Ok::<(), ToolchainError>(()),
{
    law_major_reads_back_decimal(REQUIRED_OTP_MAJOR, rest);
}

/// A release whose major release is not 28 is refused as unsupported, naming it.
pub proof fn law_other_major_refused(release: String)
    requires
        otp_major(release@) is Some,
        otp_major(release@) != Some(REQUIRED_OTP_MAJOR),
    ensures
        otp_release_check(release) == Err::<(), ToolchainError>(ToolchainError::UnsupportedOtp(release)),
{
}

/// What the OTP check concludes, in terms of the release `erl` gave: it
/// passes exactly when the release's leading number is 28; a release with no
/// leading number is refused as unparsable, one with another leading number as
/// unsupported, both naming the release; a failure to ask `erl` is passed on.
pub proof fn law_otp_outcome(release: Result<String, ToolchainError>)
    ensures
        otp_outcome(release) is Ok <==> (release matches Ok(text) && otp_major(text@) == Some(28u32)),
        release matches Ok(text) ==> (otp_major(text@) is None ==> otp_outcome(release) == Err::<(), ToolchainError>(
            ToolchainError::UnparsableOtpRelease(text),
        )),
        release matches Ok(text) ==> (otp_major(text@) is Some && otp_major(text@) != Some(28u32)
            ==> otp_outcome(release) == Err::<(), ToolchainError>(ToolchainError::UnsupportedOtp(text))),
        release matches Err(e) ==> otp_outcome(release) == Err::<(), ToolchainError>(e),
{
}

} // verus!
