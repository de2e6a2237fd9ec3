use bahn::otp::{decimal_string, parse_otp_major};
use bahn::text::trim;
use bahn::toolchain::{
    check_dep, check_otp_release, otp_release, verify_erlc_installed, verify_otp_28,
    verify_rebar3_installed, ErlOutput, ToolchainError,
};

#[test]
fn parse_otp_major_handles_common_release_formats() {
    assert_eq!(parse_otp_major("28"), Some(28));
    assert_eq!(parse_otp_major("28.0.2"), Some(28));
    assert_eq!(parse_otp_major("25"), Some(25));
    assert_eq!(parse_otp_major("otp-28"), None);
    assert_eq!(parse_otp_major(""), None);
}

#[test]
fn parse_otp_major_limits() {
    assert_eq!(parse_otp_major("4294967295"), Some(u32::MAX));
    assert_eq!(parse_otp_major("4294967296"), None);
    assert_eq!(parse_otp_major("99999999999999999999"), None);
    assert_eq!(parse_otp_major("0028"), Some(28));
    assert_eq!(parse_otp_major(" 28"), None);
    assert_eq!(parse_otp_major("٢٨"), None);
}

#[test]
fn decimal_string_reads_back() {
    for n in [0u32, 7, 10, 28, 100, 4_294_967_295] {
        let text = decimal_string(n);
        assert_eq!(text, n.to_string());
        assert_eq!(parse_otp_major(&text), Some(n));
        assert_eq!(parse_otp_major(&(text.clone() + ".1.2")), Some(n));
    }
}

#[test]
fn trim_matches_str_trim() {
    for s in ["", "  ", "28\n", "\t 28.0 \r\n", "a b", "\u{3000}x\u{85}", "\u{200b}x"] {
        assert_eq!(trim(s), s.trim());
        assert_eq!(trim(&trim(s)), trim(s));
    }
}

#[test]
fn test_for_made_up_dep() {
    // `which florp` prints nothing
    let is_present = check_dep(Some(b""));
    assert_eq!(is_present, Some(false));
}

#[test]
fn test_for_made_present_dep() {
    // `which pwd` prints where `pwd` is
    let is_present = check_dep(Some(b"/usr/bin/pwd\n"));
    assert_eq!(is_present, Some(true));
}

#[test]
fn check_dep_reads_which_output() {
    assert_eq!(check_dep(None), None);
    assert_eq!(check_dep(Some(b"")), Some(false));
    assert_eq!(check_dep(Some(b"/usr/bin/pwd\n")), Some(true));
}

#[test]
fn otp_release_from_erl_output() {
    let ok = ErlOutput { success: true, stdout: " 28\n".to_string(), stderr: String::new() };
    assert_eq!(otp_release(Ok(ok)), Ok("28".to_string()));

    let empty = ErlOutput { success: true, stdout: "\n ".to_string(), stderr: String::new() };
    assert_eq!(otp_release(Ok(empty)), Err(ToolchainError::EmptyOtpRelease));

    let failed = ErlOutput { success: false, stdout: "out".to_string(), stderr: "err".to_string() };
    let err = otp_release(Ok(failed)).unwrap_err();
    assert_eq!(err.message(), "`erl` failed while checking OTP version:\nouterr");

    let err = otp_release(Err("not found".to_string())).unwrap_err();
    assert_eq!(err, ToolchainError::ErlNotRunnable("not found".to_string()));
    assert_eq!(err.message(), "failed to run `erl`: not found");
}

#[test]
fn check_otp_release_accepts_only_28() {
    assert_eq!(check_otp_release("28".to_string()), Ok(()));
    assert_eq!(check_otp_release("28.0.2".to_string()), Ok(()));
    let err = check_otp_release("27".to_string()).unwrap_err();
    assert_eq!(err, ToolchainError::UnsupportedOtp("27".to_string()));
    assert_eq!(
        err.message(),
        "unsupported Erlang/OTP version `27`; bahn requires OTP 28"
    );
    let err = check_otp_release("otp".to_string()).unwrap_err();
    assert_eq!(err.message(), "failed to parse OTP release `otp`");
}

#[test]
fn verify_erlc_installed_checks_otp_only_when_found() {
    let err = verify_erlc_installed(Some(false), || -> Result<String, ToolchainError> {
        panic!("erl must not run when erlc is missing")
    })
    .unwrap_err();
    assert_eq!(err, ToolchainError::ErlcNotInstalled);
    assert_eq!(
        err.message(),
        "erlc is not installed, to compile and run mond code please install it"
    );
    assert_eq!(
        verify_erlc_installed(None, || Ok("28".to_string())),
        Err(ToolchainError::ErlcNotInstalled)
    );
    assert_eq!(verify_erlc_installed(Some(true), || Ok("28".to_string())), Ok(()));
    assert_eq!(
        verify_erlc_installed(Some(true), || Ok("26.2".to_string())),
        Err(ToolchainError::UnsupportedOtp("26.2".to_string()))
    );
    assert_eq!(
        verify_erlc_installed(Some(true), || Err(ToolchainError::EmptyOtpRelease)),
        Err(ToolchainError::EmptyOtpRelease)
    );
}

#[test]
fn verify_otp_28_uses_release() {
    assert_eq!(verify_otp_28(|| Ok("28.1".to_string())), Ok(()));
    assert_eq!(
        verify_otp_28(|| Ok("x".to_string())),
        Err(ToolchainError::UnparsableOtpRelease("x".to_string()))
    );
}

#[test]
fn verify_rebar3_installed_needs_rebar3() {
    assert_eq!(verify_rebar3_installed(Some(true)), Ok(()));
    let err = verify_rebar3_installed(Some(false)).unwrap_err();
    assert_eq!(err, ToolchainError::Rebar3NotInstalled);
    assert_eq!(
        err.message(),
        "rebar3 is not installed, to create a bahn release please install it"
    );
    assert_eq!(verify_rebar3_installed(None), Err(ToolchainError::Rebar3NotInstalled));
}
