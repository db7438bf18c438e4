use rustle::launch::LogLevel;
use rustle::render::{
    build_failure, render_outcome, render_remotes, BuildOutcome, EnrollmentTarget, RemoteInfo,
};
use rustle::tools::{
    map_extras, BuildArgs, CopyBack, ExtraPath, ExtraPathArg, OutputMode, Refusals,
    TargetSelection, Tool,
};

fn empty_args() -> BuildArgs {
    BuildArgs {
        command: None,
        remote: None,
        remote_host: None,
        user: None,
        host_key_check: None,
        port: None,
        temp_dir: None,
        env: None,
        setup: None,
        extra_paths: None,
        manifest_path: None,
        package: None,
        workspace: None,
        release: None,
        options: None,
        toolchain: None,
        copy_back: None,
        copy_lock: None,
    }
}

fn text(s: &str) -> Option<String> {
    Some(s.to_string())
}

fn extra(local: &str, remote: &str) -> ExtraPathArg {
    ExtraPathArg { local: local.to_string(), remote: remote.to_string() }
}

#[test]
fn defaults_capture_output_and_command_falls_back() {
    let (req, sel) = empty_args().into_domain("check", Refusals::none()).unwrap();
    assert_eq!(req.command.as_str(), "check");
    assert!(matches!(req.output, OutputMode::Capture));
    assert!(matches!(req.copy_back, CopyBack::Nothing));
    assert!(!req.copy_lock, "MCP must not mutate Cargo.lock by default");
    assert!(matches!(req.selection, TargetSelection::Default));
    assert!(sel.name.is_none());
    assert_eq!(req.manifest_path, "Cargo.toml");
    assert_eq!(req.toolchain, "stable");
    assert_eq!(req.build_env, "RUST_BACKTRACE=1");
    assert!(!req.transfer_hidden);
    assert!(req.options.is_empty());
}

#[test]
fn release_prepends_flag_and_package_selects() {
    let args = BuildArgs {
        release: Some(true),
        package: Some("mycrate".to_string()),
        options: Some(vec!["--locked".to_string()]),
        ..empty_args()
    };
    let (req, _) = args.into_domain("build", Refusals::none()).unwrap();
    assert_eq!(req.options, vec!["--release".to_string(), "--locked".to_string()]);
    assert!(matches!(req.selection, TargetSelection::Package(p) if p == "mycrate"));
}

#[test]
fn specialised_tool_ignores_stray_command_arg() {
    // A `command` passed to `check`/`test`/`clippy` must NOT override the tool's command.
    let args = BuildArgs { command: Some("build".to_string()), ..empty_args() };
    assert_eq!(Tool::Check.command(&args), "check");
    let (req, _) = args.into_domain("check", Refusals::none()).unwrap();
    assert_eq!(req.command.as_str(), "check");
}

#[test]
fn only_the_build_tool_honours_the_command() {
    let args = BuildArgs { command: text("run"), ..empty_args() };
    assert_eq!(Tool::Build.command(&args), "run");
    assert_eq!(Tool::Build.command(&empty_args()), "build");
    assert_eq!(Tool::Check.command(&args), "check");
    assert_eq!(Tool::Test.command(&args), "test");
    assert_eq!(Tool::Clippy.command(&args), "clippy");
}

#[test]
fn workspace_wins_over_package() {
    let args = BuildArgs { workspace: Some(true), package: text("p"), ..empty_args() };
    let (req, _) = args.into_domain("build", Refusals::none()).unwrap();
    assert_eq!(req.selection, TargetSelection::Workspace);
    let args = BuildArgs { workspace: Some(false), package: text("p"), ..empty_args() };
    let (req, _) = args.into_domain("build", Refusals::none()).unwrap();
    assert_eq!(req.selection, TargetSelection::Package("p".to_string()));
}

#[test]
fn copy_back_forms() {
    for (arg, expected) in [
        (text(""), CopyBack::Target),
        (text("target"), CopyBack::Target),
        (text("debug/app"), CopyBack::Path("debug/app".to_string())),
        (None, CopyBack::Nothing),
    ] {
        let args = BuildArgs { copy_back: arg, copy_lock: Some(true), ..empty_args() };
        let (req, _) = args.into_domain("build", Refusals::none()).unwrap();
        assert_eq!(req.copy_back, expected);
        assert!(req.copy_lock);
    }
}

#[test]
fn arguments_become_overrides() {
    let args = BuildArgs {
        remote: text("devbox"),
        remote_host: text("172.13.1.232"),
        user: text("echo"),
        host_key_check: text("strict"),
        port: Some(6922),
        temp_dir: text("~/rust"),
        env: text("~/.profile"),
        setup: text("export X=1"),
        extra_paths: Some(vec![extra("/opt/lib", "lib")]),
        manifest_path: text("crates/a/Cargo.toml"),
        toolchain: text("nightly"),
        ..empty_args()
    };
    assert_eq!(args.toolchain_or_default(), "nightly");
    assert_eq!(empty_args().toolchain_or_default(), "stable");
    let (req, sel) = args.into_domain("build", Refusals::none()).unwrap();
    assert_eq!(req.manifest_path, "crates/a/Cargo.toml");
    assert_eq!(req.toolchain, "nightly");
    assert_eq!(sel.name, text("devbox"));
    assert_eq!(sel.overrides.host, text("172.13.1.232"));
    assert_eq!(sel.overrides.user, text("echo"));
    assert_eq!(sel.overrides.port, Some(6922));
    assert_eq!(sel.overrides.temp_dir, text("~/rust"));
    assert_eq!(sel.overrides.env, text("~/.profile"));
    assert_eq!(sel.overrides.host_key_check, text("strict"));
    assert_eq!(sel.overrides.setup, text("export X=1"));
    let expected = ExtraPath { local: "/opt/lib".to_string(), remote: "lib".to_string() };
    assert_eq!(sel.overrides.extra_paths, Some(vec![expected]));
}

#[test]
fn blank_extra_paths_are_refused() {
    let message = "extra_paths entries require non-empty local and remote".to_string();
    for bad in [extra("", "x"), extra("x", " \t\n"), extra("\u{3000}\u{a0}", "x")] {
        let list = Some(vec![extra("a", "b"), bad]);
        assert_eq!(map_extras(list), Err(message.clone()));
    }
    assert_eq!(map_extras(None), Ok(None));
    assert_eq!(map_extras(Some(vec![])), Ok(Some(vec![])));
    // What is not blank is taken over as it is.
    let kept = ExtraPath { local: " a ".to_string(), remote: "\u{200b}".to_string() };
    assert_eq!(map_extras(Some(vec![extra(" a ", "\u{200b}")])), Ok(Some(vec![kept])));

    let args = BuildArgs { extra_paths: Some(vec![extra(" ", "x")]), ..empty_args() };
    assert_eq!(args.into_domain("build", Refusals::none()).unwrap_err(), message);
}

#[test]
fn unknown_host_key_check_is_quoted_in_the_error() {
    let args = BuildArgs { host_key_check: text("a\"b\n"), ..empty_args() };
    let refusals = Refusals { host_key_check: true, ..Refusals::none() };
    assert_eq!(
        args.into_domain("build", refusals).unwrap_err(),
        "invalid host_key_check \"a\\\"b\\n\"; expected accept-new, strict, or accept-all"
    );
}

fn all_args() -> BuildArgs {
    BuildArgs {
        remote: text("r"),
        remote_host: text("h"),
        port: Some(0),
        temp_dir: text("t"),
        env: text("e"),
        host_key_check: text("k"),
        extra_paths: Some(vec![extra("", "")]),
        ..empty_args()
    }
}

#[test]
fn first_refusal_is_reported() {
    let mut refusals = Refusals {
        command: text("command"),
        toolchain: text("toolchain"),
        remote: text("remote"),
        remote_host: text("host"),
        port: text("port"),
        temp_dir: text("temp_dir"),
        env: text("env"),
        host_key_check: true,
    };
    let copy = |r: &Refusals| Refusals {
        command: r.command.clone(),
        toolchain: r.toolchain.clone(),
        remote: r.remote.clone(),
        remote_host: r.remote_host.clone(),
        port: r.port.clone(),
        temp_dir: r.temp_dir.clone(),
        env: r.env.clone(),
        host_key_check: r.host_key_check,
    };
    let error = |r: &Refusals| all_args().into_domain("build", copy(r)).unwrap_err();
    assert_eq!(error(&refusals), "command");
    refusals.command = None;
    assert_eq!(error(&refusals), "toolchain");
    refusals.toolchain = None;
    assert_eq!(error(&refusals), "remote");
    refusals.remote = None;
    assert_eq!(error(&refusals), "host");
    refusals.remote_host = None;
    assert_eq!(error(&refusals), "port");
    refusals.port = None;
    assert_eq!(error(&refusals), "temp_dir");
    refusals.temp_dir = None;
    assert_eq!(error(&refusals), "env");
    refusals.env = None;
    assert!(error(&refusals).starts_with("invalid host_key_check \"k\";"));
    refusals.host_key_check = false;
    assert!(error(&refusals).starts_with("extra_paths entries"));
}

#[test]
fn absent_arguments_are_not_refused() {
    let refusals = Refusals {
        remote: text("x"),
        remote_host: text("x"),
        port: text("x"),
        temp_dir: text("x"),
        env: text("x"),
        host_key_check: true,
        ..Refusals::none()
    };
    assert!(empty_args().into_domain("build", refusals).is_ok());
}

#[test]
fn outcome_is_rendered() {
    let outcome = BuildOutcome {
        exit_code: -101,
        success: false,
        copied_artifacts: "[\"target/debug/app\"]".to_string(),
        stdout: "out".to_string(),
        stderr: "err".to_string(),
    };
    assert_eq!(
        render_outcome(&outcome),
        "exit_code: -101\nsuccess: false\ncopied_artifacts: [\"target/debug/app\"]\n\n--- stdout ---\nout\n--- stderr ---\nerr"
    );
    let outcome = BuildOutcome { exit_code: 0, success: true, ..outcome };
    assert!(render_outcome(&outcome).starts_with("exit_code: 0\nsuccess: true\n"));
}

#[test]
fn unenrolled_host_is_explained() {
    let target =
        EnrollmentTarget { user: "echo".to_string(), host: "box".to_string(), port: 6922 };
    assert_eq!(
        build_failure(Some(target), "auth failed"),
        "echo@box:6922 is not enrolled for passwordless access. Run this once in a terminal: cargo rustle setup-key -H box -u echo -p 6922"
    );
    assert_eq!(build_failure(None, "auth failed"), "auth failed");
}

#[test]
fn remotes_are_listed() {
    assert_eq!(
        render_remotes(&[]),
        "No remotes are configured. Pass `remote_host` explicitly, or add one to ~/.cargo/rustle.toml or a project .cargo/rustle.toml."
    );
    let remotes = vec![
        RemoteInfo {
            name: text("devbox"),
            host: "a".to_string(),
            port: 22,
            temp_dir: "~/b".to_string(),
            env: "/etc/profile".to_string(),
        },
        RemoteInfo {
            name: None,
            host: "c".to_string(),
            port: 6922,
            temp_dir: "/t".to_string(),
            env: "~/.p".to_string(),
        },
    ];
    assert_eq!(
        render_remotes(&remotes),
        "- devbox host=a port=22 temp_dir=~/b env=/etc/profile\n- (unnamed) host=c port=6922 temp_dir=/t env=~/.p"
    );
}

#[test]
fn log_levels() {
    assert_eq!(LogLevel::default().as_filter(), "info");
    assert_eq!(LogLevel::Error.as_filter(), "error");
    assert_eq!(LogLevel::Warn.as_filter(), "warn");
    assert_eq!(LogLevel::Debug.as_filter(), "debug");
    assert_eq!(LogLevel::Trace.as_filter(), "trace");
}
