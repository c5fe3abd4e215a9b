use deploy_utils::cli::status::{
    check_profile_script, local_path_of, query_result_of, read_query_output, shell_quote, ssh_query_args,
    ProfileStatus, QueryFailure, QueryResult, StatusArgs, UnexpectedOutput,
};
use deploy_utils::command::CmdErrorKind;
use deploy_utils::display::{Piece, Style};
use deploy_utils::profile::ProfileInfo;

fn plain(pieces: &[Piece]) -> String {
    pieces.iter().map(|p| p.text.as_str()).collect()
}

fn info(node: &str, profile: &str) -> ProfileInfo {
    ProfileInfo {
        node: node.to_string(),
        profile: profile.to_string(),
        hostname: format!("{node}.example"),
        profile_path: "/nix/var/nix/profiles/system".to_string(),
        user: "root".to_string(),
        ssh_user: "admin".to_string(),
        ssh_opts: vec!["-p".to_string(), "2222".to_string()],
        fast_connection: false,
    }
}

fn args(eval_jobs: isize, show_paths: bool) -> StatusArgs {
    StatusArgs {
        nodes: None,
        flake: ".".to_string(),
        eval_jobs,
        show_paths,
    }
}

#[test]
fn query_output_parsing() {
    match QueryResult::parse("valid;/nix/store/abc") {
        Some(QueryResult::Valid { deployed_path, needs_reboot }) => {
            assert_eq!(deployed_path, "/nix/store/abc");
            assert!(!needs_reboot);
        }
        other => panic!("unexpected {other:?}"),
    }
    match QueryResult::parse("needs reboot;/nix/store/x") {
        Some(QueryResult::Valid { deployed_path, needs_reboot }) => {
            assert_eq!(deployed_path, "/nix/store/x");
            assert!(needs_reboot);
        }
        other => panic!("unexpected {other:?}"),
    }
    assert!(matches!(QueryResult::parse("invalid;"), Some(QueryResult::Invalid)));
    assert!(matches!(QueryResult::parse("missing;"), Some(QueryResult::Missing)));
    assert!(QueryResult::parse("invalid;x").is_none());
    assert!(QueryResult::parse("valid").is_none());
    assert!(QueryResult::parse("").is_none());
    assert!(matches!(read_query_output(""), Err(UnexpectedOutput::Empty)));
    assert!(matches!(read_query_output("what"), Err(UnexpectedOutput::Unrecognized)));
    assert!(matches!(read_query_output("missing;"), Ok(QueryResult::Missing)));
}

#[test]
fn thread_counts() {
    assert_eq!(args(4, false).thread_count(Some(16)), 4);
    assert_eq!(args(0, false).thread_count(Some(16)), 16);
    assert_eq!(args(-3, false).thread_count(Some(16)), 13);
    assert_eq!(args(-30, false).thread_count(Some(16)), 1);
    assert_eq!(args(0, false).thread_count(None), 1);
    assert_eq!(args(isize::MIN, false).thread_count(Some(usize::MAX)), isize::MAX as usize);
}

#[test]
fn local_evaluation() {
    let valid = QueryResult::Valid { deployed_path: "/p".to_string(), needs_reboot: false };
    assert!(args(0, false).needs_local_eval(&valid));
    assert!(!args(0, false).needs_local_eval(&QueryResult::Missing));
    assert!(args(0, true).needs_local_eval(&QueryResult::Unknown));
    assert_eq!(
        args(0, false).local_path_installable(&info("web", "system")),
        ".#.deploy.nodes.web.profiles.system.path.outPath"
    );
}

#[test]
fn ssh_arguments() {
    assert_eq!(shell_quote("abc"), "'abc'");
    assert_eq!(shell_quote("it's"), "'it'\\''s'");
    let a = ssh_query_args(&info("web", "system"));
    assert_eq!(a.len(), 14);
    assert_eq!(&a[..5], &["-T", "-o", "ConnectTimeout=3", "-p", "2222"]);
    assert_eq!(&a[5..10], &["-o", "User=admin", "web.example", "--", "/bin/sh"]);
    assert_eq!(a[10], "-c");
    assert_eq!(a[11], shell_quote(check_profile_script()));
    assert_eq!(a[12], "sh");
    assert_eq!(a[13], "'/nix/var/nix/profiles/system'");
    assert!(check_profile_script().starts_with("if [ -L \"$1\" ]; then deployed=$(realpath \"$1\");"));
}

#[test]
fn statuses() {
    let valid = QueryResult::Valid { deployed_path: "/a".to_string(), needs_reboot: false };
    let reboot = QueryResult::Valid { deployed_path: "/a".to_string(), needs_reboot: true };
    assert!(matches!(ProfileStatus::from_paths(&valid, Some("/a")), ProfileStatus::UpToDate { path: "/a" }));
    assert!(matches!(ProfileStatus::from_paths(&reboot, Some("/a")), ProfileStatus::NeedsReboot { path: "/a" }));
    assert!(matches!(
        ProfileStatus::from_paths(&valid, Some("/b")),
        ProfileStatus::Outdated { deployed_path: "/a", local_path: "/b" }
    ));
    assert!(matches!(
        ProfileStatus::from_paths(&valid, None),
        ProfileStatus::Unknown { deployed_path: Some("/a"), local_path: None }
    ));
    assert!(matches!(ProfileStatus::from_paths(&QueryResult::Invalid, None), ProfileStatus::Invalid { local_path: None }));
    assert!(matches!(ProfileStatus::from_paths(&QueryResult::Missing, Some("/b")), ProfileStatus::Missing { local_path: Some("/b") }));
    assert!(matches!(
        ProfileStatus::from_paths(&QueryResult::Unknown, Some("/b")),
        ProfileStatus::Unknown { deployed_path: None, local_path: Some("/b") }
    ));
}

#[test]
fn status_display() {
    let s = ProfileStatus::Outdated { deployed_path: "/a", local_path: "/b" };
    let shown = s.display(3, true);
    assert_eq!(shown[0].style, Style::Warning);
    assert_eq!(
        plain(&shown),
        "outdated\n        deployed path: /a\n        local path:    /b"
    );
    assert_eq!(plain(&s.display(3, false)), "outdated");
    assert_eq!(plain(&ProfileStatus::UpToDate { path: "/p" }.display(0, true)), "up to date /p");
    assert_eq!(plain(&ProfileStatus::Invalid { local_path: None }.display(2, true)), "invalid");
    assert_eq!(
        plain(&ProfileStatus::Missing { local_path: Some("/l") }.display(1, true)),
        "missing\n      local path: /l"
    );
    let summary = ProfileStatus::Unknown { deployed_path: None, local_path: None }.display_summary();
    assert_eq!(summary.style, Style::Unknown);
    assert_eq!(summary.text, "unknown");
}

#[test]
fn status_table() {
    let web = info("web", "system");
    let web_apps = info("web", "apps");
    let db = info("db", "system");
    let results = vec![
        vec![
            (&web, QueryResult::Valid { deployed_path: "/a".to_string(), needs_reboot: false }, Some("/a".to_string())),
            (&web_apps, QueryResult::Missing, None),
        ],
        vec![(&db, QueryResult::Unknown, None)],
    ];
    assert_eq!(
        plain(&args(0, false).display_results(&results)),
        "Status:\n  web system up to date\n      apps   missing\n  db  system unknown\n"
    );
}

#[test]
fn query_result_from_how_ssh_ended() {
    assert!(matches!(
        query_result_of(Err(CmdErrorKind::ExitCodeOutput)),
        Ok(QueryResult::Unknown)
    ));
    assert!(matches!(
        query_result_of(Err(CmdErrorKind::ExitCodeStatus)),
        Ok(QueryResult::Unknown)
    ));
    assert!(matches!(
        query_result_of(Err(CmdErrorKind::Spawn)),
        Err(QueryFailure::Command(CmdErrorKind::Spawn))
    ));
    assert!(matches!(
        query_result_of(Err(CmdErrorKind::Utf8)),
        Err(QueryFailure::Command(CmdErrorKind::Utf8))
    ));
    match query_result_of(Ok("needs reboot;/nix/store/abc".to_string())) {
        Ok(QueryResult::Valid { deployed_path, needs_reboot }) => {
            assert_eq!(deployed_path, "/nix/store/abc");
            assert!(needs_reboot);
        }
        other => panic!("unexpected {other:?}"),
    }
    assert!(matches!(
        query_result_of(Ok(String::new())),
        Err(QueryFailure::Output(UnexpectedOutput::Empty))
    ));
    assert!(matches!(
        query_result_of(Ok("hello".to_string())),
        Err(QueryFailure::Output(UnexpectedOutput::Unrecognized))
    ));
}

#[test]
fn unexpected_output_messages() {
    assert_eq!(
        UnexpectedOutput::Empty.message(),
        "external program ssh did not produce any output"
    );
    assert_eq!(
        UnexpectedOutput::Unrecognized.message(),
        "external program ssh produced unexpected output"
    );
}

#[test]
fn local_eval_arguments() {
    let a = StatusArgs {
        nodes: None,
        flake: "/src/infra".to_string(),
        eval_jobs: 0,
        show_paths: false,
    };
    assert_eq!(
        a.local_eval_args(&info("web", "system")),
        vec![
            "eval",
            "--json",
            "--",
            "/src/infra#.deploy.nodes.web.profiles.system.path.outPath"
        ]
    );
}

#[test]
fn local_path_from_how_nix_ended() {
    assert_eq!(
        local_path_of(Ok(b"\"/nix/store/abc-system\"\n".to_vec())),
        Ok(Some("/nix/store/abc-system".to_string()))
    );
    assert_eq!(local_path_of(Ok(b"42".to_vec())), Ok(None));
    assert_eq!(local_path_of(Ok(Vec::new())), Ok(None));
    assert_eq!(local_path_of(Err(CmdErrorKind::ExitCodeOutput)), Ok(None));
    assert_eq!(local_path_of(Err(CmdErrorKind::ExitCodeStatus)), Ok(None));
    assert_eq!(local_path_of(Err(CmdErrorKind::Json)), Ok(None));
    assert_eq!(local_path_of(Err(CmdErrorKind::Spawn)), Err(CmdErrorKind::Spawn));
    assert_eq!(local_path_of(Err(CmdErrorKind::Utf8)), Err(CmdErrorKind::Utf8));
}
