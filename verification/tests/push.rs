use deploy_utils::cli::push::{EvalResult, PushArgs, PushOutcome, PushStep, Status};
use deploy_utils::cli::ProfileOptionOverrides;
use deploy_utils::command::CmdErrorKind;
use deploy_utils::display::{Piece, Style};
use deploy_utils::profile::ProfileInfo;
use deploy_utils::target::Target;

fn plain(pieces: &[Piece]) -> String {
    pieces.iter().map(|p| p.text.as_str()).collect()
}

fn push_args() -> PushArgs {
    PushArgs {
        targets: None,
        flake: "/src/flake".to_string(),
        overrides: ProfileOptionOverrides {
            hostname: None,
            profile_user: None,
            ssh_user: None,
            ssh_opts: None,
            fast_connection: None,
        },
    }
}

fn info(node: &str, profile: &str, fast: bool) -> ProfileInfo {
    ProfileInfo {
        node: node.to_string(),
        profile: profile.to_string(),
        hostname: format!("{node}.example"),
        profile_path: "/nix/var/nix/profiles/system".to_string(),
        user: "root".to_string(),
        ssh_user: "admin".to_string(),
        ssh_opts: vec!["-p".to_string(), "22".to_string()],
        fast_connection: fast,
    }
}

fn run(outcomes: Vec<PushOutcome>) -> Status {
    let mut step = PushArgs::push_profile_start();
    for outcome in outcomes {
        step = PushArgs::push_profile(step, outcome);
    }
    match step {
        PushStep::Done(status) => status,
        other => panic!("not done: {other:?}"),
    }
}

fn evaluated() -> PushOutcome {
    PushOutcome::Evaluated(Some(EvalResult { drv: "/d.drv".to_string(), out: "/o".to_string() }))
}

#[test]
fn push_steps() {
    assert_eq!(run(vec![PushOutcome::Evaluated(None)]), Status::Failure);
    assert_eq!(run(vec![evaluated(), PushOutcome::Finished(Status::Failure)]), Status::Failure);
    assert_eq!(
        run(vec![evaluated(), PushOutcome::Finished(Status::Success), PushOutcome::Finished(Status::Success)]),
        Status::Success
    );
    assert_eq!(
        run(vec![evaluated(), PushOutcome::Finished(Status::Success), PushOutcome::Finished(Status::Failure)]),
        Status::Failure
    );
    match PushArgs::push_profile(PushArgs::push_profile_start(), evaluated()) {
        PushStep::Build { drv, out } => {
            assert_eq!(drv, "/d.drv");
            assert_eq!(out, "/o");
        }
        other => panic!("unexpected {other:?}"),
    }
}

#[test]
fn build_and_copy_results() {
    assert_eq!(PushArgs::step_status(None), Some(Status::Success));
    assert_eq!(PushArgs::step_status(Some(CmdErrorKind::ExitCodeStatus)), Some(Status::Failure));
    assert_eq!(PushArgs::step_status(Some(CmdErrorKind::ExitCodeOutput)), Some(Status::Failure));
    assert_eq!(PushArgs::step_status(Some(CmdErrorKind::Spawn)), None);
    assert_eq!(PushArgs::step_status(Some(CmdErrorKind::Json)), None);
}

#[test]
fn nix_arguments() {
    let a = push_args();
    let p = info("web", "sys\"tem", false);
    let e = a.eval_profile_args(&p, "f");
    assert_eq!(
        e,
        vec![
            "eval",
            "--json",
            "--apply",
            "(f) { node = \"web\"; profile = \"sys\\\"tem\"; }",
            "--",
            "/src/flake#.deploy"
        ]
    );
    assert_eq!(a.build_profile_args("/d.drv"), vec!["build", "--no-link", "/d.drv^*"]);
    let (c, env) = a.copy_profile_args(&p, "/o");
    assert_eq!(
        c,
        vec!["copy", "--substitute-on-destination", "--to", "ssh://admin@web.example", "--", "/o"]
    );
    assert_eq!(env, "-p 22");
    let (c, _) = a.copy_profile_args(&info("web", "sys", true), "/o");
    assert_eq!(c, vec!["copy", "--to", "ssh://admin@web.example", "--", "/o"]);
}

#[test]
fn push_results_table() {
    let a = info("alpha", "system", false);
    let b = info("alpha", "home", false);
    let c = info("b", "system", false);
    let results = vec![vec![(&a, Status::Success), (&b, Status::Failure)], vec![], vec![(&c, Status::Success)]];
    let out = push_args().display_results(&results);
    assert_eq!(
        plain(&out),
        "Push results:\n  alpha system success\n        home   failure\n  b     system success\n"
    );
    let s = Status::Failure.display();
    assert_eq!((s.style, s.text.as_str()), (Style::Failure, "failure"));
}

#[test]
fn targets_select_their_nodes() {
    let targets = vec![
        Target::from_parts(vec!["web".to_string(), "system".to_string()]).unwrap(),
        Target::from_parts(vec!["db".to_string()]).unwrap(),
    ];
    let mut args = push_args();
    args.targets = Some(targets);
    assert_eq!(args.target_nodes(), Some(vec!["web".to_string(), "db".to_string()]));
    assert_eq!(push_args().target_nodes(), None);
}
