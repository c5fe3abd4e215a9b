use deploy_utils::command::{display_env, error_message, CmdErrorKind};
use deploy_utils::command::CmdErrorKind as K;

#[test]
fn failure_kinds() {
    for kind in [K::Spawn, K::Wait, K::ExitCodeStatus, K::ExitCodeOutput, K::Utf8, K::Json] {
        assert_eq!(kind.is_exit_code_error(), matches!(kind, K::ExitCodeStatus | K::ExitCodeOutput));
        assert_eq!(kind.is_json_error(), kind == K::Json);
        assert_eq!(kind.has_output(), matches!(kind, K::ExitCodeOutput | K::Utf8 | K::Json));
        assert_eq!(
            kind.eval_failure_is_skipped(),
            matches!(kind, K::ExitCodeStatus | K::ExitCodeOutput | K::Json)
        );
    }
}

#[test]
fn failure_messages() {
    assert_eq!(
        error_message(CmdErrorKind::Spawn, "nix", ""),
        "failed to execute external program nix"
    );
    assert_eq!(
        error_message(CmdErrorKind::Wait, "ssh", ""),
        "failed to wait for external program ssh to finish"
    );
    assert_eq!(
        error_message(CmdErrorKind::ExitCodeOutput, "nix", "exit status: 1"),
        "external program nix did not finish successfully (exit status: 1)"
    );
    assert_eq!(
        error_message(CmdErrorKind::Utf8, "ssh", ""),
        "output of external program ssh is not valid utf-8"
    );
    assert_eq!(
        error_message(CmdErrorKind::Json, "nix", ""),
        "failed to decode output of external program nix"
    );
}

#[test]
fn environment_overrides() {
    let entries = vec![
        ("NIX_SSHOPTS".to_string(), Some("-p 22".to_string())),
        ("HOME".to_string(), None),
    ];
    assert_eq!(display_env(&entries), "NIX_SSHOPTS=-p 22\nunset HOME\n");
    assert_eq!(display_env(&Vec::new()), "");
}
