use deploy_utils::cli::{
    status::StatusArgs, DeployUtilsApp, LogLevel, LoggingOptions, Subcommand,
};

fn app(quiet: u8, verbose: u8) -> DeployUtilsApp {
    DeployUtilsApp {
        subcommand: Subcommand::Status(StatusArgs {
            nodes: None,
            flake: ".".to_string(),
            eval_jobs: 0,
            show_paths: false,
        }),
        logging: LoggingOptions { quiet, verbose },
    }
}

#[test]
fn log_level_from_quiet_and_verbose() {
    assert_eq!(app(0, 0).default_log_level(), LogLevel::Info);
    assert_eq!(app(0, 1).default_log_level(), LogLevel::Debug);
    assert_eq!(app(0, 2).default_log_level(), LogLevel::Trace);
    assert_eq!(app(0, 9).default_log_level(), LogLevel::Trace);
    assert_eq!(app(1, 0).default_log_level(), LogLevel::Warn);
    assert_eq!(app(2, 0).default_log_level(), LogLevel::Error);
    assert_eq!(app(255, 0).default_log_level(), LogLevel::Error);
    assert_eq!(app(3, 3).default_log_level(), LogLevel::Info);
    assert_eq!(app(0, 255).default_log_level(), LogLevel::Trace);
}
