use trophy_bot::cli::{Cli, LogLevel};

#[test]
fn debug_runs_keep_debug_logging() {
    let cli = Cli::new(true, Some(1), "sqlite::memory:".into(), "42".into(), "t0ken".into());
    assert_eq!(cli.max_log_level(), LogLevel::Debug);
    assert_eq!(cli.token(), "t0ken");
    assert_eq!(cli.database_url, "sqlite::memory:");
    let quiet = Cli::new(false, None, "x".into(), "42".into(), "t".into());
    assert_eq!(quiet.max_log_level(), LogLevel::Warn);
}
