use enigma_breaker::cli::{Cli, Commands, TestArgs, TestChoice};

#[test]
fn test_options_choose_example() {
    let args = |easy: Option<bool>, hard: bool| TestArgs { easy, hard, single_threaded: false };
    assert_eq!(args(None, false).choice(), TestChoice::Easy);
    assert_eq!(args(None, true).choice(), TestChoice::Hard);
    assert_eq!(args(Some(true), false).choice(), TestChoice::Easy);
    assert_eq!(args(Some(true), true).choice(), TestChoice::Conflicting);
    assert_eq!(args(Some(false), false).choice(), TestChoice::Hard);
    assert_eq!(args(Some(false), true).choice(), TestChoice::Hard);
}

#[test]
fn command_line_holds_command_and_debug_flag() {
    let cli = Cli {
        command: Commands::Solve {
            cipher_text: "cipher.txt".to_string(),
            plain_text: "plain.txt".to_string(),
            settings_file: None,
        },
        debug: true,
    };
    assert!(cli.debug);
    assert!(matches!(cli.command, Commands::Solve { settings_file: None, .. }));
    let test = enigma_breaker::commands::Commands::Test(enigma_breaker::commands::TestArgs {
        easy: Some(true),
        hard: false,
    });
    assert!(matches!(test, enigma_breaker::commands::Commands::Test(_)));
}
