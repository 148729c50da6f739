use jolt::cli::{Cli, Commands};

fn argv(args: &[&str]) -> Vec<String> {
    args.iter().map(|a| a.to_string()).collect()
}

#[test]
fn test_no_command() {
    let args = vec!["jolt"];
    let cli = Cli::try_parse_from(argv(&args));

    match cli {
        Err(e) => assert_eq!(e.exit_code(), 2),
        _ => panic!("Expected error for missing command"),
    }
}

#[test]
fn test_install_command() {
    let args = vec!["jolt", "install", "openjdk", "11"];
    let cli = Cli::try_parse_from(argv(&args)).unwrap();

    match cli.command {
        Commands::Install { distribution, version } => {
            assert_eq!(distribution, "openjdk");
            assert_eq!(version, "11");
        }
        _ => panic!("Expected Install command"),
    }
}

#[test]
fn test_install_command_missing_distribution_arg() {
    let args = vec!["jolt", "install", "11"];
    let cli = Cli::try_parse_from(argv(&args));

    match cli {
        Err(e) => assert_eq!(e.exit_code(), 2),
        _ => panic!("Expected error for missing version"),
    }
}

#[test]
fn test_install_command_missing_version_arg() {
    let args = vec!["jolt", "install", "openjdk"];
    let cli = Cli::try_parse_from(argv(&args));

    match cli {
        Err(e) => assert_eq!(e.exit_code(), 2),
        _ => panic!("Expected error for missing version"),
    }
}

#[test]
fn test_list_command_without_args() {
    let args = vec!["jolt", "list"];
    let cli = Cli::try_parse_from(argv(&args)).unwrap();

    match cli.command {
        Commands::List { distribution, version } => {
            assert_eq!(distribution, None);
            assert_eq!(version, None);
        }
        _ => panic!("Expected List command"),
    }
}

#[test]
fn test_list_command_with_both_args_long() {
    let args = vec!["jolt", "list", "--dist", "openjdk", "--version", "11"];
    let cli = Cli::try_parse_from(argv(&args)).unwrap();

    match cli.command {
        Commands::List { distribution, version } => {
            assert_eq!(distribution, Some("openjdk".to_string()));
            assert_eq!(version, Some("11".to_string()));
        }
        _ => panic!("Expected List command"),
    }
}

#[test]
fn test_list_command_with_both_args_short() {
    let args = vec!["jolt", "list", "-d", "openjdk", "-v", "11"];
    let cli = Cli::try_parse_from(argv(&args)).unwrap();

    match cli.command {
        Commands::List { distribution, version } => {
            assert_eq!(distribution, Some("openjdk".to_string()));
            assert_eq!(version, Some("11".to_string()));
        }
        _ => panic!("Expected List command"),
    }
}

#[test]
fn test_list_command_with_distribution_arg_long() {
    let args = vec!["jolt", "list", "--dist", "openjdk"];
    let cli = Cli::try_parse_from(argv(&args)).unwrap();

    match cli.command {
        Commands::List { distribution, version } => {
            assert_eq!(distribution, Some("openjdk".to_string()));
            assert_eq!(version, None);
        }
        _ => panic!("Expected List command"),
    }
}

#[test]
fn test_list_command_with_distribution_arg_short() {
    let args = vec!["jolt", "list", "-d", "openjdk"];
    let cli = Cli::try_parse_from(argv(&args)).unwrap();

    match cli.command {
        Commands::List { distribution, version } => {
            assert_eq!(distribution, Some("openjdk".to_string()));
            assert_eq!(version, None);
        }
        _ => panic!("Expected List command"),
    }
}

#[test]
fn test_list_command_with_version_arg_long() {
    let args = vec!["jolt", "list", "--version", "11"];
    let cli = Cli::try_parse_from(argv(&args)).unwrap();

    match cli.command {
        Commands::List { distribution, version } => {
            assert_eq!(distribution, None);
            assert_eq!(version, Some("11".to_string()));
        }
        _ => panic!("Expected List command"),
    }
}

#[test]
fn test_list_command_with_version_arg_short() {
    let args = vec!["jolt", "list", "-v", "11"];
    let cli = Cli::try_parse_from(argv(&args)).unwrap();

    match cli.command {
        Commands::List { distribution, version } => {
            assert_eq!(distribution, None);
            assert_eq!(version, Some("11".to_string()));
        }
        _ => panic!("Expected List command"),
    }
}

#[test]
fn test_search_command_without_args() {
    let args = vec!["jolt", "search"];
    let cli = Cli::try_parse_from(argv(&args));

    match cli {
        Err(e) => assert_eq!(e.exit_code(), 2),
        _ => panic!("Expected error for missing version"),
    }
}

#[test]
fn test_search_command_with_both_args_long() {
    let args = vec!["jolt", "search", "--dist", "openjdk", "--version", "11"];
    let cli = Cli::try_parse_from(argv(&args)).unwrap();

    match cli.command {
        Commands::Search { distribution, version } => {
            assert_eq!(distribution, Some("openjdk".to_string()));
            assert_eq!(version, Some("11".to_string()));
        }
        _ => panic!("Expected Search command"),
    }
}

#[test]
fn test_search_command_with_both_args_short() {
    let args = vec!["jolt", "search", "-d", "openjdk", "-v", "11"];
    let cli = Cli::try_parse_from(argv(&args)).unwrap();

    match cli.command {
        Commands::Search { distribution, version } => {
            assert_eq!(distribution, Some("openjdk".to_string()));
            assert_eq!(version, Some("11".to_string()));
        }
        _ => panic!("Expected Search command"),
    }
}

#[test]
fn test_search_command_with_distribution_arg_long() {
    let args = vec!["jolt", "search", "--dist", "openjdk"];
    let cli = Cli::try_parse_from(argv(&args)).unwrap();

    match cli.command {
        Commands::Search { distribution, version } => {
            assert_eq!(distribution, Some("openjdk".to_string()));
            assert_eq!(version, None);
        }
        _ => panic!("Expected Search command"),
    }
}

#[test]
fn test_search_command_with_distribution_arg_short() {
    let args = vec!["jolt", "search", "-d", "openjdk"];
    let cli = Cli::try_parse_from(argv(&args)).unwrap();

    match cli.command {
        Commands::Search { distribution, version } => {
            assert_eq!(distribution, Some("openjdk".to_string()));
            assert_eq!(version, None);
        }
        _ => panic!("Expected Search command"),
    }
}

#[test]
fn test_search_command_with_version_arg_long() {
    let args = vec!["jolt", "search", "--version", "11"];
    let cli = Cli::try_parse_from(argv(&args)).unwrap();

    match cli.command {
        Commands::Search { distribution, version } => {
            assert_eq!(distribution, None);
            assert_eq!(version, Some("11".to_string()));
        }
        _ => panic!("Expected Search command"),
    }
}

#[test]
fn test_search_command_with_version_arg_short() {
    let args = vec!["jolt", "search", "-v", "11"];
    let cli = Cli::try_parse_from(argv(&args)).unwrap();

    match cli.command {
        Commands::Search { distribution, version } => {
            assert_eq!(distribution, None);
            assert_eq!(version, Some("11".to_string()));
        }
        _ => panic!("Expected Search command"),
    }
}

#[test]
fn test_update_command() {
    let args = vec!["jolt", "update"];
    let cli = Cli::try_parse_from(argv(&args)).unwrap();

    match cli.command {
        Commands::Update => {
            // Success if this branch is reached
        }
        _ => panic!("Expected Update command"),
    }
}

#[test]
fn unknown_subcommand_is_a_usage_error() {
    match Cli::try_parse_from(argv(&["jolt", "remove", "openjdk"])) {
        Err(e) => assert_eq!(e.exit_code(), 2),
        _ => panic!("Expected error for unknown command"),
    }
}

#[test]
fn option_without_value_is_a_usage_error() {
    match Cli::try_parse_from(argv(&["jolt", "list", "--dist"])) {
        Err(e) => assert_eq!(e.exit_code(), 2),
        _ => panic!("Expected error for missing value"),
    }
}

#[test]
fn repeated_option_is_a_usage_error() {
    match Cli::try_parse_from(argv(&["jolt", "list", "-d", "openjdk", "-d", "oracle"])) {
        Err(e) => assert_eq!(e.exit_code(), 2),
        _ => panic!("Expected error for repeated option"),
    }
}

#[test]
fn install_with_extra_argument_is_a_usage_error() {
    match Cli::try_parse_from(argv(&["jolt", "install", "openjdk", "11", "extra"])) {
        Err(e) => assert_eq!(e.exit_code(), 2),
        _ => panic!("Expected error for unexpected argument"),
    }
}
