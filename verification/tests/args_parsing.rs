use digimatic::args::{is_float_literal, normalize_arg, parse_from_tokens, parse_u64, Token};
use digimatic::config::{ConsoleMode, DataSource, FrameFormat, SimModeArg, UiMode};
use digimatic::errors::ArgumentError;

fn strings(args: &[&str]) -> Vec<String> {
    args.iter().map(|s| s.to_string()).collect()
}

fn message(e: ArgumentError) -> String {
    match e {
        ArgumentError::InvalidArgs(m) => m,
        ArgumentError::TooManyArgs(m) => m,
        ArgumentError::MissingArgs(m) => m,
    }
}

#[test]
fn test_normalize_arg_source() {
    assert!(matches!(
        normalize_arg("--sim").unwrap(),
        Token::Source(DataSource::Sim)
    ));
    assert!(matches!(
        normalize_arg("-s").unwrap(),
        Token::Source(DataSource::Sim)
    ));
}

#[test]
fn test_normalize_arg_ui() {
    assert!(matches!(
        normalize_arg("--gui").unwrap(),
        Token::Ui(UiMode::Gui)
    ));
    assert!(matches!(
        normalize_arg("-g").unwrap(),
        Token::Ui(UiMode::Gui)
    ));
}

#[test]
fn test_duplicate_detection() {
    let args_dup_source = vec!["--sim".to_string(), "--actual".to_string()];
    assert!(parse_from_tokens(args_dup_source).is_err());

    let args_dup_ui = vec!["--gui".to_string(), "--cli".to_string()];
    assert!(parse_from_tokens(args_dup_ui).is_err());
}

#[test]
fn test_parse_success_with_binary_option() {
    let args = vec![
        "--cli".to_string(),
        "--actual".to_string(),
        "--bin".to_string(),
    ];
    let config = parse_from_tokens(args).unwrap();

    assert_eq!(config.source, DataSource::Actual);
    assert_eq!(config.ui, UiMode::Cli);
    assert!(matches!(config.format, FrameFormat::Bin));
}

#[test]
fn test_strict_hyphen_safety_guards() {
    assert!(normalize_arg("sim").is_err());
    assert!(normalize_arg("gui").is_err());
    assert!(normalize_arg("g").is_err());

    assert!(normalize_arg("---sim").is_err());
    assert!(normalize_arg("--").is_err());
    assert!(normalize_arg("-").is_err());
}

#[test]
fn test_case_insensitivity_with_hyphens() {
    assert!(matches!(
        normalize_arg("--SiM").unwrap(),
        Token::Source(DataSource::Sim)
    ));
    assert!(matches!(
        normalize_arg("--GUI").unwrap(),
        Token::Ui(UiMode::Gui)
    ));
    assert!(matches!(normalize_arg("-B").unwrap(), Token::FrameMode));
}

#[test]
fn test_parse_from_tokens_strict_combinations() {
    let valid_args = vec!["--gui".to_string(), "--sim".to_string()];
    let config = parse_from_tokens(valid_args).unwrap();
    assert_eq!(config.source, DataSource::Sim);
    assert_eq!(config.ui, UiMode::Gui);

    let invalid_args = vec!["gui".to_string(), "--sim".to_string()];
    assert!(parse_from_tokens(invalid_args).is_err());
}

#[test]
fn normalize_recognises_every_option() {
    assert_eq!(normalize_arg("-a").unwrap(), Token::Source(DataSource::Actual));
    assert_eq!(normalize_arg("--ACTUAL").unwrap(), Token::Source(DataSource::Actual));
    assert_eq!(normalize_arg("-c").unwrap(), Token::Ui(UiMode::Cli));
    assert_eq!(normalize_arg("--bin").unwrap(), Token::FrameMode);
    for opt in ["--fixed", "--sin", "--gaussian", "--seed", "--SEED"] {
        assert_eq!(normalize_arg(opt).unwrap(), Token::SimMode);
    }
}

#[test]
fn normalize_error_names_the_argument() {
    let e = normalize_arg("--Wrong").unwrap_err();
    assert_eq!(message(e), "不正な引数です: --Wrong");
}

#[test]
fn too_few_arguments_give_usage() {
    let e = parse_from_tokens(strings(&["--sim"])).unwrap_err();
    assert_eq!(message(e), "Usage: digimatic <sim|actual> <gui|cli>");
    assert!(parse_from_tokens(Vec::new()).is_err());
}

#[test]
fn missing_ui_gives_usage() {
    let e = parse_from_tokens(strings(&["--sim", "--bin"])).unwrap_err();
    assert_eq!(message(e), "Usage: digimatic <sim|actual> <gui|cli>");
}

#[test]
fn duplicate_messages_name_the_field() {
    let e = parse_from_tokens(strings(&["-s", "-a", "-g"])).unwrap_err();
    assert_eq!(message(e), "source が重複しています");
    let e = parse_from_tokens(strings(&["-s", "-g", "-c"])).unwrap_err();
    assert_eq!(message(e), "ui が重複しています");
}

#[test]
fn defaults_and_console_policy() {
    let c = parse_from_tokens(strings(&["--sim", "--gui"])).unwrap();
    assert_eq!(c.format, FrameFormat::Str);
    assert_eq!(c.console_mode, ConsoleMode::Silent);
    assert_eq!(c.sim_mode, SimModeArg::Random);
    let c = parse_from_tokens(strings(&["--actual", "--cli"])).unwrap();
    assert_eq!(c.console_mode, ConsoleMode::Verbose);
}

#[test]
fn sim_mode_options() {
    let c = parse_from_tokens(strings(&["-s", "-g", "--seed", "42"])).unwrap();
    assert_eq!(c.sim_mode, SimModeArg::Seed(42));
    let c = parse_from_tokens(strings(&["-s", "-g", "--fixed", "123.45"])).unwrap();
    assert_eq!(c.sim_mode, SimModeArg::Fixed("123.45".to_string()));
    let c = parse_from_tokens(strings(&["-s", "-g", "--SIN"])).unwrap();
    assert_eq!(c.sim_mode, SimModeArg::SinWave);
    let c = parse_from_tokens(strings(&["-s", "-g", "--gaussian"])).unwrap();
    assert_eq!(c.sim_mode, SimModeArg::Random);
    let c = parse_from_tokens(strings(&["-s", "--seed", "7", "-g", "--sin"])).unwrap();
    assert_eq!(c.sim_mode, SimModeArg::SinWave);
}

#[test]
fn sim_mode_value_errors() {
    let e = parse_from_tokens(strings(&["-s", "-g", "--fixed"])).unwrap_err();
    assert_eq!(message(e), "値が指定されていません");
    let e = parse_from_tokens(strings(&["-s", "-g", "--fixed", "abc"])).unwrap_err();
    assert_eq!(message(e), "不正な数値です");
    let e = parse_from_tokens(strings(&["-s", "-g", "--seed"])).unwrap_err();
    assert_eq!(message(e), "シード値が指定されていません");
    let e = parse_from_tokens(strings(&["-s", "-g", "--seed", "-1"])).unwrap_err();
    assert_eq!(message(e), "不正なシード値（整数）です");
}

#[test]
fn float_literal_grammar() {
    for ok in ["1", "1.5", ".5", "5.", "+2", "-3.25", "1e3", "1E-3", "2.5e+10", "inf", "-Infinity", "NaN"] {
        assert!(is_float_literal(ok), "{ok}");
        assert!(ok.parse::<f64>().is_ok(), "{ok}");
    }
    for bad in ["", ".", "e5", "1e", "1.2.3", "abc", "--1", "1 ", "0x10"] {
        assert!(!is_float_literal(bad), "{bad}");
        assert!(bad.parse::<f64>().is_err(), "{bad}");
    }
}

#[test]
fn u64_parsing() {
    assert_eq!(parse_u64("0"), Some(0));
    assert_eq!(parse_u64("+12"), Some(12));
    assert_eq!(parse_u64("18446744073709551615"), Some(u64::MAX));
    assert_eq!(parse_u64("18446744073709551616"), None);
    assert_eq!(parse_u64(""), None);
    assert_eq!(parse_u64("+"), None);
    assert_eq!(parse_u64("-1"), None);
    assert_eq!(parse_u64("1a"), None);
}
