use sppg::cli::{long_argument, process_command_line, short_argument, ArgName, Args, CliError};

fn parse(args: &[&str]) -> Result<Args, CliError> {
    let argv: Vec<String> = args.iter().map(|a| a.to_string()).collect();
    process_command_line(&argv)
}

#[test]
fn verify_cli() {
    assert!(parse(&["sppg"]).is_ok());
    let pairs = [
        ('h', "help", ArgName::Help),
        ('V', "version", ArgName::Version),
        ('e', "eff", ArgName::Eff),
        ('c', "use-capital-char", ArgName::UseCapitalChar),
        ('s', "use-special-char", ArgName::UseSpecialChar),
        ('q', "quality", ArgName::Quality),
        ('n', "num-of-pass", ArgName::NumOfPass),
        ('w', "word-count", ArgName::WordCount),
        ('S', "separator", ArgName::Separator),
    ];
    for (short, long, name) in pairs {
        assert_eq!(short_argument(short), Some(name));
        assert_eq!(long_argument(long), Some(name));
    }
    assert_eq!(long_argument("nothing"), None);
    assert_eq!(short_argument('x'), None);
}

#[test]
fn verify_cli_display_help() {
    assert_eq!(
        parse(&["sppg", "--help"]).expect_err("this command is supposed to fail"),
        CliError::DisplayHelp,
        "the program displays a usage screen"
    );
}

#[test]
fn verify_cli_arg_n_defaults_to_6() {
    let value = parse(&["sppg"])
        .expect("this command is supposed to work")
        .num_of_pass;

    assert_eq!(value, 6, "default -n value is 6");
}

#[test]
fn verify_cli_arg_n_negative_is_error() {
    assert_eq!(
        parse(&["sppg", "-n", "-1"]).expect_err("this command is supposed to fail"),
        CliError::UnknownArgument,
        "if -n is negative it returns UnknownArgument error"
    );
}

#[test]
fn verify_cli_arg_n_zero_is_error() {
    assert_eq!(
        parse(&["sppg", "-n", "0"]).expect_err("this command is supposed to fail"),
        CliError::ValueValidation,
        "if -n is zero the program returns a ValueValidation error"
    );
}

#[test]
fn verify_cli_arg_w_zero_is_error() {
    assert_eq!(
        parse(&["sppg", "-w", "0"]).expect_err("this command is supposed to fail"),
        CliError::ValueValidation,
        "if -w is zero the program returns a ValueValidation error"
    );
}

#[test]
fn verify_cli_arg_w_defaults_to_5() {
    let value = parse(&["sppg"])
        .expect("this command is supposed to work")
        .word_count;

    assert_eq!(value, 5, "default -w value is 5");
}

#[test]
fn verify_cli_arg_e_defaults_to_false() {
    let value = parse(&["sppg"])
        .expect("this command is supposed to work")
        .eff;

    assert!(!value, "default -e value is false");
}

#[test]
fn verify_cli_arg_e_is_true() {
    let value = parse(&["sppg", "--eff"])
        .expect("this command is supposed to work")
        .eff;

    assert!(value, "Arg -e is set to true");
}

#[test]
fn verify_cli_arg_s_is_true01() {
    let value = parse(&["sppg", "--use-special-char"])
        .expect("this command is supposed to work")
        .use_special_char;

    assert!(value, "Arg --use-special-char is set to true");
}

#[test]
fn verify_cli_arg_s_is_true02() {
    let value = parse(&["sppg", "-s"])
        .expect("this command is supposed to work")
        .use_special_char;

    assert!(value, "Arg -s is set to true");
}

#[test]
fn verify_cli_arg_c_is_true01() {
    let value = parse(&["sppg", "--use-capital-char"])
        .expect("this command is supposed to work")
        .use_capital_char;

    assert!(value, "Arg --use-capital-char is set to true");
}

#[test]
fn verify_cli_arg_c_is_true02() {
    let value = parse(&["sppg", "-c"])
        .expect("this command is supposed to work")
        .use_capital_char;

    assert!(value, "Arg -c is set to true");
}

#[test]
fn verify_cli_arg_q_is_true01() {
    let value = parse(&["sppg", "--quality"])
        .expect("this command is supposed to work")
        .quality;

    assert!(value, "Arg --quality is set to true");
}

#[test]
fn verify_cli_arg_q_is_true02() {
    let value = parse(&["sppg", "-q"])
        .expect("this command is supposed to work")
        .quality;

    assert!(value, "Arg -q is set to true");
}

#[test]
fn verify_cli_arg_q_implies_c_s() {
    let value_cap = parse(&["sppg", "-q"])
        .expect("this command is supposed to work")
        .use_capital_char;
    let value_special = parse(&["sppg", "-q"])
        .expect("this command is supposed to work")
        .use_special_char;

    assert!(value_cap, "Arg -q implies -c");
    assert!(value_special, "Arg -q implies -s");
}

#[test]
fn verify_cli_arg_separator_is_true02() {
    let value = parse(&["sppg", "-S", "-"])
        .expect("failed to parse -S argument")
        .separator;

    assert_eq!(value, Some('-'), "Arg -S is set to ' '");
}

#[test]
fn verify_cli_arg_separator_is_true01() {
    let value = parse(&["sppg", "--separator", "-"])
        .expect("failed to parse --separater argument")
        .separator;

    assert_eq!(value, Some('-'), "Arg --separator is set to ' '");
}

#[test]
fn cli_counts_and_errors() {
    let args = parse(&["sppg", "-n", "12", "--word-count", "255", "-e"]).unwrap();
    assert_eq!(args.num_of_pass, 12);
    assert_eq!(args.word_count, 255);
    assert!(args.eff);
    assert_eq!(parse(&["sppg", "-w", "256"]), Err(CliError::ValueValidation));
    assert_eq!(parse(&["sppg", "-w", "1x"]), Err(CliError::InvalidValue));
    assert_eq!(parse(&["sppg", "-w"]), Err(CliError::MissingValue));
    assert_eq!(parse(&["sppg", "-n", "--eff"]), Err(CliError::MissingValue));
    assert_eq!(parse(&["sppg", "-S", "ab"]), Err(CliError::ValueValidation));
    assert_eq!(parse(&["sppg", "--bogus"]), Err(CliError::UnknownArgument));
    assert_eq!(parse(&["sppg", "-V"]), Err(CliError::DisplayVersion));
    assert_eq!(parse(&[]), Ok(Args::default()));
}

#[test]
fn cli_attached_values_and_bundles() {
    let args = parse(&["sppg", "--num-of-pass=3", "-w7", "-cs", "-S+"]).unwrap();
    assert_eq!(args.num_of_pass, 3);
    assert_eq!(args.word_count, 7);
    assert!(args.use_capital_char && args.use_special_char && !args.quality);
    assert_eq!(args.separator, Some('+'));
    let args = parse(&["sppg", "-n=4", "-ew", "+9", "--separator=_"]).unwrap();
    assert_eq!(args.num_of_pass, 4);
    assert!(args.eff);
    assert_eq!(args.word_count, 9);
    assert_eq!(args.separator, Some('_'));
    let args = parse(&["sppg", "-qn", "2"]).unwrap();
    assert!(args.quality && args.use_capital_char && args.use_special_char);
    assert_eq!(args.num_of_pass, 2);
    assert_eq!(parse(&["sppg", "-w=-1"]), Err(CliError::ValueValidation));
    assert_eq!(parse(&["sppg", "-S="]), Err(CliError::ValueValidation));
    assert_eq!(parse(&["sppg", "--eff=yes"]), Err(CliError::UnexpectedValue));
    assert_eq!(parse(&["sppg", "-"]), Err(CliError::UnknownArgument));
    assert_eq!(parse(&["sppg", "-cx"]), Err(CliError::UnknownArgument));
    assert_eq!(parse(&["sppg", "-ch"]), Err(CliError::DisplayHelp));
    assert_eq!(parse(&["sppg", "--word-count=x"]), Err(CliError::InvalidValue));
    assert_eq!(parse(&["sppg", "extra"]), Err(CliError::UnknownArgument));
}
