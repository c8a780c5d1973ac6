use rsum::config::{help_text, parse_args, Config};
use rsum::error::SumError;
use rsum::parse::parse_num_str;

fn to_f32s(tokens: Vec<String>) -> Vec<f32> {
    tokens.iter().map(|t| t.parse::<f32>().unwrap()).collect()
}

fn sum_of(text: &str) -> f32 {
    to_f32s(parse_num_str(text).unwrap()).iter().sum()
}

#[test]
fn can_parse_cli_arg_config() {
    let args = vec!["./rsum".to_owned(), "1 2 3".to_owned()];

    let parsed_config = parse_args(args);
    let expected = Config::CliArg("1 2 3".to_owned());

    assert_eq!(parsed_config, Ok(expected));
}

#[test]
fn can_parse_file_config() {
    let args = vec![
        "./rsum".to_owned(),
        "-f".to_owned(),
        "numbers.txt".to_owned(),
    ];

    let parsed_config = parse_args(args);
    let expected = Config::File("numbers.txt".to_owned());

    assert_eq!(parsed_config, Ok(expected));
}

#[test]
fn can_parse_print_help_config() {
    let args = vec!["./rsum".to_owned(), "-h".to_owned()];

    let parsed_config = parse_args(args);
    let expected = Config::PrintHelp;

    assert_eq!(parsed_config, Ok(expected));
}

#[test]
fn can_parse_num_str_without_commas() {
    let num_str = "0.1 10 20.5 30000 40.".to_owned();

    let nums = parse_num_str(&num_str).map(to_f32s);

    let expected = vec![0.1, 10., 20.5, 30_000., 40.];

    assert_eq!(nums, Ok(expected));
}

#[test]
fn can_parse_num_str_with_commas() {
    let num_str = "0.1 10 20.5 30,000 40.".to_owned();

    let nums = parse_num_str(&num_str).map(to_f32s);

    let expected = vec![0.1, 10., 20.5, 30_000., 40.];

    assert_eq!(nums, Ok(expected));
}

#[test]
fn can_parse_num_str_space_delimited() {
    let num_str = "0.1 10 20.5 30,000 40.".to_owned();

    let nums = parse_num_str(&num_str).map(to_f32s);

    let expected = vec![0.1, 10., 20.5, 30_000., 40.];

    assert_eq!(nums, Ok(expected));
}

#[test]
fn can_parse_num_str_newline_delimited() {
    let num_str = "0.1\n10\n20.5\n30,000\n40.".to_owned();

    let nums = parse_num_str(&num_str).map(to_f32s);

    let expected = vec![0.1, 10., 20.5, 30_000., 40.];

    assert_eq!(nums, Ok(expected));
}

#[test]
fn can_parse_num_str_space_and_newline_delimited() {
    let num_str = "0.1 10\n20.5 30,000\n40.".to_owned();

    let nums = parse_num_str(&num_str).map(to_f32s);

    let expected = vec![0.1, 10., 20.5, 30_000., 40.];

    assert_eq!(nums, Ok(expected));
}

#[test]
fn no_args_resolves_to_stdin() {
    let args = vec!["./rsum".to_owned()];

    assert_eq!(parse_args(args), Ok(Config::Stdin));
}

#[test]
fn help_flag_wins_over_following_args() {
    let args = vec!["./rsum".to_owned(), "-h".to_owned(), "1 2 3".to_owned()];

    assert_eq!(parse_args(args), Ok(Config::PrintHelp));
}

#[test]
fn file_flag_without_path_is_missing_argument() {
    let args = vec!["./rsum".to_owned(), "-f".to_owned()];

    let parsed_config = parse_args(args);

    assert_eq!(parsed_config, Err(SumError::MissingArgument));
    assert_eq!(
        parsed_config.unwrap_err().message(),
        "Missing path to file.".to_owned()
    );
}

#[test]
fn bare_args_are_joined_with_single_spaces() {
    let args = vec![
        "./rsum".to_owned(),
        "1".to_owned(),
        "2".to_owned(),
        "3".to_owned(),
    ];

    assert_eq!(parse_args(args), Ok(Config::CliArg("1 2 3".to_owned())));
}

#[test]
fn round_trip_of_joined_tokens_sums() {
    let num_str = ["0.1", "10", "20.5", "30000", "40."].join(" ");

    let sum = sum_of(&num_str);

    assert!((sum - 30070.6).abs() < 1e-2);
}

#[test]
fn commas_do_not_change_the_sum() {
    assert_eq!(sum_of("0.1 10 20.5 30,000 40."), sum_of("0.1 10 20.5 30000 40."));
}

#[test]
fn newlines_for_spaces_do_not_change_the_sum() {
    let with_spaces = sum_of("0.1 10 20.5 30000 40.");

    assert_eq!(sum_of("0.1\n10 20.5\n30000 40."), with_spaces);
    assert_eq!(sum_of("0.1\n10\n20.5\n30000\n40."), with_spaces);
}

#[test]
fn parse_error_names_the_offending_token() {
    let result = parse_num_str("1 2 x 3");

    match result {
        Err(SumError::ParseError(token)) => {
            assert_eq!(token, "x".to_owned());
        }
        other => panic!("expected a parse error, got {:?}", other),
    }
    assert_eq!(
        parse_num_str("1 2 x 3").unwrap_err().message(),
        "Failed to parse 'x'".to_owned()
    );
}

#[test]
fn empty_input_is_a_parse_error() {
    assert_eq!(
        parse_num_str(""),
        Err(SumError::ParseError("".to_owned()))
    );
}

#[test]
fn consecutive_spaces_make_an_empty_token() {
    assert_eq!(
        parse_num_str("1  2"),
        Err(SumError::ParseError("".to_owned()))
    );
}

#[test]
fn io_error_message_is_passed_through() {
    let err = SumError::IoError("No such file or directory".to_owned());

    assert_eq!(err.message(), "No such file or directory".to_owned());
}

#[test]
fn help_text_is_the_same_on_every_call() {
    assert_eq!(help_text(), help_text());
    assert_eq!(
        help_text(),
        "\nSums up space and or newline delimited numbers (both integers and decimals) and prints result to stdout.\nInput can be from stdin (no flag) or a file (-f flag).\nNote: Commas in the numbers are allowed.\n"
    );
}

#[test]
fn signs_exponents_and_special_words_parse() {
    let nums = parse_num_str("-5 +3.25 1e3 2E-2 inf NaN").unwrap();

    assert_eq!(nums.len(), 6);
    assert_eq!(nums[2].parse::<f32>().unwrap(), 1000.0);
    assert_eq!(nums[3].parse::<f32>().unwrap(), 0.02);
    assert!(nums[4].parse::<f32>().unwrap().is_infinite());
    assert!(nums[5].parse::<f32>().unwrap().is_nan());
}

#[test]
fn malformed_tokens_are_rejected() {
    assert!(parse_num_str("1.2.3").is_err());
    assert!(parse_num_str(".").is_err());
    assert!(parse_num_str("1e").is_err());
    assert!(parse_num_str("e5").is_err());
    assert!(parse_num_str("--1").is_err());
    assert!(parse_num_str("1 2\tthree").is_err());
}

#[test]
fn surrounding_whitespace_is_trimmed() {
    let nums = parse_num_str("  1 2 \n").map(to_f32s);

    assert_eq!(nums, Ok(vec![1., 2.]));
}
