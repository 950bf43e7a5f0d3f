use argparse::ArgParser;
use argparse::ArgValue;
use argparse::GetError;
use argparse::ParserError;
use argparse::TypeTag;
use argparse::ARG_DEFAULT;
use argparse::ARG_MULTIPLE;
use argparse::ARG_REQUIRED;
use argparse::ARG_REQUIRES_NEXT;

fn strings(xs: &[&str]) -> Vec<String> {
    let mut v = Vec::new();
    for x in xs {
        v.push(x.to_string());
    }
    v
}

/// The registry shared by several scenarios: `--name` takes a value and is
/// required, `--verbose` is a repeatable presence flag.
fn name_verbose_registry() -> ArgParser {
    let mut p = ArgParser::new("prog", "1.0");
    p.settings.generate_default_flags = false;
    p.settings.generate_help_menu = false;
    p.add_arg(&strings(&["--name"]), ARG_REQUIRES_NEXT | ARG_REQUIRED);
    p.expected_type(TypeTag::Str);
    p.add_arg(&strings(&["--verbose"]), ARG_MULTIPLE);
    p
}

#[test]
fn name_and_repeated_verbose_parse() {
    let mut p = name_verbose_registry();
    let argv = strings(&["--name", "Alice", "--verbose", "--verbose"]);
    assert_eq!(p.parse(&argv), Ok(()));
    let names = p.get("--name", TypeTag::Str).unwrap();
    assert_eq!(names, vec![ArgValue::Str("Alice".to_string())]);
    let verbose = p.get("--verbose", TypeTag::Bool).unwrap();
    assert_eq!(verbose.len(), 2);
    assert_eq!(verbose, vec![ArgValue::Bool(true), ArgValue::Bool(true)]);
}

#[test]
fn empty_input_without_allow_no_args_fails() {
    let mut p = name_verbose_registry();
    let argv: Vec<String> = Vec::new();
    assert_eq!(p.parse(&argv), Err(ParserError::NoArgs));
}

#[test]
fn empty_input_with_allow_no_args_succeeds() {
    let mut p = name_verbose_registry();
    p.settings.allow_no_args = true;
    let argv: Vec<String> = Vec::new();
    assert_eq!(p.parse(&argv), Ok(()));
}

#[test]
fn missing_required_flag_fails() {
    let mut p = name_verbose_registry();
    let argv = strings(&["--verbose"]);
    assert_eq!(p.parse(&argv), Err(ParserError::RequirementNotMet));
}

#[test]
fn required_takes_precedence_over_invalid() {
    let mut p = name_verbose_registry();
    let argv = strings(&["--verbose", "--unknown"]);
    assert_eq!(p.parse(&argv), Err(ParserError::RequirementNotMet));
    assert_eq!(p.other_args, strings(&["--unknown"]));
}

#[test]
fn value_flag_as_final_token_fails() {
    let mut p = name_verbose_registry();
    let argv = strings(&["--name"]);
    assert_eq!(p.parse(&argv), Err(ParserError::IndexOutOfBound));
}

#[test]
fn allowed_invalid_args_are_collected() {
    let mut p = name_verbose_registry();
    p.settings.allow_invalid_args = true;
    let argv = strings(&["--name", "Bob", "--unknown"]);
    assert_eq!(p.parse(&argv), Ok(()));
    assert_eq!(p.other_args, strings(&["--unknown"]));
    let names = p.get("--name", TypeTag::Str).unwrap();
    assert_eq!(names, vec![ArgValue::Str("Bob".to_string())]);
}

#[test]
fn disallowed_invalid_arg_fails_after_full_scan() {
    let mut p = name_verbose_registry();
    let argv = strings(&["--name", "Bob", "--unknown", "--oops"]);
    assert_eq!(p.parse(&argv), Err(ParserError::InvalidArg));
    assert_eq!(p.other_args, strings(&["--unknown", "--oops"]));
}

#[test]
fn duplicate_non_multiple_flag_fails() {
    let mut p = name_verbose_registry();
    let argv = strings(&["--name", "A", "--name", "B"]);
    assert_eq!(p.parse(&argv), Err(ParserError::DuplicateArg));
    // the first value stands untouched
    let names = p.get("--name", TypeTag::Str).unwrap();
    assert_eq!(names, vec![ArgValue::Str("A".to_string())]);
}

#[test]
fn multiple_value_flag_accumulates_in_order() {
    let mut p = ArgParser::new("prog", "1.0");
    p.settings.generate_default_flags = false;
    p.settings.generate_help_menu = false;
    p.add_arg(&strings(&["--tag"]), ARG_MULTIPLE | ARG_REQUIRES_NEXT);
    let argv = strings(&["--tag", "a", "--tag", "b"]);
    assert_eq!(p.parse(&argv), Ok(()));
    let tags = p.get("--tag", TypeTag::Str).unwrap();
    assert_eq!(
        tags,
        vec![ArgValue::Str("a".to_string()), ArgValue::Str("b".to_string())]
    );
}

#[test]
fn default_value_round_trip() {
    let mut p = ArgParser::new("prog", "1.0");
    p.settings.generate_default_flags = false;
    p.settings.generate_help_menu = false;
    p.settings.allow_no_args = true;
    p.add_arg(&strings(&["--count"]), ARG_DEFAULT);
    p.default_value(ArgValue::Int(7));
    let argv: Vec<String> = Vec::new();
    assert_eq!(p.parse(&argv), Ok(()));
    let counts = p.get("--count", TypeTag::Int).unwrap();
    assert_eq!(counts, vec![ArgValue::Int(7)]);
}

#[test]
fn occurrence_shadows_default_without_merging() {
    let mut p = ArgParser::new("prog", "1.0");
    p.settings.generate_default_flags = false;
    p.settings.generate_help_menu = false;
    p.add_arg(&strings(&["--mode"]), ARG_REQUIRES_NEXT);
    p.default_value(ArgValue::Str("fast".to_string()));
    let argv = strings(&["--mode", "slow"]);
    assert_eq!(p.parse(&argv), Ok(()));
    let modes = p.get("--mode", TypeTag::Str).unwrap();
    assert_eq!(modes, vec![ArgValue::Str("slow".to_string())]);
}

#[test]
fn alias_batch_shares_metadata() {
    let mut p = ArgParser::new("prog", "1.0");
    p.settings.generate_default_flags = false;
    p.settings.generate_help_menu = false;
    p.add_arg(&strings(&["-o", "--output"]), ARG_REQUIRES_NEXT);
    p.help("where to write".to_string());
    p.default_value(ArgValue::Str("out.txt".to_string()));
    p.settings.allow_no_args = true;
    let argv: Vec<String> = Vec::new();
    assert_eq!(p.parse(&argv), Ok(()));
    assert_eq!(
        p.get("-o", TypeTag::Str).unwrap(),
        vec![ArgValue::Str("out.txt".to_string())]
    );
    assert_eq!(
        p.get("--output", TypeTag::Str).unwrap(),
        vec![ArgValue::Str("out.txt".to_string())]
    );
}

#[test]
fn get_of_undeclared_flag_fails() {
    let p = name_verbose_registry();
    assert_eq!(p.get("--nope", TypeTag::Str), Err(GetError::InvalidFlag));
}

#[test]
fn get_with_wrong_kind_fails() {
    let mut p = name_verbose_registry();
    let argv = strings(&["--name", "Alice"]);
    assert_eq!(p.parse(&argv), Ok(()));
    assert_eq!(p.get("--name", TypeTag::Int), Err(GetError::InvalidType));
}

#[test]
fn get_without_value_or_default_fails() {
    let mut p = name_verbose_registry();
    let argv = strings(&["--name", "Alice"]);
    assert_eq!(p.parse(&argv), Ok(()));
    assert_eq!(p.get("--verbose", TypeTag::Bool), Err(GetError::NoValue));
}

#[test]
fn generated_default_flags_parse() {
    let mut p = ArgParser::new("prog", "1.0");
    p.add_arg(&strings(&["--name"]), ARG_REQUIRES_NEXT | ARG_REQUIRED);
    let argv = strings(&["--name", "Ada", "-h"]);
    assert_eq!(p.parse(&argv), Ok(()));
    assert_eq!(p.get("-h", TypeTag::Bool).unwrap(), vec![ArgValue::Bool(true)]);
    assert!(!p.help.is_empty());
}

#[test]
fn version_flag_is_repeatable() {
    let mut p = ArgParser::new("prog", "1.0");
    p.settings.generate_help_menu = false;
    p.settings.allow_no_args = true;
    let argv = strings(&["-v", "-v"]);
    assert_eq!(p.parse(&argv), Ok(()));
    assert_eq!(p.get("-v", TypeTag::Bool).unwrap().len(), 2);
}

#[test]
fn help_flag_is_not_repeatable() {
    let mut p = ArgParser::new("prog", "1.0");
    p.settings.generate_help_menu = false;
    p.settings.allow_no_args = true;
    let argv = strings(&["-h", "-h"]);
    assert_eq!(p.parse(&argv), Err(ParserError::DuplicateArg));
}

#[test]
fn generated_help_layout() {
    let mut p = ArgParser::new("prog", "1.0");
    p.settings.generate_default_flags = false;
    p.add_arg(&strings(&["--a"]), ARG_DEFAULT);
    p.help("x".to_string());
    p.settings.allow_no_args = true;
    let argv: Vec<String> = Vec::new();
    assert_eq!(p.parse(&argv), Ok(()));
    // column width: len("--a") + 4 = 7, so four spaces of padding after the flag
    assert_eq!(
        p.help,
        "prog on version 1.0\nUsage\n    prog <flags>\n    --a    x\n"
    );
}

#[test]
fn generated_help_groups_batches() {
    let mut p = ArgParser::new("prog", "0.2");
    p.settings.generate_default_flags = false;
    p.add_arg(&strings(&["-a", "--alpha"]), ARG_DEFAULT);
    p.help("first".to_string());
    p.add_arg(&strings(&["--beta"]), ARG_DEFAULT);
    p.help("second".to_string());
    p.settings.allow_no_args = true;
    let argv: Vec<String> = Vec::new();
    assert_eq!(p.parse(&argv), Ok(()));
    // column width: len("--alpha") + 4 = 11; a blank line between the batches
    let expected = "prog on version 0.2\nUsage\n    prog <flags>\n    -a         first\n    --alpha    first\n\n    --beta     second\n";
    assert_eq!(p.help, expected);
}

#[test]
fn consumed_value_is_not_matched_as_flag() {
    let mut p = name_verbose_registry();
    // "--verbose" here is the value of "--name", not an occurrence
    let argv = strings(&["--name", "--verbose"]);
    assert_eq!(p.parse(&argv), Ok(()));
    assert_eq!(
        p.get("--name", TypeTag::Str).unwrap(),
        vec![ArgValue::Str("--verbose".to_string())]
    );
    assert_eq!(p.get("--verbose", TypeTag::Bool), Err(GetError::NoValue));
}

#[test]
fn repeat_occurrence_still_needs_its_value() {
    let mut p = ArgParser::new("prog", "1.0");
    p.settings.generate_default_flags = false;
    p.settings.generate_help_menu = false;
    p.add_arg(&strings(&["--tag"]), ARG_MULTIPLE | ARG_REQUIRES_NEXT);
    let argv = strings(&["--tag", "a", "--tag"]);
    assert_eq!(p.parse(&argv), Err(ParserError::IndexOutOfBound));
}

#[test]
fn error_names() {
    assert_eq!(ParserError::NoArgs.name(), "NoArgs");
    assert_eq!(ParserError::InvalidArg.name(), "InvalidArg");
    assert_eq!(ParserError::DuplicateArg.name(), "DuplicateArg");
    assert_eq!(ParserError::IndexOutOfBound.name(), "IndexOutOfBound");
    assert_eq!(ParserError::RequirementNotMet.name(), "RequirementNotMet");
    assert_eq!(GetError::InvalidFlag.name(), "InvalidFlag");
    assert_eq!(GetError::InvalidType.name(), "InvalidType");
    assert_eq!(GetError::NoValue.name(), "NoValue");
}

#[test]
fn default_settings() {
    let p = ArgParser::new("prog", "1.0");
    assert!(!p.settings.allow_invalid_args);
    assert!(!p.settings.allow_no_args);
    assert!(p.settings.generate_default_flags);
    assert!(p.settings.generate_help_menu);
    assert_eq!(
        p.settings.event_phrases.no_arg_err,
        "Provide at least one argument"
    );
    assert_eq!(
        p.settings.event_phrases.missing_arg_err,
        "Provide an argument for this option"
    );
    assert_eq!(p.settings.event_phrases.invalid_arg_err, "Invalid argument");
    assert_eq!(
        p.settings.event_phrases.multi_arg_err,
        "This argument can only be provided once"
    );
}
