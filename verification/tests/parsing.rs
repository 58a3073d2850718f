use sargparse::parser::{ArgumentParser, ParseOutcome};
use sargparse::table::ParsedArgs;
use sargparse::value::{ArgError, ArgumentType, InnerData};

fn argv(tokens: &[&str]) -> Vec<String> {
    let mut v: Vec<String> = vec!["prog".to_string()];
    for t in tokens {
        v.push(t.to_string());
    }
    v
}

fn must_parse(parser: &ArgumentParser, tokens: &[&str]) -> ParsedArgs {
    match parser.parse_args(&argv(tokens)) {
        Ok(ParseOutcome::Parsed(map)) => map,
        other => panic!("expected a resolved map, got {:?}", other),
    }
}

#[test]
fn scenario_required_int_optional_bool() {
    let mut p = ArgumentParser::new(Some("demo"));
    p.add_argument("-c", "--count", "how many", true, None, ArgumentType::INT);
    p.add_argument(
        "-v",
        "--verbose",
        "say more",
        false,
        Some(InnerData::from_bool(false)),
        ArgumentType::BOOL,
    );
    let map = must_parse(&p, &["-c", "10"]);
    assert_eq!(map.get("count").unwrap().get_int().unwrap(), 10);
    assert_eq!(map.get("verbose").unwrap().get_bool().unwrap(), false);
}

#[test]
fn scenario_help_wins_over_everything() {
    let mut p = ArgumentParser::new(None);
    p.add_argument("-c", "--count", "how many", true, None, ArgumentType::INT);
    let r = p.parse_args(&argv(&["-h", "-c", "10"]));
    assert!(matches!(r, Ok(ParseOutcome::Help)));
}

#[test]
fn scenario_empty_input_names_the_missing_argument() {
    let mut p = ArgumentParser::new(None);
    p.add_argument("-c", "--count", "how many", true, None, ArgumentType::INT);
    let r = p.parse_args(&argv(&[]));
    assert!(matches!(r, Err(ArgError::MissingRequired(name)) if name == "count"));
}

#[test]
fn scenario_positional_text_and_bool_flag() {
    let mut p = ArgumentParser::new(None);
    p.add_argument("", "name", "who", true, None, ArgumentType::STR);
    p.add_argument(
        "-l",
        "--loud",
        "shout",
        false,
        Some(InnerData::from_bool(false)),
        ArgumentType::BOOL,
    );
    let map = must_parse(&p, &["alice", "--loud"]);
    assert_eq!(map.get("name").unwrap().get_str().unwrap(), "alice");
    assert_eq!(map.get("loud").unwrap().get_bool().unwrap(), true);
}

#[test]
fn supplied_value_round_trips_each_type() {
    let mut p = ArgumentParser::new(None);
    p.add_argument("-c", "--count", "", true, None, ArgumentType::INT);
    p.add_argument("-r", "--ratio", "", false, None, ArgumentType::FLOAT);
    p.add_argument("-n", "--name", "", false, None, ArgumentType::STR);
    p.add_argument("-f", "--flag", "", false, None, ArgumentType::BOOL);
    let map = must_parse(
        &p,
        &["--count", "42", "--ratio", "2.5", "--name", "bob", "--flag", "false"],
    );
    assert_eq!(map.get("count").unwrap().get_int().unwrap(), 42);
    assert_eq!(map.get("ratio").unwrap().get_float().unwrap(), "2.5");
    assert_eq!(map.get("name").unwrap().get_str().unwrap(), "bob");
    assert_eq!(map.get("flag").unwrap().get_bool().unwrap(), false);
}

#[test]
fn unsupplied_optionals_take_zero_values() {
    let mut p = ArgumentParser::new(None);
    p.add_argument("-a", "--alpha", "", false, None, ArgumentType::INT);
    p.add_argument("-b", "--beta", "", false, None, ArgumentType::FLOAT);
    p.add_argument("-g", "--gamma", "", false, None, ArgumentType::STR);
    p.add_argument("-d", "--delta", "", false, None, ArgumentType::BOOL);
    let map = must_parse(&p, &[]);
    assert_eq!(map.get("alpha").unwrap().get_int().unwrap(), 0);
    assert_eq!(map.get("beta").unwrap().get_float().unwrap(), "0.0");
    assert_eq!(map.get("gamma").unwrap().get_str().unwrap(), "");
    assert_eq!(map.get("delta").unwrap().get_bool().unwrap(), false);
}

#[test]
fn declared_defaults_apply_when_unsupplied() {
    let mut p = ArgumentParser::new(None);
    p.add_argument(
        "-c",
        "--count",
        "",
        false,
        Some(InnerData::from_int(7)),
        ArgumentType::INT,
    );
    p.add_argument(
        "-n",
        "--name",
        "",
        false,
        Some(InnerData::from_str("carol".to_string())),
        ArgumentType::STR,
    );
    p.add_argument(
        "-r",
        "--ratio",
        "",
        false,
        Some(InnerData::from_float("2.5".to_string())),
        ArgumentType::FLOAT,
    );
    let map = must_parse(&p, &[]);
    assert_eq!(map.get("count").unwrap().get_int().unwrap(), 7);
    assert_eq!(map.get("name").unwrap().get_str().unwrap(), "carol");
    assert_eq!(map.get("ratio").unwrap().get_float().unwrap(), "2.5");
}

#[test]
fn parsing_is_read_only_and_repeatable() {
    let mut p = ArgumentParser::new(None);
    p.add_argument("-c", "--count", "", true, None, ArgumentType::INT);
    let first = must_parse(&p, &["-c", "3"]);
    let second = must_parse(&p, &["-c", "3"]);
    assert_eq!(
        first.get("count").unwrap().get_int().unwrap(),
        second.get("count").unwrap().get_int().unwrap(),
    );
}

#[test]
fn short_and_long_names_are_equivalent() {
    let mut p = ArgumentParser::new(None);
    p.add_argument("-x", "--xray", "", true, None, ArgumentType::INT);
    let by_short = must_parse(&p, &["-x", "5"]);
    let by_long = must_parse(&p, &["--xray", "5"]);
    assert_eq!(
        by_short.get("xray").unwrap().get_int().unwrap(),
        by_long.get("xray").unwrap().get_int().unwrap(),
    );
    assert_eq!(by_short.get("xray").unwrap().get_int().unwrap(), 5);
}

#[test]
fn short_name_takes_precedence_over_long() {
    let mut p = ArgumentParser::new(None);
    p.add_argument("-x", "--xray", "", true, None, ArgumentType::INT);
    let map = must_parse(&p, &["--xray", "2", "-x", "1"]);
    assert_eq!(map.get("xray").unwrap().get_int().unwrap(), 1);
}

#[test]
fn later_occurrence_of_a_key_overwrites_the_earlier() {
    let mut p = ArgumentParser::new(None);
    p.add_argument("-c", "--count", "", true, None, ArgumentType::INT);
    let map = must_parse(&p, &["-c", "1", "-c", "2"]);
    assert_eq!(map.get("count").unwrap().get_int().unwrap(), 2);
}

#[test]
fn positionals_resolve_by_position_not_registration_of_names() {
    let mut p = ArgumentParser::new(None);
    p.add_argument("", "a", "first", true, None, ArgumentType::INT);
    p.add_argument("-z", "--zulu", "named", false, None, ArgumentType::INT);
    p.add_argument("", "b", "second", true, None, ArgumentType::INT);
    let map = must_parse(&p, &["1", "2"]);
    assert_eq!(map.get("a").unwrap().get_int().unwrap(), 1);
    assert_eq!(map.get("b").unwrap().get_int().unwrap(), 2);
    assert_eq!(map.get("zulu").unwrap().get_int().unwrap(), 0);
}

#[test]
fn positional_may_carry_a_leading_dash_value_is_taken_verbatim() {
    let mut p = ArgumentParser::new(None);
    p.add_argument("", "delta", "", true, None, ArgumentType::INT);
    let map = must_parse(&p, &["-5"]);
    assert_eq!(map.get("delta").unwrap().get_int().unwrap(), -5);
}

#[test]
fn help_wins_even_when_a_positional_is_missing() {
    let mut p = ArgumentParser::new(None);
    p.add_argument("", "name", "", true, None, ArgumentType::STR);
    let r = p.parse_args(&argv(&["-h"]));
    assert!(matches!(r, Ok(ParseOutcome::Help)));
    let r2 = p.parse_args(&argv(&["--help"]));
    assert!(matches!(r2, Ok(ParseOutcome::Help)));
}

#[test]
fn too_few_tokens_for_positionals_is_a_fatal_error() {
    let mut p = ArgumentParser::new(None);
    p.add_argument("", "name", "", true, None, ArgumentType::STR);
    let r = p.parse_args(&argv(&[]));
    assert!(matches!(r, Err(ArgError::MissingPositional)));
}

#[test]
fn bare_value_where_an_option_was_expected_is_malformed() {
    let mut p = ArgumentParser::new(None);
    p.add_argument("-c", "--count", "", false, None, ArgumentType::INT);
    let r = p.parse_args(&argv(&["stray"]));
    assert!(matches!(r, Err(ArgError::MalformedToken(t)) if t == "stray"));
}

#[test]
fn unparsable_int_token_is_an_invalid_value() {
    let mut p = ArgumentParser::new(None);
    p.add_argument("-c", "--count", "", true, None, ArgumentType::INT);
    let r = p.parse_args(&argv(&["-c", "ten"]));
    assert!(matches!(r, Err(ArgError::InvalidValue(t)) if t == "ten"));
}

#[test]
fn unparsable_bool_token_is_an_invalid_value() {
    let mut p = ArgumentParser::new(None);
    p.add_argument("-f", "--flag", "", true, None, ArgumentType::BOOL);
    let r = p.parse_args(&argv(&["-f", "maybe"]));
    assert!(matches!(r, Err(ArgError::InvalidValue(t)) if t == "maybe"));
}

#[test]
fn flag_with_no_following_value_reads_true() {
    let mut p = ArgumentParser::new(None);
    p.add_argument("-f", "--flag", "", true, None, ArgumentType::BOOL);
    p.add_argument("-c", "--count", "", false, None, ArgumentType::INT);
    let map = must_parse(&p, &["--flag", "-c", "3"]);
    assert_eq!(map.get("flag").unwrap().get_bool().unwrap(), true);
    assert_eq!(map.get("count").unwrap().get_int().unwrap(), 3);
    let map2 = must_parse(&p, &["--flag"]);
    assert_eq!(map2.get("flag").unwrap().get_bool().unwrap(), true);
}

#[test]
fn only_leading_dashes_are_stripped_from_the_canonical_name() {
    let mut p = ArgumentParser::new(None);
    p.add_argument("-d", "--dry-run", "", true, None, ArgumentType::BOOL);
    let map = must_parse(&p, &["--dry-run"]);
    assert!(map.get("dry-run").is_some());
    assert!(map.get("dryrun").is_none());
    assert_eq!(map.get("dry-run").unwrap().get_bool().unwrap(), true);
}

#[test]
fn unknown_keys_resolve_nothing() {
    let mut p = ArgumentParser::new(None);
    p.add_argument("-c", "--count", "", true, None, ArgumentType::INT);
    let map = must_parse(&p, &["-c", "4", "--other", "9"]);
    assert_eq!(map.get("count").unwrap().get_int().unwrap(), 4);
    assert!(map.contains("count"));
    assert!(!map.contains("other"));
    assert!(map.get("other").is_none());
}

#[test]
fn int_boundaries_parse_and_overflow_is_invalid() {
    let mut p = ArgumentParser::new(None);
    p.add_argument("-c", "--count", "", true, None, ArgumentType::INT);
    let max = must_parse(&p, &["-c", "2147483647"]);
    assert_eq!(max.get("count").unwrap().get_int().unwrap(), i32::MAX);
    let plus = must_parse(&p, &["-c", "+17"]);
    assert_eq!(plus.get("count").unwrap().get_int().unwrap(), 17);
    let over = p.parse_args(&argv(&["-c", "2147483648"]));
    assert!(matches!(over, Err(ArgError::InvalidValue(_))));
    let sign_alone = p.parse_args(&argv(&["-c", "+"]));
    assert!(matches!(sign_alone, Err(ArgError::InvalidValue(_))));

    // A value that opens with a dash only comes in positionally: after an
    // option key such a token reads as the next key.
    let mut q = ArgumentParser::new(None);
    q.add_argument("", "count", "", true, None, ArgumentType::INT);
    let min = must_parse(&q, &["-2147483648"]);
    assert_eq!(min.get("count").unwrap().get_int().unwrap(), i32::MIN);
    let under = q.parse_args(&argv(&["-2147483649"]));
    assert!(matches!(under, Err(ArgError::InvalidValue(_))));
}

#[test]
fn dashed_value_after_a_key_reads_as_the_next_key() {
    let mut p = ArgumentParser::new(None);
    p.add_argument("-c", "--count", "", true, None, ArgumentType::INT);
    let r = p.parse_args(&argv(&["-c", "-42"]));
    assert!(matches!(r, Err(ArgError::InvalidValue(t)) if t == "true"));
}

#[test]
fn declaration_lists_and_description_are_readable() {
    let mut p = ArgumentParser::new(Some("my tool"));
    p.add_argument("-c", "--count", "how many", true, None, ArgumentType::INT);
    p.add_argument("-v", "--verbose", "say more", false, None, ArgumentType::BOOL);
    p.add_argument("", "name", "who", true, None, ArgumentType::STR);
    assert_eq!(p.description().as_str(), "my tool");
    assert_eq!(p.required_list().len(), 1);
    assert_eq!(p.required_list()[0].long_name().as_str(), "--count");
    assert_eq!(p.required_list()[0].short_name().as_str(), "-c");
    assert_eq!(p.required_list()[0].help().as_str(), "how many");
    assert!(p.required_list()[0].required());
    assert!(matches!(p.required_list()[0].dtype(), ArgumentType::INT));
    assert_eq!(p.optional_list().len(), 1);
    assert!(!p.optional_list()[0].required());
    assert_eq!(p.positional_list().len(), 1);
    assert_eq!(p.positional_list()[0].long_name().as_str(), "name");
}

#[test]
fn empty_input_with_no_declarations_resolves_an_empty_map() {
    let p = ArgumentParser::new(Some("nothing declared"));
    let map = must_parse(&p, &[]);
    assert!(map.get("anything").is_none());
}
