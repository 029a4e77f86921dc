use cmd_arg::{determine_opt_type, join_args, parse_values, trim_str, Command, OptionType};

fn tokens(items: &[&str]) -> Vec<String> {
    items.iter().map(|s| s.to_string()).collect()
}

fn entry(c: &Command, i: usize) -> (OptionType, &str, Vec<&str>) {
    let o = &c.opts[i];
    (o.opt_type, o.opt_str.as_str(), o.opt_values.iter().map(|v| v.as_str()).collect())
}

#[test]
fn full_command_line() {
    let c = Command::from_args(&tokens(&[
        "prog",
        "-iv",
        "file.txt",
        "--data=apple, banana",
        "--verbose",
        "--",
        "pos1",
        "--pos-flag",
    ]));
    assert_eq!(c.cmd_name, "prog");
    assert_eq!(c.opts.len(), 5);
    assert_eq!(entry(&c, 0), (OptionType::ShortOpt, "-i", vec![]));
    assert_eq!(entry(&c, 1), (OptionType::ShortOpt, "-v", vec![]));
    assert_eq!(entry(&c, 2), (OptionType::Simple, "file.txt", vec![]));
    assert_eq!(entry(&c, 3), (OptionType::LongOpt, "--data", vec!["apple", "banana"]));
    assert_eq!(entry(&c, 4), (OptionType::LongOpt, "--verbose", vec![]));
    assert_eq!(c.args, vec!["pos1", "--pos-flag"]);
}

#[test]
fn single_hyphen() {
    let c = Command::from_args(&tokens(&["prog", "-"]));
    assert_eq!(c.opts.len(), 1);
    assert_eq!(entry(&c, 0), (OptionType::Simple, "-", vec![]));
    assert!(c.args.is_empty());
}

#[test]
fn program_name_only() {
    let c = Command::from_args(&tokens(&["prog"]));
    assert_eq!(c.cmd_name, "prog");
    assert!(c.opts.is_empty());
    assert!(c.args.is_empty());
}

#[test]
fn no_tokens() {
    let c = Command::from_args(&tokens(&[]));
    assert_eq!(c.cmd_name, "");
    assert!(c.opts.is_empty());
    assert!(c.args.is_empty());
}

#[test]
fn long_option_with_empty_value() {
    let c = Command::from_args(&tokens(&["prog", "--flag="]));
    assert_eq!(c.opts.len(), 1);
    assert_eq!(entry(&c, 0), (OptionType::LongOpt, "--flag", vec![]));
}

#[test]
fn second_separator_is_verbatim() {
    let c = Command::from_args(&tokens(&["prog", "--", "--"]));
    assert!(c.opts.is_empty());
    assert_eq!(c.args, vec!["--"]);
}

#[test]
fn separator_as_last_token_leaves_no_arguments() {
    let c = Command::from_args(&tokens(&["prog", "a", "--"]));
    assert_eq!(c.opts.len(), 1);
    assert!(c.args.is_empty());
}

#[test]
fn arguments_only_after_a_separator() {
    let without = Command::from_args(&tokens(&["prog", "a", "-b", "--c"]));
    assert!(without.args.is_empty());
    let with = Command::from_args(&tokens(&["prog", "a", "--", "-b"]));
    assert_eq!(with.args, vec!["-b"]);
}

#[test]
fn program_name_is_never_the_separator() {
    let c = Command::from_args(&tokens(&["--", "x"]));
    assert_eq!(c.cmd_name, "--");
    assert_eq!(entry(&c, 0), (OptionType::Simple, "x", vec![]));
    assert!(c.args.is_empty());
}

#[test]
fn bundled_short_options() {
    let c = Command::from_args(&tokens(&["prog", "-abc"]));
    assert_eq!(c.opts.len(), 3);
    assert_eq!(entry(&c, 0), (OptionType::ShortOpt, "-a", vec![]));
    assert_eq!(entry(&c, 1), (OptionType::ShortOpt, "-b", vec![]));
    assert_eq!(entry(&c, 2), (OptionType::ShortOpt, "-c", vec![]));
}

#[test]
fn bundled_repeated_characters_are_kept() {
    let c = Command::from_args(&tokens(&["prog", "-aa"]));
    assert_eq!(c.opts.len(), 2);
    assert_eq!(entry(&c, 0), (OptionType::ShortOpt, "-a", vec![]));
    assert_eq!(entry(&c, 1), (OptionType::ShortOpt, "-a", vec![]));
}

#[test]
fn bundled_non_ascii_characters() {
    let c = Command::from_args(&tokens(&["prog", "-éx"]));
    assert_eq!(c.opts.len(), 2);
    assert_eq!(entry(&c, 0), (OptionType::ShortOpt, "-é", vec![]));
    assert_eq!(entry(&c, 1), (OptionType::ShortOpt, "-x", vec![]));
}

#[test]
fn long_option_splits_at_first_equals() {
    let c = Command::from_args(&tokens(&["prog", "--k=a=b, c"]));
    assert_eq!(entry(&c, 0), (OptionType::LongOpt, "--k", vec!["a=b", "c"]));
}

#[test]
fn long_option_without_value() {
    let c = Command::from_args(&tokens(&["prog", "--help"]));
    assert_eq!(entry(&c, 0), (OptionType::LongOpt, "--help", vec![]));
}

#[test]
fn long_option_of_hyphens_and_value() {
    let c = Command::from_args(&tokens(&["prog", "--=x", "---"]));
    assert_eq!(entry(&c, 0), (OptionType::LongOpt, "--", vec!["x"]));
    assert_eq!(entry(&c, 1), (OptionType::LongOpt, "---", vec![]));
    assert!(c.args.is_empty());
}

#[test]
fn empty_token_is_simple() {
    let c = Command::from_args(&tokens(&["prog", ""]));
    assert_eq!(entry(&c, 0), (OptionType::Simple, "", vec![]));
}

#[test]
fn classification_by_form() {
    assert_eq!(determine_opt_type("file.txt"), OptionType::Simple);
    assert_eq!(determine_opt_type("-v"), OptionType::ShortOpt);
    assert_eq!(determine_opt_type("-abc"), OptionType::ShortOpt);
    assert_eq!(determine_opt_type("--verbose"), OptionType::LongOpt);
    assert_eq!(determine_opt_type("--"), OptionType::LongOpt);
    assert_eq!(determine_opt_type("-"), OptionType::Simple);
    assert_eq!(determine_opt_type(""), OptionType::Simple);
    assert_eq!(determine_opt_type("a-b"), OptionType::Simple);
}

#[test]
fn classification_ignores_position() {
    let first = Command::from_args(&tokens(&["prog", "-x", "y"]));
    let second = Command::from_args(&tokens(&["prog", "y", "-x"]));
    assert_eq!(entry(&first, 0), entry(&second, 1));
    assert_eq!(entry(&first, 1), entry(&second, 0));
}

#[test]
fn value_lists() {
    assert_eq!(parse_values("v1,v2"), vec!["v1", "v2"]);
    assert_eq!(parse_values("v1, v2, "), vec!["v1", "v2"]);
    assert_eq!(parse_values(""), Vec::<String>::new());
    assert_eq!(parse_values(",,"), Vec::<String>::new());
    assert_eq!(parse_values(" a b ,\t c\n"), vec!["a b", "c"]);
    assert_eq!(parse_values("x,\u{3000}y\u{a0}"), vec!["x", "y"]);
}

#[test]
fn value_list_round_trip() {
    let values = vec!["apple", "banana", "cherry"];
    assert_eq!(parse_values(&values.join(",")), values);
    let c = Command::from_args(&tokens(&["prog", "--fruit=apple,banana,cherry"]));
    assert_eq!(entry(&c, 0), (OptionType::LongOpt, "--fruit", values));
}

#[test]
fn trimming() {
    assert_eq!(trim_str("  a b  "), "a b");
    assert_eq!(trim_str(" \t\n"), "");
    assert_eq!(trim_str("x"), "x");
    assert_eq!(trim_str("\u{2003}x\u{205f}"), "x");
}

#[test]
fn joined_command_line() {
    assert_eq!(join_args(&tokens(&["program", "-v", "file.txt"])), "program -v file.txt");
    assert_eq!(join_args(&tokens(&["prog"])), "prog");
    assert_eq!(join_args(&tokens(&[])), "");
    assert_eq!(join_args(&tokens(&["a", "", "b"])), "a  b");
}

#[test]
fn defaults_are_empty() {
    assert_eq!(OptionType::default(), OptionType::Simple);
    let o = cmd_arg::Option::default();
    assert_eq!(o.opt_type, OptionType::Simple);
    assert!(o.opt_str.is_empty());
    assert!(o.opt_values.is_empty());
    let c = Command::default();
    assert!(c.cmd_name.is_empty() && c.opts.is_empty() && c.args.is_empty());
}

#[test]
fn building_by_hand() {
    let mut c = Command::new("tool".to_string());
    assert_eq!(c.cmd_name, "tool");
    c.add_opt(cmd_arg::Option {
        opt_type: OptionType::LongOpt,
        opt_str: "--x".to_string(),
        opt_values: vec!["1".to_string()],
    });
    assert_eq!(entry(&c, 0), (OptionType::LongOpt, "--x", vec!["1"]));
    assert!(c.args.is_empty());
}

#[test]
fn kind_labels() {
    assert_eq!(OptionType::Simple.label(), "Simple");
    assert_eq!(OptionType::ShortOpt.label(), "Short Option");
    assert_eq!(OptionType::LongOpt.label(), "Long Option");
}
