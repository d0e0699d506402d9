use kooforge::matching::Mode;
use kooforge::options::{
    effective_case_insensitive, guided_defaults, interactive_args, mode_from_index, mode_index, parse_limit_answer,
    preprocess_args, resolve_effective_limit, resolve_stats_interval, resolve_threads,
    validate_pattern_input, Answers, Args, ArgsError, NumberError,
};

fn base_args() -> Args {
    Args {
        pattern: Some("12D3KooWabc".to_string()),
        mode: Mode::Prefix,
        threads: Some(8),
        limit: Some(0),
        out: "keystore dir".to_string(),
        case_insensitive: false,
        case_sensitive: true,
        print_only: true,
        stats_interval: Some(1),
        key_name: Some("dupa key".to_string()),
        export_ipfs: true,
        interactive: false,
        no_color: true,
        extreme: false,
    }
}

#[test]
fn resolve_limit_semantics() {
    assert_eq!(resolve_effective_limit(None), Some(10));
    assert_eq!(resolve_effective_limit(Some(0)), None);
    assert_eq!(resolve_effective_limit(Some(5)), Some(5));
}

#[test]
fn resolve_stats_interval_semantics() {
    assert_eq!(resolve_stats_interval(None, false), 2);
    assert_eq!(resolve_stats_interval(None, true), 1);
    assert_eq!(resolve_stats_interval(Some(7), false), 7);
    assert_eq!(resolve_stats_interval(Some(7), true), 7);
}

#[test]
fn preprocess_extreme_forces_case_sensitive() {
    let mut args = base_args();
    args.extreme = true;
    args.case_insensitive = true;
    args.case_sensitive = false;
    args.stats_interval = None;
    let mut notices = Vec::new();
    preprocess_args(&mut args, &mut notices).expect("preprocess must pass");

    assert!(args.case_sensitive);
    assert!(!args.case_insensitive);
    assert_eq!(args.stats_interval, Some(1));
    assert_eq!(
        notices,
        vec!["Extreme mode ignores --case-insensitive and forces case-sensitive matching · 极致模式会忽略 --case-insensitive 并强制大小写敏感匹配".to_string()]
    );
}

#[test]
fn preprocess_completes_a_prefix_and_says_so() {
    let mut args = base_args();
    args.pattern = Some(" 12 ".to_string());
    let mut notices = vec!["before".to_string()];
    preprocess_args(&mut args, &mut notices).expect("preprocess must pass");
    assert_eq!(args.pattern.as_deref(), Some("12D3KooW"));
    assert_eq!(
        notices,
        vec![
            "before".to_string(),
            "Prefix mode requires pattern to start with 12D3KooW; auto-completed · 前缀匹配要求以 12D3KooW 开头，已自动补齐: '12' -> '12D3KooW'".to_string(),
        ]
    );

    let mut again = Vec::new();
    preprocess_args(&mut args, &mut again).expect("preprocess must pass");
    assert_eq!(args.pattern.as_deref(), Some("12D3KooW"));
    assert!(again.is_empty());
}

#[test]
fn preprocess_leaves_other_modes_alone() {
    for mode in [Mode::Any, Mode::Suffix] {
        let mut args = base_args();
        args.mode = mode;
        args.pattern = Some("\u{3000}KoYw\n".to_string());
        args.stats_interval = None;
        let mut notices = Vec::new();
        preprocess_args(&mut args, &mut notices).expect("preprocess must pass");
        assert_eq!(args.pattern.as_deref(), Some("KoYw"));
        assert_eq!(args.stats_interval, Some(2));
        assert!(notices.is_empty());
    }
}

#[test]
fn preprocess_refuses_bad_patterns() {
    let mut notices = Vec::new();

    let mut args = base_args();
    args.pattern = None;
    let err = preprocess_args(&mut args, &mut notices).unwrap_err();
    assert!(matches!(err, ArgsError::PatternRequired));
    assert_eq!(err.message(), "pattern required · 需要提供匹配子串");

    let mut args = base_args();
    args.pattern = Some(" \t ".to_string());
    let err = preprocess_args(&mut args, &mut notices).unwrap_err();
    assert!(matches!(err, ArgsError::PatternEmpty));
    assert_eq!(err.message(), "Pattern cannot be empty · 匹配子串不能为空");
    assert_eq!(args.pattern.as_deref(), Some(" \t "));

    let mut args = base_args();
    args.pattern = Some(" a0 ".to_string());
    let err = preprocess_args(&mut args, &mut notices).unwrap_err();
    assert!(err.message().starts_with("Invalid Base58 pattern: illegal character(s) '0' ·"));
    match err {
        ArgsError::Invalid(inner) => assert_eq!(inner.illegal, vec!['0']),
        other => panic!("unexpected: {other:?}"),
    }
    assert_eq!(args.pattern.as_deref(), Some(" a0 "));
    assert!(notices.is_empty());
}

#[test]
fn typed_patterns_are_checked_without_white_space() {
    assert!(validate_pattern_input("  abc ").is_ok());
    assert!(matches!(validate_pattern_input(""), Err(ArgsError::PatternEmpty)));
    assert!(matches!(validate_pattern_input(" a b "), Err(ArgsError::Invalid(_))));
}

#[test]
fn case_is_ignored_unless_asked_otherwise() {
    let mut args = base_args();
    assert!(!effective_case_insensitive(&args));
    args.case_insensitive = true;
    assert!(!effective_case_insensitive(&args));
    args.case_sensitive = false;
    assert!(effective_case_insensitive(&args));
    args.case_insensitive = false;
    assert!(effective_case_insensitive(&args));
}

#[test]
fn threads_default_to_the_processors() {
    assert_eq!(resolve_threads(Some(3)), 3);
    assert_eq!(resolve_threads(Some(0)), 0);
    assert_eq!(resolve_threads(None), num_cpus::get());
}

#[test]
fn modes_and_their_positions() {
    for mode in [Mode::Any, Mode::Prefix, Mode::Suffix] {
        assert_eq!(mode_from_index(mode_index(mode)), mode);
    }
    assert_eq!(mode_index(Mode::Suffix), 2);
    assert_eq!(mode_from_index(17), Mode::Suffix);
}

#[test]
fn typed_limits() {
    assert_eq!(parse_limit_answer(""), Ok(None));
    assert_eq!(parse_limit_answer(" \u{a0}\n"), Ok(None));
    assert_eq!(parse_limit_answer("0"), Ok(Some(0)));
    assert_eq!(parse_limit_answer(" 007 "), Ok(Some(7)));
    assert_eq!(parse_limit_answer("+12"), Ok(Some(12)));
    assert_eq!(parse_limit_answer(&usize::MAX.to_string()), Ok(Some(usize::MAX)));
    assert_eq!(parse_limit_answer("340282366920938463463374607431768211456"), Err(NumberError::TooLarge));
    assert_eq!(parse_limit_answer("340282366920938463463374607431768211456x"), Err(NumberError::TooLarge));
    for bad in ["x", "-1", "+", "++1", "1 2", "1.5", "１"] {
        assert_eq!(parse_limit_answer(bad), Err(NumberError::InvalidDigit));
    }
}

#[test]
fn typed_limits_agree_with_the_standard_library() {
    for text in ["0", "+1", "18446744073709551615", "18446744073709551616", "", "+", "-0", "1_0", "9e9", "99999999999999999999x"] {
        let expected = text.parse::<usize>();
        match parse_limit_answer(text) {
            Ok(Some(n)) => assert_eq!(expected, Ok(n)),
            Ok(None) => assert_eq!(text, ""),
            Err(e) => assert_eq!(expected.unwrap_err().to_string(), e.message()),
        }
    }
}

#[test]
fn number_errors_have_messages() {
    assert_eq!(NumberError::InvalidDigit.message(), "invalid digit found in string");
    assert_eq!(NumberError::TooLarge.message(), "number too large to fit in target type");
}

#[test]
fn answers_become_options() {
    let answers = Answers {
        pattern: " abc ".to_string(),
        mode: Mode::Suffix,
        threads: 4,
        limit: None,
        out: "keys".to_string(),
        case_insensitive: false,
        extreme: true,
        print_only: true,
        stats_interval: 0,
        export_ipfs: false,
        key_name: Some("unused".to_string()),
        use_color: false,
    };
    let args = interactive_args(answers);
    assert_eq!(args.pattern.as_deref(), Some("abc"));
    assert_eq!(args.mode, Mode::Suffix);
    assert_eq!(args.threads, Some(4));
    assert_eq!(args.limit, None);
    assert_eq!(args.out, "keys");
    assert!(!args.case_insensitive && args.case_sensitive);
    assert!(args.print_only && args.extreme && args.no_color);
    assert_eq!(args.stats_interval, Some(0));
    assert!(!args.export_ipfs && !args.interactive);
    assert_eq!(args.key_name, None);
}

#[test]
fn the_dialogue_offers_the_options_given() {
    let mut base = base_args();
    let offered = guided_defaults(&base);
    assert_eq!(offered.mode, 1);
    assert_eq!(offered.threads, 8);
    assert_eq!(offered.out, "keystore dir");
    assert!(!offered.case_insensitive && !offered.extreme && !offered.use_color);
    assert!(offered.print_only && offered.export_ipfs);

    base.threads = None;
    base.case_sensitive = false;
    base.extreme = true;
    base.print_only = false;
    base.export_ipfs = false;
    base.no_color = false;
    let offered = guided_defaults(&base);
    assert_eq!(offered.threads, num_cpus::get());
    assert!(offered.case_insensitive && offered.extreme && offered.use_color);
    assert!(!offered.print_only && !offered.export_ipfs);
}

#[test]
fn white_space_is_that_of_unicode() {
    for c in (0u32..=0x3100).filter_map(char::from_u32) {
        if c.is_ascii_alphanumeric() {
            continue;
        }
        let passes = validate_pattern_input(&format!("{c}a{c}")).is_ok();
        assert_eq!(passes, c.is_whitespace(), "{c:?}");
    }
}
