use kooforge::command::{build_command, build_equivalent_command, mode_as_str, shell_quote};
use kooforge::matching::Mode;
use kooforge::options::{parse_limit_answer, resolve_effective_limit, Args};

fn base_args() -> Args {
    Args {
        pattern: Some("12D3KooWabc".to_string()),
        mode: Mode::Prefix,
        threads: Some(8),
        limit: Some(0),
        out: "keystore dir".to_string(),
        case_insensitive: false,
        case_sensitive: true,
        print_only: true,
        stats_interval: Some(1),
        key_name: Some("dupa key".to_string()),
        export_ipfs: true,
        interactive: false,
        no_color: true,
        extreme: false,
    }
}

#[test]
fn build_command_prints_unlimited_as_zero() {
    let args = base_args();
    let cmd = build_equivalent_command(&args);
    assert!(cmd.contains("kooforge 12D3KooWabc"));
    assert!(cmd.contains("--limit 0"));
    assert!(cmd.contains("--case-sensitive"));
    assert!(cmd.contains("--key-name 'dupa key'"));
    assert!(cmd.contains("--stats-interval 1"));
}

#[test]
fn build_command_prints_extreme_flag() {
    let mut args = base_args();
    args.extreme = true;
    args.stats_interval = None;
    let cmd = build_equivalent_command(&args);
    assert!(cmd.contains("--extreme"));
    assert!(cmd.contains("--stats-interval 1"));
}

#[test]
fn whole_command_lines() {
    let mut args = base_args();
    assert_eq!(
        build_equivalent_command(&args),
        "kooforge 12D3KooWabc --mode prefix --threads 8 --limit 0 --out 'keystore dir' \
         --case-sensitive --print-only --export-ipfs --key-name 'dupa key' --no-color \
         --stats-interval 1"
    );
    args.mode = Mode::Any;
    args.limit = None;
    args.out = "keystore".to_string();
    args.case_sensitive = false;
    args.print_only = false;
    args.export_ipfs = false;
    args.no_color = false;
    args.stats_interval = None;
    assert_eq!(
        build_command(&args, 12),
        "kooforge 12D3KooWabc --mode any --threads 12 --limit 10 --out keystore \
         --case-insensitive --stats-interval 2"
    );
    args.export_ipfs = true;
    args.key_name = None;
    args.limit = Some(305);
    assert_eq!(
        build_command(&args, 0),
        "kooforge 12D3KooWabc --mode any --threads 0 --limit 305 --out keystore \
         --case-insensitive --export-ipfs --stats-interval 2"
    );
}

#[test]
fn equivalent_command_fills_in_the_threads() {
    let mut args = base_args();
    args.threads = None;
    let expected = format!("--threads {} --limit", num_cpus::get());
    assert!(build_equivalent_command(&args).contains(&expected));
}

#[test]
fn words_are_quoted_where_needed() {
    assert_eq!(shell_quote(""), "''");
    assert_eq!(shell_quote("a-Z_0.9/x"), "a-Z_0.9/x");
    assert_eq!(shell_quote("dupa key"), "'dupa key'");
    assert_eq!(shell_quote("it's"), "'it'\"'\"'s'");
    assert_eq!(shell_quote("$HOME"), "'$HOME'");
    assert_eq!(shell_quote("é"), "'é'");
}

#[test]
fn mode_names() {
    assert_eq!(mode_as_str(Mode::Any), "any");
    assert_eq!(mode_as_str(Mode::Prefix), "prefix");
    assert_eq!(mode_as_str(Mode::Suffix), "suffix");
}

#[test]
fn the_command_says_what_counts() {
    let mut args = base_args();
    args.out = "keystore".to_string();
    for limit in [None, Some(0), Some(1), Some(7305)] {
        args.limit = limit;
        let line = build_command(&args, 16);
        let words: Vec<&str> = line.split(' ').collect();
        assert_eq!(words[1], "12D3KooWabc");
        assert_eq!(words[3], "prefix");
        assert_eq!(parse_limit_answer(words[5]), Ok(Some(16)));
        let printed = parse_limit_answer(words[7]).expect("number");
        assert_eq!(resolve_effective_limit(printed), resolve_effective_limit(limit));
        assert_eq!(words[9], "keystore");
        assert_eq!(words[10], "--case-sensitive");
        assert_eq!(words[words.len() - 1], "1");
    }
}

#[test]
fn every_flag_is_read_back() {
    for bits in 0..32u8 {
        let mut args = base_args();
        args.print_only = bits & 1 != 0;
        args.export_ipfs = bits & 2 != 0;
        args.no_color = bits & 4 != 0;
        args.extreme = bits & 8 != 0;
        args.key_name = if bits & 16 != 0 { Some("dupa".to_string()) } else { None };
        let line = build_command(&args, 4);
        let words: Vec<&str> = line.split(' ').collect();
        assert_eq!(words.contains(&"--print-only"), args.print_only);
        assert_eq!(words.contains(&"--export-ipfs"), args.export_ipfs);
        assert_eq!(words.contains(&"--no-color"), args.no_color);
        assert_eq!(words.contains(&"--extreme"), args.extreme);
        let named = words.iter().position(|word| *word == "--key-name").map(|i| words[i + 1]);
        let expected = if args.export_ipfs { args.key_name.as_deref() } else { None };
        assert_eq!(named, expected);
    }
}
