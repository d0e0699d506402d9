use kooforge::highlight::{highlight, try_highlight};
use kooforge::keystore::{plan_files, plan_write_key, plan_write_named_key, FileAction};
use kooforge::matching::Mode;
use kooforge::options::Args;
use kooforge::report::{
    fits_calendar, hit_line, stats_line, timestamp, Event, StatsReport, Step, Tally, TimestampError,
};
use kooforge::search::Hit;

const SECOND: i128 = 1_000_000_000;

fn plain_args() -> Args {
    Args {
        pattern: Some("abc".to_string()),
        mode: Mode::Any,
        threads: None,
        limit: Some(2),
        out: "keystore".to_string(),
        case_insensitive: false,
        case_sensitive: false,
        print_only: false,
        stats_interval: None,
        key_name: Some("dupa".to_string()),
        export_ipfs: false,
        interactive: false,
        no_color: false,
        extreme: false,
    }
}

fn hit(id: &str, key: Option<Vec<u8>>) -> Event {
    Event::Hit(Hit { peer_id_b58: id.to_string(), sk_protobuf: key })
}

/// An action in one line of text.
fn shown(action: &FileAction) -> String {
    match action {
        FileAction::Write { name, bytes } => format!("write {name} {bytes:?}"),
        FileAction::Rename { from, to } => format!("rename {from} {to}"),
        FileAction::Restrict { name } => format!("restrict {name}"),
        FileAction::Note { name, text } => format!("note {name} {text}"),
    }
}

fn all_shown(actions: &[FileAction]) -> Vec<String> {
    actions.iter().map(shown).collect()
}

#[test]
fn matches_are_marked() {
    assert_eq!(highlight("xxaByy", "aB", Mode::Any, false), "xx\x1b[1;32maB\x1b[0myy");
    assert_eq!(highlight("xxaByy", "Ab", Mode::Any, true), "xx\x1b[1;32maB\x1b[0myy");
    assert_eq!(highlight("xxaByy", "XX", Mode::Prefix, true), "\x1b[1;32mxx\x1b[0maByy");
    assert_eq!(highlight("xxaByy", "YY", Mode::Suffix, true), "xxaB\x1b[1;32myy\x1b[0m");
}

#[test]
fn the_first_match_is_marked() {
    assert_eq!(highlight("abab", "AB", Mode::Any, true), "\x1b[1;32mab\x1b[0mab");
    assert_eq!(highlight("ABab", "ab", Mode::Any, false), "AB\x1b[1;32mab\x1b[0m");
}

#[test]
fn nothing_is_marked_without_a_match() {
    assert_eq!(highlight("xxaByy", "ab", Mode::Any, false), "xxaByy");
    assert_eq!(highlight("a", "abc", Mode::Suffix, false), "a");
}

#[test]
fn marks_follow_the_lower_case_of_unicode() {
    assert_eq!(highlight("xÉy", "é", Mode::Any, true), "x\x1b[1;32mÉ\x1b[0my");
    assert_eq!(highlight("xÉy", "é", Mode::Any, false), "xÉy");
}

#[test]
fn marks_that_do_not_fit_are_refused() {
    assert_eq!(try_highlight("ab", "abc", Mode::Prefix, false), None);
    assert_eq!(try_highlight("éa", "x", Mode::Prefix, false), None);
    assert_eq!(try_highlight("aé", "x", Mode::Suffix, false), None);
    assert_eq!(
        try_highlight("ab", "a", Mode::Prefix, false),
        Some("\x1b[1;32ma\x1b[0mb".to_string())
    );
}

#[test]
fn marking_keeps_the_text() {
    for (needle, mode) in [("aB", Mode::Any), ("xx", Mode::Prefix), ("yy", Mode::Suffix)] {
        let marked = highlight("xxaByy", needle, mode, false);
        assert_eq!(marked.replace("\x1b[1;32m", "").replace("\x1b[0m", ""), "xxaByy");
    }
}

#[test]
fn lines_without_colour_are_plain() {
    assert_eq!(hit_line("abc", "b", Mode::Any, false, true), Some("abc".to_string()));
    assert_eq!(
        hit_line("abc", "b", Mode::Any, false, false),
        Some("a\x1b[1;32mb\x1b[0mc".to_string())
    );
    assert_eq!(hit_line("é", "b", Mode::Prefix, false, false), None);
}

#[test]
fn keys_are_stored_under_the_identifier() {
    let mut actions = Vec::new();
    plan_write_key(&mut actions, "ID", &vec![1, 2]);
    assert_eq!(
        all_shown(&actions),
        vec!["write ID.tmp [1, 2]", "rename ID.tmp ID", "restrict ID", "note ID-peerid.txt ID"]
    );
    plan_write_named_key(&mut actions, "dupa", &vec![3]);
    assert_eq!(
        all_shown(&actions)[4..],
        ["write dupa.tmp [3]", "rename dupa.tmp dupa", "restrict dupa"]
    );
}

#[test]
fn exported_keys_are_stored_twice() {
    let name = "dupa".to_string();
    assert_eq!(
        all_shown(&plan_files("ID", &vec![9], Some(&name))),
        vec![
            "write ID.tmp [9]",
            "rename ID.tmp ID",
            "restrict ID",
            "note ID-peerid.txt ID",
            "write dupa.tmp [9]",
            "rename dupa.tmp dupa",
            "restrict dupa",
        ]
    );
    assert_eq!(plan_files("ID", &vec![9], None).len(), 4);
}

#[test]
fn a_search_ends_with_the_last_hit() {
    let args = plain_args();
    let mut tally = Tally::new(0);
    match tally.on_event(hit("xabc", Some(vec![5])), &args, "abc", Some(2), true) {
        Step::Report { line, actions, last } => {
            assert_eq!(line, Some("x\x1b[1;32mabc\x1b[0m".to_string()));
            assert_eq!(actions.len(), 4);
            assert!(!last);
        }
        other => panic!("unexpected: {other:?}"),
    }
    match tally.on_event(hit("xABC", None), &args, "abc", Some(2), true) {
        Step::Report { line, actions, last } => {
            assert_eq!(line, Some("x\x1b[1;32mABC\x1b[0m".to_string()));
            assert!(actions.is_empty());
            assert!(last);
        }
        other => panic!("unexpected: {other:?}"),
    }
}

#[test]
fn a_search_without_limit_goes_on() {
    let args = plain_args();
    let mut tally = Tally::new(0);
    for _ in 0..50 {
        let step = tally.on_event(hit("abc", None), &args, "abc", None, true);
        assert!(matches!(step, Step::Report { last: false, .. }));
    }
    assert_eq!(tally.hit_count(), 50);
    assert_eq!(tally.reported_attempts(), 0);
    let report = tally.stats_due(SECOND, 1, 99).expect("report");
    assert_eq!(tally.reported_attempts(), 99);
    assert_eq!(report, StatsReport { hits: 50, processed: 99, attempts: 99, secs: 1 });
}

#[test]
fn exports_need_a_name_and_the_option() {
    let key = Some(vec![5]);
    let count = |args: &Args| match Tally::new(0).on_event(
        hit("abc", key.clone()),
        args,
        "abc",
        None,
        true,
    ) {
        Step::Report { actions, .. } => actions.len(),
        other => panic!("unexpected: {other:?}"),
    };
    let mut args = plain_args();
    assert_eq!(count(&args), 4);
    args.export_ipfs = true;
    assert_eq!(count(&args), 7);
    args.key_name = None;
    assert_eq!(count(&args), 4);
}

#[test]
fn lines_do_not_depend_on_the_key() {
    let args = plain_args();
    let line = |key: Option<Vec<u8>>| match Tally::new(0).on_event(
        hit("abc", key),
        &args,
        "abc",
        None,
        true,
    ) {
        Step::Report { line, .. } => line,
        other => panic!("unexpected: {other:?}"),
    };
    assert_eq!(line(Some(vec![1, 2, 3])), line(Some(vec![4])));
    assert_eq!(line(Some(vec![1, 2, 3])), line(None));
}

#[test]
fn other_events_count_nothing() {
    let args = plain_args();
    let mut tally = Tally::new(0);
    assert!(matches!(tally.on_event(Event::Timeout, &args, "abc", Some(1), true), Step::Wait));
    assert!(matches!(
        tally.on_event(Event::Disconnected, &args, "abc", Some(1), true),
        Step::Finish
    ));
    assert_eq!(tally.stats_due(SECOND, 1, 0).expect("report").hits, 0);
}

#[test]
fn reports_come_after_the_interval() {
    let start = 1_700_000_000 * SECOND;
    let mut tally = Tally::new(start);
    assert!(tally.stats_due(start + 2 * SECOND - 1, 2, 10).is_none());
    let report = tally.stats_due(start + 2 * SECOND, 2, 10).expect("report");
    assert_eq!(report, StatsReport { hits: 0, processed: 10, attempts: 10, secs: 2 });
    assert!(tally.stats_due(start + 3 * SECOND, 2, 15).is_none());
    let report = tally.stats_due(start + 7 * SECOND, 2, 25).expect("report");
    assert_eq!(report, StatsReport { hits: 0, processed: 25, attempts: 15, secs: 5 });
}

#[test]
fn reports_can_be_turned_off() {
    let mut tally = Tally::new(0);
    assert!(tally.stats_due(1_000_000 * SECOND, 0, 5).is_none());
}

#[test]
fn reports_at_odd_times() {
    let mut tally = Tally::new(5 * SECOND);
    assert!(tally.stats_due(0, 1, 5).is_none());
    assert!(tally.stats_due(3 * SECOND + 1, u64::MAX, 5).is_none());
    assert!(tally.stats_due(5 * SECOND, u64::MAX, 5).is_none());
    assert!(tally.stats_due(900 * SECOND, i64::MAX as u64 + 1, 5).is_none());
    assert!(tally.stats_due(900 * SECOND, 896, 5).is_none());
    let report = tally.stats_due(900 * SECOND, 895, 5).expect("report");
    assert_eq!(report, StatsReport { hits: 0, processed: 5, attempts: 5, secs: 895 });
}

#[test]
fn times_are_written_as_rfc_3339() {
    assert_eq!(timestamp(0), Ok("1970-01-01T00:00:00Z".to_string()));
    assert_eq!(
        timestamp(1_700_000_000 * SECOND + 120_000_000),
        Ok("2023-11-14T22:13:20.12Z".to_string())
    );
    assert_eq!(timestamp(-62_167_219_200 * SECOND), Ok("0000-01-01T00:00:00Z".to_string()));
    assert_eq!(timestamp(-62_167_219_200 * SECOND - 1), Err(TimestampError));
}

#[test]
fn times_lie_within_the_calendar() {
    assert!(fits_calendar(0));
    assert!(fits_calendar(253_402_300_800 * SECOND - 1));
    assert!(!fits_calendar(253_402_300_800 * SECOND));
    assert!(fits_calendar(-377_705_116_800 * SECOND));
    assert!(!fits_calendar(-377_705_116_800 * SECOND - 1));
}

#[test]
fn report_lines() {
    let report = StatsReport { hits: 3, processed: 1200, attempts: 600, secs: 2 };
    assert_eq!(
        stats_line("2023-11-14T22:13:20Z", &report, "300", 8, Mode::Prefix),
        "[stats 统计 2023-11-14T22:13:20Z] hits/命中=3, processed/已处理=1200, rate/效率=300/s, \
         threads/线程=8, mode/模式=Prefix"
    );
    assert!(stats_line("", &report, "0", 1, Mode::Any).ends_with("=Any"));
    assert!(stats_line("", &report, "0", 1, Mode::Suffix).ends_with("=Suffix"));
}
