use log_parser::accumulator::SimilarityAccumulator;
use log_parser::config::{is_compressed, is_log_file, Config, ConfigError, InputSelection};
use log_parser::filters::Filters;
use log_parser::pipeline::{accepts, process_line, FileState, LineOutcome};
use log_parser::report::{report_order, to_thousandths};
use log_parser::similarity::{greater_than, similarity, Fraction};
use log_parser::accumulator::choose_group;
use log_parser::timestamp::{parse_instant, TimestampExtractor};

fn config(count_mode: bool, threshold: Option<Fraction>) -> Config {
    Config {
        exclude_trace: false,
        start_date: None,
        end_date: None,
        directory_mode: None,
        current_directory_mode: false,
        similarity_threshold: threshold,
        search: None,
        use_filter_file: false,
        file_path: None,
        filter_file_path: None,
        count_mode,
    }
}

const SCENARIO: [&str; 3] = [
    "[2023-02-19T02:00:00+00:00] Error A",
    "[2023-02-19T02:30:00+00:00] Error A variant",
    "[2023-02-19T04:00:00+00:00] Error B",
];

fn run(cfg: &Config, filters: Option<&Filters>, lines: &[&str]) -> (Vec<LineOutcome>, FileState) {
    let x = TimestampExtractor::new().unwrap();
    let mut state = FileState::new(cfg);
    let mut out = Vec::new();
    for line in lines {
        out.push(process_line(cfg, filters, &x, &mut state, line));
    }
    (out, state)
}

#[test]
fn count_mode_groups_similar_messages() {
    let cfg = config(true, Some(Fraction::new(4, 5)));
    let (out, state) = run(&cfg, None, &SCENARIO);
    assert_eq!(out, vec![LineOutcome::Counted, LineOutcome::Counted, LineOutcome::Counted]);
    let groups = state.accumulator().groups();
    assert_eq!(groups.len(), 2);
    // " Error A" and " Error A variant" score 8/16, below the threshold;
    // " Error B" scores 7/8 against " Error A" and joins it.
    assert_eq!(groups[0].key, " Error A");
    assert_eq!(groups[0].count, 2);
    assert_eq!((groups[0].similarity.num, groups[0].similarity.den), (7, 8));
    assert_eq!(groups[1].key, " Error A variant");
    assert_eq!(groups[1].count, 1);
    assert_eq!((groups[1].similarity.num, groups[1].similarity.den), (1, 1));
    assert_eq!(report_order(state.accumulator()), vec![0, 1]);
    assert_eq!(state.counted(), 3);
}

#[test]
fn start_bound_keeps_only_later_lines() {
    let mut cfg = config(false, Some(Fraction::new(4, 5)));
    cfg.start_date = parse_instant("2023-02-19T03:00:00+00:00");
    assert_eq!(cfg.start_date, Some(1676775600));
    let (out, _) = run(&cfg, None, &SCENARIO);
    assert_eq!(out, vec![LineOutcome::Rejected, LineOutcome::Rejected, LineOutcome::Emitted]);
}

#[test]
fn end_bound_drops_later_lines() {
    let mut cfg = config(false, None);
    cfg.end_date = parse_instant("2023-02-19T02:30:00+00:00");
    let (out, _) = run(&cfg, None, &SCENARIO);
    assert_eq!(out, vec![LineOutcome::Emitted, LineOutcome::Emitted, LineOutcome::Rejected]);
}

#[test]
fn noise_filter_drops_line_before_counting() {
    let cfg = config(true, Some(Fraction::new(4, 5)));
    let filters = Filters::new(vec!["DEBUG".to_string()]);
    let lines = ["[2023-02-19T02:00:00+00:00] DEBUG heartbeat", "[2023-02-19T02:00:01+00:00] Error A"];
    let (out, state) = run(&cfg, Some(&filters), &lines);
    assert_eq!(out, vec![LineOutcome::Rejected, LineOutcome::Counted]);
    let groups = state.accumulator().groups();
    assert_eq!(groups.len(), 1);
    assert_eq!(groups[0].key, " Error A");
    let stream = config(false, None);
    let (out, _) = run(&stream, Some(&filters), &lines);
    assert_eq!(out, vec![LineOutcome::Rejected, LineOutcome::Emitted]);
}

#[test]
fn untimed_line_passes_date_bounds() {
    let x = TimestampExtractor::new().unwrap();
    let line = "no timestamp here";
    assert_eq!(x.extract(line), None);
    let mut cfg = config(false, None);
    cfg.start_date = Some(1676775600);
    cfg.end_date = Some(1676775601);
    assert!(accepts(&cfg, None, line, x.extract(line)));
    assert!(!accepts(&cfg, None, line, Some(1676775599)));
    assert!(!accepts(&cfg, None, line, Some(1676775602)));
    assert!(accepts(&cfg, None, line, Some(1676775600)));
}

#[test]
fn unparseable_token_is_unknown_time() {
    let x = TimestampExtractor::new().unwrap();
    assert_eq!(x.extract("[worker-3] started"), None);
    assert_eq!(x.extract("[2023-02-19T02:00:00+00:00] Error A"), Some(1676772000));
    assert_eq!(x.extract("x [2023-02-19T02:00:00+01:00] y [z]"), Some(1676768400));
}

#[test]
fn normalize_removes_every_token() {
    let x = TimestampExtractor::new().unwrap();
    assert_eq!(x.normalize("[a] x [b] y"), " x  y");
    assert_eq!(x.normalize("open [ only"), "open [ only");
    assert_eq!(x.normalize("[a[b] c]"), " c]");
}

#[test]
fn search_keeps_matching_lines() {
    let mut cfg = config(false, None);
    cfg.search = Some("variant".to_string());
    let (out, _) = run(&cfg, None, &SCENARIO);
    assert_eq!(out, vec![LineOutcome::Rejected, LineOutcome::Emitted, LineOutcome::Rejected]);
}

#[test]
fn trace_span_suppressed_when_excluded() {
    let mut cfg = config(false, None);
    cfg.exclude_trace = true;
    let lines = ["before", "Stack trace:", "#0 handler", "#1 {main}", "after", "Next Exception", "{main}", "", "last"];
    let (out, _) = run(&cfg, None, &lines);
    assert_eq!(
        out,
        vec![
            LineOutcome::Emitted,
            LineOutcome::Suppressed,
            LineOutcome::Suppressed,
            LineOutcome::Suppressed,
            LineOutcome::Emitted,
            LineOutcome::Suppressed,
            LineOutcome::Suppressed,
            LineOutcome::Blank,
            LineOutcome::Emitted,
        ]
    );
    cfg.exclude_trace = false;
    let (out, _) = run(&cfg, None, &lines);
    assert_eq!(out[1], LineOutcome::Emitted);
    assert_eq!(out[2], LineOutcome::Emitted);
    assert_eq!(out[5], LineOutcome::Emitted);
}

#[test]
fn same_message_twice_makes_one_group() {
    let mut acc = SimilarityAccumulator::new(Some(Fraction::new(1, 10)));
    acc.ingest("disk full".to_string());
    acc.ingest("disk full".to_string());
    let groups = acc.groups();
    assert_eq!(groups.len(), 1);
    assert_eq!(groups[0].count, 2);
    assert_eq!((groups[0].similarity.num, groups[0].similarity.den), (1, 1));
}

#[test]
fn score_equal_to_threshold_does_not_merge() {
    assert_eq!(choose_group(&vec![Fraction::new(4, 5)], Fraction::new(4, 5)), None);
    assert_eq!(choose_group(&vec![Fraction::new(8, 10)], Fraction::new(4, 5)), None);
    assert_eq!(choose_group(&vec![Fraction::new(81, 100)], Fraction::new(4, 5)), Some(0));
    let mut acc = SimilarityAccumulator::new(Some(Fraction::new(4, 5)));
    acc.ingest("abcde".to_string());
    acc.ingest("abcdX".to_string());
    assert_eq!(acc.groups().len(), 2);
    assert_eq!(acc.groups()[1].count, 1);
}

#[test]
fn best_group_first_on_tie() {
    let t = Fraction::new(1, 2);
    let scores = vec![Fraction::new(1, 4), Fraction::new(3, 4), Fraction::new(6, 8), Fraction::new(7, 10)];
    assert_eq!(choose_group(&scores, t), Some(1));
    assert_eq!(choose_group(&vec![], t), None);
}

#[test]
fn exact_mode_counts_identical_messages() {
    let cfg = config(true, None);
    let lines = ["[t1] a", "[t2] b", "[t3] a", "[t4] a "];
    let (_, state) = run(&cfg, None, &lines);
    let groups = state.accumulator().groups();
    assert_eq!(groups.len(), 3);
    assert_eq!((groups[0].key.as_str(), groups[0].count), (" a", 2));
    assert_eq!((groups[1].key.as_str(), groups[1].count), (" b", 1));
    assert_eq!((groups[2].key.as_str(), groups[2].count), (" a ", 1));
    assert_eq!(report_order(state.accumulator()), vec![0, 1, 2]);
}

#[test]
fn report_sorted_by_count_ties_in_opening_order() {
    let mut acc = SimilarityAccumulator::new(None);
    for m in ["a", "b", "b", "c", "d", "d", "a", "e"] {
        acc.ingest(m.to_string());
    }
    // counts: a 2, b 2, c 1, d 2, e 1
    assert_eq!(report_order(&acc), vec![0, 1, 3, 2, 4]);
    assert_eq!(report_order(&acc), report_order(&acc));
    let empty = SimilarityAccumulator::new(None);
    assert_eq!(report_order(&empty), Vec::<usize>::new());
}

#[test]
fn similarity_uses_edit_distance() {
    let s = similarity("kitten", "sitting");
    assert_eq!((s.num, s.den), (4, 7));
    let e = similarity("", "");
    assert_eq!((e.num, e.den), (1, 1));
    let f = similarity("", "abc");
    assert_eq!((f.num, f.den), (0, 3));
    let same = similarity("string", "string");
    assert_eq!((same.num, same.den), (1, 1));
}

#[test]
fn fraction_comparison_is_exact() {
    assert!(!greater_than(Fraction::new(4, 5), Fraction::new(8, 10)));
    assert!(greater_than(Fraction::new(5, 6), Fraction::new(4, 5)));
    assert!(greater_than(Fraction::new(u64::MAX, u64::MAX - 1), Fraction::new(1, 1)));
}

#[test]
fn thousandths_round_half_up() {
    assert_eq!(to_thousandths(Fraction::new(7, 8)), 875);
    assert_eq!(to_thousandths(Fraction::new(1, 16)), 63);
    assert_eq!(to_thousandths(Fraction::new(1, 1)), 1000);
    assert_eq!(to_thousandths(Fraction::new(2, 3)), 667);
}

#[test]
fn noise_filter_matches_any_substring() {
    let f = Filters::new(vec!["DEBUG".to_string(), "heartbeat".to_string()]);
    assert!(f.is_filtered("x heartbeat y"));
    assert!(f.is_filtered("DEBUG"));
    assert!(!f.is_filtered("debug"));
    assert!(!Filters::new(vec![]).is_filtered("anything"));
    assert_eq!(f.filters().len(), 2);
}

#[test]
fn input_selection_order() {
    let mut cfg = config(false, None);
    assert_eq!(cfg.input_selection().err(), Some(ConfigError::MissingInput));
    cfg.file_path = Some("a.log".to_string());
    assert!(matches!(cfg.input_selection(), Ok(InputSelection::SingleFile(p)) if p == "a.log"));
    cfg.directory_mode = Some("logs".to_string());
    assert!(matches!(cfg.input_selection(), Ok(InputSelection::Directory(d)) if d == "logs"));
    cfg.current_directory_mode = true;
    assert!(matches!(cfg.input_selection(), Ok(InputSelection::CurrentDirectory)));
}

#[test]
fn filter_source_needs_path() {
    let mut cfg = config(false, None);
    assert_eq!(cfg.filter_source(), Ok(None));
    cfg.use_filter_file = true;
    assert_eq!(cfg.filter_source(), Err(ConfigError::MissingFilterPath));
    cfg.filter_file_path = Some("filters.json".to_string());
    assert_eq!(cfg.filter_source(), Ok(Some("filters.json".to_string())));
}

#[test]
fn log_file_selection_by_extension() {
    assert!(is_log_file("system.log"));
    assert!(is_log_file("system.log.4.gz"));
    assert!(!is_log_file("system.txt"));
    assert!(!is_log_file(".log"));
    assert!(!is_log_file("log"));
    assert!(is_compressed("a.gz"));
    assert!(!is_compressed(".gz"));
    assert!(!is_compressed("a.log"));
    assert!(!is_compressed("agz"));
}
