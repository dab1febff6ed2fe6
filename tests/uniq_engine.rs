use uniqr::uniq::{
    collapse, format_record, key_of, mode_from_flags, parse_skip_fields, passes, uniq_lines,
    ArgError, Config, Mode, Run, RunAccumulator,
};

fn lines(v: &[&str]) -> Vec<String> {
    v.iter().map(|s| s.to_string()).collect()
}

fn config(skip_fields: usize, show_count: bool, mode: Mode) -> Config {
    Config {
        in_file: "-".to_string(),
        out_file: None,
        skip_fields,
        show_count,
        mode,
    }
}

#[test]
fn empty_input_gives_no_records() {
    let out = uniq_lines(&Vec::new(), &config(0, true, Mode::All));
    assert!(out.is_empty());
    assert!(collapse(&Vec::new(), 0).is_empty());
}

#[test]
fn counts_all_runs() {
    let out = uniq_lines(&lines(&["a", "a", "b", "a"]), &config(0, true, Mode::All));
    assert_eq!(out, vec!["   2 a", "   1 b", "   1 a"]);
}

#[test]
fn repeated_only_with_counts() {
    let out = uniq_lines(&lines(&["a", "a", "b", "a"]), &config(0, true, Mode::RepeatedOnly));
    assert_eq!(out, vec!["   2 a"]);
}

#[test]
fn unique_only_without_counts() {
    let out = uniq_lines(&lines(&["a", "a", "b", "a"]), &config(0, false, Mode::UniqueOnly));
    assert_eq!(out, vec!["b", "a"]);
}

#[test]
fn skipping_one_field() {
    let input = lines(&["1 apple", "2 apple", "3 banana"]);
    let keys: Vec<String> = input.iter().map(|l| key_of(l, 1)).collect();
    assert_eq!(keys, vec!["apple", "apple", "banana"]);
    let runs = collapse(&input, 1);
    assert_eq!(runs.len(), 2);
    assert_eq!(runs[0].line, "1 apple");
    assert_eq!(runs[0].count, 2);
    let out = uniq_lines(&input, &config(1, true, Mode::All));
    assert_eq!(out, vec!["   2 1 apple", "   1 3 banana"]);
}

#[test]
fn terminators_are_kept_and_ignored_for_equality() {
    let input = lines(&["x\r\n", "x\n", "x", "y\n"]);
    let out = uniq_lines(&input, &config(0, true, Mode::All));
    assert_eq!(out, vec!["   3 x\r\n", "   1 y\n"]);
    let plain = uniq_lines(&input, &config(0, false, Mode::All));
    assert_eq!(plain, vec!["x\r\n", "y\n"]);
}

#[test]
fn inner_whitespace_matters_without_skipping() {
    let input = lines(&["a  b\n", "a b\n"]);
    assert_eq!(collapse(&input, 0).len(), 2);
    assert_eq!(key_of("a  b\n", 0), "a  b");
}

#[test]
fn key_of_normalizes_fields() {
    assert_eq!(key_of("  one\ttwo   three  \n", 1), "two three");
    assert_eq!(key_of("one two\r\n", 2), "");
    assert_eq!(key_of("one two\r\n", 5), "");
    assert_eq!(key_of("a\r\n", 0), "a");
    assert_eq!(key_of("a\r", 0), "a\r");
    assert_eq!(key_of("", 0), "");
}

#[test]
fn run_counts_add_up_to_input_length() {
    let input = lines(&["a", "a", "b", "c", "c", "c", "a"]);
    let runs = collapse(&input, 0);
    assert_eq!(runs.len(), 4);
    let total: usize = runs.iter().map(|r| r.count).sum();
    assert_eq!(total, input.len());
}

#[test]
fn runs_reconstruct_the_keys() {
    let input = lines(&["a", "a", "b", "c", "c", "c", "a"]);
    let runs = collapse(&input, 0);
    let mut rebuilt: Vec<String> = Vec::new();
    for r in &runs {
        for _ in 0..r.count {
            rebuilt.push(r.key.clone());
        }
    }
    assert_eq!(rebuilt, input);
    for w in runs.windows(2) {
        assert_ne!(w[0].key, w[1].key);
    }
}

#[test]
fn repeated_and_unique_split_all() {
    let input = lines(&["a", "a", "b", "c", "c", "d"]);
    let all = uniq_lines(&input, &config(0, false, Mode::All));
    let rep = uniq_lines(&input, &config(0, false, Mode::RepeatedOnly));
    let uni = uniq_lines(&input, &config(0, false, Mode::UniqueOnly));
    assert_eq!(rep, vec!["a", "c"]);
    assert_eq!(uni, vec!["b", "d"]);
    assert_eq!(all, vec!["a", "b", "c", "d"]);
}

#[test]
fn more_skipped_fields_only_merge_runs() {
    let input = lines(&["1 x a", "2 x a", "3 y a", "4 y b"]);
    let r0 = collapse(&input, 0);
    let r1 = collapse(&input, 1);
    let r2 = collapse(&input, 2);
    assert_eq!(r0.len(), 4);
    assert_eq!(r1.len(), 3);
    assert_eq!(r2.len(), 2);
    assert_eq!(r2[0].count, 3);
    assert_eq!(r2[0].line, "1 x a");
}

#[test]
fn accumulator_transitions() {
    let mut acc = RunAccumulator::new();
    assert!(acc.finish().is_none());
    assert!(acc.push("k".to_string(), "k1".to_string()).is_none());
    assert!(acc.push("k".to_string(), "k2".to_string()).is_none());
    let flushed = acc.push("m".to_string(), "m1".to_string()).unwrap();
    assert_eq!(flushed.line, "k1");
    assert_eq!(flushed.count, 2);
    let last = acc.finish().unwrap();
    assert_eq!(last.line, "m1");
    assert_eq!(last.count, 1);
    assert!(acc.finish().is_none());
}

#[test]
fn mode_filter_table() {
    assert!(passes(Mode::All, 1));
    assert!(passes(Mode::All, 5));
    assert!(!passes(Mode::RepeatedOnly, 1));
    assert!(passes(Mode::RepeatedOnly, 2));
    assert!(passes(Mode::UniqueOnly, 1));
    assert!(!passes(Mode::UniqueOnly, 2));
}

#[test]
fn record_formatting() {
    let run = Run { key: "a".to_string(), line: "a\n".to_string(), count: 12345 };
    assert_eq!(format_record(&run, true), "12345 a\n");
    assert_eq!(format_record(&run, false), "a\n");
    let small = Run { key: "b".to_string(), line: "b".to_string(), count: 7 };
    assert_eq!(format_record(&small, true), "   7 b");
}

#[test]
fn mode_flags() {
    assert_eq!(mode_from_flags(false, false), Ok(Mode::All));
    assert_eq!(mode_from_flags(true, false), Ok(Mode::RepeatedOnly));
    assert_eq!(mode_from_flags(false, true), Ok(Mode::UniqueOnly));
    assert_eq!(mode_from_flags(true, true), Err(ArgError::ConflictingModes));
}

#[test]
fn skip_fields_argument() {
    assert_eq!(parse_skip_fields("0"), Ok(0));
    assert_eq!(parse_skip_fields("+12"), Ok(12));
    assert_eq!(parse_skip_fields("18446744073709551615"), Ok(usize::MAX));
    assert_eq!(parse_skip_fields("-1"), Err(ArgError::InvalidSkipFields("-1".to_string())));
    assert_eq!(parse_skip_fields("x"), Err(ArgError::InvalidSkipFields("x".to_string())));
    assert_eq!(parse_skip_fields(""), Err(ArgError::InvalidSkipFields("".to_string())));
    assert_eq!(
        parse_skip_fields("18446744073709551616"),
        Err(ArgError::InvalidSkipFields("18446744073709551616".to_string()))
    );
}
