use uniqr::cat::{cat_line, start_state, CatState, Config as CatConfig};
use uniqr::find::{
    count_listings, entry_type_of, parse_entry_type, parse_name_patterns, times_listed,
    Config as FindConfig, EntryType,
};
use uniqr::head::parse_positive_int;
use uniqr::wc::{count_words, resolve_columns, shown_counts, Config as WcConfig, Counts};

fn cat_config(n: bool, b: bool, e: bool, s: bool) -> CatConfig {
    CatConfig {
        files: vec!["-".to_string()],
        number_lines: n,
        number_nonblank_lines: b,
        show_ends: e,
        squeeze_blank: s,
    }
}

#[test]
fn positive_int_parsing() {
    assert_eq!(parse_positive_int("3"), Ok(3));
    assert_eq!(parse_positive_int("+10"), Ok(10));
    assert_eq!(parse_positive_int("0"), Err("0".to_string()));
    assert_eq!(parse_positive_int("-3"), Err("-3".to_string()));
    assert_eq!(parse_positive_int("3x"), Err("3x".to_string()));
}

#[test]
fn cat_plain_and_ends() {
    let mut st = start_state();
    assert_eq!(cat_line(&cat_config(false, false, false, false), &mut st, 0, "hi"), Some("hi".to_string()));
    assert_eq!(cat_line(&cat_config(false, false, true, false), &mut st, 1, "hi"), Some("hi$".to_string()));
}

#[test]
fn cat_numbers_lines() {
    let mut st = start_state();
    assert_eq!(
        cat_line(&cat_config(true, false, false, false), &mut st, 0, "a"),
        Some("     1\ta".to_string())
    );
    assert_eq!(
        cat_line(&cat_config(true, false, true, false), &mut st, 9, ""),
        Some("    10\t$".to_string())
    );
}

#[test]
fn cat_numbers_nonblank_lines() {
    let cfg = cat_config(false, true, false, false);
    let mut st = start_state();
    assert_eq!(cat_line(&cfg, &mut st, 0, "a"), Some("     1\ta".to_string()));
    assert_eq!(cat_line(&cfg, &mut st, 1, ""), Some("".to_string()));
    assert_eq!(cat_line(&cfg, &mut st, 2, "b"), Some("     2\tb".to_string()));
    assert_eq!(st, CatState { last_num: 2, previous_blank: false });
}

#[test]
fn cat_squeezes_blank_lines() {
    let cfg = cat_config(false, false, false, true);
    let mut st = start_state();
    assert_eq!(cat_line(&cfg, &mut st, 0, ""), Some("".to_string()));
    assert_eq!(cat_line(&cfg, &mut st, 1, ""), None);
    assert_eq!(cat_line(&cfg, &mut st, 2, "x"), Some("x".to_string()));
}

#[test]
fn wc_counts_lines() {
    let mut c = Counts::zero();
    assert!(c.add_line("hello  wörld"));
    assert!(c.add_line(""));
    assert_eq!(c, Counts { lines: 2, words: 2, chars: 12, bytes: 13 });
    assert_eq!(count_words(" a b\tc "), 3);
    let mut full = Counts { lines: usize::MAX, words: 0, chars: 0, bytes: 0 };
    assert!(!full.add_line("x"));
    assert_eq!(full.lines, usize::MAX);
}

#[test]
fn wc_default_columns() {
    assert_eq!(resolve_columns(false, false, false, false), (true, true, true, false));
    assert_eq!(resolve_columns(false, false, false, true), (false, false, false, true));
}

#[test]
fn find_entry_types() {
    assert_eq!(entry_type_of(true, false), EntryType::Dir);
    assert_eq!(entry_type_of(false, true), EntryType::Link);
    assert_eq!(entry_type_of(false, false), EntryType::File);
    assert_eq!(parse_entry_type("d"), Some(EntryType::Dir));
    assert_eq!(parse_entry_type("f"), Some(EntryType::File));
    assert_eq!(parse_entry_type("l"), Some(EntryType::Link));
    assert_eq!(parse_entry_type("x"), None);
    assert_eq!(parse_entry_type("dd"), None);
}

#[test]
fn find_counts_listings() {
    assert_eq!(count_listings(&vec![], &vec![], EntryType::File), 1);
    assert_eq!(count_listings(&vec![true, false, true], &vec![], EntryType::File), 2);
    assert_eq!(count_listings(&vec![true], &vec![EntryType::Dir], EntryType::File), 0);
    assert_eq!(count_listings(&vec![], &vec![EntryType::Dir, EntryType::File], EntryType::File), 1);
}

#[test]
fn find_name_patterns() {
    assert_eq!(parse_name_patterns(&vec!["a(".to_string()]).err(), Some("a(".to_string()));
    let names = parse_name_patterns(&vec![r"\.csv$".to_string(), "^a".to_string()]).unwrap();
    let config = FindConfig { paths: vec![".".to_string()], names, entry_types: vec![] };
    assert_eq!(times_listed(&config, "a.csv", EntryType::File), 2);
    assert_eq!(times_listed(&config, "b.csv", EntryType::File), 1);
    assert_eq!(times_listed(&config, "b.txt", EntryType::File), 0);
    let typed = FindConfig {
        paths: vec![".".to_string()],
        names: parse_name_patterns(&vec!["csv".to_string()]).unwrap(),
        entry_types: vec![EntryType::Dir],
    };
    assert_eq!(times_listed(&typed, "a.csv", EntryType::File), 0);
    assert_eq!(times_listed(&typed, "a.csv", EntryType::Dir), 1);
}

#[test]
fn wc_shown_columns() {
    let config = WcConfig { files: vec![], lines: true, words: false, bytes: true, chars: true };
    let counts = Counts { lines: 1, words: 2, chars: 3, bytes: 4 };
    assert_eq!(shown_counts(&config, &counts), vec![1, 3, 4]);
}
