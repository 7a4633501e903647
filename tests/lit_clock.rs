use lit_clock::corpus::{book_paragraphs, split_paragraphs, MIN_PARAGRAPH_LEN};
use lit_clock::error::ClockError;
use lit_clock::key::{decode_key, encode_key};
use lit_clock::matcher::{
    all_slots, build_query, hit_entry, parse_book_id, phrase_term, text_names_time, time_slot,
    HitStep, MetadataCache, SLOT_COUNT,
};
use lit_clock::phrase::{all_formats_to_text, is_valid_time, number_word, time_to_text};
use lit_clock::pipeline::{plan_build, Artifacts};
use lit_clock::table::{
    choose_slot, entries_at, hour12, resolve, resolve_slot, resolve_with_pick, search_number,
    slots_of, time_label, BookMetadata, LitClockEntry,
};

fn phrases(hour: usize, minute: usize) -> Vec<String> {
    all_formats_to_text(hour, minute).unwrap()
}

fn row(time: u32, paragraph: &str) -> LitClockEntry {
    LitClockEntry {
        time,
        paragraph: paragraph.to_string(),
        author: "An Author".to_string(),
        title: "A Title".to_string(),
        link: "http://x/1.txt".to_string(),
    }
}

fn meta() -> BookMetadata {
    BookMetadata { title: "The Book".to_string(), author: "Some One".to_string() }
}

#[test]
fn phrases_for_quarter_past_seven() {
    assert_eq!(phrases(7, 15), vec!["quarter past seven".to_string()]);
}

#[test]
fn phrases_for_three_o_clock() {
    assert_eq!(phrases(3, 0), vec!["three o'clock".to_string()]);
}

#[test]
fn phrases_for_quarter_to_twelve() {
    assert_eq!(phrases(12, 45), vec!["quarter to twelve".to_string()]);
}

#[test]
fn phrases_for_one_minute_to_one() {
    assert_eq!(phrases(1, 59), vec!["one minute to one".to_string()]);
}

#[test]
fn phrases_for_twenty_minutes_to_ten() {
    assert_eq!(phrases(9, 40), vec!["twenty minutes to ten".to_string()]);
}

#[test]
fn phrases_for_other_minutes() {
    assert_eq!(time_to_text(2, 1).unwrap(), "one minute past two");
    assert_eq!(time_to_text(6, 30).unwrap(), "half past six");
    assert_eq!(time_to_text(4, 10).unwrap(), "ten minutes past four");
    assert_eq!(time_to_text(11, 29).unwrap(), "twenty nine minutes past eleven");
    assert_eq!(time_to_text(12, 31).unwrap(), "twenty nine minutes to one");
    assert_eq!(time_to_text(12, 58).unwrap(), "two minutes to one");
}

#[test]
fn phrases_for_every_reading_are_present() {
    for hour in 1..13 {
        for minute in 0..60 {
            let p = phrases(hour, minute);
            assert!(!p.is_empty());
            assert!(p.iter().all(|s| !s.is_empty()));
        }
    }
}

#[test]
fn phrases_refuse_invalid_times() {
    assert_eq!(all_formats_to_text(0, 0), Err(ClockError::InvalidTime));
    assert_eq!(all_formats_to_text(13, 0), Err(ClockError::InvalidTime));
    assert_eq!(all_formats_to_text(5, 60), Err(ClockError::InvalidTime));
    assert_eq!(time_to_text(40, 10), Err(ClockError::InvalidTime));
    assert!(!is_valid_time(12, 60));
    assert!(is_valid_time(12, 59));
}

#[test]
fn number_words() {
    assert_eq!(number_word(0), "zero");
    assert_eq!(number_word(17), "seventeen");
    assert_eq!(number_word(29), "twenty nine");
}

#[test]
fn key_round_trip() {
    let k = encode_key("1234", "http://x/1234.txt");
    assert_eq!(k, "$1234$http://x/1234.txt$");
    assert_eq!(
        decode_key(&k),
        Some(("1234".to_string(), "http://x/1234.txt".to_string()))
    );
}

#[test]
fn key_with_empty_fields() {
    assert_eq!(decode_key("$$$"), Some((String::new(), String::new())));
}

#[test]
fn malformed_keys_are_refused() {
    assert_eq!(decode_key(""), None);
    assert_eq!(decode_key("$1$"), None);
    assert_eq!(decode_key("1$2$"), None);
    assert_eq!(decode_key("$1$2"), None);
    assert_eq!(decode_key("$1$2$3$"), None);
}

#[test]
fn slot_numbers() {
    assert_eq!(time_slot(7, 15), 715);
    assert_eq!(time_slot(12, 59), 1259);
    assert_eq!(time_slot(1, 0), 100);
}

#[test]
fn slot_grid_covers_the_cycle() {
    let s = all_slots();
    assert_eq!(s.len(), SLOT_COUNT);
    assert_eq!(s.len(), 720);
    assert_eq!(s[0], (1, 0));
    assert_eq!(s[59], (1, 59));
    assert_eq!(s[60], (2, 0));
    assert_eq!(s[719], (12, 59));
}

#[test]
fn query_terms() {
    assert_eq!(phrase_term("three o'clock"), "\"three o clock\"");
    assert_eq!(
        build_query(&vec!["quarter past seven".to_string()]),
        "\"quarter past seven\""
    );
    assert_eq!(
        build_query(&vec!["quarter past seven".to_string(), "seven o'clock".to_string()]),
        "\"quarter past seven\" OR \"seven o clock\""
    );
    assert_eq!(build_query(&vec![]), "");
}

#[test]
fn text_matching_ignores_case_and_breaks() {
    assert!(text_names_time("It was Quarter Past Seven when he came.", 7, 15));
    assert!(text_names_time("at three o clock precisely", 3, 0));
    assert!(text_names_time("at three\no'clock precisely", 3, 0));
    assert!(text_names_time("at three o\u{2019}clock precisely", 3, 0));
    assert!(text_names_time("it was Quarter-past seven", 7, 15));
    assert!(!text_names_time("at three oXclock", 3, 0));
    assert!(!text_names_time("It was quarter past eight.", 7, 15));
    assert!(!text_names_time("", 7, 15));
}

#[test]
fn hit_becomes_entry() {
    let m = meta();
    let e = hit_entry(7, 15, "$42$http://x/42.txt$", "At quarter past seven, the bell.", &m)
        .unwrap();
    assert_eq!(e.time, 715);
    assert_eq!(e.paragraph, "At quarter past seven, the bell.");
    assert_eq!(e.author, "Some One");
    assert_eq!(e.title, "The Book");
    assert_eq!(e.link, "http://x/42.txt");
}

#[test]
fn hit_without_the_phrase_is_dropped() {
    let m = meta();
    assert!(hit_entry(7, 15, "$42$http://x/42.txt$", "At half past seven, the bell.", &m).is_none());
}

#[test]
fn hit_with_bad_key_is_dropped() {
    let m = meta();
    assert!(hit_entry(7, 15, "42$http://x/42.txt", "At quarter past seven.", &m).is_none());
}

#[test]
fn metadata_cache_keeps_first_record() {
    let mut c = MetadataCache::new();
    assert!(c.get(7).is_none());
    c.record(7, meta());
    let got = c.get(7).unwrap();
    assert_eq!(got.title, "The Book");
    c.record(7, BookMetadata { title: "Other".to_string(), author: "X".to_string() });
    assert_eq!(c.get(7).unwrap().title, "The Book");
    assert!(c.get(8).is_none());
    assert!(c.get(77).is_none());
}

#[test]
fn book_ids_are_parsed() {
    assert_eq!(parse_book_id("1234"), Some(1234));
    assert_eq!(parse_book_id("0"), Some(0));
    assert_eq!(parse_book_id("18446744073709551615"), Some(u64::MAX));
    assert_eq!(parse_book_id("18446744073709551616"), None);
    assert_eq!(parse_book_id(""), None);
    assert_eq!(parse_book_id("12a"), None);
    assert_eq!(parse_book_id("-1"), None);
}

#[test]
fn paragraphs_are_split_trimmed_and_filtered() {
    let long_a = "a".repeat(70);
    let long_b = "b".repeat(64);
    let text = format!("  {}  \n\rshort\n\r\n\r{}\n\r{}", long_a, long_b, "c".repeat(63));
    let pieces = split_paragraphs(&text);
    assert_eq!(pieces.len(), 5);
    assert_eq!(pieces[1], "short");
    assert_eq!(pieces[2], "");
    let kept = book_paragraphs(&text);
    assert_eq!(kept, vec![long_a, long_b]);
    assert_eq!(MIN_PARAGRAPH_LEN, 64);
}

#[test]
fn text_without_delimiter_is_one_piece() {
    assert_eq!(split_paragraphs("one\ntwo"), vec!["one\ntwo".to_string()]);
    assert_eq!(split_paragraphs(""), vec![String::new()]);
}

#[test]
fn twelve_hour_dial() {
    assert_eq!(hour12(0), 12);
    assert_eq!(hour12(7), 7);
    assert_eq!(hour12(12), 12);
    assert_eq!(hour12(19), 7);
    assert_eq!(search_number(19, 5), 705);
    assert_eq!(search_number(0, 30), 1230);
}

#[test]
fn slot_resolution() {
    let avail = vec![700, 715, 1000];
    assert_eq!(resolve_slot(&avail, 715), Some(715));
    assert_eq!(resolve_slot(&avail, 720), Some(715));
    assert_eq!(resolve_slot(&avail, 959), Some(715));
    assert_eq!(resolve_slot(&avail, 1259), Some(1000));
    assert_eq!(resolve_slot(&avail, 600), Some(1000));
    assert_eq!(resolve_slot(&vec![], 600), None);
}

#[test]
fn rows_at_a_slot() {
    let rows = vec![row(700, "a"), row(715, "b"), row(700, "c")];
    let at = entries_at(&rows, 700);
    assert_eq!(at.len(), 2);
    assert_eq!(at[0].paragraph, "a");
    assert_eq!(at[1].paragraph, "c");
    let mut s = slots_of(&rows);
    s.sort();
    assert_eq!(s, vec![700, 715]);
    assert_eq!(choose_slot(&rows, 7, 20), Some(715));
    assert_eq!(choose_slot(&vec![], 7, 20), None);
}

#[test]
fn resolve_exact_and_between() {
    let rows = vec![row(700, "a"), row(715, "b"), row(1000, "c")];
    let e = resolve_with_pick(&rows, 7, 15, 0).unwrap();
    assert_eq!(e.paragraph, "b");
    let e = resolve_with_pick(&rows, 21, 59, 3).unwrap();
    assert_eq!(e.paragraph, "b");
    let e = resolve_with_pick(&rows, 6, 10, 0).unwrap();
    assert_eq!(e.paragraph, "c");
}

#[test]
fn resolve_pick_wraps_among_rows() {
    let rows = vec![row(700, "a"), row(800, "x"), row(700, "b")];
    assert_eq!(resolve_with_pick(&rows, 7, 30, 0).unwrap().paragraph, "a");
    assert_eq!(resolve_with_pick(&rows, 7, 30, 1).unwrap().paragraph, "b");
    assert_eq!(resolve_with_pick(&rows, 7, 30, 2).unwrap().paragraph, "a");
}

#[test]
fn resolve_on_empty_table_is_no_match() {
    assert!(matches!(resolve(&vec![], 7, 0), Err(ClockError::NoMatch)));
    assert!(matches!(resolve_with_pick(&vec![], 7, 0, 0), Err(ClockError::NoMatch)));
}

#[test]
fn resolve_samples_both_rows_of_one_slot() {
    let rows = vec![row(700, "first"), row(700, "second")];
    let mut seen_first = false;
    let mut seen_second = false;
    for hour in [7u32, 9, 12, 19, 23] {
        for _ in 0..100 {
            let e = resolve(&rows, hour, 30).unwrap();
            assert_eq!(e.time, 700);
            match e.paragraph.as_str() {
                "first" => seen_first = true,
                "second" => seen_second = true,
                other => panic!("unexpected row {}", other),
            }
        }
    }
    assert!(seen_first && seen_second);
}

#[test]
fn build_is_skipped_when_artifacts_exist() {
    let all = Artifacts { catalog: true, index: true, table: true };
    let p = plan_build(all);
    assert!(!p.fetch_catalog && !p.build_index && !p.build_table);
    let none = Artifacts { catalog: false, index: false, table: false };
    let p = plan_build(none);
    assert!(p.fetch_catalog && p.build_index && p.build_table);
    let some = Artifacts { catalog: true, index: false, table: true };
    let p = plan_build(some);
    assert!(!p.fetch_catalog && p.build_index && !p.build_table);
}

#[test]
fn hit_steps() {
    let mut c = MetadataCache::new();
    assert!(matches!(c.step_for_hit("no key"), HitStep::Skip));
    assert!(matches!(c.step_for_hit("$abc$http://x/42.txt$"), HitStep::Skip));
    match c.step_for_hit("$42$http://x/42.txt$") {
        HitStep::Lookup(id) => assert_eq!(id, 42),
        _ => panic!("expected a lookup"),
    }
    c.record(42, meta());
    match c.step_for_hit("$42$http://x/42.txt$") {
        HitStep::Known(m) => assert_eq!(m.author, "Some One"),
        _ => panic!("expected a cached record"),
    }
}

#[test]
fn time_labels() {
    assert_eq!(time_label(7, 5), "7:05");
    assert_eq!(time_label(0, 0), "12:00");
    assert_eq!(time_label(23, 59), "11:59");
    assert_eq!(time_label(10, 30), "10:30");
}

#[test]
fn resolve_succeeds_on_any_nonempty_table() {
    let rows = vec![row(700, "a"), row(715, "b"), row(1000, "c")];
    for hour in 0..24 {
        for minute in 0..60 {
            let e = resolve(&rows, hour, minute).unwrap();
            let n = search_number(hour, minute);
            let expected = if n < 700 || n >= 1000 {
                1000
            } else if n >= 715 {
                715
            } else {
                700
            };
            assert_eq!(e.time, expected);
        }
    }
}
