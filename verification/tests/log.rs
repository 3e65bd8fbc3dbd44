use noter::sorting::{reversed, sort_by_date, sort_text};
use noter::{compact, get_tags, latest_version, list, merge, page_length, remove, Metadata, Note};

fn note(id: &str, date: &str, title: &str) -> Note {
    Note::new(
        id.to_string(),
        "instance".to_string(),
        title.to_string(),
        "body".to_string(),
        date.to_string(),
        Vec::new(),
    )
}

fn tagged(id: &str, date: &str, title: &str, tags: &[&str]) -> Note {
    Note::new(
        id.to_string(),
        "instance".to_string(),
        title.to_string(),
        "body".to_string(),
        date.to_string(),
        tags.iter().map(|t| t.to_string()).collect(),
    )
}

fn titles(log: &[Note]) -> Vec<String> {
    log.iter().map(|n| n.get_title().to_string()).collect()
}

fn pairs(log: &[Note]) -> Vec<(String, String)> {
    log.iter()
        .map(|n| (n.get_id().to_string(), n.get_date().to_string()))
        .collect()
}

fn strings(items: &[&str]) -> Vec<String> {
    items.iter().map(|s| s.to_string()).collect()
}

fn copy(log: &[Note]) -> Vec<Note> {
    log.to_vec()
}

#[test]
fn compact_of_an_empty_log_is_empty() {
    assert!(compact(Vec::new()).is_empty());
}

#[test]
fn compact_keeps_the_newest_version_of_each_note() {
    let log = vec![
        note("A", "2021-01-01 00:00:00", "a1"),
        note("B", "2021-01-01 00:00:01", "b1"),
        note("A", "2021-01-01 00:00:00", "a2"),
        note("C", "2021-01-01 00:00:02", "c1"),
        note("B", "2021-01-01 00:00:01", "b2"),
        note("A", "2021-01-01 00:00:00", "a3"),
    ];
    let kept = compact(log);
    assert_eq!(titles(&kept), strings(&["c1", "b2", "a3"]));
}

#[test]
fn compact_keeps_a_log_without_repeats() {
    let log = vec![
        note("C", "3", "c"),
        note("A", "1", "a"),
        note("B", "2", "b"),
    ];
    assert_eq!(titles(&compact(log)), strings(&["c", "a", "b"]));
}

#[test]
fn compact_goes_by_position_not_by_date() {
    let log = vec![
        note("A", "2021-01-02 00:00:00", "later date, older version"),
        note("A", "2021-01-01 00:00:00", "earlier date, newer version"),
    ];
    assert_eq!(
        titles(&compact(log)),
        strings(&["earlier date, newer version"])
    );
}

#[test]
fn compact_twice_is_compact_once() {
    let log = vec![
        note("A", "1", "a1"),
        note("B", "2", "b1"),
        note("A", "1", "a2"),
        note("B", "2", "b2"),
        note("C", "3", "c1"),
        note("A", "1", "a3"),
    ];
    let once = compact(log);
    let twice = compact(copy(&once));
    assert_eq!(titles(&once), strings(&["b2", "c1", "a3"]));
    assert_eq!(titles(&twice), titles(&once));
    assert_eq!(pairs(&twice), pairs(&once));
}

#[test]
fn sort_by_date_is_stable() {
    let log = vec![
        note("A", "2021-01-03 00:00:00", "third"),
        note("B", "2021-01-01 00:00:00", "first"),
        note("C", "2021-01-02 00:00:00", "second a"),
        note("D", "2021-01-02 00:00:00", "second b"),
        note("E", "2021-01-01 00:00:00", "first again"),
        note("F", "2021-01-02 00:00:00", "second c"),
    ];
    assert_eq!(
        titles(&sort_by_date(log)),
        strings(&["first", "first again", "second a", "second b", "second c", "third"])
    );
}

#[test]
fn sort_text_orders_by_code_point() {
    let items = strings(&["b", "", "ab", "a", "B", "abc", "é", "a", "z"]);
    assert_eq!(
        sort_text(items),
        strings(&["", "B", "a", "a", "ab", "abc", "b", "z", "é"])
    );
    assert!(sort_text(Vec::new()).is_empty());
}

#[test]
fn sort_text_orders_long_code_points_last() {
    let items = strings(&["\u{10000}", "\u{FFFF}", "z", "\u{E9}", "\u{7FF}x", "\u{7FF}"]);
    assert_eq!(
        sort_text(items),
        strings(&["z", "\u{E9}", "\u{7FF}", "\u{7FF}x", "\u{FFFF}", "\u{10000}"])
    );
}

#[test]
fn sort_by_date_puts_a_prefix_first() {
    let log = vec![
        note("A", "2021-01-01 00:00:00", "full"),
        note("B", "2021-01-01", "day only"),
        note("C", "", "empty"),
        note("D", "2021", "year only"),
    ];
    assert_eq!(
        titles(&sort_by_date(log)),
        strings(&["empty", "year only", "day only", "full"])
    );
}

#[test]
fn reversed_turns_the_order_round() {
    assert_eq!(reversed(vec![1, 2, 3, 4]), vec![4, 3, 2, 1]);
    assert_eq!(reversed(Vec::<u8>::new()), Vec::<u8>::new());
}

#[test]
fn merge_of_two_versions_of_one_note() {
    let local = vec![note("A", "2021-01-01 00:00:00", "t1")];
    let remote = vec![note("A", "2021-01-02 00:00:00", "t2")];
    let metadata = Metadata::from_parts("here".to_string(), Some(String::new()));

    let (merged_local, merged_remote, metadata) = merge(&local, &remote, metadata);

    assert_eq!(titles(&merged_local), strings(&["t1", "t2"]));
    assert_eq!(titles(&merged_remote), strings(&["t2", "t1"]));
    assert_eq!(metadata.get_last_snapshot(), "2021-01-02 00:00:00");
    assert_eq!(metadata.get_instance(), "here");

    let compacted = compact(merged_local);
    assert_eq!(titles(&compacted), strings(&["t2"]));
}

#[test]
fn merge_without_watermark_loses_nothing() {
    let local = vec![
        note("B", "2021-03-01 00:00:00", "b"),
        note("A", "2021-01-01 00:00:00", "a"),
    ];
    let remote = vec![
        note("D", "", "no date"),
        note("C", "2021-02-01 00:00:00", "c"),
        note("A", "2021-01-01 00:00:00", "a remote"),
    ];
    let (merged_local, merged_remote, metadata) = merge(&local, &remote, Metadata::new());

    assert_eq!(
        titles(&merged_local),
        strings(&["no date", "a", "a remote", "c", "b"])
    );
    for pair in pairs(&local).iter().chain(pairs(&remote).iter()) {
        assert!(pairs(&merged_local).contains(pair));
    }
    assert_eq!(
        titles(&merged_remote),
        strings(&["no date", "c", "a remote", "b", "a"])
    );
    assert_eq!(metadata.get_last_snapshot(), "2021-03-01 00:00:00");
}

#[test]
fn merge_takes_only_news_across_the_watermark() {
    let local = vec![
        note("A", "2021-01-01 00:00:00", "old local"),
        note("B", "2021-01-05 00:00:00", "new local"),
        note("E", "2021-01-03 00:00:00", "local at the watermark"),
    ];
    let remote = vec![
        note("C", "2021-01-02 00:00:00", "old remote"),
        note("D", "2021-01-04 00:00:00", "new remote"),
        note("F", "2021-01-03 00:00:00", "remote at the watermark"),
    ];
    let metadata = Metadata::from_parts(
        "here".to_string(),
        Some("2021-01-03 00:00:00".to_string()),
    );
    let (merged_local, merged_remote, metadata) = merge(&local, &remote, metadata);

    assert_eq!(
        titles(&merged_local),
        strings(&["old local", "local at the watermark", "new remote", "new local"])
    );
    assert_eq!(
        titles(&merged_remote),
        strings(&["old remote", "new remote", "remote at the watermark", "new local"])
    );
    assert_eq!(metadata.get_last_snapshot(), "2021-01-05 00:00:00");
}

#[test]
fn merge_sets_the_watermark_to_the_latest_date() {
    let local = vec![note("A", "2021-01-01 00:00:00", "a")];
    let remote = vec![
        note("B", "2021-06-01 00:00:00", "b"),
        note("C", "2021-05-01 00:00:00", "c"),
    ];
    let (merged_local, _, metadata) = merge(&local, &remote, Metadata::new());
    let latest = merged_local
        .iter()
        .map(|n| n.get_date().to_string())
        .max()
        .unwrap();
    assert_eq!(latest, "2021-06-01 00:00:00");
    assert_eq!(metadata.get_last_snapshot(), latest);
    assert_eq!(merged_local[merged_local.len() - 1].get_date(), latest);
}

#[test]
fn merge_from_an_empty_local_log_leaves_the_watermark() {
    let remote = vec![
        note("B", "2021-06-01 00:00:00", "b"),
        note("C", "2021-05-01 00:00:00", "c"),
        note("D", "2021-01-01 00:00:00", "d"),
    ];
    let metadata = Metadata::from_parts(
        "here".to_string(),
        Some("2021-02-01 00:00:00".to_string()),
    );
    let (merged_local, merged_remote, metadata) = merge(&Vec::new(), &remote, metadata);
    assert_eq!(titles(&merged_local), strings(&["b", "c"]));
    assert_eq!(titles(&merged_remote), strings(&["b", "c", "d"]));
    assert_eq!(metadata.get_last_snapshot(), "2021-02-01 00:00:00");
    assert!(metadata.has_snapshot());

    let (merged_local, _, metadata) = merge(&Vec::new(), &remote, Metadata::new());
    assert_eq!(titles(&merged_local), strings(&["b", "c", "d"]));
    assert!(!metadata.has_snapshot());
    assert_eq!(metadata.get_last_snapshot(), "");
}

#[test]
fn merge_with_an_empty_remote_log_sorts_the_local_one() {
    let local = vec![
        note("B", "2021-03-01 00:00:00", "b"),
        note("A", "2021-01-01 00:00:00", "a"),
    ];
    let (merged_local, merged_remote, metadata) = merge(&local, &Vec::new(), Metadata::new());
    assert_eq!(titles(&merged_local), strings(&["a", "b"]));
    assert_eq!(titles(&merged_remote), strings(&["b", "a"]));
    assert_eq!(metadata.get_last_snapshot(), "2021-03-01 00:00:00");
}

#[test]
fn remove_takes_out_every_version() {
    let log = vec![
        note("A", "1", "a1"),
        note("B", "2", "b1"),
        note("A", "1", "a2"),
        note("C", "3", "c1"),
    ];
    assert_eq!(titles(&remove(copy(&log), "A")), strings(&["b1", "c1"]));
    assert_eq!(
        titles(&remove(copy(&log), "Z")),
        strings(&["a1", "b1", "a2", "c1"])
    );
    assert!(remove(Vec::new(), "A").is_empty());
}

#[test]
fn latest_version_is_the_last_with_the_id() {
    let log = vec![
        note("A", "1", "a1"),
        note("B", "2", "b1"),
        note("A", "1", "a2"),
        note("C", "3", "c1"),
    ];
    assert_eq!(latest_version(&log, "A").unwrap().get_title(), "a2");
    assert_eq!(latest_version(&log, "B").unwrap().get_title(), "b1");
    assert!(latest_version(&log, "D").is_none());
    assert!(latest_version(&Vec::new(), "A").is_none());
}

#[test]
fn get_tags_gives_each_label_once_in_order() {
    let log = vec![
        tagged("A", "1", "a", &["rust", "notes"]),
        tagged("B", "2", "b", &[]),
        tagged("C", "3", "c", &["notes", "ideas", "Zed", "rust"]),
    ];
    assert_eq!(get_tags(&log), strings(&["Zed", "ideas", "notes", "rust"]));
    assert!(get_tags(&Vec::new()).is_empty());
}

#[test]
fn list_shows_the_newest_version_of_each_note() {
    let log = vec![
        note("A", "2021-01-01 00:00:00", "a1"),
        note("B", "2021-01-03 00:00:00", "b1"),
        note("A", "2021-01-01 00:00:00", "a2"),
        note("C", "2021-01-02 00:00:00", "c1"),
    ];
    assert_eq!(
        list(&log, "", false),
        strings(&[
            "[2021-01-03 00:00:00] b1 (B) \n\tbody #\n",
            "[2021-01-02 00:00:00] c1 (C) \n\tbody #\n",
            "[2021-01-01 00:00:00] a2 (A) \n\tbody #\n",
        ])
    );
    assert!(list(&Vec::new(), "", false).is_empty());
}

#[test]
fn list_for_a_tag_shows_the_newest_version_that_has_it() {
    let log = vec![
        tagged("A", "2021-01-01 00:00:00", "a1", &["rust"]),
        tagged("B", "2021-01-03 00:00:00", "b1", &["ideas"]),
        tagged("A", "2021-01-01 00:00:00", "a2", &[]),
        tagged("C", "2021-01-02 00:00:00", "c1", &["rust", "ideas"]),
    ];
    assert_eq!(
        list(&log, "rust", false),
        strings(&[
            "[2021-01-02 00:00:00] c1 (C) \n\tbody #rust #ideas\n",
            "[2021-01-01 00:00:00] a1 (A) \n\tbody #rust\n",
        ])
    );
    assert!(list(&log, "none", false).is_empty());
    assert_eq!(
        list(&log, "ideas", true),
        strings(&[
            "\x1B[38;5;6m[2021-01-03 00:00:00]\x1B[39m \x1B[1mb1 (B) \x1B[0m\n\t\x1B[38;5;2mbody\x1B[39m \x1B[38;5;8m#ideas\n",
            "\x1B[38;5;6m[2021-01-02 00:00:00]\x1B[39m \x1B[1mc1 (C) \x1B[0m\n\t\x1B[38;5;2mbody\x1B[39m \x1B[38;5;8m#rust #ideas\n",
        ])
    );
}

#[test]
fn page_length_stops_at_the_limit() {
    let lines = strings(&["a\n", "b\n", "c\n", "d\n"]);
    assert_eq!(page_length(&lines, 10, 100, 10000), 4);
    assert_eq!(page_length(&lines, 3, 100, 10000), 3);
    assert_eq!(page_length(&lines, 0, 100, 10000), 0);
    assert_eq!(page_length(&Vec::new(), 10, 100, 10000), 0);
}

#[test]
fn page_length_stops_when_the_rows_are_used_up() {
    // Each entry takes two rows round it and one for its only line.
    let lines = strings(&["a\n", "b\n", "c\n", "d\n"]);
    assert_eq!(page_length(&lines, 10, 100, 0), 0);
    assert_eq!(page_length(&lines, 10, 100, 1), 1);
    assert_eq!(page_length(&lines, 10, 100, 3), 1);
    assert_eq!(page_length(&lines, 10, 100, 4), 2);
    assert_eq!(page_length(&lines, 10, 100, 9), 3);
    assert_eq!(page_length(&lines, 10, 100, 10), 4);
}

#[test]
fn page_length_counts_wrapped_lines() {
    // 25 bytes on 10 columns are 3 rows, 10 bytes are 1, the empty line none.
    let lines = strings(&["0123456789012345678901234\n0123456789\n\n", "x"]);
    assert_eq!(page_length(&lines, 10, 10, 6), 1);
    assert_eq!(page_length(&lines, 10, 10, 7), 2);
    assert_eq!(page_length(&lines, 10, 1, 37), 1);
    assert_eq!(page_length(&lines, 10, 1, 38), 2);
}
