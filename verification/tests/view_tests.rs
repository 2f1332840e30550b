use nadir::group_view::visible_messages;
use nadir::message_group::MessageGroup;
use nadir::model;
use nadir::server::{mail_message, rebuild_from_mail, test_message, test_step};
use nadir::strings::{str_eq, str_lt};
use nadir::tag_view::{
    calc_truncation, tag_widths, time_label, time_label_at_now, truncated_tag, BracketConfig,
    BracketStyle, TimeLabel, TimeParts,
};
use nadir::view::simplify_number;

fn meta(id: &str, capacity: u32, pinned_capacity: u32) -> model::MessageGroup {
    model::MessageGroup {
        id: id.to_owned(),
        importance: 0,
        title: id.to_owned(),
        capacity,
        pinned_capacity,
    }
}

fn msg(id: &str) -> model::Message {
    model::Message {
        id: id.to_owned(),
        counter: None,
        tags: Vec::new(),
        body: String::new(),
        time: None,
    }
}

#[test]
fn truncation_not_needed_when_row_fits() {
    // widths 3 + 4 plus one separator is 8, within a budget of 10.
    assert_eq!(calc_truncation(&vec![3, 4], 10), None);
}

#[test]
fn truncation_cutoff_exact_value() {
    // Widths 10, 6, 3 with separators need 21 cells; a budget of 15 cuts
    // the widest tag: capping at 7 gives 7 + 6 + 3 + 2 = 18, capping at 6
    // gives 17, capping at 4 gives 4 + 4 + 3 + 2 = 13, and the slack of
    // two is split over the two wide tags: the cutoff lands at 5.
    assert_eq!(calc_truncation(&vec![10, 6, 3], 15), Some(5));
}

#[test]
fn truncation_cutoff_floors_at_minimum() {
    // Even cutting every tag to nothing leaves the three separators over
    // the budget; the cutoff still floors at the minimum readable width.
    assert_eq!(calc_truncation(&vec![9, 9, 9, 9], 2), Some(4));
}

#[test]
fn truncation_is_permutation_invariant() {
    let budget = 15;
    let a = calc_truncation(&vec![10, 6, 3], budget);
    let b = calc_truncation(&vec![3, 10, 6], budget);
    let c = calc_truncation(&vec![6, 3, 10], budget);
    assert_eq!(a, b);
    assert_eq!(a, c);
}

#[test]
fn truncation_empty_row_fits() {
    assert_eq!(calc_truncation(&vec![], 0), None);
}

#[test]
fn tag_widths_counts_display_cells() {
    // A wide CJK character occupies two cells; ASCII one each.
    let widths = tag_widths(&vec!["ab".to_owned(), "\u{65e5}\u{672c}".to_owned()]);
    assert_eq!(widths, vec![2, 4]);
}

#[test]
fn truncated_tag_cuts_to_cutoff() {
    let (slice, width) = truncated_tag("hello", 3);
    assert_eq!(slice, "hel");
    assert_eq!(width, 3);
    let (full, full_width) = truncated_tag("hi", 10);
    assert_eq!(full, "hi");
    assert_eq!(full_width, 2);
}

#[test]
fn truncated_tag_walks_character_boundaries() {
    // A combining mark is zero cells wide: the longest fitting prefix keeps
    // it with its base character.
    let (slice, width) = truncated_tag("e\u{0301}x", 1);
    assert_eq!(slice, "e\u{0301}");
    assert_eq!(width, 1);
}

#[test]
fn truncated_tag_handles_ligatures() {
    // Arabic lam followed by alef is one cell wide as a pair, so the whole
    // five-character tag is four cells and a three-cell cutoff keeps four
    // characters.
    let (slice, width) = truncated_tag("\u{0644}\u{0627}abc", 3);
    assert_eq!(slice, "\u{0644}\u{0627}ab");
    assert_eq!(width, 3);
}

#[test]
fn bracket_characters() {
    assert_eq!(BracketStyle::Line.left(), '|');
    assert_eq!(BracketStyle::Square.left(), '[');
    assert_eq!(BracketStyle::Square.right(), ']');
    assert_eq!(BracketStyle::Angle.left_str(), "<");
    assert_eq!(BracketStyle::Angle.right_str(), ">");
    assert_eq!(BracketStyle::Round.right(), ')');
    let config = BracketConfig { left: BracketStyle::Line, right: BracketStyle::Round };
    assert_eq!(config.left.left_str(), "|");
    assert_eq!(config.right.right_str(), ")");
}

#[test]
fn simplify_number_formats() {
    assert_eq!(simplify_number(0), "0");
    assert_eq!(simplify_number(9999), "9999");
    assert_eq!(simplify_number(12345), "12k");
    assert_eq!(simplify_number(3500000), "3M");
    assert_eq!(simplify_number(7200000000), "7T");
    assert_eq!(simplify_number(1500000000000), "1E");
}

#[test]
fn time_labels() {
    let now = TimeParts { secs: 1000000, month0: 5, year: 2020 };
    assert_eq!(time_label(now, TimeParts { secs: 1000001, month0: 5, year: 2020 }), TimeLabel::Now);
    assert_eq!(
        time_label(now, TimeParts { secs: 1000000 - 3600, month0: 5, year: 2020 }),
        TimeLabel::HourMinute
    );
    assert_eq!(
        time_label(now, TimeParts { secs: 1000000 - 5 * 86400, month0: 5, year: 2020 }),
        TimeLabel::Days(5)
    );
    assert_eq!(
        time_label(now, TimeParts { secs: 1000000 - 100 * 86400, month0: 2, year: 2020 }),
        TimeLabel::Months(4)
    );
    assert_eq!(
        time_label(now, TimeParts { secs: 1000000 - 400 * 86400, month0: 4, year: 2019 }),
        TimeLabel::Years(1)
    );
}

#[test]
fn time_label_at_now_checks_the_sent_moment() {
    // A representable moment gets a label; one outside chrono's range does
    // not.
    let sent = TimeParts { secs: 0, month0: 0, year: 1970 };
    assert!(time_label_at_now(sent).is_some());
    let out_of_range = TimeParts { secs: i64::MAX, month0: 0, year: 1970 };
    assert!(time_label_at_now(out_of_range).is_none());
    let bad_month = TimeParts { secs: 0, month0: 12, year: 1970 };
    assert!(time_label_at_now(bad_month).is_none());
}

#[test]
fn visible_messages_selects_most_recent_first() {
    let mut group = MessageGroup::new(meta("g", 10, 5)).unwrap();
    group.add_messages(&vec![msg("m1"), msg("m2"), msg("m3")]);
    group.add_pinned_message(msg("p1"));
    let (pinned, regular) = visible_messages(&group, 3);
    let pinned_ids: Vec<String> = pinned.iter().map(|m| m.id.clone()).collect();
    let regular_ids: Vec<String> = regular.iter().map(|m| m.id.clone()).collect();
    assert_eq!(pinned_ids, vec!["p1".to_owned()]);
    assert_eq!(regular_ids, vec!["m3".to_owned(), "m2".to_owned()]);
}

#[test]
fn visible_messages_pinned_fill_the_limit() {
    let mut group = MessageGroup::new(meta("g", 10, 5)).unwrap();
    group.add_messages(&vec![msg("m1")]);
    group.add_pinned_messages(&vec![msg("p1"), msg("p2")]);
    let (pinned, regular) = visible_messages(&group, 2);
    assert_eq!(pinned.len(), 2);
    assert_eq!(pinned[0].id, "p2");
    assert!(regular.is_empty());
}

#[test]
fn mail_message_picks_subject_and_sender() {
    let headers = vec![
        ("Received".to_owned(), "somewhere".to_owned()),
        ("From".to_owned(), "alice@example.com".to_owned()),
        ("Subject".to_owned(), "hello there".to_owned()),
    ];
    let m = mail_message("id-1".to_owned(), 1700000000, &headers);
    assert_eq!(m.id, "id-1");
    assert_eq!(m.body, "hello there");
    assert_eq!(m.tags, vec!["alice@example.co".to_owned()]);
    assert_eq!(m.time, Some(1700000000));
    assert!(m.counter.is_none());
}

#[test]
fn mail_message_defaults_when_headers_missing() {
    let headers: Vec<(String, String)> = Vec::new();
    let m = mail_message("id-2".to_owned(), 5, &headers);
    assert_eq!(m.body, "No Subject");
    assert_eq!(m.tags, vec![String::new()]);
}

#[test]
fn rebuild_from_mail_replaces_regular_messages() {
    let mut group = MessageGroup::new(meta("g", 10, 5)).unwrap();
    group.add_message(msg("stale"));
    rebuild_from_mail(&mut group, &vec![msg("old"), msg("new")]);
    let ids: Vec<String> = group.msgs().iter_by_recency().iter().map(|e| e.0.clone()).collect();
    assert_eq!(ids, vec!["old".to_owned(), "new".to_owned()]);
}

#[test]
fn mail_sort_is_stable_and_ascending() {
    let entries = vec![
        (5, msg("late")),
        (1, msg("early-a")),
        (1, msg("early-b")),
        (3, msg("middle")),
    ];
    let sorted = nadir::server::sort_mail_by_timestamp(entries);
    let ids: Vec<String> = sorted.iter().map(|e| e.1.id.clone()).collect();
    assert_eq!(
        ids,
        vec![
            "early-a".to_owned(),
            "early-b".to_owned(),
            "middle".to_owned(),
            "late".to_owned()
        ]
    );
}

#[test]
fn test_source_generator() {
    assert_eq!(test_step(1), 1u64.wrapping_add(1 << 17).wrapping_add(0));
    let m = test_message(25, 77);
    assert_eq!(m.id, "aaa1");
    assert_eq!(m.tags, vec!["foo1".to_owned()]);
    assert_eq!(m.body, "25");
    assert_eq!(m.time, Some(77));
}

#[test]
fn string_comparisons() {
    assert!(str_lt("a", "b"));
    assert!(str_lt("a", "ab"));
    assert!(!str_lt("b", "a"));
    assert!(!str_lt("a", "a"));
    assert!(str_eq("same", "same"));
    assert!(!str_eq("same", "sam"));
}
