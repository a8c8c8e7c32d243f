use clipboard_history::clipboard_item::{ClipboardContentType, ClipboardItem, ImageFormat};
use clipboard_history::clipboard_manager::{ClipboardError, ClipboardManager};
use clipboard_history::service::{ClipboardService, RestoreError, RestorePayload};
use clipboard_history::storage::Storage;
use clipboard_history::text::{i64_string, u64_string};

fn small_manager(bound: usize) -> ClipboardManager {
    ClipboardManager::new_with_limits(
        1000,
        bound,
        Storage::new_with_file("scratch_history.json".to_string()),
    )
}

#[test]
fn adjacent_duplicate_yields_length_one() {
    let mut manager = ClipboardManager::new_empty();
    manager
        .add_clipboard_item(ClipboardItem::new_text("same thing".to_string()))
        .unwrap();
    let mutated = manager
        .add_clipboard_item(ClipboardItem::new_text("same thing".to_string()))
        .unwrap();
    assert!(!mutated);
    assert_eq!(manager.get_history_count(), 1);
}

#[test]
fn non_adjacent_duplicates_are_preserved() {
    let mut manager = ClipboardManager::new_empty();
    manager
        .add_clipboard_item(ClipboardItem::new_text("A".to_string()))
        .unwrap();
    manager
        .add_clipboard_item(ClipboardItem::new_text("B".to_string()))
        .unwrap();
    manager
        .add_clipboard_item(ClipboardItem::new_text("A".to_string()))
        .unwrap();
    assert_eq!(manager.get_history_count(), 3);
}

#[test]
fn bound_holds_and_eviction_keeps_most_recent() {
    let mut manager = small_manager(3);
    for text in ["a", "b", "c", "d", "e"] {
        manager
            .add_clipboard_item(ClipboardItem::new_text(text.to_string()))
            .unwrap();
        assert!(manager.get_history_count() <= 3);
    }
    let history = manager.get_history();
    assert_eq!(history.len(), 3);
    let texts: Vec<String> = history.iter().map(|it| it.display_content()).collect();
    assert_eq!(texts, vec!["e".to_string(), "d".to_string(), "c".to_string()]);
}

#[test]
fn newest_entry_sits_at_index_zero() {
    let mut manager = ClipboardManager::new_empty();
    for text in ["one", "two", "three"] {
        manager
            .add_clipboard_item(ClipboardItem::new_text(text.to_string()))
            .unwrap();
        let history = manager.get_history();
        assert_eq!(history[0].display_content(), text.to_string());
    }
}

#[test]
fn equal_content_gives_equal_fingerprints() {
    let a = ClipboardItem::new_text("fingerprint me".to_string());
    let b = ClipboardItem::new_text("fingerprint me".to_string());
    assert_eq!(a.content_hash, b.content_hash);
    assert_ne!(a.id, b.id);
    assert_eq!(a.id.len(), 36);
    assert_eq!(b.id.len(), 36);
}

#[test]
fn changing_any_image_field_changes_the_fingerprint() {
    let base = ClipboardItem::new_image(vec![1, 2, 3, 4], ImageFormat::Png, 100, 50);
    let same = ClipboardItem::new_image(vec![1, 2, 3, 4], ImageFormat::Png, 100, 50);
    let wider = ClipboardItem::new_image(vec![1, 2, 3, 4], ImageFormat::Png, 101, 50);
    let taller = ClipboardItem::new_image(vec![1, 2, 3, 4], ImageFormat::Png, 100, 51);
    let other_format = ClipboardItem::new_image(vec![1, 2, 3, 4], ImageFormat::Jpeg, 100, 50);
    let other_data = ClipboardItem::new_image(vec![1, 2, 3, 5], ImageFormat::Png, 100, 50);
    assert_eq!(base.content_hash, same.content_hash);
    assert_ne!(base.content_hash, wider.content_hash);
    assert_ne!(base.content_hash, taller.content_hash);
    assert_ne!(base.content_hash, other_format.content_hash);
    assert_ne!(base.content_hash, other_data.content_hash);
}

#[test]
fn fingerprint_distinguishes_variants_and_fields() {
    let html_with_plain = ClipboardItem::new_html("<b>x</b>".to_string(), Some("x".to_string()));
    let html_without = ClipboardItem::new_html("<b>x</b>".to_string(), None);
    assert_ne!(html_with_plain.content_hash, html_without.content_hash);

    let one_file = ClipboardItem::new_files(vec!["/a".to_string()]);
    let two_files = ClipboardItem::new_files(vec!["/a".to_string(), "/b".to_string()]);
    assert_ne!(one_file.content_hash, two_files.content_hash);

    let text = ClipboardItem::new_text("x".to_string());
    let other = ClipboardItem::new_other("x".to_string(), "".to_string());
    assert_ne!(text.content_hash, other.content_hash);
}

#[test]
fn content_exactly_at_the_limit_is_accepted() {
    let mut manager = ClipboardManager::new_empty();
    let at_limit = ClipboardItem::new_text("x".repeat(10_000_000));
    assert!(manager.add_clipboard_item(at_limit).is_ok());
    assert_eq!(manager.get_history_count(), 1);
}

#[test]
fn content_one_over_the_limit_is_rejected_with_exact_message() {
    let mut manager = ClipboardManager::new_empty();
    let over_limit = ClipboardItem::new_text("x".repeat(10_000_001));
    let err = manager.add_clipboard_item(over_limit).unwrap_err();
    assert_eq!(
        err,
        ClipboardError::ContentTooLarge { size: 10_000_001, max: 10_000_000 }
    );
    assert_eq!(
        err.message(),
        "Content too large: 10000001 bytes (max: 10000000 bytes)"
    );
    assert_eq!(manager.get_history_count(), 0);
}

#[test]
fn exact_search_is_case_insensitive_and_keeps_order() {
    let mut manager = ClipboardManager::new_empty();
    manager
        .add_clipboard_item(ClipboardItem::new_text("Hello World".to_string()))
        .unwrap();
    manager
        .add_clipboard_item(ClipboardItem::new_text("Rust programming".to_string()))
        .unwrap();
    manager
        .add_clipboard_item(ClipboardItem::new_text("Clipboard manager".to_string()))
        .unwrap();

    let results = manager.search_history("rust");
    assert_eq!(results.len(), 1);
    assert_eq!(results[0].0, 1);
    assert!(results[0].1.display_content().contains("Rust programming"));

    let all = manager.search_history("O");
    let indices: Vec<usize> = all.iter().map(|(i, _)| *i).collect();
    assert_eq!(indices, vec![0, 1, 2]);
}

#[test]
fn search_reads_the_display_text_not_the_preview() {
    let mut manager = ClipboardManager::new_empty();
    manager
        .add_clipboard_item(ClipboardItem::new_text("plain words".to_string()))
        .unwrap();
    // The "[Text] " preview tag is not part of what search reads.
    assert!(manager.search_history("text").is_empty());
    assert!(manager.fuzzy_search_history("[Text]").is_empty());

    // Content past the preview's 100-character cut is still searchable.
    let long = format!("{}needle in the tail", "x".repeat(150));
    manager.add_clipboard_item(ClipboardItem::new_text(long)).unwrap();
    let results = manager.search_history("needle in the tail");
    assert_eq!(results.len(), 1);
    assert_eq!(results[0].0, 0);
    assert!(!manager.fuzzy_search_history("needleinthetail").is_empty());
}

#[test]
fn multi_line_label_counts_lines_not_breaks() {
    // Eleven lines, no trailing break: more than ten lines.
    let eleven = "1\n2\n3\n4\n5\n6\n7\n8\n9\n10\n11".to_string();
    assert_eq!(ClipboardItem::new_text(eleven).analyze_content(), "Multi-line");
    // Ten lines closed by a trailing break: exactly ten lines, not more.
    let ten_closed = "a\na\na\na\na\na\na\na\na\na\n".to_string();
    assert_eq!(ClipboardItem::new_text(ten_closed).analyze_content(), "Text");
}

#[test]
fn numeric_label_accepts_unicode_whitespace() {
    let spaced = "1 2\u{a0}3".to_string();
    assert_eq!(ClipboardItem::new_text(spaced).analyze_content(), "Numeric");
}

#[test]
fn preview_compares_bytes_and_cuts_characters() {
    // Seven characters, fourteen bytes: over a ten-byte limit, so the size
    // note is appended, but the cut keeps all seven characters.
    let item = ClipboardItem::new_text("\u{e9}\u{e9}\u{e9}\u{e9}\u{e9}\u{e9}\u{e9}".to_string());
    assert_eq!(
        item.preview(10),
        "[Text] \u{e9}\u{e9}\u{e9}\u{e9}\u{e9}\u{e9}\u{e9} [14 B...]"
    );
}

#[test]
fn empty_query_matches_every_entry() {
    let mut manager = ClipboardManager::new_empty();
    manager
        .add_clipboard_item(ClipboardItem::new_text("one".to_string()))
        .unwrap();
    manager
        .add_clipboard_item(ClipboardItem::new_text("two".to_string()))
        .unwrap();
    assert_eq!(manager.search_history("").len(), 2);
    let no_hit = manager.search_history("a query far longer than any stored preview text is");
    assert!(no_hit.is_empty());
}

#[test]
fn fuzzy_search_tolerates_typos() {
    let mut manager = ClipboardManager::new_empty();
    manager
        .add_clipboard_item(ClipboardItem::new_text("Hello World".to_string()))
        .unwrap();
    manager
        .add_clipboard_item(ClipboardItem::new_text("Help wanted".to_string()))
        .unwrap();

    let results = manager.fuzzy_search_history("helo");
    assert!(!results.is_empty());
    assert!(results
        .iter()
        .any(|(_, item, _)| item.display_content().contains("Hello World")));
}

#[test]
fn fuzzy_results_are_sorted_by_score_with_stable_ties() {
    let mut manager = ClipboardManager::new_empty();
    for text in ["alpha beta", "alphabet", "beta alpha", "alpha beta"] {
        // Adjacent duplicates aside, all go in.
        manager
            .add_clipboard_item(ClipboardItem::new_text(text.to_string()))
            .unwrap();
    }
    let results = manager.fuzzy_search_history("alpha");
    assert!(!results.is_empty());
    for pair in results.windows(2) {
        let (ia, _, sa) = &pair[0];
        let (ib, _, sb) = &pair[1];
        assert!(sa > sb || (sa == sb && ia < ib));
    }
}

#[test]
fn clear_empties_history_and_zeroes_stats() {
    let mut manager = ClipboardManager::new_empty();
    manager
        .add_clipboard_item(ClipboardItem::new_text("something".to_string()))
        .unwrap();
    manager.clear_history();
    assert!(manager.get_history().is_empty());
    assert_eq!(manager.get_usage_stats(), (0, 0, 0, 0));
}

#[test]
fn usage_stats_are_exact() {
    let mut manager = ClipboardManager::new_empty();
    manager
        .add_clipboard_item(ClipboardItem::new_text("x".repeat(10)))
        .unwrap();
    manager
        .add_clipboard_item(ClipboardItem::new_text("y".repeat(30)))
        .unwrap();
    let (count, total, avg, largest) = manager.get_usage_stats();
    assert_eq!((count, total, avg, largest), (2, 40, 20, 30));
    assert_eq!(manager.get_total_content_size(), 40);
}

#[test]
fn decimal_rendering_is_exact() {
    assert_eq!(u64_string(0), "0");
    assert_eq!(u64_string(12345), "12345");
    assert_eq!(u64_string(1000000), "1000000");
    assert_eq!(i64_string(-42), "-42");
    assert_eq!(i64_string(7), "7");
    assert_eq!(i64_string(i64::MIN), "-9223372036854775808");
}

#[test]
fn size_labels_are_exact() {
    assert_eq!(
        ClipboardItem::new_text("x".repeat(512)).format_content_size(),
        "512 B"
    );
    assert_eq!(
        ClipboardItem::new_text("x".repeat(1536)).format_content_size(),
        "1.5 KB"
    );
    assert_eq!(
        ClipboardItem::new_text("x".repeat(1572864)).format_content_size(),
        "1.5 MB"
    );
}

#[test]
fn display_content_is_exact_per_variant() {
    let image = ClipboardItem::new_image(vec![0u8; 4], ImageFormat::Png, 2, 3);
    assert_eq!(image.display_content(), "2x3 Png image");

    let one_file = ClipboardItem::new_files(vec!["/a".to_string()]);
    assert_eq!(one_file.display_content(), "File: /a");

    let two_files = ClipboardItem::new_files(vec!["/a".to_string(), "/b".to_string()]);
    assert_eq!(two_files.display_content(), "2 files: /a, /b");

    let html = ClipboardItem::new_html("<b>hi</b>".to_string(), Some("hi".to_string()));
    assert_eq!(html.display_content(), "hi");

    let bare_html = ClipboardItem::new_html("<b>hi</b>".to_string(), None);
    assert_eq!(bare_html.display_content(), "<b>hi</b>");

    let other = ClipboardItem::new_other("app/x".to_string(), "AAAA".to_string());
    assert_eq!(other.display_content(), "Binary data (app/x)");
}

#[test]
fn classification_labels_are_exact() {
    let cases: Vec<(&str, &str)> = vec![
        ("  {\"a\": 1}  ", "JSON"),
        ("<p>hello</p>", "HTML/XML"),
        ("see https://example.com now", "URL/Link"),
        ("1\n2\n3\n4\n5\n6\n7\n8\n9\n10\n11", "Multi-line"),
        ("123 456.7 -8", "Numeric"),
        ("h\u{e9}llo", "Unicode/Emoji"),
        ("plain words here", "Text"),
    ];
    for (text, label) in cases {
        let item = ClipboardItem::new_text(text.to_string());
        assert_eq!(item.analyze_content(), label, "for {:?}", text);
    }
    let small = ClipboardItem::new_image(vec![0u8; 4], ImageFormat::Png, 10, 10);
    assert_eq!(small.analyze_content(), "Image");
    let large = ClipboardItem::new_image(vec![0u8; 4], ImageFormat::Png, 4000, 100);
    assert_eq!(large.analyze_content(), "Large Image");
}

#[test]
fn content_type_names_are_exact() {
    assert_eq!(
        ClipboardItem::new_text("t".to_string()).content_type_name(),
        "Text"
    );
    assert_eq!(
        ClipboardItem::new_image(vec![], ImageFormat::Png, 1, 1).content_type_name(),
        "Image"
    );
    assert_eq!(
        ClipboardItem::new_html("h".to_string(), None).content_type_name(),
        "HTML"
    );
    assert_eq!(
        ClipboardItem::new_files(vec![]).content_type_name(),
        "Files"
    );
    assert_eq!(
        ClipboardItem::new_other("a".to_string(), "b".to_string()).content_type_name(),
        "Binary"
    );
}

#[test]
fn preview_truncates_and_annotates() {
    let item = ClipboardItem::new_text("abcdefghij".to_string());
    assert_eq!(item.preview(20), "[Text] abcdefghij");
    let truncated = item.preview(4);
    assert_eq!(truncated, "[Text] abcd [10 B...]");
    let smart = item.smart_preview(4);
    assert_eq!(smart, "[Text] abcd [Text, 10 B...]");
}

#[test]
fn restore_of_missing_index_is_item_not_found() {
    let service = ClipboardService::new_with_manager(ClipboardManager::new_empty());
    assert!(matches!(
        service.copy_to_clipboard(0),
        Err(RestoreError::ItemNotFound)
    ));
}

#[test]
fn restore_decodes_base64_text_payloads() {
    // "aGk=" is the standard base64 encoding of "hi".
    let item = ClipboardItem::new_other("text/plain".to_string(), "aGk=".to_string());
    match clipboard_history::service::prepare_restore(&item) {
        Ok(RestorePayload::Text(t)) => assert_eq!(t, "hi"),
        other => panic!("unexpected restore payload: {:?}", other),
    }
}

#[test]
fn restore_of_corrupt_image_data_fails() {
    let corrupt = ClipboardItem::new(ClipboardContentType::Image {
        data: "!!!not base64!!!".to_string(),
        format: ImageFormat::Png,
        width: 1,
        height: 1,
    });
    assert!(matches!(
        clipboard_history::service::prepare_restore(&corrupt),
        Err(RestoreError::DataCorrupt)
    ));

    let zero_dims = ClipboardItem::new_image(vec![1, 2, 3, 4], ImageFormat::Png, 0, 1);
    assert!(matches!(
        clipboard_history::service::prepare_restore(&zero_dims),
        Err(RestoreError::DataCorrupt)
    ));
}

#[test]
fn restore_joins_file_lists_with_newlines() {
    let files = ClipboardItem::new_files(vec!["/a".to_string(), "/b".to_string()]);
    match clipboard_history::service::prepare_restore(&files) {
        Ok(RestorePayload::Text(t)) => assert_eq!(t, "/a\n/b"),
        other => panic!("unexpected restore payload: {:?}", other),
    }
}

#[test]
fn loading_stored_entries_replays_the_insert_rules() {
    let newest_first = vec![
        ClipboardItem::new_text("a".to_string()),
        ClipboardItem::new_text("a".to_string()),
        ClipboardItem::new_text("b".to_string()),
        ClipboardItem::new_text("x".repeat(10_000_001)),
    ];
    let manager = ClipboardManager::new_with_history(
        newest_first,
        Storage::new_with_file("scratch_history.json".to_string()),
    );
    // The oversized entry is dropped, and the adjacent duplicate collapses.
    let texts: Vec<String> = manager
        .get_history()
        .iter()
        .map(|it| it.display_content())
        .collect();
    assert_eq!(texts, vec!["a".to_string(), "b".to_string()]);
}

#[test]
fn storage_keeps_its_path() {
    let storage = Storage::new_with_file("somewhere/history.json".to_string());
    assert_eq!(storage.get_data_file_path().as_str(), "somewhere/history.json");
    let manager = ClipboardManager::new_with_limits(100, 5, storage);
    assert_eq!(manager.get_storage_path().as_str(), "somewhere/history.json");
}

#[test]
fn unified_search_carries_scores_only_for_fuzzy_results() {
    let mut manager = ClipboardManager::new_empty();
    manager
        .add_clipboard_item(ClipboardItem::new_text("Needle in haystack".to_string()))
        .unwrap();
    let service = ClipboardService::new_with_manager(manager);
    let (exact, fuzzy) = service.search_unified("needle");
    assert_eq!(exact.len(), 1);
    assert_eq!(exact[0].index, 0);
    assert!(exact[0].score.is_none());
    assert!(!fuzzy.is_empty());
    assert!(fuzzy[0].score.is_some());
}
