use clipboard_history::clipboard_item::ClipboardItem;
use clipboard_history::clipboard_manager::ClipboardManager;
use clipboard_history::monitor::{
    ClipboardEvent, ClipboardMonitor, PollOutcome, PolledContent,
};
use clipboard_history::service::RestorePayload;

#[test]
fn tick_inserts_changed_text_and_skips_repeats() {
    let mut monitor = ClipboardMonitor::new();
    let mut manager = ClipboardManager::new_empty();

    let r = monitor.handle_tick(
        &mut manager,
        PollOutcome::Captured(PolledContent::Text("abc".to_string())),
    );
    assert_eq!(r, (Some(ClipboardEvent::ItemAdded), true));
    assert_eq!(manager.get_history_count(), 1);

    let r = monitor.handle_tick(
        &mut manager,
        PollOutcome::Captured(PolledContent::Text("abc".to_string())),
    );
    assert_eq!(r, (None, false));
    assert_eq!(manager.get_history_count(), 1);

    let r = monitor.handle_tick(
        &mut manager,
        PollOutcome::Captured(PolledContent::Text("xyz".to_string())),
    );
    assert_eq!(r, (Some(ClipboardEvent::ItemAdded), true));
    assert_eq!(manager.get_history_count(), 2);
}

#[test]
fn tick_reports_backend_errors_and_skips_empty_readings() {
    let mut monitor = ClipboardMonitor::new();
    let mut manager = ClipboardManager::new_empty();

    let r = monitor.handle_tick(&mut manager, PollOutcome::BackendError);
    assert_eq!(r, (Some(ClipboardEvent::Error), false));

    let r = monitor.handle_tick(&mut manager, PollOutcome::Empty);
    assert_eq!(r, (None, false));

    let r = monitor.handle_tick(
        &mut manager,
        PollOutcome::Captured(PolledContent::Text("   \t ".to_string())),
    );
    assert_eq!(r, (None, false));
    assert_eq!(manager.get_history_count(), 0);
}

#[test]
fn tick_reports_an_error_for_oversized_content() {
    let mut monitor = ClipboardMonitor::new();
    let mut manager = ClipboardManager::new_empty();

    let r = monitor.handle_tick(
        &mut manager,
        PollOutcome::Captured(PolledContent::Text("x".repeat(10_000_001))),
    );
    assert_eq!(r, (Some(ClipboardEvent::Error), false));
    assert_eq!(manager.get_history_count(), 0);
}

#[test]
fn both_suppression_layers_act_independently() {
    let mut monitor = ClipboardMonitor::new();
    let mut manager = ClipboardManager::new_empty();

    // A manual insert bypasses the monitor's tick fingerprint...
    manager
        .add_clipboard_item(ClipboardItem::new_text("abc".to_string()))
        .unwrap();

    // ...so the monitor still attempts the insert, and the store's own
    // adjacent-duplicate suppression turns it into a no-op success.
    let r = monitor.handle_tick(
        &mut manager,
        PollOutcome::Captured(PolledContent::Text("abc".to_string())),
    );
    assert_eq!(r, (Some(ClipboardEvent::ItemAdded), false));
    assert_eq!(manager.get_history_count(), 1);
}

#[test]
fn monitor_timestamps_never_decrease() {
    let mut monitor = ClipboardMonitor::new();
    let mut manager = ClipboardManager::new_empty();

    for text in ["first", "second", "third"] {
        monitor.handle_tick(
            &mut manager,
            PollOutcome::Captured(PolledContent::Text(text.to_string())),
        );
    }
    let history = manager.get_history();
    assert_eq!(history.len(), 3);
    for pair in history.windows(2) {
        assert!(pair[0].timestamp >= pair[1].timestamp);
    }
}

#[test]
fn captured_images_survive_the_round_trip() {
    let mut monitor = ClipboardMonitor::new();
    let mut manager = ClipboardManager::new_empty();

    // A 2x2 RGBA image: four pixels, four bytes each.
    let pixels: Vec<u8> = vec![
        255, 0, 0, 255, 0, 255, 0, 255, 0, 0, 255, 255, 255, 255, 255, 255,
    ];
    let r = monitor.handle_tick(
        &mut manager,
        PollOutcome::Captured(PolledContent::Image {
            rgba: pixels.clone(),
            width: 2,
            height: 2,
        }),
    );
    assert_eq!(r, (Some(ClipboardEvent::ItemAdded), true));

    let history = manager.get_history();
    assert_eq!(history.len(), 1);
    assert_eq!(history[0].display_content(), "2x2 Png image");

    match clipboard_history::service::prepare_restore(&history[0]) {
        Ok(RestorePayload::Image { rgba, width, height }) => {
            assert_eq!((width, height), (2, 2));
            assert_eq!(rgba, pixels);
        }
        other => panic!("unexpected restore payload: {:?}", other),
    }
}

#[test]
fn a_mismatched_pixel_buffer_reports_an_error() {
    let mut monitor = ClipboardMonitor::new();
    let mut manager = ClipboardManager::new_empty();

    // Three bytes cannot be a 2x2 RGBA image.
    let r = monitor.handle_tick(
        &mut manager,
        PollOutcome::Captured(PolledContent::Image {
            rgba: vec![1, 2, 3],
            width: 2,
            height: 2,
        }),
    );
    assert_eq!(r, (Some(ClipboardEvent::Error), false));
    assert_eq!(manager.get_history_count(), 0);
}

#[test]
fn poll_interval_is_configurable() {
    let monitor = ClipboardMonitor::new();
    assert_eq!(monitor.poll_interval_ms(), 500);
    let monitor = monitor.with_poll_interval(125);
    assert_eq!(monitor.poll_interval_ms(), 125);
}
