use world_pumpkin::commands::{enabled_text, info_message, short_rev, status_message};
use world_pumpkin::config::Config;
use world_pumpkin::engine::EditQueue;
use world_pumpkin::messages::{body_color, gradient_color, lerp_channel, prefixed_segments, MessageKind, Rgb};

#[test]
fn lerp_channel_blends_linearly_toward_zero() {
    assert_eq!(lerp_channel(104, 190, 0, 11), 104);
    assert_eq!(lerp_channel(104, 190, 11, 11), 190);
    assert_eq!(lerp_channel(104, 190, 5, 11), 143);
    assert_eq!(lerp_channel(200, 100, 1, 3), 167);
}

#[test]
fn brand_gradient_runs_from_start_to_end_colour() {
    assert_eq!(gradient_color(0, 11), Rgb { r: 255, g: 104, b: 24 });
    assert_eq!(gradient_color(11, 11), Rgb { r: 255, g: 190, b: 64 });
    let segments = prefixed_segments(MessageKind::Error, "Nope");
    assert_eq!(segments.len(), 14);
    let brand: String = segments[..12].iter().map(|s| s.text.as_str()).collect();
    assert_eq!(brand, "WORLDPUMPKIN");
    assert!(segments[..13].iter().all(|s| s.bold));
    assert_eq!(segments[12].text, " › ");
    assert_eq!(segments[12].color, Rgb { r: 255, g: 156, b: 42 });
    assert_eq!(segments[13].text, "Nope");
    assert!(!segments[13].bold);
    assert_eq!(segments[13].color, body_color(MessageKind::Error));
    assert_eq!(body_color(MessageKind::Info), Rgb { r: 238, g: 238, b: 238 });
}

#[test]
fn status_report_lists_work_and_limits() {
    let queue: EditQueue<()> = EditQueue::new();
    let config = Config::default();
    assert_eq!(
        status_message(&config, &queue, "20.0"),
        "\nWork: Idle\nLimit: 250000 blocks\nSpeed: 8192 blocks/tick\nFast edits: on\nServer: 20.0 TPS"
    );
    assert_eq!(enabled_text(false), "off");
}

#[test]
fn info_report_names_version_authors_and_api() {
    assert_eq!(
        info_message(
            "0.1.0",
            &["NicDevTV".to_owned(), "Alex".to_owned()],
            "0.2.1",
            "0123456789abcdef",
            "https://github.com/Pumpkin-MC/Pumpkin"
        ),
        "\nVersion: 0.1.0\nAuthors: NicDevTV, Alex\nPumpkin API: 0.2.1 (01234567)\nSource: https://github.com/Pumpkin-MC/Pumpkin"
    );
}

#[test]
fn short_revisions_keep_eight_bytes_when_possible() {
    assert_eq!(short_rev("0123456789abcdef"), "01234567");
    assert_eq!(short_rev("0123"), "0123");
    assert_eq!(short_rev("01234567"), "01234567");
    assert_eq!(short_rev("0123456é9"), "0123456é9");
    assert_eq!(short_rev("012345é9"), "012345é");
}
