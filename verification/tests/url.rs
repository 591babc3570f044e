use quote_stream::endpoint::generate_stream_url;
use quote_stream::frames::{
    heartbeat_frame, identity_frame, subscribe_frame, subscription_key, HEARTBEAT_MILLIS,
};
use regex::Regex;

#[test]
pub fn test_generate_stream_url() {
    let url = generate_stream_url();

    assert_eq!(
        Regex::new(r#"wss://stream\d+.forexpros.com/echo/[0-9a-zA-Z]{3}/[0-9a-zA-Z]{8}/websocket"#)
            .unwrap()
            .is_match(url.as_str()),
        true,
        "Generated: {}",
        url
    );
}

#[test]
pub fn test_url_shape_holds_for_many_draws() {
    let re = Regex::new(
        r#"^wss://stream2(\d{2})\.forexpros\.com/echo/([0-9a-f]{3})/([0-9a-f]{8})/websocket$"#,
    )
    .unwrap();
    for _ in 0..10000 {
        let url = generate_stream_url();
        let caps = re.captures(url.as_str()).unwrap_or_else(|| panic!("Generated: {}", url));
        let disc: u32 = caps[1].parse().unwrap();
        assert!(disc <= 99);
        assert_eq!(caps[2].len(), 3);
        assert_eq!(caps[3].len(), 8);
    }
}

#[test]
pub fn test_outbound_frames() {
    assert_eq!(
        subscribe_frame("8984"),
        "[\"{\\\"_event\\\":\\\"bulk-subscribe\\\",\\\"tzID\\\":\\\"8\\\",\\\"message\\\":\\\"pid-8984:\\\"}\"]"
    );
    assert_eq!(identity_frame(), "[\"{\\\"_event\\\":\\\"UID\\\",\\\"UID\\\":0}\"]");
    assert_eq!(
        heartbeat_frame(),
        "[\"{\\\"_event\\\":\\\"heartbeat\\\",\\\"data\\\":\\\"h\\\"}\"]"
    );
    assert_eq!(subscription_key("8984"), "pid-8984::{");
    assert_eq!(HEARTBEAT_MILLIS, 3200);
}
