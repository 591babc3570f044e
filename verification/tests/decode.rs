use quote_stream::snapshot::{default_zero, DecodeError, Snapshot};

fn envelope(
    pid: &str,
    last_dir: &str,
    last_numeric: &str,
    last: &str,
    bid: &str,
    ask: &str,
    high: &str,
    low: &str,
    last_close: &str,
    pc: &str,
    pcp: &str,
    pc_col: &str,
    turnover: &str,
    turnover_numeric: &str,
    time: &str,
    timestamp: &str,
) -> String {
    format!(
        "a[\"{{\\\"message\\\":\\\"pid-{pid}::{{\\\\\\\"pid\\\\\\\":\\\\\\\"{pid}\\\\\\\",\\\\\\\"last_dir\\\\\\\":\\\\\\\"{last_dir}\\\\\\\",\\\\\\\"last_numeric\\\\\\\":{last_numeric},\\\\\\\"last\\\\\\\":\\\\\\\"{last}\\\\\\\",\\\\\\\"bid\\\\\\\":\\\\\\\"{bid}\\\\\\\",\\\\\\\"ask\\\\\\\":\\\\\\\"{ask}\\\\\\\",\\\\\\\"high\\\\\\\":\\\\\\\"{high}\\\\\\\",\\\\\\\"low\\\\\\\":\\\\\\\"{low}\\\\\\\",\\\\\\\"last_close\\\\\\\":\\\\\\\"{last_close}\\\\\\\",\\\\\\\"pc\\\\\\\":\\\\\\\"{pc}\\\\\\\",\\\\\\\"pcp\\\\\\\":\\\\\\\"{pcp}\\\\\\\",\\\\\\\"pc_col\\\\\\\":\\\\\\\"{pc_col}\\\\\\\",\\\\\\\"turnover\\\\\\\":\\\\\\\"{turnover}\\\\\\\",\\\\\\\"turnover_numeric\\\\\\\":{turnover_numeric},\\\\\\\"time\\\\\\\":\\\\\\\"{time}\\\\\\\",\\\\\\\"timestamp\\\\\\\":{timestamp}}}\\\"}}\"]",
    )
}

#[test]
pub fn test_from_str() {
    let pid = "945629";
    let last_dir = "redDir";
    let last_numeric = "12312.4";
    let last = "3,234.5";
    let bid = "3,535.5";
    let ask = "3,567.4";
    let high = "3,678.1";
    let low = "3,452.1";
    let last_close = "3,513.3";
    let pc = "-3.3";
    let pcp = "-0.3%";
    let pc_col = "redFont";
    let turnover = "3.51K";
    let turnover_numeric = 3513u32;
    let time = "19:21:50";
    let timestamp = 1606850510u64;
    let src = envelope(
        pid,
        last_dir,
        last_numeric,
        last,
        bid,
        ask,
        high,
        low,
        last_close,
        pc,
        pcp,
        pc_col,
        turnover,
        &format!("{}", turnover_numeric),
        time,
        &format!("{}", timestamp),
    );
    let src = src.as_str();

    let snapshot = Snapshot::from_str(src).expect("a well-formed frame decodes");

    assert_eq!(snapshot.pid, pid);
    assert_eq!(snapshot.last_dir, Some(last_dir.to_string()));
    assert_eq!(snapshot.last_numeric, last_numeric);
    assert_eq!(snapshot.bid, bid);
    assert_eq!(snapshot.ask, ask);
    assert_eq!(snapshot.high, high);
    assert_eq!(snapshot.low, low);
    assert_eq!(snapshot.last_close, last_close);
    assert_eq!(snapshot.pc, pc);
    assert_eq!(snapshot.pcp, pcp);
    assert_eq!(snapshot.pc_col, pc_col);
    assert_eq!(snapshot.turnover, turnover);
    assert_eq!(snapshot.turnover_numeric, turnover_numeric);
    assert_eq!(snapshot.time, time);
    assert_eq!(snapshot.timestamp, timestamp);
}

#[test]
pub fn test_turnover_as_int() {
    let src = r#"{"pid":"945629","last_dir":"redBg","last_numeric":18951.2,"last":"18,951.2","bid":"18,954.0","ask":"18,956.0","high":"19,956.0","low":"18,279.0",
	"last_close":"19,188.0","pc":"-236.8","pcp":"-1.23%","pc_col":"redFont","turnover":"21.50K",
	"turnover_numeric":21503,"time":"19:21:50","timestamp":1606850510}"#;

    let snapshot = Snapshot::from_json(src).unwrap();

    assert_eq!(snapshot.turnover_numeric, 21503);
}

#[test]
pub fn test_turnover_as_str() {
    let src = r#"{"pid":"945629","last_dir":"redBg","last_numeric":18951.2,"last":"18,951.2","bid":"18,954.0","ask":"18,956.0","high":"19,956.0","low":"18,279.0",
	"last_close":"19,188.0","pc":"-236.8","pcp":"-1.23%","pc_col":"redFont","turnover":"21.50K",
	"turnover_numeric":"21503","time":"19:21:50","timestamp":1606850510}"#;

    let snapshot = Snapshot::from_json(src).unwrap();

    assert_eq!(snapshot.turnover_numeric, 21503);
}

#[test]
pub fn test_turnover_empty_str() {
    let src = r#"{"pid":"945629","last_dir":"redBg","last_numeric":18951.2,"last":"18,951.2","bid":"18,954.0","ask":"18,956.0","high":"19,956.0","low":"18,279.0",
	"last_close":"19,188.0","pc":"-236.8","pcp":"-1.23%","pc_col":"redFont","turnover":"21.50K",
	"turnover_numeric":"","time":"19:21:50","timestamp":1606850510}"#;

    let snapshot = Snapshot::from_json(src).unwrap();

    assert_eq!(snapshot.turnover_numeric, 0);
}

#[test]
pub fn test_no_turnover() {
    let src = r#"{"pid":"945629","last_dir":"redBg","last_numeric":18951.2,"last":"18,951.2","bid":"18,954.0","ask":"18,956.0","high":"19,956.0","low":"18,279.0",
	"last_close":"19,188.0","pc":"-236.8","pcp":"-1.23%","pc_col":"redFont","turnover":"21.50K" ,"time":"19:21:50","timestamp":1606850510}"#;

    let snapshot = Snapshot::from_json(src).unwrap();

    assert_eq!(snapshot.turnover_numeric, 0);
}

#[test]
pub fn test_turnover_not_numeric() {
    let src = r#"{"pid":"945629","last_dir":"redBg","last_numeric":18951.2,"last":"18,951.2","bid":"18,954.0","ask":"18,956.0","high":"19,956.0","low":"18,279.0",
	"last_close":"19,188.0","pc":"-236.8","pcp":"-1.23%","pc_col":"redFont","turnover":"21.50K",
	"turnover_numeric":"olia","time":"19:21:50","timestamp":1606850510}"#;

    assert_eq!(Snapshot::from_json(src), Err(DecodeError::InvalidNumber));
}

#[test]
pub fn test_turnover_plus_sign_rejected() {
    let src = r#"{"pid":"945629","last_dir":"redBg","last_numeric":18951.2,"last":"18,951.2","bid":"18,954.0","ask":"18,956.0","high":"19,956.0","low":"18,279.0",
	"last_close":"19,188.0","pc":"-236.8","pcp":"-1.23%","pc_col":"redFont","turnover":"21.50K",
	"turnover_numeric":"+1","time":"19:21:50","timestamp":1606850510}"#;

    assert_eq!(Snapshot::from_json(src), Err(DecodeError::InvalidNumber));
}

#[test]
pub fn test_malformed_number_token_rejected() {
    let src = r#"{"pid":"945629","last_dir":"redBg","last_numeric":1.2.3,"last":"18,951.2","bid":"18,954.0","ask":"18,956.0","high":"19,956.0","low":"18,279.0",
	"pc":"-236.8","pcp":"-1.23%","pc_col":"redFont","time":"19:21:50","timestamp":1606850510}"#;

    assert_eq!(Snapshot::from_json(src), Err(DecodeError::InvalidJson));
}

#[test]
pub fn test_leading_zero_number_rejected() {
    let src = r#"{"pid":"945629","last_dir":"redBg","last_numeric":01,"last":"18,951.2","bid":"18,954.0","ask":"18,956.0","high":"19,956.0","low":"18,279.0",
	"pc":"-236.8","pcp":"-1.23%","pc_col":"redFont","time":"19:21:50","timestamp":1606850510}"#;

    assert_eq!(Snapshot::from_json(src), Err(DecodeError::InvalidJson));
}

#[test]
pub fn test_signed_exponent_number_accepted() {
    let src = r#"{"pid":"945629","last_dir":"redBg","last_numeric":-1.5e3,"last":"18,951.2","bid":"18,954.0","ask":"18,956.0","high":"19,956.0","low":"18,279.0",
	"pc":"-236.8","pcp":"-1.23%","pc_col":"redFont","time":"19:21:50","timestamp":1606850510}"#;

    let snapshot = Snapshot::from_json(src).unwrap();

    assert_eq!(snapshot.last_numeric, "-1.5e3");
}

#[test]
pub fn test_unknown_key_keyword_value_ignored() {
    let src = r#"{"pid":"945629","last_dir":"redBg","extra_flag":true,"other":null,"last_numeric":18951.2,"last":"18,951.2","bid":"18,954.0","ask":"18,956.0","high":"19,956.0","low":"18,279.0",
	"pc":"-236.8","pcp":"-1.23%","pc_col":"redFont","time":"19:21:50","timestamp":1606850510}"#;

    let snapshot = Snapshot::from_json(src).unwrap();

    assert_eq!(snapshot.pid, "945629");
    assert_eq!(snapshot.timestamp, 1606850510);
}

#[test]
pub fn test_keyword_in_known_field_rejected() {
    let src = r#"{"pid":"945629","last_dir":"redBg","last_numeric":18951.2,"last":true,"bid":"18,954.0","ask":"18,956.0","high":"19,956.0","low":"18,279.0",
	"pc":"-236.8","pcp":"-1.23%","pc_col":"redFont","time":"19:21:50","timestamp":1606850510}"#;

    assert_eq!(Snapshot::from_json(src), Err(DecodeError::InvalidJson));
}

#[test]
pub fn test_non_ascii_field_text_passes_through() {
    let src = r#"{"pid":"945629","last_dir":"flèche à la baisse","last_numeric":18951.2,"last":"18 951,2 €","bid":"18,954.0","ask":"18,956.0","high":"19,956.0","low":"18,279.0",
	"pc":"-236.8","pcp":"-1.23%","pc_col":"redFont","time":"19:21:50","timestamp":1606850510}"#;

    let snapshot = Snapshot::from_json(src).unwrap();

    assert_eq!(snapshot.last_dir, Some("flèche à la baisse".to_string()));
    assert_eq!(snapshot.last, "18 951,2 €");
}

#[test]
pub fn test_default_zero() {
    assert_eq!(default_zero(), 0);
}

#[test]
pub fn test_absent_display_fields_default_empty() {
    let src = r#"{"pid":"945629","last_dir":"redBg","last_numeric":18951.2,"last":"18,951.2","bid":"18,954.0","ask":"18,956.0","high":"19,956.0","low":"18,279.0",
	"pc":"-236.8","pcp":"-1.23%","pc_col":"redFont","time":"19:21:50","timestamp":1606850510}"#;

    let snapshot = Snapshot::from_json(src).unwrap();

    assert_eq!(snapshot.last_close, "");
    assert_eq!(snapshot.turnover, "");
    assert_eq!(snapshot.turnover_numeric, 0);
}

#[test]
pub fn test_present_display_fields_passthrough() {
    let src = r#"{"pid":"945629","last_dir":"redBg","last_numeric":18951.2,"last":"18,951.2","bid":"18,954.0","ask":"18,956.0","high":"19,956.0","low":"18,279.0",
	"last_close":"19,188.0","pc":"-236.8","pcp":"-1.23%","pc_col":"redFont","turnover":"21.50K",
	"turnover_numeric":21503,"time":"19:21:50","timestamp":1606850510}"#;

    let snapshot = Snapshot::from_json(src).unwrap();

    assert_eq!(snapshot.last_close, "19,188.0");
    assert_eq!(snapshot.turnover, "21.50K");
}

#[test]
pub fn test_malformed_envelope_no_delimiter() {
    let src = "a[\"{\\\"message\\\":\\\"pid-945629: no inner object here }\\\"}\"]";
    assert_eq!(Snapshot::from_str(src), Err(DecodeError::MalformedEnvelope));
}

#[test]
pub fn test_malformed_envelope_no_closing_brace() {
    let src = "prefix::{ and it never closes";
    assert_eq!(Snapshot::from_str(src), Err(DecodeError::MalformedEnvelope));
}

#[test]
pub fn test_missing_required_field_is_invalid_json() {
    let src = r#"{"pid":"945629","last_numeric":18951.2,"last":"18,951.2"}"#;
    assert_eq!(Snapshot::from_json(src), Err(DecodeError::InvalidJson));
}

#[test]
pub fn test_garbage_is_invalid_json() {
    assert_eq!(Snapshot::from_json("not json at all"), Err(DecodeError::InvalidJson));
}

#[test]
pub fn test_round_trip_known_snapshot() {
    let src = envelope(
        "8984",
        "greenBg",
        "24871.5",
        "24,871.5",
        "24,866.0",
        "24,877.0",
        "24,979.0",
        "24,533.0",
        "24,507.5",
        "+364.0",
        "+1.49%",
        "greenFont",
        "1.02M",
        "1021503",
        "3:20:58",
        "1597116058",
    );

    let snapshot = Snapshot::from_str(src.as_str()).unwrap();

    assert_eq!(snapshot.pid, "8984");
    assert_eq!(snapshot.last_dir, Some("greenBg".to_string()));
    assert_eq!(snapshot.last_numeric, "24871.5");
    assert_eq!(snapshot.last, "24,871.5");
    assert_eq!(snapshot.bid, "24,866.0");
    assert_eq!(snapshot.ask, "24,877.0");
    assert_eq!(snapshot.high, "24,979.0");
    assert_eq!(snapshot.low, "24,533.0");
    assert_eq!(snapshot.last_close, "24,507.5");
    assert_eq!(snapshot.pc, "+364.0");
    assert_eq!(snapshot.pcp, "+1.49%");
    assert_eq!(snapshot.pc_col, "greenFont");
    assert_eq!(snapshot.turnover, "1.02M");
    assert_eq!(snapshot.turnover_numeric, 1021503);
    assert_eq!(snapshot.time, "3:20:58");
    assert_eq!(snapshot.timestamp, 1597116058);
}
