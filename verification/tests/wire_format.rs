//! The outbound wire shapes: decimal rendering, the results reply, the
//! ping echo, and the HTTP error bodies.

use ping_relay::encode::encode_detail;
use ping_relay::encode::encode_ping;
use ping_relay::encode::encode_results;
use ping_relay::encode::i64_to_string;
use ping_relay::encode::u64_to_string;
use ping_relay::encode::usize_to_string;
use ping_relay::reject::rejection_body;
use ping_relay::reject::rejection_status;
use ping_relay::RejectionKind;

#[test]
fn unsigned_decimal_rendering() {
    assert_eq!(u64_to_string(0), "0");
    assert_eq!(u64_to_string(7), "7");
    assert_eq!(u64_to_string(1000), "1000");
    assert_eq!(u64_to_string(u64::MAX), "18446744073709551615");
}

#[test]
fn signed_decimal_rendering() {
    assert_eq!(i64_to_string(0), "0");
    assert_eq!(i64_to_string(42), "42");
    assert_eq!(i64_to_string(-5), "-5");
    assert_eq!(i64_to_string(i64::MAX), "9223372036854775807");
    assert_eq!(i64_to_string(i64::MIN), "-9223372036854775808");
}

#[test]
fn count_rendering() {
    assert_eq!(usize_to_string(0), "0");
    assert_eq!(usize_to_string(12), "12");
}

#[test]
fn results_reply_empty_list() {
    let body = encode_results(&vec![]);
    assert_eq!(body, "{\"type\":\"results\",\"list\":[],\"receivedCount\":0}");
}

#[test]
fn results_reply_two_entries() {
    let body = encode_results(&vec![1, 2]);
    assert_eq!(body, "{\"type\":\"results\",\"list\":[1,2],\"receivedCount\":2}");
}

#[test]
fn results_reply_negative_entry() {
    let body = encode_results(&vec![-3]);
    assert_eq!(body, "{\"type\":\"results\",\"list\":[-3],\"receivedCount\":1}");
}

#[test]
fn ping_echo_shape() {
    assert_eq!(encode_ping(1, 1000), "{\"i\":1,\"time\":1000}");
    assert_eq!(encode_ping(-7, 0), "{\"i\":-7,\"time\":0}");
    assert_eq!(
        encode_ping(i64::MIN, u64::MAX),
        "{\"i\":-9223372036854775808,\"time\":18446744073709551615}"
    );
}

#[test]
fn detail_body_shape() {
    assert_eq!(encode_detail("oops"), "{\"detail\":\"oops\"}");
}

#[test]
fn rejection_status_codes() {
    assert_eq!(rejection_status(RejectionKind::NotFound), 404);
    assert_eq!(rejection_status(RejectionKind::InvalidBody), 400);
    assert_eq!(rejection_status(RejectionKind::MethodNotAllowed), 405);
    assert_eq!(rejection_status(RejectionKind::Other), 500);
}

#[test]
fn rejection_bodies() {
    assert_eq!(rejection_body(RejectionKind::NotFound), "{\"detail\":\"Not found\"}");
    assert_eq!(rejection_body(RejectionKind::InvalidBody), "{\"detail\":\"Invalid Body\"}");
    assert_eq!(
        rejection_body(RejectionKind::MethodNotAllowed),
        "{\"detail\":\"Method not allowed\"}"
    );
    assert_eq!(
        rejection_body(RejectionKind::Other),
        "{\"detail\":\"Internal server error\"}"
    );
}
