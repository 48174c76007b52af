use ua_gate::evaluate;
use ua_gate::rejection_body;
use ua_gate::should_reject;
use ua_gate::Decision;
use ua_gate::RejectOldIos;
use ua_gate::MIN_SUPPORTED_MAJOR;
use ua_gate::REJECTION_STATUS;

#[test]
fn rejects_major_18() {
    let ua = "Firefox-iOS-Sync/18.0b1 (iPhone; iPhone OS 13.2.2) (Fennec (synctesting))";
    assert!(should_reject(ua));
    assert_eq!(evaluate(Some(ua)), Decision::Reject);
}

#[test]
fn passes_major_25() {
    let ua = "Firefox-iOS-Sync/25.0b3 (iPhone; iPhone OS 15.0) (Firefox)";
    assert!(!should_reject(ua));
    assert_eq!(evaluate(Some(ua)), Decision::Pass);
}

#[test]
fn passes_unrecognized_user_agent() {
    let ua = "Mozilla/5.0 (Macintosh; Intel Mac OS X 10_15)";
    assert!(!should_reject(ua));
    assert_eq!(evaluate(Some(ua)), Decision::Pass);
}

#[test]
fn passes_missing_header() {
    assert_eq!(evaluate(None), Decision::Pass);
}

#[test]
fn rejects_major_19_on_ipad() {
    let ua = "Firefox-iOS-Sync/19.9b2 (iPad; iPhone OS 14.1) (Something (nested))";
    assert!(should_reject(ua));
    assert_eq!(evaluate(Some(ua)), Decision::Reject);
}

#[test]
fn passes_major_at_threshold() {
    let ua = "Firefox-iOS-Sync/20.0b1 (iPhone; iPhone OS 13.2.2) (Fennec)";
    assert!(!should_reject(ua));
}

#[test]
fn rejects_major_with_leading_zeros() {
    let ua = "Firefox-iOS-Sync/019.0b1 (iPhone; iPhone OS 13.2.2) (Fennec)";
    assert!(should_reject(ua));
}

#[test]
fn passes_major_at_threshold_with_leading_zeros() {
    let ua = "Firefox-iOS-Sync/0020.0b1 (iPhone; iPhone OS 13.2.2) (Fennec)";
    assert!(!should_reject(ua));
}

#[test]
fn passes_major_too_large_for_u32() {
    let ua = "Firefox-iOS-Sync/99999999999999999999.0b1 (iPhone; iPhone OS 13.2.2) (Fennec)";
    assert!(!should_reject(ua));
}

#[test]
fn rejects_major_zero() {
    let ua = "Firefox-iOS-Sync/0.0b0 (A; iPhone OS 1) ()";
    assert!(should_reject(ua));
}

#[test]
fn passes_empty_string() {
    assert!(!should_reject(""));
}

#[test]
fn passes_prefix_alone() {
    assert!(!should_reject("Firefox-iOS-Sync/"));
}

#[test]
fn passes_without_display_segment() {
    let ua = "Firefox-iOS-Sync/18.0b1 (iPhone; iPhone OS 13.2.2)";
    assert!(!should_reject(ua));
}

#[test]
fn passes_without_build_number() {
    let ua = "Firefox-iOS-Sync/18.0 (iPhone; iPhone OS 13.2.2) (Fennec)";
    assert!(!should_reject(ua));
}

#[test]
fn passes_device_with_space() {
    let ua = "Firefox-iOS-Sync/18.0b1 (iPhone X; iPhone OS 13.2.2) (Fennec)";
    assert!(!should_reject(ua));
}

#[test]
fn passes_newline_in_display_segment() {
    let ua = "Firefox-iOS-Sync/18.0b1 (iPhone; iPhone OS 13.2.2) (Fen\nnec)";
    assert!(!should_reject(ua));
}

#[test]
fn passes_trailing_character_after_display() {
    let ua = "Firefox-iOS-Sync/18.0b1 (iPhone; iPhone OS 13.2.2) (Fennec) ";
    assert!(!should_reject(ua));
}

#[test]
fn passes_leading_character_before_prefix() {
    let ua = " Firefox-iOS-Sync/18.0b1 (iPhone; iPhone OS 13.2.2) (Fennec)";
    assert!(!should_reject(ua));
}

#[test]
fn passes_lowercase_prefix() {
    let ua = "firefox-ios-sync/18.0b1 (iPhone; iPhone OS 13.2.2) (Fennec)";
    assert!(!should_reject(ua));
}

#[test]
fn passes_major_with_letter() {
    let ua = "Firefox-iOS-Sync/1a.0b1 (iPhone; iPhone OS 13.2.2) (Fennec)";
    assert!(!should_reject(ua));
}

#[test]
fn rejects_with_tab_separators() {
    let ua = "Firefox-iOS-Sync/18.0b1\t(iPhone;\tiPhone\tOS\t13.2.2)\t(Fennec)";
    assert!(should_reject(ua));
}

#[test]
fn rejects_dotted_minor_and_underscore_device() {
    let ua = "Firefox-iOS-Sync/19.10.2b456 (iPod_touch; iPhone OS 12.4.1) (App)";
    assert!(should_reject(ua));
}

#[test]
fn evaluate_is_idempotent() {
    let ua = "Firefox-iOS-Sync/18.0b1 (iPhone; iPhone OS 13.2.2) (Fennec (synctesting))";
    let first = evaluate(Some(ua));
    let second = evaluate(Some(ua));
    assert_eq!(first, second);
    assert_eq!(evaluate(None), evaluate(None));
}

#[test]
fn rejection_response_values() {
    assert_eq!(REJECTION_STATUS, 500);
    assert_eq!(rejection_body(), "XXX");
    assert_eq!(MIN_SUPPORTED_MAJOR, 20);
}

#[test]
fn gate_handle_can_be_made() {
    let _gate = RejectOldIos::new();
    let _other = RejectOldIos::default();
}

fn original_pattern() -> regex::Regex {
    regex::Regex::new(
        r"(?x)
^
Firefox-iOS-Sync/
(?P<major>[0-9]+)\.[.0-9]+
b([0-9]+)
\s\([[:word:]]+
;\siPhone\sOS
\s[.0-9]+\)
\s\(.*\)
$
",
    )
    .unwrap()
}

fn reject_by_pattern(re: &regex::Regex, ua: &str) -> bool {
    if let Some(captures) = re.captures(ua) {
        if let Some(major) = captures.name("major") {
            let major = major.as_str().parse::<u32>().unwrap_or(20);
            return major < 20;
        }
    }
    false
}

#[test]
fn agrees_with_reference_pattern() {
    let re = original_pattern();
    let samples = [
        "Firefox-iOS-Sync/18.0b1 (iPhone; iPhone OS 13.2.2) (Fennec (synctesting))",
        "Firefox-iOS-Sync/25.0b3 (iPhone; iPhone OS 15.0) (Firefox)",
        "Mozilla/5.0 (Macintosh; Intel Mac OS X 10_15)",
        "Firefox-iOS-Sync/19.9b2 (iPad; iPhone OS 14.1) (Something (nested))",
        "Firefox-iOS-Sync/20.0b1 (iPhone; iPhone OS 13.2.2) (Fennec)",
        "Firefox-iOS-Sync/019.0b1 (iPhone; iPhone OS 13.2.2) (Fennec)",
        "Firefox-iOS-Sync/0020.0b1 (iPhone; iPhone OS 13.2.2) (Fennec)",
        "Firefox-iOS-Sync/99999999999999999999.0b1 (iPhone; iPhone OS 13.2.2) (Fennec)",
        "Firefox-iOS-Sync/0.0b0 (A; iPhone OS 1) ()",
        "",
        "Firefox-iOS-Sync/",
        "Firefox-iOS-Sync/18.0b1 (iPhone; iPhone OS 13.2.2)",
        "Firefox-iOS-Sync/18.0 (iPhone; iPhone OS 13.2.2) (Fennec)",
        "Firefox-iOS-Sync/18.0b1 (iPhone X; iPhone OS 13.2.2) (Fennec)",
        "Firefox-iOS-Sync/18.0b1 (iPhone; iPhone OS 13.2.2) (Fen\nnec)",
        "Firefox-iOS-Sync/18.0b1 (iPhone; iPhone OS 13.2.2) (Fennec) ",
        " Firefox-iOS-Sync/18.0b1 (iPhone; iPhone OS 13.2.2) (Fennec)",
        "firefox-ios-sync/18.0b1 (iPhone; iPhone OS 13.2.2) (Fennec)",
        "Firefox-iOS-Sync/1a.0b1 (iPhone; iPhone OS 13.2.2) (Fennec)",
        "Firefox-iOS-Sync/18.0b1\t(iPhone;\tiPhone\tOS\t13.2.2)\t(Fennec)",
        "Firefox-iOS-Sync/19.10.2b456 (iPod_touch; iPhone OS 12.4.1) (App)",
        "Firefox-iOS-Sync/18.0b1b2 (iPhone; iPhone OS 13.2.2) (Fennec)",
        "Firefox-iOS-Sync/18..0b1 (iPhone; iPhone OS 13.2.2) (Fennec)",
        "Firefox-iOS-Sync/18.0b1 (iPhone;iPhone OS 13.2.2) (Fennec)",
        "Firefox-iOS-Sync/18.0b1 (iPhone; iphone OS 13.2.2) (Fennec)",
        "Firefox-iOS-Sync/18.0b1 (iPhone; iPhone OS 13.2.2) Fennec",
        "Firefox-iOS-Sync/18.0b1\u{a0}(iPhone;\u{a0}iPhone\u{2003}OS\u{a0}13.2.2)\u{a0}(Fennec)",
        "Firefox-iOS-Sync/18.0b1 (iPhone; iPhone OS 13.2.2) ()",
    ];
    for ua in samples {
        assert_eq!(
            should_reject(ua),
            reject_by_pattern(&re, ua),
            "divergence on {ua:?}"
        );
    }
}
