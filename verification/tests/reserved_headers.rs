use praxis::error_handling::Rejection;
use praxis::http_headers::FieldName;
use praxis::reserved_headers::{
    is_reserved_internal_header, reject_reserved_internal_headers, reserved_header_count,
};

fn header(names: &[&'static str]) -> pingora_http::RequestHeader {
    let mut header = pingora_http::RequestHeader::build("GET", b"/", None).unwrap();
    for name in names {
        header.append_header(*name, "v").unwrap();
    }
    header
}

#[test]
fn delegates_to_core_is_reserved() {
    let reserved = FieldName::from_static("x-praxis-foo");
    assert!(
        is_reserved_internal_header(&reserved, &vec![]),
        "wrapper must delegate to core for reserved headers"
    );

    let normal = FieldName::from_static("x-custom-header");
    assert!(
        !is_reserved_internal_header(&normal, &vec![]),
        "wrapper must delegate to core for non-reserved headers"
    );
}

#[test]
fn extension_prefixes_are_reserved_too() {
    let prefixes = vec!["x-model-".to_owned(), "x-agent-".to_owned()];
    assert!(is_reserved_internal_header(&FieldName::from_static("x-agent-a"), &prefixes));
    assert!(is_reserved_internal_header(&FieldName::from_static("x-praxis-"), &prefixes));
    assert!(!is_reserved_internal_header(&FieldName::from_static("x-agent"), &prefixes));
    assert!(!is_reserved_internal_header(&FieldName::from_static("x-agent-a"), &vec![]));
}

#[test]
fn requests_with_reserved_headers_are_rejected() {
    let prefixes = vec!["x-model-".to_owned()];
    let request = header(&["host", "X-Praxis-Route", "x-praxis-route", "x-model-name"]);
    assert_eq!(reserved_header_count(&request, &prefixes), 2);
    assert_eq!(reserved_header_count(&request, &vec![]), 1);
    assert_eq!(
        reject_reserved_internal_headers(&request, &prefixes),
        Some(Rejection { status: 400 })
    );
}

#[test]
fn requests_without_reserved_headers_pass() {
    assert_eq!(reject_reserved_internal_headers(&header(&["host", "x-a"]), &vec![]), None);
    assert_eq!(reject_reserved_internal_headers(&header(&[]), &vec![]), None);
}
