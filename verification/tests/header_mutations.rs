use std::borrow::Cow;

use http::HeaderMap;
use praxis::header_mutations::{
    SkippedHeader, TrustedHeaderMutation, apply_pending_header_mutations, apply_pre_read_mutations,
    apply_pre_read_mutations_to_request, apply_pre_read_mutations_to_session,
};
use praxis::header_room::{
    has_pending_room, has_request_room, has_session_room, keeps_no_case,
};
use praxis::http_headers::{FieldName, FieldValue};
use praxis::request::Request;

fn make_request() -> Request {
    Request { method: "GET".to_owned(), path: "/".to_owned(), headers: HeaderMap::new() }
}

fn name(text: &str) -> FieldName {
    FieldName::from_bytes(text.as_bytes()).unwrap()
}

fn value(text: &str) -> FieldValue {
    FieldValue::from_str(text).unwrap()
}

fn all(headers: &HeaderMap, name: &str) -> Vec<String> {
    headers.get_all(name).iter().map(|v| v.to_str().unwrap().to_owned()).collect()
}

#[test]
fn pending_mutations_apply_removes_sets_and_adds() {
    let mut headers = HeaderMap::new();
    headers.insert("x-drop", "gone".parse().unwrap());
    headers.insert("x-keep", "kept".parse().unwrap());

    apply_pending_header_mutations(
        &mut headers,
        &[name("x-drop")],
        &[(name("x-set"), value("set-value"))],
        &[(Cow::Borrowed("x-extra"), "extra-value".to_owned())],
    );

    assert!(headers.get("x-drop").is_none(), "removed header should be gone");
    assert_eq!(headers.get("x-keep").unwrap(), "kept", "untouched header survives");
    assert_eq!(headers.get("x-set").unwrap(), "set-value", "set header applied");
    assert_eq!(headers.get("x-extra").unwrap(), "extra-value", "extra header applied");
}

#[test]
fn pending_mutations_apply_set_after_remove_for_the_same_name() {
    let mut headers = HeaderMap::new();
    headers.insert("x-both", "original".parse().unwrap());

    apply_pending_header_mutations(
        &mut headers,
        &[name("x-both")],
        &[(name("x-both"), value("replacement"))],
        &[],
    );

    assert_eq!(
        headers.get("x-both").unwrap(),
        "replacement",
        "set runs after remove, so the set value wins"
    );
}

#[test]
fn pending_extra_headers_replace_rather_than_accumulate() {
    let mut headers = HeaderMap::new();
    headers.insert("x-request-id", "client-supplied".parse().unwrap());

    apply_pending_header_mutations(
        &mut headers,
        &[],
        &[],
        &[(Cow::Borrowed("x-request-id"), "client-supplied".to_owned())],
    );

    assert_eq!(
        headers.get_all("x-request-id").iter().count(),
        1,
        "re-emitting a client-supplied header must not duplicate it"
    );
}

#[test]
fn pending_mutations_skip_invalid_promoted_headers() {
    let mut headers = HeaderMap::new();

    apply_pending_header_mutations(
        &mut headers,
        &[],
        &[],
        &[
            (Cow::Borrowed("bad header name"), "v".to_owned()),
            (Cow::Borrowed("x-good"), "v".to_owned()),
        ],
    );

    assert_eq!(headers.len(), 1, "invalid name is skipped, valid one still applied");
    assert_eq!(headers.get("x-good").unwrap(), "v");
}

#[test]
fn apply_pre_read_mutations_to_request_with_invalid_add() {
    let mut request = make_request();
    let mutations = vec![TrustedHeaderMutation::Add(
        FieldName::from_static("x-test"),
        "valid\r\ninjection".to_owned(),
    )];

    apply_pre_read_mutations_to_request(&mut request, &mutations);

    assert!(!request.headers.contains_key("x-test"), "invalid header value should be skipped");
}

#[test]
fn apply_pre_read_mutations_to_request_remove_set_add_order() {
    let mut request = make_request();
    request.headers.insert(
        http::header::HeaderName::from_static("x-remove"),
        http::header::HeaderValue::from_static("original"),
    );

    let mutations = vec![
        TrustedHeaderMutation::Remove(FieldName::from_static("x-remove")),
        TrustedHeaderMutation::Put(FieldName::from_static("x-set"), value("set-value")),
        TrustedHeaderMutation::Add(FieldName::from_static("x-add"), "add-value".to_owned()),
    ];

    apply_pre_read_mutations_to_request(&mut request, &mutations);

    assert!(!request.headers.contains_key("x-remove"), "removed header is gone");
    assert_eq!(request.headers.get("x-set").unwrap(), "set-value", "set header applied");
    assert_eq!(request.headers.get("x-add").unwrap(), "add-value", "add header applied");
}

#[test]
fn apply_pre_read_mutations_to_request_multiple_add() {
    let mut request = make_request();

    let mutations = vec![
        TrustedHeaderMutation::Add(FieldName::from_static("x-multi"), "value1".to_owned()),
        TrustedHeaderMutation::Add(FieldName::from_static("x-multi"), "value2".to_owned()),
    ];

    apply_pre_read_mutations_to_request(&mut request, &mutations);

    let values: Vec<_> = request.headers.get_all("x-multi").iter().collect();
    assert_eq!(values.len(), 2, "multiple add mutations should append");
    assert_eq!(values[0], "value1");
    assert_eq!(values[1], "value2");
}

#[test]
fn apply_pre_read_mutations_to_request_set_overwrites() {
    let mut request = make_request();
    request.headers.insert(
        http::header::HeaderName::from_static("x-replace"),
        http::header::HeaderValue::from_static("old"),
    );

    let mutations =
        vec![TrustedHeaderMutation::Put(FieldName::from_static("x-replace"), value("new"))];

    apply_pre_read_mutations_to_request(&mut request, &mutations);

    assert_eq!(request.headers.get("x-replace").unwrap(), "new", "set should overwrite");
    let count = request.headers.get_all("x-replace").iter().count();
    assert_eq!(count, 1, "set should not duplicate");
}

fn session_log() -> Vec<TrustedHeaderMutation> {
    vec![
        TrustedHeaderMutation::Add(name("x-multi"), "one".to_owned()),
        TrustedHeaderMutation::Add(name("x-multi"), "two".to_owned()),
        TrustedHeaderMutation::Add(name("x-bad"), "a\nb".to_owned()),
        TrustedHeaderMutation::Remove(name("x-drop")),
        TrustedHeaderMutation::Put(name("X-Set"), value("first")),
        TrustedHeaderMutation::Put(name("x-set"), value("second").with_sensitive(true)),
    ]
}

#[test]
fn session_and_request_see_the_same_headers() {
    let mut session = pingora_http::RequestHeader::build("GET", b"/", None).unwrap();
    session.insert_header("X-Drop", "gone").unwrap();
    session.insert_header("X-Keep", "kept").unwrap();
    let mut request = make_request();
    request.headers.insert("x-drop", "gone".parse().unwrap());
    request.headers.insert("x-keep", "kept".parse().unwrap());

    apply_pre_read_mutations(&mut session, &mut request, &session_log());

    assert_eq!(session.headers, request.headers);
    assert_eq!(all(&session.headers, "x-multi"), vec!["one", "two"]);
    assert_eq!(all(&session.headers, "x-set"), vec!["second"]);
    assert_eq!(all(&session.headers, "x-keep"), vec!["kept"]);
    assert!(session.headers.get("x-set").unwrap().is_sensitive());
    assert!(!session.headers.contains_key("x-drop"));
    assert!(!session.headers.contains_key("x-bad"));
    assert_eq!(session.headers.len(), 4);
}

#[test]
fn sessions_take_no_quoted_names() {
    let mut session = pingora_http::RequestHeader::build("GET", b"/", None).unwrap();
    let mut request = make_request();
    let quoted = FieldName::from_static("x-\"a\"");
    let log = vec![
        TrustedHeaderMutation::Put(quoted.clone(), value("one")),
        TrustedHeaderMutation::Add(quoted, "two".to_owned()),
    ];
    apply_pre_read_mutations(&mut session, &mut request, &log);
    assert!(session.headers.is_empty());
    assert_eq!(request.headers.len(), 2);
}

#[test]
fn mutations_keep_method_and_path() {
    let mut session = pingora_http::RequestHeader::build("PUT", b"/a", None).unwrap();
    let mut request = make_request();
    apply_pre_read_mutations(&mut session, &mut request, &session_log());
    assert_eq!((session.method.as_str(), session.uri.path()), ("PUT", "/a"));
    assert_eq!((request.method.as_str(), request.path.as_str()), ("GET", "/"));
}

#[test]
fn session_mutations_apply_alone() {
    let mut session = pingora_http::RequestHeader::build("GET", b"/", None).unwrap();
    session.insert_header("x-drop", "gone").unwrap();
    apply_pre_read_mutations_to_session(&mut session, &session_log());
    assert_eq!(all(&session.headers, "x-multi"), vec!["one", "two"]);
    assert!(!session.headers.contains_key("x-drop"));
}

#[test]
fn replay_in_parts_is_replay() {
    let mut whole = make_request();
    apply_pre_read_mutations_to_request(&mut whole, &session_log());
    let mut parts = make_request();
    let log = session_log();
    apply_pre_read_mutations_to_request(&mut parts, &log[..2]);
    apply_pre_read_mutations_to_request(&mut parts, &log[2..]);
    assert_eq!(whole.headers, parts.headers);
}

#[test]
fn last_mutation_of_a_name_decides() {
    let mut request = make_request();
    let log = vec![
        TrustedHeaderMutation::Put(name("x-a"), value("one")),
        TrustedHeaderMutation::Remove(name("x-a")),
    ];
    apply_pre_read_mutations_to_request(&mut request, &log);
    assert!(!request.headers.contains_key("x-a"));
    let log = vec![
        TrustedHeaderMutation::Remove(name("x-a")),
        TrustedHeaderMutation::Put(name("x-a"), value("one")),
    ];
    apply_pre_read_mutations_to_request(&mut request, &log);
    assert_eq!(all(&request.headers, "x-a"), vec!["one"]);
}

#[test]
fn pending_mutations_are_idempotent() {
    let mut headers = HeaderMap::new();
    headers.insert("x-drop", "gone".parse().unwrap());
    headers.append("x-many", "one".parse().unwrap());
    headers.append("x-many", "two".parse().unwrap());
    let mut once: Option<HeaderMap> = None;
    for _ in 0..2 {
        apply_pending_header_mutations(
            &mut headers,
            &[name("x-drop")],
            &[(name("x-set"), value("set-value"))],
            &[(Cow::Owned("X-Many".to_owned()), "three".to_owned())],
        );
        if let Some(first) = once.take() {
            assert_eq!(headers, first);
        }
        once = Some(headers.clone());
    }
    assert_eq!(all(&headers, "x-many"), vec!["three"]);
}

#[test]
fn pending_extra_with_an_invalid_value_is_skipped() {
    let mut headers = HeaderMap::new();
    headers.insert("x-a", "old".parse().unwrap());
    apply_pending_header_mutations(
        &mut headers,
        &[],
        &[],
        &[(Cow::Borrowed("x-a"), "new\r\nline".to_owned())],
    );
    assert_eq!(all(&headers, "x-a"), vec!["old"]);
}

fn many_headers(count: usize) -> HeaderMap {
    let mut headers = HeaderMap::new();
    for i in 0..count {
        headers.insert(
            http::HeaderName::from_bytes(format!("x-{i}").as_bytes()).unwrap(),
            "v".parse().unwrap(),
        );
    }
    headers
}

fn put(text: &str) -> TrustedHeaderMutation {
    TrustedHeaderMutation::Put(name(text), value("v"))
}

#[test]
fn room_is_counted_in_names() {
    let mut headers = many_headers(6553);
    assert!(has_request_room(&headers, &[put("x-new")]));
    assert!(!has_request_room(&headers, &[put("x-new"), put("x-new")]));
    assert!(has_request_room(&headers, &[put("x-0"), put("x-1")]), "these names are there");
    assert!(has_request_room(
        &headers,
        &[put("x-new"), TrustedHeaderMutation::Remove(name("x-0")), put("x-newer")]
    ));
    headers.insert("x-new", "v".parse().unwrap());
    assert!(!has_request_room(&headers, &[put("x-0")]));
    let invalid = TrustedHeaderMutation::Add(name("x-0"), "a\nb".to_owned());
    assert!(has_request_room(&headers, &[invalid]), "what is skipped takes no room");
    assert!(!has_pending_room(&headers, &[], &[(name("x-0"), value("v"))], &[]));
    assert!(has_pending_room(&headers, &[name("x-0")], &[(name("x-1"), value("v"))], &[]));
    let extra = (Cow::Borrowed("x-0"), "v".to_owned());
    assert!(!has_pending_room(&headers, &[], &[], &[extra]));
    let invalid = (Cow::Borrowed("bad name"), "v".to_owned());
    assert!(has_pending_room(&headers, &[], &[], &[invalid]));
}

#[test]
fn long_logs_of_few_names_find_room() {
    let mut request = make_request();
    let mut session = pingora_http::RequestHeader::build("GET", b"/", None).unwrap();
    let mut log: Vec<TrustedHeaderMutation> =
        (0..7000).map(|_| TrustedHeaderMutation::Remove(name("x-a"))).collect();
    log.extend((0..7000).map(|_| put("x-a")));
    assert!(has_request_room(&request.headers, &log));
    assert!(has_session_room(&session, &log));
    let skipped = apply_pre_read_mutations(&mut session, &mut request, &log);
    assert!(skipped.is_empty());
    assert_eq!(session.headers, request.headers);
    assert_eq!(all(&request.headers, "x-a"), vec!["v"]);
    let extra: Vec<(Cow<'static, str>, String)> =
        (0..7000).map(|i| (Cow::Borrowed("x-b"), i.to_string())).collect();
    assert!(has_pending_room(&request.headers, &[], &[], &extra));
    apply_pending_header_mutations(&mut request.headers, &[], &[], &extra);
    assert_eq!(all(&request.headers, "x-b"), vec!["6999"]);
}

#[test]
fn sessions_take_mutations_with_and_without_letter_cases() {
    let mut kept = pingora_http::RequestHeader::build("GET", b"/", None).unwrap();
    let mut plain = pingora_http::RequestHeader::build_no_case("GET", b"/", None).unwrap();
    assert!(!keeps_no_case(&kept));
    assert!(keeps_no_case(&plain));
    apply_pre_read_mutations_to_session(&mut kept, &session_log());
    apply_pre_read_mutations_to_session(&mut plain, &session_log());
    assert_eq!(kept.headers, plain.headers);
    assert!(!keeps_no_case(&kept));
    assert!(keeps_no_case(&plain));
}

#[test]
fn skipped_entries_are_handed_out() {
    let mut request = make_request();
    let mut session = pingora_http::RequestHeader::build("GET", b"/", None).unwrap();
    assert_eq!(apply_pre_read_mutations_to_request(&mut request, &session_log()), vec![2]);
    assert_eq!(apply_pre_read_mutations_to_session(&mut session, &session_log()), vec![2]);
    assert_eq!(apply_pre_read_mutations(&mut session, &mut request, &session_log()), vec![2]);
    let skipped = apply_pending_header_mutations(
        &mut request.headers,
        &[],
        &[],
        &[
            (Cow::Borrowed("x-ok"), "v".to_owned()),
            (Cow::Borrowed("bad name"), "v".to_owned()),
            (Cow::Borrowed("x-ok"), "a\nb".to_owned()),
            (Cow::Borrowed(""), "\0".to_owned()),
        ],
    );
    assert_eq!(
        skipped,
        vec![
            SkippedHeader { index: 1, invalid_name: true, invalid_value: false },
            SkippedHeader { index: 2, invalid_name: false, invalid_value: true },
            SkippedHeader { index: 3, invalid_name: true, invalid_value: true },
        ]
    );
}

#[test]
fn adds_follow_the_last_reset() {
    let mut request = make_request();
    request.headers.insert("x-a", "old".parse().unwrap());
    let add = |text: &str| TrustedHeaderMutation::Add(name("x-a"), text.to_owned());
    let reset = TrustedHeaderMutation::Put(name("x-a"), value("2"));
    let log = vec![add("1"), reset, add("3"), add("\n"), add("4")];
    apply_pre_read_mutations_to_request(&mut request, &log);
    assert_eq!(all(&request.headers, "x-a"), vec!["2", "3", "4"]);
}

#[test]
fn set_values_need_not_be_text() {
    let mut headers = HeaderMap::new();
    let raw = FieldValue::from_bytes(b"\xff\x80").unwrap();
    apply_pending_header_mutations(&mut headers, &[], &[(name("x-raw"), raw)], &[]);
    assert_eq!(headers.get("x-raw").unwrap().as_bytes(), b"\xff\x80");
}
