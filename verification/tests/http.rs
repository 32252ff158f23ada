use coop_runtime::http::{status, status_code, Method};

#[test]
fn status_code_passes_known_codes_through() {
    assert_eq!(status_code(200), 200);
    assert_eq!(status_code(400), 400);
    assert_eq!(status_code(404), 404);
}

#[test]
fn status_code_collapses_unknown_codes() {
    assert_eq!(status_code(301), 501);
    assert_eq!(status_code(0), 501);
    assert_eq!(status_code(-1), 501);
    assert_eq!(status_code(501), 501);
}

#[test]
fn status_phrases() {
    assert_eq!(status(200), "OK");
    assert_eq!(status(400), "BAD REQUEST");
    assert_eq!(status(404), "NOT FOUND");
    assert_eq!(status(500), "NOT IMPLEMENTED");
}

#[test]
fn method_is_comparable() {
    assert_eq!(Method::GET, Method::GET);
}
