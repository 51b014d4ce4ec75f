use rust_web_server::handler::{Context, HttpError, IntoResponse, Response};
use rust_web_server::params::Params;

#[test]
fn body_is_collected_once_and_reread_from_memory() {
    let mut ctx = Context::new(b"payload".to_vec(), Params::new());
    assert!(!ctx.is_collected());
    assert!(ctx.body().is_none());

    ctx.collect_body().expect("a pending source must collect");
    assert!(ctx.is_collected());
    assert_eq!(ctx.body().unwrap().as_slice(), b"payload");

    // The second collection is idempotent: same bytes, no transition.
    ctx.collect_body().expect("a collected source must stay collected");
    assert!(ctx.is_collected());
    assert_eq!(ctx.body().unwrap().as_slice(), b"payload");
}

#[test]
fn failing_source_reports_its_error_once() {
    let mut ctx = Context::failing(HttpError::new("connection reset".to_string()), Params::new());
    let err = ctx.collect_body().expect_err("a failing source must fail");
    assert_eq!(err.message().as_str(), "connection reset");

    // The failure is terminal for the source: afterwards the context
    // holds an empty collected body and collecting again succeeds.
    ctx.collect_body().expect("after the failure nothing is re-read");
    assert!(ctx.body().unwrap().is_empty());
}

#[test]
fn params_travel_with_the_context() {
    let mut params = Params::new();
    params.insert("intParam".to_string(), "42".to_string());
    let ctx = Context::new(Vec::new(), params);
    assert_eq!(ctx.params().len(), 1);
    assert_eq!(ctx.params().get("intParam").unwrap().as_str(), "42");
    assert!(ctx.params().get("strParam").is_none());
}

#[test]
fn text_coerces_to_ok_response_with_utf8_body() {
    let resp = "hi".to_string().into_response().unwrap();
    assert_eq!(resp.status(), 200);
    assert_eq!(resp.body().as_slice(), b"hi");
}

#[test]
fn bytes_coerce_to_ok_response() {
    let resp = vec![1u8, 2, 3].into_response().unwrap();
    assert_eq!(resp.status(), 200);
    assert_eq!(resp.body().as_slice(), &[1u8, 2, 3]);
}

#[test]
fn full_response_passes_through_unchanged() {
    let mut built = Response::new(b"made".to_vec());
    built.set_status(201);
    built.add_header("x-tag".to_string(), "v".to_string());
    let resp = built.into_response().unwrap();
    assert_eq!(resp.status(), 201);
    assert_eq!(resp.body().as_slice(), b"made");
}

#[test]
fn absent_value_coerces_to_server_error_with_empty_body() {
    let resp = None::<String>.into_response().unwrap();
    assert_eq!(resp.status(), 500);
    assert!(resp.body().is_empty());

    let present = Some("here".to_string()).into_response().unwrap();
    assert_eq!(present.status(), 200);
    assert_eq!(present.body().as_slice(), b"here");
}

#[test]
fn failed_result_propagates_instead_of_responding() {
    let failed: Result<String, HttpError> = Err(HttpError::new("boom".to_string()));
    let err = failed.into_response().expect_err("failure must propagate");
    assert_eq!(err.message().as_str(), "boom");

    let fine: Result<String, HttpError> = Ok("ok".to_string());
    let resp = fine.into_response().unwrap();
    assert_eq!(resp.status(), 200);
    assert_eq!(resp.body().as_slice(), b"ok");
}
