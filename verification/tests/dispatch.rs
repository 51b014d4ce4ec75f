use rust_web_server::handler::{
    add_middleware, Context, Handler, HttpError, IntoResponse, Middleware, Response,
};
use rust_web_server::params::Params;
use rust_web_server::pattern::{CompiledPattern, TemplateError};
use rust_web_server::router::Router;
use rust_web_server::server::{Method, Server};

/// A handler that echoes one route parameter, tagged so tests can see
/// which handler ran; a missing parameter degrades to an absent value.
struct ParamEcho {
    tag: &'static str,
    name: &'static str,
}

impl Handler for ParamEcho {
    fn invoke(&self, ctx: Context) -> Result<Response, HttpError> {
        match ctx.params().get(self.name) {
            Some(value) => format!("{}={}", self.tag, value).into_response(),
            None => None::<String>.into_response(),
        }
    }
}

/// A handler that answers with fixed text.
struct TextHandler(&'static str);

impl Handler for TextHandler {
    fn invoke(&self, _ctx: Context) -> Result<Response, HttpError> {
        self.0.to_string().into_response()
    }
}

/// A middleware that never calls its next handler.
struct ShortCircuit(&'static str);

impl Middleware for ShortCircuit {
    fn invoke<H: Handler>(&self, _ctx: Context, _next: &H) -> Result<Response, HttpError> {
        self.0.to_string().into_response()
    }
}

/// A middleware that delegates and prefixes the response body.
struct Prefixing(&'static str);

impl Middleware for Prefixing {
    fn invoke<H: Handler>(&self, ctx: Context, next: &H) -> Result<Response, HttpError> {
        let resp = next.invoke(ctx)?;
        let mut body = self.0.as_bytes().to_vec();
        body.extend_from_slice(resp.body());
        Ok(Response::new(body))
    }
}

#[test]
fn dispatch_without_routes_is_not_found() {
    let server: Server<TextHandler> = Server::new();
    let resp = server
        .call(Method::Get, "/hi", Vec::new())
        .expect("dispatch with no routes must not fail");
    assert_eq!(resp.status(), 404);
    assert!(resp.body().is_empty());
}

#[test]
fn dispatch_wrong_method_is_not_found() {
    let mut server: Server<TextHandler> = Server::new();
    server.add_route(Method::Get, "/hi", TextHandler("hi"));
    let resp = server.call(Method::Post, "/hi", Vec::new()).unwrap();
    assert_eq!(resp.status(), 404);
    assert!(resp.body().is_empty());

    let found = server.call(Method::Get, "/hi", Vec::new()).unwrap();
    assert_eq!(found.status(), 200);
    assert_eq!(found.body().as_slice(), b"hi");
}

#[test]
fn typed_placeholders_route_by_shape() {
    // The integer route is registered first; a digit segment stays with
    // it, while a word segment falls through to the string route.
    let mut server: Server<ParamEcho> = Server::new();
    server.add_route(Method::Get, "/echo/:intParam:", ParamEcho { tag: "int", name: "intParam" });
    server.add_route(Method::Get, "/echo/$strParam$", ParamEcho { tag: "str", name: "strParam" });

    let digits = server.call(Method::Get, "/echo/42", Vec::new()).unwrap();
    assert_eq!(digits.status(), 200);
    assert_eq!(digits.body().as_slice(), b"int=42");

    let words = server.call(Method::Get, "/echo/hello", Vec::new()).unwrap();
    assert_eq!(words.status(), 200);
    assert_eq!(words.body().as_slice(), b"str=hello");
}

#[test]
fn first_registered_route_wins_regardless_of_specificity() {
    // "/echo/rust" matches both routes; the placeholder route was
    // registered first, so the literal route is never reached.
    let mut server: Server<ParamEcho> = Server::new();
    server.add_route(Method::Get, "/echo/$strParam$", ParamEcho { tag: "str", name: "strParam" });
    server.add_route(Method::Get, "/echo/rust", ParamEcho { tag: "lit", name: "strParam" });

    let resp = server.call(Method::Get, "/echo/rust", Vec::new()).unwrap();
    assert_eq!(resp.body().as_slice(), b"str=rust");
}

#[test]
fn router_resolves_in_registration_order() {
    let mut router: Router<u32> = Router::new();
    router.add_route("/overlap/$w$", 1);
    router.add_route("/overlap/hit", 2);
    router.add_route("/other", 3);

    let (handler, params) = router.get_handler("/overlap/hit").unwrap();
    assert_eq!(*handler, 1);
    assert_eq!(params.get("w").unwrap().as_str(), "hit");

    let (handler, params) = router.get_handler("/other").unwrap();
    assert_eq!(*handler, 3);
    assert_eq!(params.len(), 0);

    assert!(router.get_handler("/overlap/a-b").is_none());
    assert!(router.get_handler("/overlap").is_none());
}

#[test]
fn registration_errors_are_reported_before_registering() {
    // A template is validated by the compiler before it may be
    // registered; a malformed one never adds a route.
    assert_eq!(
        CompiledPattern::compile("nope").unwrap_err(),
        TemplateError::MissingLeadingSlash
    );
    assert_eq!(
        CompiledPattern::compile("/d/:a:/:a:").unwrap_err(),
        TemplateError::DuplicateParamName
    );
}

#[test]
fn missing_parameter_lookup_degrades_to_server_error() {
    // The route captures no parameter, and the handler asks for one:
    // the lookup reports the mismatch and the absent value becomes 500.
    let mut server: Server<ParamEcho> = Server::new();
    server.add_route(Method::Get, "/fixed", ParamEcho { tag: "x", name: "ghostParam" });
    let resp = server.call(Method::Get, "/fixed", Vec::new()).unwrap();
    assert_eq!(resp.status(), 500);
    assert!(resp.body().is_empty());
}

/// A handler that collects and echoes the request body.
struct BodyEcho;

impl Handler for BodyEcho {
    fn invoke(&self, mut ctx: Context) -> Result<Response, HttpError> {
        ctx.collect_body()?;
        let body = ctx.body().expect("collected above").clone();
        body.into_response()
    }
}

#[test]
fn dispatch_hands_the_body_to_the_handler() {
    let mut server: Server<BodyEcho> = Server::new();
    server.add_route(Method::Post, "/echo", BodyEcho);
    let resp = server
        .call(Method::Post, "/echo", b"round and round".to_vec())
        .unwrap();
    assert_eq!(resp.body().as_slice(), b"round and round");
}

#[test]
fn body_collection_failure_propagates_through_the_chain() {
    let handler = BodyEcho;
    let ctx = Context::failing(
        HttpError::new("connection reset".to_string()),
        Params::new(),
    );
    let err = handler.invoke(ctx).expect_err("the failure must surface");
    assert_eq!(err.message().as_str(), "connection reset");
}

/// A middleware that rejects oversized payloads with status 413, the
/// policy the core deliberately leaves to the middleware mechanism.
struct PayloadLimit(usize);

impl Middleware for PayloadLimit {
    fn invoke<H: Handler>(&self, mut ctx: Context, next: &H) -> Result<Response, HttpError> {
        ctx.collect_body()?;
        if ctx.body().expect("collected above").len() > self.0 {
            let mut resp = Response::new(Vec::new());
            resp.set_status(413);
            return Ok(resp);
        }
        next.invoke(ctx)
    }
}

#[test]
fn payload_limit_middleware_rejects_large_bodies() {
    let limited = add_middleware(BodyEcho, PayloadLimit(4));

    let small = Context::new(b"ok".to_vec(), Params::new());
    let passed = limited.invoke(small).unwrap();
    assert_eq!(passed.status(), 200);
    assert_eq!(passed.body().as_slice(), b"ok");

    let big = Context::new(b"way too large".to_vec(), Params::new());
    let rejected = limited.invoke(big).unwrap();
    assert_eq!(rejected.status(), 413);
}

#[test]
fn short_circuit_middleware_skips_inner_layers() {
    // Wrap H with M1 (short-circuiting) and then M2: the call order is
    // M2 -> M1 -> H, so M2 runs, M1 answers, and H is never reached.
    let wrapped_once = add_middleware(TextHandler("H"), ShortCircuit("M1"));
    let wrapped_twice = add_middleware(wrapped_once, Prefixing("M2:"));
    let ctx = Context::new(Vec::new(), Params::new());
    let resp = wrapped_twice.invoke(ctx).unwrap();
    assert_eq!(resp.body().as_slice(), b"M2:M1");
}
