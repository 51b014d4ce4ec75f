//! The per-request context, the canonical response shape, response
//! coercion, and the handler/middleware calling convention.

use vstd::prelude::*;
use vstd::slice::slice_to_vec;
use vstd::utf8::encode_utf8;

pub use crate::params::Params;

verus! {

/// The status a successful coercion of a plain value gets.
pub const STATUS_OK: u16 = 200;

/// The status of the canonical "not found" response.
pub const STATUS_NOT_FOUND: u16 = 404;

/// The status an absent handler value degrades to.
pub const STATUS_SERVER_ERROR: u16 = 500;

/// A transport-level failure, carried up through the handler chain and
/// surfaced to the caller; it aborts the response for one request only.
#[derive(Clone, Debug)]
pub struct HttpError {
    message: String,
}

impl View for HttpError {
    type V = Seq<char>;

    closed spec fn view(&self) -> Seq<char> {
        self.message@
    }
}

impl HttpError {
    /// A failure described by a message.
    pub fn new(message: String) -> (r: HttpError)
        ensures
            r@ == message@,
    {
        HttpError { message }
    }

    /// The failure's description.
    pub fn message(&self) -> (r: &String)
        ensures
            r@ == self@,
    {
        &self.message
    }
}

/// The abstract shape of a response: status, headers and the finite
/// byte sequence its body producer will yield.
pub struct ResponseModel {
    pub status: u16,
    pub headers: Seq<(Seq<char>, Seq<char>)>,
    pub body: Seq<u8>,
}

/// The canonical response: a status code, pass-through headers, and a
/// body held as its finite byte content.
#[derive(Clone, Debug)]
pub struct Response {
    status: u16,
    headers: Vec<(String, String)>,
    body: Vec<u8>,
}

impl View for Response {
    type V = ResponseModel;

    closed spec fn view(&self) -> ResponseModel {
        ResponseModel {
            status: self.status,
            headers: self.headers@.map_values(|h: (String, String)| (h.0@, h.1@)),
            body: self.body@,
        }
    }
}

/// The canonical "not found" shape: status 404 with an empty body.
pub open spec fn not_found_model() -> ResponseModel {
    ResponseModel { status: STATUS_NOT_FOUND, headers: Seq::empty(), body: Seq::empty() }
}

/// The shape an absent handler value coerces to: status 500, empty body.
pub open spec fn server_error_model() -> ResponseModel {
    ResponseModel { status: STATUS_SERVER_ERROR, headers: Seq::empty(), body: Seq::empty() }
}

impl Response {
    /// A response with the given body, status 200 and no headers.
    pub fn new(body: Vec<u8>) -> (r: Response)
        ensures
            r@ == (ResponseModel { status: STATUS_OK, headers: Seq::empty(), body: body@ }),
    {
        let r = Response { status: STATUS_OK, headers: Vec::new(), body };
        proof {
            assert(r@.headers =~= Seq::<(Seq<char>, Seq<char>)>::empty());
        }
        r
    }

    /// The canonical "not found" response.
    pub fn not_found() -> (r: Response)
        ensures
            r@ == not_found_model(),
    {
        let mut r = Response::new(Vec::new());
        r.set_status(STATUS_NOT_FOUND);
        r
    }

    /// Replaces the status code.
    pub fn set_status(&mut self, status: u16)
        ensures
            final(self)@ == (ResponseModel { status, ..old(self)@ }),
    {
        self.status = status;
    }

    /// The status code.
    pub fn status(&self) -> (r: u16)
        ensures
            r == self@.status,
    {
        self.status
    }

    /// Appends one header.
    pub fn add_header(&mut self, name: String, value: String)
        ensures
            final(self)@ == (ResponseModel {
                headers: old(self)@.headers.push((name@, value@)),
                ..old(self)@
            }),
    {
        self.headers.push((name, value));
        proof {
            assert(self@.headers =~= old(self)@.headers.push((name@, value@)));
        }
    }

    /// The body bytes.
    pub fn body(&self) -> (r: &Vec<u8>)
        ensures
            r@ == self@.body,
    {
        &self.body
    }

    /// The headers, in the order they were added.
    pub fn headers(&self) -> (r: &Vec<(String, String)>)
        ensures
            r@.map_values(|h: (String, String)| (h.0@, h.1@)) == self@.headers,
    {
        &self.headers
    }

    /// Consumes the response, yielding its body bytes.
    pub fn into_body(self) -> (r: Vec<u8>)
        ensures
            r@ == self@.body,
    {
        self.body
    }
}

/// The view of a coerced result: the response shape it carries, or the
/// failure it propagates.
pub open spec fn coerced_view(r: Result<Response, HttpError>) -> Result<ResponseModel, Seq<char>> {
    match r {
        Ok(resp) => Ok(resp@),
        Err(e) => Err(e@),
    }
}

/// The closed set of values a handler may return.  Coercion is total:
/// every value maps to a response or a propagated failure.
pub trait IntoResponse: Sized {
    /// The response or propagated failure this value coerces to.
    spec fn spec_into_response(self) -> Result<ResponseModel, Seq<char>>;

    /// Normalizes this value into the canonical response shape.
    fn into_response(self) -> (r: Result<Response, HttpError>)
        ensures
            coerced_view(r) == self.spec_into_response(),
    ;
}

/// A full response passes through unchanged.
impl IntoResponse for Response {
    open spec fn spec_into_response(self) -> Result<ResponseModel, Seq<char>> {
        Ok(self@)
    }

    fn into_response(self) -> (r: Result<Response, HttpError>) {
        Ok(self)
    }
}

/// Plain text becomes a status-200 response with the text as body.
impl IntoResponse for String {
    open spec fn spec_into_response(self) -> Result<ResponseModel, Seq<char>> {
        Ok(
            ResponseModel {
                status: STATUS_OK,
                headers: Seq::empty(),
                body: encode_utf8(self@),
            },
        )
    }

    fn into_response(self) -> (r: Result<Response, HttpError>) {
        let body = slice_to_vec(self.as_str().as_bytes());
        Ok(Response::new(body))
    }
}

/// Raw bytes become a status-200 response with that body.
impl IntoResponse for Vec<u8> {
    open spec fn spec_into_response(self) -> Result<ResponseModel, Seq<char>> {
        Ok(ResponseModel { status: STATUS_OK, headers: Seq::empty(), body: self@ })
    }

    fn into_response(self) -> (r: Result<Response, HttpError>) {
        Ok(Response::new(self))
    }
}

/// An absent value becomes a status-500 response with an empty body.
impl<D: IntoResponse> IntoResponse for Option<D> {
    open spec fn spec_into_response(self) -> Result<ResponseModel, Seq<char>> {
        match self {
            Some(d) => d.spec_into_response(),
            None => Ok(server_error_model()),
        }
    }

    fn into_response(self) -> (r: Result<Response, HttpError>) {
        match self {
            Some(d) => d.into_response(),
            None => {
                let mut resp = Response::new(Vec::new());
                resp.set_status(STATUS_SERVER_ERROR);
                Ok(resp)
            },
        }
    }
}

/// A failed result propagates its failure to the caller rather than
/// producing a response.
impl<D: IntoResponse> IntoResponse for Result<D, HttpError> {
    open spec fn spec_into_response(self) -> Result<ResponseModel, Seq<char>> {
        match self {
            Ok(d) => d.spec_into_response(),
            Err(e) => Err(e@),
        }
    }

    fn into_response(self) -> (r: Result<Response, HttpError>) {
        match self {
            Ok(d) => d.into_response(),
            Err(e) => Err(e),
        }
    }
}

/// The abstract state of a request's body source.
pub enum SourceModel {
    /// Not yet read; the bytes the transport will deliver on demand.
    Pending(Seq<u8>),
    /// Not yet read; the transport will fail when the body is demanded.
    Failing(Seq<char>),
    /// Already collected; further collection is free and idempotent.
    Collected(Seq<u8>),
}

/// The abstract state of one request's context.
pub struct ContextModel {
    pub source: SourceModel,
    pub params: Map<Seq<char>, Seq<char>>,
}

/// A request's body source.  It transitions from unread to collected
/// exactly once, irreversibly, on first demand; a handler that never
/// demands the body never pays the collection cost.
enum BodySource {
    /// The body has not been demanded; these bytes stand for what the
    /// transport will deliver.
    Pending(Vec<u8>),
    /// The body has not been demanded; the transport will fail when it
    /// is.
    Failing(HttpError),
    /// The body has been collected; it is re-read from here, never from
    /// the transport again.
    Collected(Vec<u8>),
}

/// The per-request state a handler chain consumes: the body source and
/// the parameters captured from the matched route.
pub struct Context {
    source: BodySource,
    params: Params,
}

impl View for Context {
    type V = ContextModel;

    closed spec fn view(&self) -> ContextModel {
        ContextModel {
            source: match self.source {
                BodySource::Pending(b) => SourceModel::Pending(b@),
                BodySource::Failing(e) => SourceModel::Failing(e@),
                BodySource::Collected(b) => SourceModel::Collected(b@),
            },
            params: self.params@,
        }
    }
}

/// What collecting the body does to a context: a pending source yields
/// its bytes and becomes collected; a failing source reports its error
/// and leaves an empty collected body behind; a collected source is
/// returned as it is, without touching the transport again.
pub open spec fn spec_collect(m: ContextModel) -> (ContextModel, Result<(), Seq<char>>) {
    match m.source {
        SourceModel::Pending(b) => (
            ContextModel { source: SourceModel::Collected(b), ..m },
            Ok(()),
        ),
        SourceModel::Failing(e) => (
            ContextModel { source: SourceModel::Collected(Seq::empty()), ..m },
            Err(e),
        ),
        SourceModel::Collected(_) => (m, Ok(())),
    }
}

/// Collecting a body is idempotent: once a context has collected its
/// body, collecting again succeeds, changes nothing, and so returns the
/// identical bytes without reading the transport a second time.
pub proof fn lemma_collect_idempotent(m: ContextModel)
    ensures
        spec_collect(spec_collect(m).0).0 == spec_collect(m).0,
        spec_collect(spec_collect(m).0).1 == Ok::<(), Seq<char>>(()),
        spec_collect(m).0.source is Collected,
{
}

impl Context {
    /// The captured parameter names are distinct.
    pub closed spec fn wf(&self) -> bool {
        self.params.wf()
    }

    /// A fresh context whose body has not been read, with the given
    /// parameter set.
    pub fn new(body: Vec<u8>, params: Params) -> (r: Context)
        requires
            params.wf(),
        ensures
            r.wf(),
            r@ == (ContextModel { source: SourceModel::Pending(body@), params: params@ }),
    {
        Context { source: BodySource::Pending(body), params }
    }

    /// A fresh context whose body source will fail on first demand.
    pub fn failing(error: HttpError, params: Params) -> (r: Context)
        requires
            params.wf(),
        ensures
            r.wf(),
            r@ == (ContextModel { source: SourceModel::Failing(error@), params: params@ }),
    {
        Context { source: BodySource::Failing(error), params }
    }

    /// Collects the body on first demand; afterwards the collected
    /// bytes are returned from memory and the transport is not read a
    /// second time.
    pub fn collect_body(&mut self) -> (r: Result<(), HttpError>)
        ensures
            final(self).wf() == old(self).wf(),
            final(self)@ == spec_collect(old(self)@).0,
            (match r {
                Ok(u) => Ok(()),
                Err(e) => Err(e@),
            }) == spec_collect(old(self)@).1,
    {
        let mut source = BodySource::Collected(Vec::new());
        core::mem::swap(&mut source, &mut self.source);
        match source {
            BodySource::Pending(b) => {
                self.source = BodySource::Collected(b);
                Ok(())
            },
            BodySource::Failing(e) => Err(e),
            BodySource::Collected(b) => {
                self.source = BodySource::Collected(b);
                Ok(())
            },
        }
    }

    /// Whether the body has been collected.
    pub fn is_collected(&self) -> (r: bool)
        ensures
            r == (self@.source is Collected),
    {
        match &self.source {
            BodySource::Collected(_) => true,
            _ => false,
        }
    }

    /// The collected body bytes, once `collect_body` has run.
    pub fn body(&self) -> (r: Option<&Vec<u8>>)
        ensures
            match r {
                Some(b) => self@.source == SourceModel::Collected(b@),
                None => !(self@.source is Collected),
            },
    {
        match &self.source {
            BodySource::Collected(b) => Some(b),
            _ => None,
        }
    }

    /// The parameters captured from the matched route.
    pub fn params(&self) -> (r: &Params)
        ensures
            r.wf() == self.wf(),
            r@ == self@.params,
    {
        &self.params
    }
}

/// A unit of request processing: it consumes a request context and
/// produces a response-convertible value, already coerced.
///
/// Handler values are shared read-only across requests; this crate
/// models each one as a function of the context it consumes, stated by
/// its `spec_invoke`.
pub trait Handler {
    /// The coerced outcome this handler produces for a context.  An
    /// implementation that leaves this unstated promises nothing of
    /// what it returns.
    open spec fn spec_invoke(&self, ctx: ContextModel) -> Result<ResponseModel, Seq<char>> {
        vstd::pervasive::arbitrary()
    }

    /// Processes one request context.
    fn invoke(&self, ctx: Context) -> (r: Result<Response, HttpError>)
        requires
            ctx.wf(),
        ensures
            coerced_view(r) == self.spec_invoke(ctx@),
    ;
}

/// Wraps a handler: given a context and the next handler, it may
/// delegate, transform, or short-circuit without ever calling the next
/// handler.
pub trait Middleware {
    /// The coerced outcome this middleware produces for a context, when
    /// `next` describes the handler it would delegate to.  An
    /// implementation that leaves this unstated promises nothing of
    /// what it returns.
    open spec fn spec_invoke(
        &self,
        ctx: ContextModel,
        next: spec_fn(ContextModel) -> Result<ResponseModel, Seq<char>>,
    ) -> Result<ResponseModel, Seq<char>> {
        vstd::pervasive::arbitrary()
    }

    /// Processes one request context with `next` as the handler to
    /// delegate to.
    fn invoke<H: Handler>(&self, ctx: Context, next: &H) -> (r: Result<Response, HttpError>)
        requires
            ctx.wf(),
        ensures
            coerced_view(r) == self.spec_invoke(
                ctx@,
                (|c: ContextModel| next.spec_invoke(c)),
            ),
    ;
}

/// The handler synthesized by wrapping `handler` with `middleware`:
/// invoking it invokes the middleware with the wrapped handler as next.
pub struct Wrapped<M, H> {
    pub middleware: M,
    pub handler: H,
}

impl<M: Middleware, H: Handler> Handler for Wrapped<M, H> {
    open spec fn spec_invoke(&self, ctx: ContextModel) -> Result<ResponseModel, Seq<char>> {
        self.middleware.spec_invoke(ctx, (|c: ContextModel| self.handler.spec_invoke(c)))
    }

    fn invoke(&self, ctx: Context) -> (r: Result<Response, HttpError>) {
        self.middleware.invoke(ctx, &self.handler)
    }
}

/// Wraps a handler with one middleware, yielding a new handler.
///
/// Wrapping composes outer-to-inner: the middleware wrapped last is
/// entered first, and an outer middleware that never delegates keeps
/// every inner layer, and the handler itself, from being reached.
pub fn add_middleware<H: Handler, M: Middleware>(handler: H, middleware: M) -> (r: Wrapped<M, H>)
    ensures
        r == (Wrapped { middleware, handler }),
{
    Wrapped { middleware, handler }
}

/// Wrapping `h` first with `m1` and then with `m2` yields a handler
/// that enters `m2` first; `m1` stands as `m2`'s next layer, and `h` as
/// `m1`'s: outer-to-inner order equals last-wrapped-to-first-wrapped.
pub proof fn lemma_wrap_order<H: Handler, M1: Middleware, M2: Middleware>(
    h: H,
    m1: M1,
    m2: M2,
    ctx: ContextModel,
)
    ensures
        (Wrapped {
            middleware: m2,
            handler: Wrapped { middleware: m1, handler: h },
        }).spec_invoke(ctx) == m2.spec_invoke(
            ctx,
            (|c: ContextModel| m1.spec_invoke(c, (|c2: ContextModel| h.spec_invoke(c2)))),
        ),
{
    let inner = Wrapped { middleware: m1, handler: h };
    let f = |c: ContextModel| inner.spec_invoke(c);
    let g = |c: ContextModel| m1.spec_invoke(c, (|c2: ContextModel| h.spec_invoke(c2)));
    assert forall|c: ContextModel| #[trigger] f(c) == g(c) by {
        assert(f(c) == inner.spec_invoke(c));
    }
    assert(f =~= g);
}

} // verus!
