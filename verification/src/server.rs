//! The dispatch table: routers grouped by method, and request dispatch.

use vstd::prelude::*;

use crate::handler::{
    coerced_view, not_found_model, Context, ContextModel, Handler, HttpError, Response,
    ResponseModel, SourceModel,
};
use crate::params::Params;
use crate::pattern::{spec_compile, spec_params_of};
use crate::router::{spec_first_match, Route, Router};

verus! {

/// An HTTP request method: the nine standard methods.  Extension
/// methods are not represented, so no route can be registered for one;
/// a caller that meets an extension method on the wire treats the
/// request as unroutable and degrades it to the "not found" response.
#[derive(Clone, Copy, Debug, Hash, PartialEq, Eq, Structural)]
pub enum Method {
    Get,
    Head,
    Post,
    Put,
    Delete,
    Connect,
    Options,
    Trace,
    Patch,
}

/// The index of the router registered for a method, or `-1` when the
/// method has none.
pub open spec fn spec_method_index<H>(routers: Seq<(Method, Router<H>)>, method: Method) -> int
    decreases routers.len(),
{
    if routers.len() == 0 {
        -1
    } else if routers[0].0 == method {
        0
    } else {
        let r = spec_method_index(routers.drop_first(), method);
        if r < 0 {
            -1
        } else {
            r + 1
        }
    }
}

proof fn lemma_method_index_at<H>(routers: Seq<(Method, Router<H>)>, method: Method, i: int)
    requires
        0 <= i < routers.len(),
        routers[i].0 == method,
        forall|j: int| 0 <= j < i ==> routers[j].0 != method,
    ensures
        spec_method_index(routers, method) == i,
    decreases i,
{
    if i > 0 {
        assert(forall|j: int|
            0 <= j < routers.len() - 1 ==> routers.drop_first()[j] == routers[j + 1]);
        lemma_method_index_at(routers.drop_first(), method, i - 1);
    }
}

proof fn lemma_method_index_none<H>(routers: Seq<(Method, Router<H>)>, method: Method)
    requires
        forall|j: int| 0 <= j < routers.len() ==> routers[j].0 != method,
    ensures
        spec_method_index(routers, method) == -1,
    decreases routers.len(),
{
    if routers.len() > 0 {
        assert(forall|j: int|
            0 <= j < routers.len() - 1 ==> routers.drop_first()[j] == routers[j + 1]);
        lemma_method_index_none(routers.drop_first(), method);
    }
}

/// All routers, keyed by method.  Built before serving begins and
/// read-only during request handling.
pub struct Server<H> {
    routers: Vec<(Method, Router<H>)>,
}

/// The outcome dispatch describes: either the canonical "not found"
/// response, or the first matching route's handler applied to a context
/// holding the request body and the captured parameters.
pub open spec fn spec_dispatch<H: Handler>(
    routers: Seq<(Method, Router<H>)>,
    method: Method,
    path: Seq<char>,
    body: Seq<u8>,
) -> Result<ResponseModel, Seq<char>> {
    let mi = spec_method_index(routers, method);
    if mi == -1 {
        Ok(not_found_model())
    } else {
        let routes = routers[mi].1.spec_routes();
        let ri = spec_first_match(routes, path);
        if ri == -1 {
            Ok(not_found_model())
        } else {
            routes[ri].handler.spec_invoke(
                ContextModel {
                    source: SourceModel::Pending(body),
                    params: spec_params_of(routes[ri].pattern@, path),
                },
            )
        }
    }
}

impl<H> Server<H> {
    /// The routers, in the order their methods first appeared.
    pub closed spec fn spec_routers(&self) -> Seq<(Method, Router<H>)> {
        self.routers@
    }

    /// No method maps to more than one router, and every router is
    /// well formed.
    pub open spec fn wf(&self) -> bool {
        &&& forall|i: int, j: int|
            0 <= i < j < self.spec_routers().len() ==> self.spec_routers()[i].0
                != self.spec_routers()[j].0
        &&& forall|i: int|
            0 <= i < self.spec_routers().len() ==> (#[trigger] self.spec_routers()[i]).1.wf()
    }

    /// A dispatch table with no routers.
    pub fn new() -> (r: Server<H>)
        ensures
            r.wf(),
            r.spec_routers() == Seq::<(Method, Router<H>)>::empty(),
    {
        Server { routers: Vec::new() }
    }

    /// Registers a route: the router for `method` is created lazily if
    /// absent, and the compiled template is appended to it.
    ///
    /// The template must already be valid: a malformed one is a
    /// startup-time fault, never a request-time one, and it never adds
    /// a route.  `CompiledPattern::compile` is the validator through
    /// which registration errors are reported before registering.
    pub fn add_route(&mut self, method: Method, path: &str, handler: H)
        requires
            old(self).wf(),
            spec_compile(path@) is Ok,
        ensures
            final(self).wf(),
            ({
                let mi = spec_method_index(final(self).spec_routers(), method);
                let old_mi = spec_method_index(old(self).spec_routers(), method);
                &&& 0 <= mi < final(self).spec_routers().len()
                &&& final(self).spec_routers()[mi].0 == method
                &&& ({
                    let new_routes = final(self).spec_routers()[mi].1.spec_routes();
                    let old_routes = if old_mi == -1 {
                        Seq::<Route<H>>::empty()
                    } else {
                        old(self).spec_routers()[old_mi].1.spec_routes()
                    };
                    &&& new_routes.len() == old_routes.len() + 1
                    &&& new_routes.drop_last() == old_routes
                    &&& new_routes.last().pattern@ == spec_compile(path@)->Ok_0
                    &&& new_routes.last().handler == handler
                })
                &&& (forall|k: int|
                    0 <= k < final(self).spec_routers().len() && k != mi
                        ==> #[trigger] final(self).spec_routers()[k] == old(
                        self,
                    ).spec_routers()[k])
                &&& (old_mi == -1 ==> final(self).spec_routers().len() == old(
                    self,
                ).spec_routers().len() + 1 && mi == old(self).spec_routers().len())
                &&& (old_mi != -1 ==> final(self).spec_routers().len() == old(
                    self,
                ).spec_routers().len() && mi == old_mi)
            }),
    {
        let n = self.routers.len();
        for i in 0..n
            invariant
                n == self.routers@.len(),
                old(self).wf(),
                self == old(self),
                spec_compile(path@) is Ok,
                forall|j: int| 0 <= j < i ==> self.routers@[j].0 != method,
        {
            if self.routers[i].0 == method {
                proof {
                    lemma_method_index_at(self.spec_routers(), method, i as int);
                }
                self.routers[i].1.add_route(path, handler);
                proof {
                    assert(forall|j: int|
                        0 <= j < self.routers@.len() && j != i ==> self.routers@[j] == old(
                            self,
                        ).routers@[j]);
                    lemma_method_index_at(self.spec_routers(), method, i as int);
                }
                return ;
            }
        }
        proof {
            lemma_method_index_none(self.spec_routers(), method);
        }
        let mut router: Router<H> = Router::new();
        router.add_route(path, handler);
        self.routers.push((method, router));
        proof {
            assert(self.routers@.drop_last() =~= old(self).routers@);
            lemma_method_index_at(self.spec_routers(), method, self.routers@.len() - 1);
            assert(router.spec_routes().drop_last() =~= Seq::<Route<H>>::empty());
        }
    }
    /// The router registered for a method, if any: the lookup half of
    /// dispatch, for callers that drive handler invocation themselves.
    pub fn router_for(&self, method: Method) -> (r: Option<&Router<H>>)
        ensures
            r is Some <==> spec_method_index(self.spec_routers(), method) >= 0,
            match r {
                Some(router) => {
                    let mi = spec_method_index(self.spec_routers(), method);
                    &&& 0 <= mi < self.spec_routers().len()
                    &&& *router == self.spec_routers()[mi].1
                },
                None => true,
            },
    {
        let n = self.routers.len();
        for i in 0..n
            invariant
                n == self.routers@.len(),
                forall|j: int| 0 <= j < i ==> self.routers@[j].0 != method,
        {
            if self.routers[i].0 == method {
                proof {
                    lemma_method_index_at(self.spec_routers(), method, i as int);
                }
                return Some(&self.routers[i].1);
            }
        }
        proof {
            lemma_method_index_none(self.spec_routers(), method);
        }
        None
    }
}

impl<H: Handler> Server<H> {
    /// Dispatches one request.
    ///
    /// When no router is registered for the method, or its router finds
    /// no matching route, the canonical "not found" response — status
    /// 404, empty body — is returned and no handler is invoked.
    /// Otherwise a context is built from the request body and the
    /// parameters captured by the first matching route, and that
    /// route's handler is invoked on it, its outcome or failure
    /// returned unchanged.
    pub fn call(&self, method: Method, path: &str, body: Vec<u8>) -> (r: Result<
        Response,
        HttpError,
    >)
        requires
            self.wf(),
        ensures
            coerced_view(r) == spec_dispatch(self.spec_routers(), method, path@, body@),
    {
        let n = self.routers.len();
        for i in 0..n
            invariant
                n == self.routers@.len(),
                self.wf(),
                forall|j: int| 0 <= j < i ==> self.routers@[j].0 != method,
        {
            if self.routers[i].0 == method {
                proof {
                    lemma_method_index_at(self.spec_routers(), method, i as int);
                }
                match self.routers[i].1.get_handler(path) {
                    Some((handler, params)) => {
                        let ctx = Context::new(body, params);
                        return handler.invoke(ctx);
                    },
                    None => {
                        proof {
                            crate::router::lemma_first_match_none(
                                self.routers@[i as int].1.spec_routes(),
                                path@,
                            );
                        }
                        return Ok(Response::not_found());
                    },
                }
            }
        }
        proof {
            lemma_method_index_none(self.spec_routers(), method);
        }
        Ok(Response::not_found())
    }

}

} // verus!
