//! An ordered collection of routes for one HTTP method.

use vstd::prelude::*;

use crate::params::Params;
use crate::pattern::{pattern_matches, spec_compile, spec_params_of, CompiledPattern};

verus! {

/// One (pattern, handler) binding: created at registration, never
/// mutated afterwards.
pub struct Route<H> {
    pub pattern: CompiledPattern,
    pub handler: H,
}

/// The index of the first route whose pattern matches `path`, or `-1`
/// when none does.  Registration order is the tie-break for overlapping
/// patterns: first registered, first matched.
pub open spec fn spec_first_match<H>(routes: Seq<Route<H>>, path: Seq<char>) -> int
    decreases routes.len(),
{
    if routes.len() == 0 {
        -1
    } else if pattern_matches(routes[0].pattern@, path) {
        0
    } else {
        let r = spec_first_match(routes.drop_first(), path);
        if r < 0 {
            -1
        } else {
            r + 1
        }
    }
}

/// The first-match index is the index whose earlier routes all fail.
pub proof fn lemma_first_match_at<H>(routes: Seq<Route<H>>, path: Seq<char>, i: int)
    requires
        0 <= i < routes.len(),
        pattern_matches(routes[i].pattern@, path),
        forall|j: int| 0 <= j < i ==> !pattern_matches(routes[j].pattern@, path),
    ensures
        spec_first_match(routes, path) == i,
    decreases i,
{
    if i == 0 {
    } else {
        assert(forall|j: int|
            0 <= j < i - 1 ==> routes.drop_first()[j] == routes[j + 1]);
        assert(routes.drop_first()[i - 1] == routes[i]);
        lemma_first_match_at(routes.drop_first(), path, i - 1);
    }
}

/// When no route matches, there is no first match.
pub proof fn lemma_first_match_none<H>(routes: Seq<Route<H>>, path: Seq<char>)
    requires
        forall|j: int| 0 <= j < routes.len() ==> !pattern_matches(routes[j].pattern@, path),
    ensures
        spec_first_match(routes, path) == -1,
    decreases routes.len(),
{
    if routes.len() > 0 {
        assert(forall|j: int|
            0 <= j < routes.len() - 1 ==> routes.drop_first()[j] == routes[j + 1]);
        lemma_first_match_none(routes.drop_first(), path);
    }
}

/// When two routes both match a path, resolution never falls on the
/// later one: the first match stands at or before the earlier of the
/// two, regardless of pattern specificity.  When nothing before the
/// earlier route matches, resolution falls exactly on it.
pub proof fn lemma_first_registered_wins<H>(
    routes: Seq<Route<H>>,
    path: Seq<char>,
    r1: int,
    r2: int,
)
    requires
        0 <= r1 < r2 < routes.len(),
        pattern_matches(routes[r1].pattern@, path),
        pattern_matches(routes[r2].pattern@, path),
    ensures
        0 <= spec_first_match(routes, path) <= r1,
        spec_first_match(routes, path) != r2,
        (forall|j: int| 0 <= j < r1 ==> !pattern_matches(routes[j].pattern@, path))
            ==> spec_first_match(routes, path) == r1,
    decreases r1,
{
    if pattern_matches(routes[0].pattern@, path) {
    } else {
        assert(forall|j: int|
            0 <= j < routes.len() - 1 ==> routes.drop_first()[j] == routes[j + 1]);
        lemma_first_registered_wins(routes.drop_first(), path, r1 - 1, r2 - 1);
    }
}

/// An ordered sequence of routes for a single HTTP method.  The
/// sequence order equals registration order.
pub struct Router<H> {
    routes: Vec<Route<H>>,
}

impl<H> Router<H> {
    /// The registered routes, in registration order.
    pub closed spec fn spec_routes(&self) -> Seq<Route<H>> {
        self.routes@
    }

    /// Every registered pattern has distinct capture names.
    pub open spec fn wf(&self) -> bool {
        forall|i: int|
            0 <= i < self.spec_routes().len() ==> (#[trigger] self.spec_routes()[i]).pattern.wf()
    }

    /// A router with no routes.
    pub fn new() -> (r: Router<H>)
        ensures
            r.wf(),
            r.spec_routes() == Seq::<Route<H>>::empty(),
    {
        Router { routes: Vec::new() }
    }

    /// Compiles the template and appends the route; no earlier route is
    /// recompiled or reordered.
    ///
    /// The template must already be valid: a malformed one is a
    /// startup-time fault, never a request-time one, and it never adds
    /// a route.  `CompiledPattern::compile` is the validator through
    /// which registration errors are reported before registering.
    pub fn add_route(&mut self, path: &str, handler: H)
        requires
            old(self).wf(),
            spec_compile(path@) is Ok,
        ensures
            final(self).wf(),
            final(self).spec_routes().len() == old(self).spec_routes().len() + 1,
            final(self).spec_routes().drop_last() == old(self).spec_routes(),
            final(self).spec_routes().last().pattern@ == spec_compile(path@)->Ok_0,
            final(self).spec_routes().last().handler == handler,
    {
        match CompiledPattern::compile(path) {
            Ok(pattern) => {
                self.routes.push(Route { pattern, handler });
                proof {
                    assert(self.routes@.drop_last() =~= old(self).routes@);
                    assert forall|i: int|
                        0 <= i < self.routes@.len() implies (#[trigger] self.routes@[i])
                        .pattern
                        .wf() by {
                        if i < self.routes@.len() - 1 {
                            assert(self.routes@[i] == old(self).routes@[i]);
                            assert(old(self).spec_routes()[i].pattern.wf());
                        }
                    }
                }
            },
            Err(_) => {
                proof {
                    assert(false);
                }
            },
        }
    }

    /// Resolves a concrete path: candidate patterns are evaluated in
    /// registration order and the first full match wins, together with
    /// the parameters captured from that specific pattern.
    pub fn get_handler(&self, path: &str) -> (r: Option<(&H, Params)>)
        requires
            self.wf(),
        ensures
            r is Some <==> spec_first_match(self.spec_routes(), path@) >= 0,
            match r {
                Some(hp) => {
                    let i = spec_first_match(self.spec_routes(), path@);
                    &&& 0 <= i < self.spec_routes().len()
                    &&& pattern_matches(self.spec_routes()[i].pattern@, path@)
                    &&& *hp.0 == self.spec_routes()[i].handler
                    &&& hp.1.wf()
                    &&& hp.1@ == spec_params_of(self.spec_routes()[i].pattern@, path@)
                },
                None => forall|j: int|
                    0 <= j < self.spec_routes().len() ==> !pattern_matches(
                        (#[trigger] self.spec_routes()[j]).pattern@,
                        path@,
                    ),
            },
    {
        let n = self.routes.len();
        for i in 0..n
            invariant
                n == self.routes@.len(),
                self.wf(),
                forall|j: int|
                    0 <= j < i ==> !pattern_matches(
                        (#[trigger] self.spec_routes()[j]).pattern@,
                        path@,
                    ),
        {
            match self.routes[i].pattern.match_path(path) {
                Some(params) => {
                    proof {
                        lemma_first_match_at(self.spec_routes(), path@, i as int);
                    }
                    return Some((&self.routes[i].handler, params));
                },
                None => {},
            }
        }
        proof {
            lemma_first_match_none(self.spec_routes(), path@);
        }
        None
    }
}

} // verus!
