//! Route enumeration: the static description of every routable path, for
//! registration with the host HTTP layer. No view is built in this mode.

use vstd::prelude::*;

verus! {

/// One segment of a route pattern's path.
#[derive(Debug, PartialEq, Eq, Hash)]
pub enum PathSegment {
    /// A literal segment.
    Static(String),
    /// A named parameter segment, e.g. `:id`.
    Param(String),
    /// A trailing wildcard segment.
    Splat(String),
}

/// How the host should render a route on the server.
#[derive(Clone, Copy, Debug, PartialEq, Eq, Structural)]
pub enum SsrMode {
    /// Render fully, synchronously, in one pass.
    Sync,
    /// Await all resolution before rendering.
    Async,
    /// Stream markup in document order.
    InOrderStreaming,
    /// Stream markup as it resolves, out of order.
    OutOfOrderStreaming,
}

/// An HTTP method the route answers to.
#[derive(Clone, Copy, Debug, PartialEq, Eq, Structural)]
pub enum Method {
    Get,
    Post,
    Put,
    Patch,
    Delete,
}

/// What the route table yields for one route when enumerating.
pub struct GeneratedRouteData {
    pub segments: Vec<PathSegment>,
    pub mode: SsrMode,
    pub methods: Vec<Method>,
    pub regenerate: bool,
}

/// One entry of the route listing handed to the host server.
pub struct RouteListing {
    pub path: Vec<PathSegment>,
    pub mode: SsrMode,
    pub methods: Vec<Method>,
    pub regenerate: bool,
}

/// The path segments a base prefix contributes.
pub open spec fn base_segments(base: Option<String>) -> Seq<PathSegment> {
    match base {
        Some(b) => seq![PathSegment::Static(b)],
        None => Seq::empty(),
    }
}

/// Enumerate the route table: exactly one listing entry per route pattern, in
/// table order, each path the base prefix followed by the route's own
/// segments, with rendering mode, methods and regeneration policy carried
/// over unchanged. No view is built. The configured fallback is not listed:
/// listing it is known to clash with hosts that reject overlapping routes,
/// and whether it belongs here is left open.
pub fn generate_route_list(base: Option<String>, routes: Vec<GeneratedRouteData>) -> (r: Vec<
    RouteListing,
>)
    ensures
        r@.len() == routes@.len(),
        forall|i: int|
            0 <= i < routes@.len() ==> {
                &&& (#[trigger] r@[i]).path@ == base_segments(base) + routes@[i].segments@
                &&& r@[i].mode == routes@[i].mode
                &&& r@[i].methods@ == routes@[i].methods@
                &&& r@[i].regenerate == routes@[i].regenerate
            },
{
    let ghost orig = routes@;
    let mut rest = routes;
    let mut out: Vec<RouteListing> = Vec::new();
    proof {
        assert(orig.subrange(0, orig.len() as int) =~= orig);
    }
    while rest.len() > 0
        invariant
            out@.len() + rest@.len() == orig.len(),
            rest@ == orig.subrange(out@.len() as int, orig.len() as int),
            forall|i: int|
                0 <= i < out@.len() ==> {
                    &&& (#[trigger] out@[i]).path@ == base_segments(base) + orig[i].segments@
                    &&& out@[i].mode == orig[i].mode
                    &&& out@[i].methods@ == orig[i].methods@
                    &&& out@[i].regenerate == orig[i].regenerate
                },
        decreases rest@.len(),
    {
        let ghost done = out@.len() as int;
        proof {
            assert(rest@[0] == orig[done]);
        }
        let mut data = rest.remove(0);
        let mut path: Vec<PathSegment> = Vec::new();
        match &base {
            Some(b) => {
                path.push(PathSegment::Static(b.clone()));
            },
            None => {},
        }
        proof {
            assert(path@ =~= base_segments(base));
        }
        path.append(&mut data.segments);
        out.push(
            RouteListing {
                path,
                mode: data.mode,
                methods: data.methods,
                regenerate: data.regenerate,
            },
        );
        proof {
            assert(rest@ =~= orig.subrange(done + 1, orig.len() as int));
        }
    }
    out
}

} // verus!
