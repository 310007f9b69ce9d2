//! The messages in which the control plane sends the configuration of the
//! source-IP router.

use vstd::prelude::*;

verus! {

/// The configuration of the source-IP router: its routes, in the order in
/// which they are tried.
#[derive(Clone, Debug, PartialEq, Eq)]
pub struct SourceIpRouter {
    pub routes: Vec<Route>,
}

/// One route: its sources in CIDR notation and the `host:port` to which
/// their packets go.
#[derive(Clone, Debug, PartialEq, Eq)]
pub struct Route {
    pub sources: Vec<String>,
    pub endpoint: String,
}

/// The texts of strings.
pub open spec fn string_views(strings: Seq<String>) -> Seq<Seq<char>> {
    strings.map_values(|text: String| text@)
}

/// The views of routes.
pub open spec fn route_views(routes: Seq<Route>) -> Seq<RouteView> {
    routes.map_values(|route: Route| route@)
}

/// A [`Route`] as plain values.
pub struct RouteView {
    pub sources: Seq<Seq<char>>,
    pub endpoint: Seq<char>,
}

impl View for Route {
    type V = RouteView;

    open spec fn view(&self) -> RouteView {
        RouteView {
            sources: string_views(self.sources@),
            endpoint: self.endpoint@,
        }
    }
}

impl View for SourceIpRouter {
    type V = Seq<RouteView>;

    open spec fn view(&self) -> Seq<RouteView> {
        route_views(self.routes@)
    }
}

} // verus!
