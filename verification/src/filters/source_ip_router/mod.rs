//! Routing by source address: a packet goes to the endpoint of the first
//! route that has the client's address in one of its networks.

pub mod config;

use crate::bindings::{network_text, parsed_network};
use crate::filters::source_ip_router::config::{
    cidr_views, route_views, Cidr, Config, Network, Route, RouteView,
};
use crate::filters::{
    ConvertProtoConfigError, ConvertProtoConfigErrorView, CreationError, CreationErrorView,
    FilterError, FilterErrorView, ReadContext, ReadContextView, WriteContext,
};
use crate::net::{parsed_address, EndpointAddress, IpAddress};
use crate::proto;
use crate::proto::string_views;
use vstd::prelude::*;

verus! {

/// The name under which a configuration asks for this filter.
pub const NAME: &'static str = "quilkin.filters.source_ip_router.v1alpha1.SourceIpRouter";

// ---------------------------------------------------------------------------
// Between the structured and the binary configuration
// ---------------------------------------------------------------------------

/// A route in binary form: each network as the text that stands for it.
pub open spec fn proto_route(route: RouteView) -> proto::RouteView {
    proto::RouteView {
        sources: route.sources.map_values(|network: Network| network_text(network)),
        endpoint: route.endpoint,
    }
}

/// A configuration in binary form.
pub open spec fn proto_of(config: Seq<RouteView>) -> Seq<proto::RouteView> {
    config.map_values(|route: RouteView| proto_route(route))
}

/// Every text names a network.
pub open spec fn valid_sources(sources: Seq<Seq<char>>) -> bool {
    forall|j: int| 0 <= j < sources.len() ==> parsed_network(#[trigger] sources[j]) is Some
}

/// Every source of every route names a network.
pub open spec fn valid_routes(routes: Seq<proto::RouteView>) -> bool {
    forall|i: int| 0 <= i < routes.len() ==> valid_sources((#[trigger] routes[i]).sources)
}

/// The networks that the texts name.
pub open spec fn networks_of(sources: Seq<Seq<char>>) -> Seq<Network> {
    sources.map_values(|text: Seq<char>| parsed_network(text).unwrap())
}

/// A route in structured form: each source as the network that it names.
pub open spec fn config_route(route: proto::RouteView) -> RouteView {
    RouteView { sources: networks_of(route.sources), endpoint: route.endpoint }
}

/// A configuration in structured form.
pub open spec fn config_of(routes: Seq<proto::RouteView>) -> Seq<RouteView> {
    routes.map_values(|route: proto::RouteView| config_route(route))
}

/// Source `j` of route `i` names no network, and every source before it,
/// in the routes before and in this one, does.
pub open spec fn first_invalid(routes: Seq<proto::RouteView>, i: int, j: int) -> bool {
    &&& 0 <= i < routes.len()
    &&& 0 <= j < routes[i].sources.len()
    &&& parsed_network(routes[i].sources[j]) is None
    &&& valid_routes(routes.take(i))
    &&& valid_sources(routes[i].sources.take(j))
}

/// The error for a source that names no network.
pub open spec fn invalid_cidr(text: Seq<char>) -> ConvertProtoConfigErrorView {
    ConvertProtoConfigErrorView {
        reason: "Invalid CIDR '"@ + text + "': "@ + ("invalid address: "@ + text),
        field: Some("routes.sources"@),
    }
}

/// The texts of a route's networks.
fn source_texts(sources: &Vec<Cidr>) -> (texts: Vec<String>)
    ensures
        string_views(texts@) == cidr_views(sources@).map_values(
            |network: Network| network_text(network),
        ),
        valid_sources(string_views(texts@)),
        networks_of(string_views(texts@)) == cidr_views(sources@),
{
    let mut texts: Vec<String> = Vec::new();
    let mut j: usize = 0;
    while j < sources.len()
        invariant
            j <= sources@.len(),
            texts@.len() == j,
            forall|k: int|
                0 <= k < j ==> (#[trigger] texts@[k])@ == network_text(sources@[k]@)
                    && parsed_network(texts@[k]@) == Some(sources@[k]@),
        decreases sources@.len() - j,
    {
        texts.push(sources[j].to_string());
        j = j + 1;
    }
    proof {
        let views = string_views(texts@);
        assert(views =~= cidr_views(sources@).map_values(
            |network: Network| network_text(network),
        ));
        assert forall|k: int| 0 <= k < views.len() implies parsed_network(#[trigger] views[k])
            is Some by {
            assert(views[k] == texts@[k]@);
        }
        assert(networks_of(views) =~= cidr_views(sources@)) by {
            assert forall|k: int| 0 <= k < views.len() implies networks_of(views)[k]
                == sources@[k]@ by {
                assert(views[k] == texts@[k]@);
            }
        }
    }
    texts
}

impl proto::SourceIpRouter {
    /// Puts a configuration into binary form: each network as text, each
    /// endpoint as it is. [`Config::try_from`] takes the result back to the
    /// configuration it was made from.
    pub fn from(cfg: Config) -> (pb: proto::SourceIpRouter)
        ensures
            pb@ == proto_of(cfg@),
            valid_routes(pb@),
            config_of(pb@) == cfg@,
    {
        let mut routes: Vec<proto::Route> = Vec::new();
        let mut i: usize = 0;
        while i < cfg.routes.len()
            invariant
                i <= cfg.routes@.len(),
                routes@.len() == i,
                forall|k: int|
                    0 <= k < i ==> (#[trigger] routes@[k])@ == proto_route(cfg.routes@[k]@)
                        && valid_sources(routes@[k]@.sources) && config_route(routes@[k]@)
                        == cfg.routes@[k]@,
            decreases cfg.routes@.len() - i,
        {
            let sources = source_texts(&cfg.routes[i].sources);
            let endpoint = cfg.routes[i].endpoint.clone();
            routes.push(proto::Route { sources, endpoint });
            i = i + 1;
        }
        let pb = proto::SourceIpRouter { routes };
        proof {
            assert(pb@ =~= proto_of(cfg@));
            assert(config_of(pb@) =~= cfg@);
        }
        pb
    }
}

/// The networks that a route's sources name, or the index of the first
/// source that names none together with the error for it.
fn parse_sources(sources: &Vec<String>) -> (r: Result<Vec<Cidr>, (usize, ConvertProtoConfigError)>)
    ensures
        match r {
            Ok(cidrs) => valid_sources(string_views(sources@)) && cidr_views(cidrs@) == networks_of(
                string_views(sources@),
            ),
            Err((j, error)) => {
                &&& j < sources@.len()
                &&& parsed_network(string_views(sources@)[j as int]) is None
                &&& valid_sources(string_views(sources@).take(j as int))
                &&& error@ == invalid_cidr(string_views(sources@)[j as int])
            },
        },
{
    let ghost texts = string_views(sources@);
    let mut cidrs: Vec<Cidr> = Vec::new();
    let mut j: usize = 0;
    while j < sources.len()
        invariant
            j <= sources@.len(),
            cidrs@.len() == j,
            texts == string_views(sources@),
            forall|k: int| 0 <= k < j ==> parsed_network(#[trigger] texts[k]) == Some(cidrs@[k]@),
        decreases sources@.len() - j,
    {
        assert(texts[j as int] == sources@[j as int]@);
        match Cidr::from_str(sources[j].as_str()) {
            Ok(cidr) => {
                cidrs.push(cidr);
            },
            Err(invalid) => {
                let mut reason = "Invalid CIDR '".to_owned();
                reason.append(sources[j].as_str());
                reason.append("': ");
                reason.append(invalid.message.as_str());
                proof {
                    assert(reason@ =~= invalid_cidr(texts[j as int]).reason);
                    assert forall|k: int| 0 <= k < texts.take(j as int).len() implies parsed_network(
                        #[trigger] texts.take(j as int)[k],
                    ) is Some by {
                        assert(texts.take(j as int)[k] == texts[k]);
                    }
                }
                return Err(
                    (j, ConvertProtoConfigError::new(reason, Some("routes.sources".to_owned()))),
                );
            },
        }
        j = j + 1;
    }
    proof {
        assert(cidr_views(cidrs@) =~= networks_of(texts)) by {
            assert forall|k: int| 0 <= k < texts.len() implies cidr_views(cidrs@)[k] == networks_of(
                texts,
            )[k] by {
                assert(parsed_network(texts[k]) == Some(cidrs@[k]@));
            }
        }
    }
    Ok(cidrs)
}

impl Config {
    /// Takes over a configuration in binary form. Every source has to name a
    /// network; the first that names none, in reading order, is reported.
    pub fn try_from(pb: proto::SourceIpRouter) -> (r: Result<Config, ConvertProtoConfigError>)
        ensures
            r is Ok <==> valid_routes(pb@),
            match r {
                Ok(cfg) => cfg@ == config_of(pb@),
                Err(error) => exists|i: int, j: int|
                    first_invalid(pb@, i, j) && error@ == invalid_cidr(pb@[i].sources[j]),
            },
    {
        let mut routes: Vec<Route> = Vec::new();
        let mut i: usize = 0;
        while i < pb.routes.len()
            invariant
                i <= pb.routes@.len(),
                routes@.len() == i,
                forall|k: int|
                    0 <= k < i ==> valid_sources((#[trigger] pb.routes@[k])@.sources) && routes@[k]@
                        == config_route(pb.routes@[k]@),
            decreases pb.routes@.len() - i,
        {
            match parse_sources(&pb.routes[i].sources) {
                Ok(sources) => {
                    let endpoint = pb.routes[i].endpoint.clone();
                    routes.push(Route { sources, endpoint });
                },
                Err((j, error)) => {
                    proof {
                        let at = i as int;
                        assert(pb@[at] == pb.routes@[at]@);
                        assert forall|k: int| 0 <= k < pb@.take(at).len() implies valid_sources(
                            (#[trigger] pb@.take(at)[k]).sources,
                        ) by {
                            assert(pb@.take(at)[k] == pb.routes@[k]@);
                        }
                        assert(first_invalid(pb@, at, j as int));
                        assert(!valid_sources(pb@[at].sources));
                    }
                    return Err(error);
                },
            }
            i = i + 1;
        }
        let cfg = Config { routes };
        proof {
            assert forall|k: int| 0 <= k < pb@.len() implies valid_sources(
                (#[trigger] pb@[k]).sources,
            ) by {
                assert(pb@[k] == pb.routes@[k]@);
            }
            assert(cfg@ =~= config_of(pb@));
        }
        Ok(cfg)
    }
}

// ---------------------------------------------------------------------------
// The filter
// ---------------------------------------------------------------------------

/// Rewrites a packet's destinations to the endpoint of the first route that
/// serves the packet's source.
#[derive(Debug)]
pub struct SourceIpRouter {
    routes: Vec<Route>,
}

impl View for SourceIpRouter {
    type V = Seq<RouteView>;

    closed spec fn view(&self) -> Seq<RouteView> {
        route_views(self.routes@)
    }
}

/// One of the route's networks has `ip` in it.
pub open spec fn route_matches(route: RouteView, ip: IpAddress) -> bool {
    exists|j: int| 0 <= j < route.sources.len() && (#[trigger] route.sources[j]).contains(ip)
}

/// The index of the first route at or after `from` that matches `ip`.
pub open spec fn first_match_from(routes: Seq<RouteView>, ip: IpAddress, from: int) -> Option<int>
    decreases routes.len() - from,
{
    if from < 0 || from >= routes.len() {
        None
    } else if route_matches(routes[from], ip) {
        Some(from)
    } else {
        first_match_from(routes, ip, from + 1)
    }
}

/// The index of the first route that matches `ip`.
pub open spec fn first_match(routes: Seq<RouteView>, ip: IpAddress) -> Option<int> {
    first_match_from(routes, ip, 0)
}

/// What the filter makes of a packet: with no matching route the packet
/// stays as it is; else its only destination is the endpoint of the first
/// matching route, and where that endpoint spells no address, the packet
/// fails.
pub open spec fn read_model(routes: Seq<RouteView>, packet: ReadContextView) -> Result<
    ReadContextView,
    FilterErrorView,
> {
    match first_match(routes, packet.source.ip) {
        None => Ok(packet),
        Some(i) => match parsed_address(routes[i].endpoint) {
            Some(address) => Ok(ReadContextView { destinations: seq![address], ..packet }),
            None => Err(FilterErrorView::Custom("Invalid endpoint address"@)),
        },
    }
}

/// Whether one of the route's networks has `ip` in it.
fn route_serves(route: &Route, ip: IpAddress) -> (found: bool)
    ensures
        found == route_matches(route@, ip),
{
    let mut j: usize = 0;
    while j < route.sources.len()
        invariant
            j <= route.sources@.len(),
            forall|k: int| 0 <= k < j ==> !(#[trigger] route@.sources[k]).contains(ip),
        decreases route.sources@.len() - j,
    {
        if route.sources[j].contains(ip) {
            assert(route@.sources[j as int].contains(ip));
            return true;
        }
        j = j + 1;
    }
    false
}

impl SourceIpRouter {
    /// The filter with the routes of `cfg`, in their order.
    pub fn new(cfg: Config) -> (router: SourceIpRouter)
        ensures
            router@ == cfg@,
    {
        SourceIpRouter { routes: cfg.routes }
    }

    /// The filter for a configuration, which has to be there.
    pub fn try_from_config(config: Option<Config>) -> (r: Result<SourceIpRouter, CreationError>)
        ensures
            match r {
                Ok(router) => config is Some && router@ == config->0@,
                Err(error) => config is None && error@ == CreationErrorView::MissingConfig(NAME@),
            },
    {
        match config {
            Some(cfg) => Ok(SourceIpRouter::new(cfg)),
            None => Err(CreationError::MissingConfig(NAME)),
        }
    }

    /// The index of the first route that serves `ip`.
    pub fn find_route(&self, ip: IpAddress) -> (found: Option<usize>)
        ensures
            match found {
                Some(i) => first_match(self@, ip) == Some(i as int) && i < self@.len(),
                None => first_match(self@, ip) is None,
            },
    {
        assert(self@.len() == self.routes@.len());
        let mut i: usize = 0;
        while i < self.routes.len()
            invariant
                i <= self.routes@.len(),
                first_match(self@, ip) == first_match_from(self@, ip, i as int),
                self@.len() == self.routes@.len(),
            decreases self.routes@.len() - i,
        {
            assert(self@[i as int] == self.routes@[i as int]@);
            if route_serves(&self.routes[i], ip) {
                return Some(i);
            }
            i = i + 1;
        }
        None
    }

    /// Routes a packet from a client by its source address. Fails where
    /// the endpoint of the matching route is no address; the packet is then
    /// left as it came.
    pub fn read(&self, ctx: &mut ReadContext) -> (r: Result<(), FilterError>)
        ensures
            match r {
                Ok(_) => read_model(self@, old(ctx)@) == Ok::<ReadContextView, FilterErrorView>(
                    final(ctx)@,
                ),
                Err(error) => read_model(self@, old(ctx)@) == Err::<
                    ReadContextView,
                    FilterErrorView,
                >(error@) && final(ctx)@ == old(ctx)@,
            },
    {
        match self.find_route(ctx.source.ip) {
            Some(i) => {
                assert(self@.len() == self.routes@.len());
                assert(self@[i as int] == self.routes@[i as int]@);
                match EndpointAddress::parse(self.routes[i].endpoint.as_str()) {
                    Some(address) => {
                        ctx.destinations.clear();
                        ctx.destinations.push(address);
                        Ok(())
                    },
                    None => Err(FilterError::Custom("Invalid endpoint address")),
                }
            },
            None => Ok(()),
        }
    }

    /// Lets a packet to a client pass as it is.
    pub fn write(&self, ctx: &mut WriteContext) -> (r: Result<(), FilterError>)
        ensures
            r is Ok,
            *final(ctx) == *old(ctx),
    {
        Ok(())
    }
}

/// First match wins: the route that is chosen matches, and no route before
/// it does; no route is chosen only where none matches.
pub proof fn lemma_first_match_wins(routes: Seq<RouteView>, ip: IpAddress)
    ensures
        match first_match(routes, ip) {
            Some(i) => 0 <= i < routes.len() && route_matches(routes[i], ip) && forall|k: int|
                0 <= k < i ==> !route_matches(#[trigger] routes[k], ip),
            None => forall|k: int| 0 <= k < routes.len() ==> !route_matches(#[trigger] routes[k], ip),
        },
{
    lemma_first_match_from(routes, ip, 0);
}

proof fn lemma_first_match_from(routes: Seq<RouteView>, ip: IpAddress, from: int)
    requires
        0 <= from,
    ensures
        match first_match_from(routes, ip, from) {
            Some(i) => from <= i < routes.len() && route_matches(routes[i], ip) && forall|k: int|
                from <= k < i ==> !route_matches(#[trigger] routes[k], ip),
            None => forall|k: int|
                from <= k < routes.len() ==> !route_matches(#[trigger] routes[k], ip),
        },
    decreases routes.len() - from,
{
    if from < routes.len() && !route_matches(routes[from], ip) {
        lemma_first_match_from(routes, ip, from + 1);
    }
}

/// A packet leaves the filter with the destinations it came with or with
/// exactly one, and with its source and its payload as they were.
pub proof fn lemma_read_keeps_or_replaces(routes: Seq<RouteView>, packet: ReadContextView)
    ensures
        match read_model(routes, packet) {
            Ok(after) => after.source == packet.source && after.contents == packet.contents && (
            after.destinations == packet.destinations || after.destinations.len() == 1),
            Err(_) => true,
        },
{
}

} // verus!
