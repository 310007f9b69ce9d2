//! The filter chain: the filters of a proxy in the order of its
//! configuration. A packet passes them in that order, and each filter sees
//! what the one before it left.

use crate::filters::load_balancer::{one_destination, LoadBalancerFilter, Policy};
use crate::filters::session_router::{
    tokens_after_scan, warning_after_scan, RefreshStep, SessionRouter, SessionRouterView,
    TokenRecord, POLL_INTERVAL_SECS,
};
use crate::filters::source_ip_router::config::RouteView;
use crate::filters::source_ip_router::SourceIpRouter;
use crate::filters::{
    FilterError, FilterErrorView, ReadContext, ReadContextView, WriteContext,
};
use vstd::prelude::*;

verus! {

/// One filter of the chain.
#[derive(Debug)]
pub enum FilterKind {
    LoadBalancer(LoadBalancerFilter),
    SourceIpRouter(SourceIpRouter),
    SessionRouter(SessionRouter),
}

/// A [`FilterKind`] as plain values.
pub enum FilterView {
    LoadBalancer(Policy),
    SourceIpRouter(Seq<RouteView>),
    SessionRouter(SessionRouterView),
}

impl View for FilterKind {
    type V = FilterView;

    open spec fn view(&self) -> FilterView {
        match self {
            FilterKind::LoadBalancer(filter) => FilterView::LoadBalancer(filter.policy()),
            FilterKind::SourceIpRouter(router) => FilterView::SourceIpRouter(router@),
            FilterKind::SessionRouter(router) => FilterView::SessionRouter(router@),
        }
    }
}

/// How a packet fared at a filter: it passed, or the filter failed it.
pub open spec fn outcome(r: Result<(), FilterError>) -> Option<FilterErrorView> {
    match r {
        Ok(_) => None,
        Err(error) => Some(error@),
    }
}

/// What a filter may make of a packet: the filter after it, the packet
/// after it, and the error if the filter failed the packet.
///
/// A load balancer leaves a packet without destinations as it is and
/// collapses the destinations of any other to one of them. The two routers
/// do what their models say. Only the source-IP router can fail a packet,
/// and only the session router changes with a packet.
pub open spec fn reads(
    filter: FilterView,
    packet: ReadContextView,
    after: FilterView,
    out: ReadContextView,
    error: Option<FilterErrorView>,
) -> bool {
    match filter {
        FilterView::LoadBalancer(_) => {
            &&& after == filter
            &&& error is None
            &&& out.source == packet.source
            &&& out.contents == packet.contents
            &&& if packet.destinations.len() == 0 {
                out.destinations == packet.destinations
            } else {
                one_destination(packet.destinations, out.destinations)
            }
        },
        FilterView::SourceIpRouter(routes) => {
            &&& after == filter
            &&& match crate::filters::source_ip_router::read_model(routes, packet) {
                Ok(routed) => error is None && out == routed,
                Err(failure) => error == Some(failure) && out == packet,
            }
        },
        FilterView::SessionRouter(router) => {
            &&& error is None
            &&& after == FilterView::SessionRouter(
                crate::filters::session_router::read_model(router, packet).0,
            )
            &&& out == crate::filters::session_router::read_model(router, packet).1
        },
    }
}

impl FilterKind {
    /// The filter is well formed.
    pub open spec fn wf(&self) -> bool {
        match self {
            FilterKind::SessionRouter(router) => router.wf(),
            _ => true,
        }
    }

    /// Hands a packet from a client to the filter.
    pub fn read(&mut self, ctx: &mut ReadContext) -> (r: Result<(), FilterError>)
        requires
            old(self).wf(),
        ensures
            final(self).wf(),
            reads(old(self)@, old(ctx)@, final(self)@, final(ctx)@, outcome(r)),
    {
        match self {
            FilterKind::LoadBalancer(filter) => {
                if ctx.destinations.len() > 0 {
                    filter.read(ctx)
                } else {
                    Ok(())
                }
            },
            FilterKind::SourceIpRouter(router) => router.read(ctx),
            FilterKind::SessionRouter(router) => router.read(ctx),
        }
    }

    /// Hands a packet to a client to the filter, which lets it pass.
    pub fn write(&self, ctx: &mut WriteContext) -> (r: Result<(), FilterError>)
        ensures
            r is Ok,
            *final(ctx) == *old(ctx),
    {
        match self {
            FilterKind::LoadBalancer(filter) => filter.write(ctx),
            FilterKind::SourceIpRouter(router) => router.write(ctx),
            FilterKind::SessionRouter(router) => router.write(ctx),
        }
    }
}

/// The filters of a proxy, in the order in which a packet passes them.
#[derive(Debug)]
pub struct FilterChain {
    filters: Vec<FilterKind>,
}

/// The views of filters.
pub open spec fn filter_views(filters: Seq<FilterKind>) -> Seq<FilterView> {
    filters.map_values(|filter: FilterKind| filter@)
}

impl View for FilterChain {
    type V = Seq<FilterView>;

    closed spec fn view(&self) -> Seq<FilterView> {
        filter_views(self.filters@)
    }
}

/// A packet's way through a chain, written down as the packet before each
/// filter that it reached and behind the last that it passed.
///
/// The packet starts as `packet` and ends as `out`. Each filter that it
/// passed saw what the one before it left. If a filter failed it, that
/// filter left it as it was, and the filters behind that one never saw it
/// and are as they were.
pub open spec fn run(
    filters: Seq<FilterView>,
    packet: ReadContextView,
    after: Seq<FilterView>,
    out: ReadContextView,
    error: Option<FilterErrorView>,
    way: Seq<ReadContextView>,
) -> bool {
    let passed = way.len() - 1;
    &&& after.len() == filters.len()
    &&& 0 <= passed <= filters.len()
    &&& way[0] == packet
    &&& way[passed] == out
    &&& forall|j: int|
        0 <= j < passed ==> reads(filters[j], #[trigger] way[j], after[j], way[j + 1], None)
    &&& match error {
        None => passed == filters.len(),
        Some(_) => passed < filters.len() && reads(
            filters[passed],
            out,
            after[passed],
            out,
            error,
        ),
    }
    &&& forall|j: int| passed < j < filters.len() ==> #[trigger] after[j] == filters[j]
}

/// What a chain may make of a packet: there is a way through it that
/// starts with the packet and ends as the chain and the packet end.
pub open spec fn chain_reads(
    filters: Seq<FilterView>,
    packet: ReadContextView,
    after: Seq<FilterView>,
    out: ReadContextView,
    error: Option<FilterErrorView>,
) -> bool {
    exists|way: Seq<ReadContextView>| run(filters, packet, after, out, error, way)
}

/// The chain after the outcome of a scan has reached the filter at
/// `index`: a session router there has taken it in, and nothing else has
/// changed.
pub open spec fn chain_after_scan(
    filters: Seq<FilterView>,
    index: int,
    outcome: Result<Vec<TokenRecord>, String>,
) -> Seq<FilterView> {
    if 0 <= index < filters.len() && filters[index] is SessionRouter {
        let router = filters[index]->SessionRouter_0;
        filters.update(
            index,
            FilterView::SessionRouter(
                SessionRouterView { tokens: tokens_after_scan(router.tokens, outcome), ..router },
            ),
        )
    } else {
        filters
    }
}

impl FilterChain {
    /// Every filter is well formed.
    pub closed spec fn wf(&self) -> bool {
        forall|i: int| 0 <= i < self.filters@.len() ==> (#[trigger] self.filters@[i]).wf()
    }

    /// The chain of `filters`, in their order.
    pub fn new(filters: Vec<FilterKind>) -> (chain: FilterChain)
        requires
            forall|i: int| 0 <= i < filters@.len() ==> (#[trigger] filters@[i]).wf(),
        ensures
            chain.wf(),
            chain@ == filter_views(filters@),
    {
        FilterChain { filters }
    }

    /// The number of filters.
    pub fn len(&self) -> (n: usize)
        ensures
            n == self@.len(),
    {
        self.filters.len()
    }

    /// Hands a packet from a client to each filter in turn. The first
    /// filter that fails the packet ends its way.
    pub fn read(&mut self, ctx: &mut ReadContext) -> (r: Result<(), FilterError>)
        requires
            old(self).wf(),
        ensures
            final(self).wf(),
            chain_reads(old(self)@, old(ctx)@, final(self)@, final(ctx)@, outcome(r)),
    {
        let ghost mut way: Seq<ReadContextView> = seq![ctx@];
        let mut i: usize = 0;
        while i < self.filters.len()
            invariant
                i <= self.filters@.len(),
                self.filters@.len() == old(self).filters@.len(),
                self.wf(),
                way.len() == i + 1,
                way[0] == old(ctx)@,
                way[i as int] == ctx@,
                forall|j: int|
                    0 <= j < i ==> reads(
                        old(self)@[j],
                        #[trigger] way[j],
                        self@[j],
                        way[j + 1],
                        None,
                    ),
                forall|j: int| i <= j < self.filters@.len() ==> #[trigger] self@[j] == old(self)@[j],
            decreases self.filters@.len() - i,
        {
            let ghost before = self.filters@;
            let ghost views = self@;
            let ghost packet = ctx@;
            let ghost entered = way;
            let result = self.filters[i].read(ctx);
            proof {
                let at = i as int;
                assert(self.filters@ =~= before.update(at, self.filters@[at]));
                assert(views[at] == before[at]@);
                assert(self@[at] == self.filters@[at]@);
                assert(reads(old(self)@[at], packet, self@[at], ctx@, outcome(result)));
                assert forall|j: int| 0 <= j < self.filters@.len() && j != at implies #[trigger] self@[j]
                    == views[j] by {
                    assert(self.filters@[j] == before[j]);
                }
                assert forall|k: int| 0 <= k < self.filters@.len() implies (
                #[trigger] self.filters@[k]).wf() by {
                    if k != at {
                        assert(before[k].wf());
                    }
                }
            }
            match result {
                Ok(_) => {},
                Err(error) => {
                    proof {
                        assert forall|j: int| 0 <= j < i implies reads(
                            old(self)@[j],
                            #[trigger] way[j],
                            self@[j],
                            way[j + 1],
                            None,
                        ) by {
                            assert(self@[j] == views[j]);
                        }
                        assert forall|j: int| i < j < self.filters@.len() implies #[trigger] self@[j]
                            == old(self)@[j] by {
                            assert(self@[j] == views[j]);
                        }
                        assert(run(old(self)@, old(ctx)@, self@, ctx@, Some(error@), way));
                    }
                    return Err(error);
                },
            }
            proof {
                way = entered.push(ctx@);
                assert forall|j: int| 0 <= j < i + 1 implies reads(
                    old(self)@[j],
                    #[trigger] way[j],
                    self@[j],
                    way[j + 1],
                    None,
                ) by {
                    if j < i {
                        assert(reads(old(self)@[j], entered[j], views[j], entered[j + 1], None));
                        assert(self@[j] == views[j]);
                    }
                }
                assert forall|j: int| i + 1 <= j < self.filters@.len() implies #[trigger] self@[j]
                    == old(self)@[j] by {
                    assert(self@[j] == views[j]);
                }
            }
            i = i + 1;
        }
        proof {
            assert(run(old(self)@, old(ctx)@, self@, ctx@, None, way));
        }
        Ok(())
    }

    /// Hands a packet to a client to each filter in turn. Every filter
    /// lets it pass as it is.
    pub fn write(&self, ctx: &mut WriteContext) -> (r: Result<(), FilterError>)
        ensures
            r is Ok,
            *final(ctx) == *old(ctx),
    {
        let mut i: usize = 0;
        while i < self.filters.len()
            invariant
                *ctx == *old(ctx),
            decreases self.filters@.len() - i,
        {
            let _ = self.filters[i].write(ctx);
            i = i + 1;
        }
        Ok(())
    }

    /// The table that the filter at `index` scans for tokens, if it is a
    /// session router.
    pub fn session_table(&self, index: usize) -> (table: Option<&String>)
        ensures
            match table {
                Some(name) => index < self@.len() && self@[index as int] is SessionRouter
                    && name@ == self@[index as int]->SessionRouter_0.table_name,
                None => !(index < self@.len() && self@[index as int] is SessionRouter),
            },
    {
        if index >= self.filters.len() {
            return None;
        }
        match &self.filters[index] {
            FilterKind::SessionRouter(router) => Some(router.table_name()),
            _ => None,
        }
    }

    /// Hands the outcome of a scan of the token table to the session
    /// router at `index`, and says when to scan next. Where no session
    /// router stands at `index`, nothing happens.
    pub fn apply_scan(&mut self, index: usize, outcome: Result<Vec<TokenRecord>, String>) -> (step:
        Option<RefreshStep>)
        requires
            old(self).wf(),
        ensures
            final(self).wf(),
            final(self)@ == chain_after_scan(old(self)@, index as int, outcome),
            match step {
                Some(step) => {
                    &&& index < old(self)@.len() && old(self)@[index as int] is SessionRouter
                    &&& step.rescan_after_secs == POLL_INTERVAL_SECS
                    &&& match step.warning {
                        Some(text) => warning_after_scan(outcome) == Some(text@),
                        None => warning_after_scan(outcome) is None,
                    }
                },
                None => !(index < old(self)@.len() && old(self)@[index as int] is SessionRouter),
            },
    {
        if index >= self.filters.len() {
            return None;
        }
        let ghost before = self.filters@;
        let step = match &mut self.filters[index] {
            FilterKind::SessionRouter(router) => Some(router.apply_scan(outcome)),
            _ => None,
        };
        proof {
            assert(self@ =~= chain_after_scan(old(self)@, index as int, outcome));
            assert forall|k: int| 0 <= k < self.filters@.len() implies (
            #[trigger] self.filters@[k]).wf() by {
                if k != index {
                    assert(before[k].wf());
                }
            }
        }
        step
    }
}

/// Whatever a filter makes of a packet, it keeps the packet's source, and
/// it leaves the destinations as they were, clears them, or puts exactly
/// one in their place.
pub proof fn lemma_filter_keeps_clears_or_replaces(
    filter: FilterView,
    packet: ReadContextView,
    after: FilterView,
    out: ReadContextView,
    error: Option<FilterErrorView>,
)
    requires
        reads(filter, packet, after, out, error),
    ensures
        out.source == packet.source,
        out.destinations == packet.destinations || out.destinations.len() == 0
            || out.destinations.len() == 1,
        error is Some ==> out == packet && after == filter,
{
}

/// A packet passes a chain without filters as it is.
pub proof fn lemma_empty_chain_changes_nothing(packet: ReadContextView)
    ensures
        chain_reads(Seq::empty(), packet, Seq::empty(), packet, None),
{
    assert(run(Seq::empty(), packet, Seq::empty(), packet, None, seq![packet]));
}

/// Whatever the filters of a chain make of a packet, it keeps the source
/// that it came with.
pub proof fn lemma_chain_keeps_source(
    filters: Seq<FilterView>,
    packet: ReadContextView,
    after: Seq<FilterView>,
    out: ReadContextView,
    error: Option<FilterErrorView>,
)
    requires
        chain_reads(filters, packet, after, out, error),
    ensures
        out.source == packet.source,
{
    let way = choose|way: Seq<ReadContextView>| run(filters, packet, after, out, error, way);
    lemma_way_keeps_source(filters, after, way, way.len() - 1);
}

proof fn lemma_way_keeps_source(
    filters: Seq<FilterView>,
    after: Seq<FilterView>,
    way: Seq<ReadContextView>,
    upto: int,
)
    requires
        0 <= upto < way.len(),
        forall|j: int|
            0 <= j < way.len() - 1 ==> reads(
                filters[j],
                #[trigger] way[j],
                after[j],
                way[j + 1],
                None,
            ),
    ensures
        way[upto].source == way[0].source,
    decreases upto,
{
    if upto > 0 {
        lemma_way_keeps_source(filters, after, way, upto - 1);
        assert(reads(filters[upto - 1], way[upto - 1], after[upto - 1], way[upto], None));
    }
}

} // verus!
