//! Load balancing: of the endpoints that are candidates for a packet, one
//! is chosen, in turns or by chance.

use crate::bindings::random_index;
use crate::cluster::Endpoint;
use crate::filters::{CreationError, CreationErrorView, FilterError, ReadContext, WriteContext};
use crate::net::EndpointAddress;
use std::sync::atomic::{AtomicUsize, Ordering};
use vstd::arithmetic::div_mod::{
    lemma_add_mod_noop_right, lemma_fundamental_div_mod, lemma_mod_add_multiples_vanish,
    lemma_small_mod,
};
use vstd::prelude::*;

verus! {

/// The name under which a configuration asks for this filter.
pub const NAME: &'static str = "quilkin.extensions.filters.load_balancer.v1alpha1.LoadBalancer";

/// Policy represents how a [`LoadBalancerFilter`] distributes packets
/// across endpoints.
#[derive(Clone, Copy, Debug, Eq, PartialEq, Structural)]
pub enum Policy {
    /// Send packets to endpoints in turns.
    RoundRobin,
    /// Send packets to endpoints chosen at random.
    Random,
}

impl Default for Policy {
    fn default() -> (policy: Policy)
        ensures
            policy == Policy::RoundRobin,
    {
        Policy::RoundRobin
    }
}

impl Policy {
    /// The name of the policy in a configuration.
    pub open spec fn name_spec(self) -> Seq<char> {
        match self {
            Policy::RoundRobin => "ROUND_ROBIN"@,
            Policy::Random => "RANDOM"@,
        }
    }

    /// The policy that a configuration names, if it names one.
    pub fn from_name(name: &str) -> (policy: Option<Policy>)
        ensures
            match policy {
                Some(p) => name@ == p.name_spec(),
                None => name@ != Policy::RoundRobin.name_spec() && name@
                    != Policy::Random.name_spec(),
            },
    {
        let name = name.to_owned();
        if name == "ROUND_ROBIN".to_owned() {
            Some(Policy::RoundRobin)
        } else if name == "RANDOM".to_owned() {
            Some(Policy::Random)
        } else {
            None
        }
    }

    /// The name of the policy in a configuration.
    pub fn name(&self) -> (name: &'static str)
        ensures
            name@ == self.name_spec(),
    {
        match self {
            Policy::RoundRobin => "ROUND_ROBIN",
            Policy::Random => "RANDOM",
        }
    }
}

/// Config represents configuration for a [`LoadBalancerFilter`].
#[derive(Clone, Copy, Debug, Eq, PartialEq, Structural)]
pub struct Config {
    pub policy: Policy,
}

impl Default for Config {
    fn default() -> (config: Config)
        ensures
            config.policy == Policy::RoundRobin,
    {
        Config { policy: Policy::RoundRobin }
    }
}

// ---------------------------------------------------------------------------
// The candidates
// ---------------------------------------------------------------------------

/// The endpoints that are candidates for one packet, in a fixed order.
#[derive(Clone, Debug, Eq, PartialEq)]
pub struct UpstreamEndpoints {
    endpoints: Vec<Endpoint>,
}

/// An index that is not below the number of candidates.
#[derive(Clone, Copy, Debug, Eq, PartialEq, Structural)]
pub struct IndexOutOfRange;

impl View for UpstreamEndpoints {
    type V = Seq<Endpoint>;

    closed spec fn view(&self) -> Seq<Endpoint> {
        self.endpoints@
    }
}

impl UpstreamEndpoints {
    /// The candidates `endpoints`, in their order.
    pub fn new(endpoints: Vec<Endpoint>) -> (candidates: UpstreamEndpoints)
        ensures
            candidates@ == endpoints@,
    {
        UpstreamEndpoints { endpoints }
    }

    /// The number of candidates.
    pub fn size(&self) -> (n: usize)
        ensures
            n == self@.len(),
    {
        self.endpoints.len()
    }

    /// The candidate at `index`.
    pub fn get(&self, index: usize) -> (endpoint: Option<&Endpoint>)
        ensures
            match endpoint {
                Some(e) => index < self@.len() && *e == self@[index as int],
                None => index >= self@.len(),
            },
    {
        if index < self.endpoints.len() {
            Some(&self.endpoints[index])
        } else {
            None
        }
    }

    /// The addresses of the candidates, in their order.
    pub fn addresses(&self) -> (addresses: Vec<EndpointAddress>)
        ensures
            addresses@ == self@.map_values(|endpoint: Endpoint| endpoint.address),
    {
        let mut addresses: Vec<EndpointAddress> = Vec::new();
        let mut i: usize = 0;
        while i < self.endpoints.len()
            invariant
                i <= self.endpoints@.len(),
                addresses@ == self@.take(i as int).map_values(|endpoint: Endpoint| endpoint.address),
            decreases self.endpoints@.len() - i,
        {
            addresses.push(self.endpoints[i].address);
            proof {
                assert(self@.take(i + 1).map_values(|endpoint: Endpoint| endpoint.address)
                    =~= self@.take(i as int).map_values(|endpoint: Endpoint| endpoint.address).push(
                    self@[i as int].address,
                ));
            }
            i = i + 1;
        }
        proof {
            assert(self@.take(i as int) =~= self@);
        }
        addresses
    }

    /// Collapses the candidates to the one at `index`. An index out of
    /// range is refused, and the candidates stay as they are.
    pub fn keep(&mut self, index: usize) -> (r: Result<(), IndexOutOfRange>)
        ensures
            r is Ok <==> index < old(self)@.len(),
            r is Ok ==> final(self)@ == seq![old(self)@[index as int]],
            r is Err ==> final(self)@ == old(self)@,
    {
        if index >= self.endpoints.len() {
            return Err(IndexOutOfRange);
        }
        let chosen = self.endpoints.swap_remove(index);
        self.endpoints.clear();
        self.endpoints.push(chosen);
        Ok(())
    }
}

// ---------------------------------------------------------------------------
// The choosers
// ---------------------------------------------------------------------------

/// The index that round robin chooses among `count` candidates for the
/// packet with the number `ticket`.
pub open spec fn round_robin_index(ticket: nat, count: nat) -> nat {
    ticket % count
}

/// `candidates` collapsed to one of its members.
pub open spec fn one_of(candidates: Seq<Endpoint>, chosen: Seq<Endpoint>) -> bool {
    exists|i: int| 0 <= i < candidates.len() && chosen == seq![#[trigger] candidates[i]]
}

/// RoundRobinEndpointChooser chooses endpoints in round-robin order.
#[derive(Debug)]
pub struct RoundRobinEndpointChooser {
    next_endpoint: AtomicUsize,
}

impl RoundRobinEndpointChooser {
    /// A chooser whose first ticket is 0.
    pub fn new() -> (chooser: RoundRobinEndpointChooser) {
        RoundRobinEndpointChooser { next_endpoint: AtomicUsize::new(0) }
    }

    /// Draws the next ticket. The counter is shared and wraps around, so
    /// nothing is known of the ticket here; in a run that no other caller
    /// breaks, each one is the one before plus 1.
    fn next_ticket(&self) -> (ticket: usize) {
        self.next_endpoint.fetch_add(1, Ordering::Relaxed)
    }

    /// Collapses the candidates to the one whose turn it is at `ticket`.
    pub fn choose_for_ticket(ticket: usize, endpoints: &mut UpstreamEndpoints)
        requires
            old(endpoints)@.len() > 0,
        ensures
            final(endpoints)@ == seq![
                old(endpoints)@[round_robin_index(ticket as nat, old(endpoints)@.len()) as int],
            ],
    {
        let count = endpoints.size();
        let _ = endpoints.keep(ticket % count);
    }

    /// Draws a ticket and collapses the candidates to the one whose turn it
    /// is.
    pub fn choose_endpoints(&self, endpoints: &mut UpstreamEndpoints)
        requires
            old(endpoints)@.len() > 0,
        ensures
            one_of(old(endpoints)@, final(endpoints)@),
    {
        let ticket = self.next_ticket();
        Self::choose_for_ticket(ticket, endpoints);
    }
}

/// RandomEndpointChooser chooses endpoints in random order.
#[derive(Clone, Copy, Debug, Default)]
pub struct RandomEndpointChooser;

impl RandomEndpointChooser {
    /// Collapses the candidates to one of them, drawn by chance.
    pub fn choose_endpoints(&self, endpoints: &mut UpstreamEndpoints)
        requires
            old(endpoints)@.len() > 0,
        ensures
            one_of(old(endpoints)@, final(endpoints)@),
    {
        let index = random_index(endpoints.size());
        let _ = endpoints.keep(index);
    }
}

/// EndpointChooser chooses from a set of endpoints that a proxy is
/// connected to.
#[derive(Debug)]
pub enum EndpointChooser {
    RoundRobin(RoundRobinEndpointChooser),
    Random(RandomEndpointChooser),
}

impl EndpointChooser {
    /// The policy that the chooser follows.
    pub open spec fn policy(&self) -> Policy {
        match self {
            EndpointChooser::RoundRobin(_) => Policy::RoundRobin,
            EndpointChooser::Random(_) => Policy::Random,
        }
    }

    /// The chooser for a policy.
    pub fn for_policy(policy: Policy) -> (chooser: EndpointChooser)
        ensures
            chooser.policy() == policy,
    {
        match policy {
            Policy::RoundRobin => EndpointChooser::RoundRobin(RoundRobinEndpointChooser::new()),
            Policy::Random => EndpointChooser::Random(RandomEndpointChooser),
        }
    }

    /// choose_endpoints asks for the next endpoint(s) to use.
    pub fn choose_endpoints(&self, endpoints: &mut UpstreamEndpoints)
        requires
            old(endpoints)@.len() > 0,
        ensures
            one_of(old(endpoints)@, final(endpoints)@),
    {
        match self {
            EndpointChooser::RoundRobin(chooser) => chooser.choose_endpoints(endpoints),
            EndpointChooser::Random(chooser) => chooser.choose_endpoints(endpoints),
        }
    }
}

// ---------------------------------------------------------------------------
// The filter
// ---------------------------------------------------------------------------

/// What the load balancer sees of a packet from a client.
#[derive(Clone, Debug, Eq, PartialEq)]
pub struct DownstreamContext {
    /// The candidates for the packet.
    pub endpoints: UpstreamEndpoints,
    /// Where the packet came from.
    pub from: EndpointAddress,
    /// The payload.
    pub contents: Vec<u8>,
}

impl DownstreamContext {
    pub fn new(endpoints: UpstreamEndpoints, from: EndpointAddress, contents: Vec<u8>) -> (ctx:
        DownstreamContext)
        ensures
            ctx == (DownstreamContext { endpoints, from, contents }),
    {
        DownstreamContext { endpoints, from, contents }
    }
}

/// What the load balancer hands on.
#[derive(Clone, Debug, Eq, PartialEq)]
pub struct DownstreamResponse {
    /// The endpoints that receive the packet.
    pub endpoints: UpstreamEndpoints,
    /// The payload.
    pub contents: Vec<u8>,
}

/// LoadBalancerFilter load balances packets over the upstream endpoints.
#[derive(Debug)]
pub struct LoadBalancerFilter {
    endpoint_chooser: EndpointChooser,
}

impl LoadBalancerFilter {
    /// The policy that the filter follows.
    pub closed spec fn policy(&self) -> Policy {
        self.endpoint_chooser.policy()
    }

    /// Hands the packet on with one of its candidates as its only
    /// endpoint, and with its payload as it came.
    pub fn on_downstream_receive(&self, ctx: DownstreamContext) -> (response: Option<
        DownstreamResponse,
    >)
        requires
            ctx.endpoints@.len() > 0,
        ensures
            response is Some,
            one_of(ctx.endpoints@, response->0.endpoints@),
            response->0.contents == ctx.contents,
    {
        let mut ctx = ctx;
        self.endpoint_chooser.choose_endpoints(&mut ctx.endpoints);
        Some(DownstreamResponse { endpoints: ctx.endpoints, contents: ctx.contents })
    }
}

/// The destinations of a packet collapsed to one of them.
pub open spec fn one_destination(
    destinations: Seq<EndpointAddress>,
    chosen: Seq<EndpointAddress>,
) -> bool {
    exists|i: int| 0 <= i < destinations.len() && chosen == seq![#[trigger] destinations[i]]
}

impl LoadBalancerFilter {
    /// Collapses the destinations of a packet to one of them, chosen by
    /// the filter's policy. The rest of the packet stays as it is.
    pub fn read(&self, ctx: &mut ReadContext) -> (r: Result<(), FilterError>)
        requires
            old(ctx).destinations@.len() > 0,
        ensures
            r is Ok,
            final(ctx).source == old(ctx).source,
            final(ctx).contents == old(ctx).contents,
            one_destination(old(ctx).destinations@, final(ctx).destinations@),
    {
        let mut endpoints: Vec<Endpoint> = Vec::new();
        let mut i: usize = 0;
        while i < ctx.destinations.len()
            invariant
                i <= ctx.destinations@.len(),
                endpoints@.len() == i,
                forall|k: int| 0 <= k < i ==> (#[trigger] endpoints@[k]).address == ctx.destinations@[k],
            decreases ctx.destinations@.len() - i,
        {
            endpoints.push(Endpoint::new(ctx.destinations[i]));
            i = i + 1;
        }
        let mut candidates = UpstreamEndpoints::new(endpoints);
        self.endpoint_chooser.choose_endpoints(&mut candidates);
        let ghost chosen = choose|k: int|
            0 <= k < endpoints@.len() && candidates@ == seq![#[trigger] endpoints@[k]];
        let addresses = candidates.addresses();
        proof {
            assert(addresses@ =~= seq![old(ctx).destinations@[chosen]]);
        }
        ctx.destinations = addresses;
        Ok(())
    }

    /// Lets a packet to a client pass as it is.
    pub fn write(&self, ctx: &mut WriteContext) -> (r: Result<(), FilterError>)
        ensures
            r is Ok,
            *final(ctx) == *old(ctx),
    {
        Ok(())
    }
}

/// Creates instances of LoadBalancerFilter.
#[derive(Clone, Copy, Debug, Default)]
pub struct LoadBalancerFilterFactory;

impl LoadBalancerFilterFactory {
    /// The name under which a configuration asks for this filter.
    pub fn name(&self) -> (name: String)
        ensures
            name@ == NAME@,
    {
        NAME.to_owned()
    }

    /// Builds the filter from its configuration as the decoder left it: the
    /// configuration, or the decoder's complaint, which is handed on.
    pub fn create_filter(&self, config: Result<Config, String>) -> (r: Result<
        LoadBalancerFilter,
        CreationError,
    >)
        ensures
            match r {
                Ok(filter) => config is Ok && filter.policy() == config->Ok_0.policy,
                Err(error) => config is Err && error@ == CreationErrorView::DeserializeFailed(
                    config->Err_0@,
                ),
            },
    {
        match config {
            Ok(config) => Ok(
                LoadBalancerFilter { endpoint_chooser: EndpointChooser::for_policy(config.policy) },
            ),
            Err(complaint) => Err(CreationError::DeserializeFailed(complaint)),
        }
    }
}

// ---------------------------------------------------------------------------
// Round robin is fair
// ---------------------------------------------------------------------------

/// From one ticket to the next, the turn moves on by one candidate, and
/// from the last candidate back to the first.
pub proof fn lemma_round_robin_advances(start: nat, count: nat, steps: nat)
    requires
        count > 0,
    ensures
        round_robin_index(start + steps, count) == (round_robin_index(start, count) + steps)
            % count,
{
    lemma_add_mod_noop_right(steps as int, start as int, count as int);
}

/// The first `count` tickets choose the candidates in their own order.
pub proof fn lemma_round_robin_first_round(ticket: nat, count: nat)
    requires
        ticket < count,
    ensures
        round_robin_index(ticket, count) == ticket,
{
    lemma_small_mod(ticket, count);
}

/// After `count` tickets the turns repeat.
pub proof fn lemma_round_robin_repeats(ticket: nat, count: nat)
    requires
        count > 0,
    ensures
        round_robin_index(ticket + count, count) == round_robin_index(ticket, count),
{
    lemma_mod_add_multiples_vanish(ticket as int, count as int);
}

/// Two of `count` tickets in a row never choose the same candidate.
pub proof fn lemma_round_robin_never_twice(start: nat, count: nat, j: nat, k: nat)
    requires
        count > 0,
        j < count,
        k < count,
        round_robin_index(start + j, count) == round_robin_index(start + k, count),
    ensures
        j == k,
{
    let x = (start + j) as int;
    let y = (start + k) as int;
    let c = count as int;
    lemma_fundamental_div_mod(x, c);
    lemma_fundamental_div_mod(y, c);
    let q = y / c - x / c;
    assert(y - x == c * q) by (nonlinear_arith)
        requires
            x == c * (x / c) + (x % c),
            y == c * (y / c) + (y % c),
            x % c == y % c,
            q == y / c - x / c,
    ;
    assert(q == 0) by (nonlinear_arith)
        requires
            y - x == c * q,
            -c < y - x < c,
            c > 0,
    ;
}

/// Each candidate has its turn within `count` tickets in a row.
pub proof fn lemma_round_robin_reaches(start: nat, count: nat, index: nat) -> (steps: nat)
    requires
        index < count,
    ensures
        steps < count,
        round_robin_index(start + steps, count) == index,
{
    let turn = round_robin_index(start, count);
    let steps: nat = if index >= turn {
        (index - turn) as nat
    } else {
        (index + count - turn) as nat
    };
    lemma_round_robin_advances(start, count, steps);
    if index >= turn {
        lemma_small_mod(index, count);
    } else {
        lemma_mod_add_multiples_vanish(index as int, count as int);
        lemma_small_mod(index, count);
    }
    steps
}

/// One of the `count` tickets from `start` on chooses the candidate at
/// `index`.
pub open spec fn has_turn(start: nat, count: nat, index: nat) -> bool {
    exists|steps: nat| steps < count && #[trigger] round_robin_index(start + steps, count) == index
}

/// With `count` candidates, `count` tickets in a row visit each candidate
/// exactly once, whichever ticket comes first.
pub proof fn lemma_round_robin_visits_each_once(start: nat, count: nat)
    requires
        count > 0,
    ensures
        forall|index: nat| index < count ==> #[trigger] has_turn(start, count, index),
        forall|j: nat, k: nat|
            j < count && k < count && #[trigger] round_robin_index(start + j, count)
                == #[trigger] round_robin_index(start + k, count) ==> j == k,
{
    assert forall|index: nat| index < count implies #[trigger] has_turn(start, count, index) by {
        let steps = lemma_round_robin_reaches(start, count, index);
        assert(round_robin_index(start + steps, count) == index);
    }
    assert forall|j: nat, k: nat|
        j < count && k < count && #[trigger] round_robin_index(start + j, count)
            == #[trigger] round_robin_index(start + k, count) implies j == k by {
        lemma_round_robin_never_twice(start, count, j, k);
    }
}

} // verus!
