//! Session affinity: a client's first payload starts with a token that names
//! its endpoint, and the client stays with that endpoint from then on.

pub mod config;

use crate::assoc::{
    distinct_keys, has_key, lemma_absent, lemma_empty, lemma_found, lemma_push, lemma_update,
    to_map,
};
use crate::bindings::{base64_encode, base64_has_room, base64_standard};
use crate::cluster::Endpoint;
use crate::filters::session_router::config::{ConfigView, SessionRouterConfig};
use crate::filters::{
    CreationError, CreationErrorView, FilterError, ReadContext, ReadContextView, WriteContext,
};
use crate::net::{parsed_address, EndpointAddress};
use vstd::prelude::*;

verus! {

/// The name under which a configuration asks for this filter.
pub const NAME: &'static str = "quilkin.filters.session_router.v1alpha1.SessionRouter";

/// Seconds between two scans of the token table.
pub const POLL_INTERVAL_SECS: u64 = 10;

// ---------------------------------------------------------------------------
// The token map
// ---------------------------------------------------------------------------

/// The local copy of the token table: from a token to the `host:port` of
/// its endpoint. No token occurs twice.
#[derive(Debug)]
pub struct TokenMap {
    entries: Vec<(String, String)>,
}

impl View for TokenMap {
    type V = Map<Seq<char>, Seq<char>>;

    closed spec fn view(&self) -> Map<Seq<char>, Seq<char>> {
        to_map(self.pairs())
    }
}

impl TokenMap {
    closed spec fn pairs(&self) -> Seq<(Seq<char>, Seq<char>)> {
        self.entries@.map_values(|e: (String, String)| (e.0@, e.1@))
    }

    /// No token occurs twice.
    pub closed spec fn wf(&self) -> bool {
        distinct_keys(self.pairs())
    }

    /// The map without any token.
    pub fn new() -> (map: TokenMap)
        ensures
            map.wf(),
            map@ == Map::<Seq<char>, Seq<char>>::empty(),
    {
        let map = TokenMap { entries: Vec::new() };
        proof {
            lemma_empty::<Seq<char>, Seq<char>>();
            assert(map.pairs() =~= Seq::empty());
        }
        map
    }

    /// Where `token` stands, if it stands anywhere.
    fn position(&self, token: &String) -> (at: Option<usize>)
        ensures
            match at {
                Some(i) => i < self.pairs().len() && self.pairs()[i as int].0 == token@,
                None => !has_key(self.pairs(), token@),
            },
    {
        let mut i: usize = 0;
        while i < self.entries.len()
            invariant
                i <= self.entries@.len(),
                forall|j: int| 0 <= j < i ==> (#[trigger] self.pairs()[j]).0 != token@,
            decreases self.entries@.len() - i,
        {
            if self.entries[i].0 == *token {
                return Some(i);
            }
            i = i + 1;
        }
        None
    }

    /// The target that the map holds for `token`.
    pub fn get(&self, token: &String) -> (target: Option<&String>)
        requires
            self.wf(),
        ensures
            match target {
                Some(t) => self@.contains_key(token@) && self@[token@] == t@,
                None => !self@.contains_key(token@),
            },
    {
        match self.position(token) {
            Some(i) => {
                proof {
                    lemma_found(self.pairs(), i as int);
                }
                Some(&self.entries[i].1)
            },
            None => {
                proof {
                    lemma_absent(self.pairs(), token@);
                }
                None
            },
        }
    }

    /// Sets the target of `token`, in place of any target it had.
    pub fn insert(&mut self, token: String, target: String)
        requires
            old(self).wf(),
        ensures
            final(self).wf(),
            final(self)@ == old(self)@.insert(token@, target@),
    {
        match self.position(&token) {
            Some(i) => {
                proof {
                    lemma_update(self.pairs(), i as int, token@, target@);
                    assert(self.entries@.update(i as int, (token, target)).map_values(
                        |e: (String, String)| (e.0@, e.1@),
                    ) =~= self.pairs().update(i as int, (token@, target@)));
                }
                self.entries.set(i, (token, target));
            },
            None => {
                proof {
                    lemma_push(self.pairs(), token@, target@);
                    assert(self.entries@.push((token, target)).map_values(
                        |e: (String, String)| (e.0@, e.1@),
                    ) =~= self.pairs().push((token@, target@)));
                }
                self.entries.push((token, target));
            },
        }
    }
}

// ---------------------------------------------------------------------------
// The session cache
// ---------------------------------------------------------------------------

/// The endpoint of every client that has a session. No client occurs twice,
/// and nothing ever leaves.
#[derive(Debug)]
pub struct SessionCache {
    entries: Vec<(EndpointAddress, Endpoint)>,
}

impl View for SessionCache {
    type V = Map<EndpointAddress, Endpoint>;

    closed spec fn view(&self) -> Map<EndpointAddress, Endpoint> {
        to_map(self.entries@)
    }
}

impl SessionCache {
    /// No client occurs twice.
    pub closed spec fn wf(&self) -> bool {
        distinct_keys(self.entries@)
    }

    /// The cache without any session.
    pub fn new() -> (cache: SessionCache)
        ensures
            cache.wf(),
            cache@ == Map::<EndpointAddress, Endpoint>::empty(),
    {
        proof {
            lemma_empty::<EndpointAddress, Endpoint>();
        }
        SessionCache { entries: Vec::new() }
    }

    /// Where `source` stands, if it stands anywhere.
    fn position(&self, source: &EndpointAddress) -> (at: Option<usize>)
        ensures
            match at {
                Some(i) => i < self.entries@.len() && self.entries@[i as int].0 == *source,
                None => !has_key(self.entries@, *source),
            },
    {
        let mut i: usize = 0;
        while i < self.entries.len()
            invariant
                i <= self.entries@.len(),
                forall|j: int| 0 <= j < i ==> (#[trigger] self.entries@[j]).0 != *source,
            decreases self.entries@.len() - i,
        {
            if self.entries[i].0 == *source {
                return Some(i);
            }
            i = i + 1;
        }
        None
    }

    /// The endpoint of the session of `source`.
    pub fn get(&self, source: &EndpointAddress) -> (endpoint: Option<&Endpoint>)
        requires
            self.wf(),
        ensures
            match endpoint {
                Some(e) => self@.contains_key(*source) && self@[*source] == *e,
                None => !self@.contains_key(*source),
            },
    {
        match self.position(source) {
            Some(i) => {
                proof {
                    lemma_found(self.entries@, i as int);
                }
                Some(&self.entries[i].1)
            },
            None => {
                proof {
                    lemma_absent(self.entries@, *source);
                }
                None
            },
        }
    }

    /// Gives `source` a session with `endpoint`, in place of any it had.
    pub fn insert(&mut self, source: EndpointAddress, endpoint: Endpoint)
        requires
            old(self).wf(),
        ensures
            final(self).wf(),
            final(self)@ == old(self)@.insert(source, endpoint),
    {
        match self.position(&source) {
            Some(i) => {
                proof {
                    lemma_update(self.entries@, i as int, source, endpoint);
                }
                self.entries.set(i, (source, endpoint));
            },
            None => {
                proof {
                    lemma_push(self.entries@, source, endpoint);
                }
                self.entries.push((source, endpoint));
            },
        }
    }
}

// ---------------------------------------------------------------------------
// The router
// ---------------------------------------------------------------------------

/// Pins each client to the endpoint that its handshake token names.
#[derive(Debug)]
pub struct SessionRouter {
    config: SessionRouterConfig,
    sessions: SessionCache,
    token_map: TokenMap,
}

/// A [`SessionRouter`] as plain values.
pub struct SessionRouterView {
    /// How many leading bytes of a first payload form the token.
    pub handshake_bytes: nat,
    /// The table that the token map is a copy of.
    pub table_name: Seq<char>,
    /// The endpoint of every client that has a session.
    pub sessions: Map<EndpointAddress, Endpoint>,
    /// The `host:port` that each known token names.
    pub tokens: Map<Seq<char>, Seq<char>>,
}

impl View for SessionRouter {
    type V = SessionRouterView;

    closed spec fn view(&self) -> SessionRouterView {
        SessionRouterView {
            handshake_bytes: self.config@.handshake_bytes,
            table_name: self.config@.table_name,
            sessions: self.sessions@,
            tokens: self.token_map@,
        }
    }
}

/// A router that knows no token and no session yet.
pub open spec fn fresh_router(config: ConfigView) -> SessionRouterView {
    SessionRouterView {
        handshake_bytes: config.handshake_bytes,
        table_name: config.table_name,
        sessions: Map::empty(),
        tokens: Map::empty(),
    }
}

/// The endpoint that a token names: the token map holds a target for it,
/// and the target spells an address.
pub open spec fn resolved(tokens: Map<Seq<char>, Seq<char>>, token: Seq<char>) -> Option<Endpoint> {
    if tokens.contains_key(token) {
        match parsed_address(tokens[token]) {
            Some(address) => Some(Endpoint { address, metadata: None }),
            None => None,
        }
    } else {
        None
    }
}

/// What a packet whose handshake gave `token` does: where the token names
/// an endpoint, the client gets a session with it and the packet goes
/// there; else the packet is dropped and nothing is learned.
pub open spec fn establish_model(
    router: SessionRouterView,
    packet: ReadContextView,
    token: Seq<char>,
) -> (SessionRouterView, ReadContextView) {
    match resolved(router.tokens, token) {
        Some(endpoint) => (
            SessionRouterView {
                sessions: router.sessions.insert(packet.source, endpoint),
                ..router
            },
            ReadContextView { destinations: seq![endpoint.address], ..packet },
        ),
        None => (router, ReadContextView { destinations: Seq::empty(), ..packet }),
    }
}

/// Whether a payload holds a handshake: it is as long as one, and the
/// handshake is not set so long that its token would have no room in
/// memory, which no payload then reaches either.
pub open spec fn holds_handshake(handshake_bytes: nat, contents: Seq<u8>) -> bool {
    handshake_bytes <= contents.len() && base64_has_room(handshake_bytes)
}

/// What a packet from a client does.
///
/// A client with a session: the packet goes to the session's endpoint,
/// untouched. A client without one: a payload that holds no handshake is
/// dropped; else the handshake is taken off the payload, and its base64
/// text is the token that [`establish_model`] resolves.
pub open spec fn read_model(router: SessionRouterView, packet: ReadContextView) -> (
    SessionRouterView,
    ReadContextView,
) {
    if router.sessions.contains_key(packet.source) {
        (
            router,
            ReadContextView {
                destinations: seq![router.sessions[packet.source].address],
                ..packet
            },
        )
    } else if !holds_handshake(router.handshake_bytes, packet.contents) {
        (router, ReadContextView { destinations: Seq::empty(), ..packet })
    } else {
        let n = router.handshake_bytes as int;
        establish_model(
            router,
            ReadContextView { contents: packet.contents.skip(n), ..packet },
            base64_standard(packet.contents.take(n)),
        )
    }
}

/// Whether the token of a handshake of `handshake_bytes` bytes has room in
/// memory.
fn token_has_room(handshake_bytes: usize) -> (room: bool)
    ensures
        room == base64_has_room(handshake_bytes as nat),
{
    let groups: usize = handshake_bytes / 3;
    if groups > usize::MAX / 4 {
        false
    } else if handshake_bytes % 3 == 0 {
        true
    } else {
        groups * 4 <= usize::MAX - 4
    }
}

impl SessionRouter {
    /// Neither the session cache nor the token map holds a key twice.
    pub closed spec fn wf(&self) -> bool {
        self.sessions.wf() && self.token_map.wf()
    }

    /// A router that knows no token and no session yet.
    pub fn new(cfg: SessionRouterConfig) -> (router: SessionRouter)
        ensures
            router.wf(),
            router@ == fresh_router(cfg@),
    {
        SessionRouter { config: cfg, sessions: SessionCache::new(), token_map: TokenMap::new() }
    }

    /// The sessions that the router holds.
    pub fn sessions(&self) -> (sessions: &SessionCache)
        requires
            self.wf(),
        ensures
            sessions.wf(),
            sessions@ == self@.sessions,
    {
        &self.sessions
    }

    /// The token map that the router holds.
    pub fn token_map(&self) -> (tokens: &TokenMap)
        requires
            self.wf(),
        ensures
            tokens.wf(),
            tokens@ == self@.tokens,
    {
        &self.token_map
    }

    /// How many leading bytes of a first payload form the token.
    pub fn handshake_bytes(&self) -> (n: usize)
        ensures
            n == self@.handshake_bytes,
    {
        self.config.handshake_bytes
    }

    /// Puts `tokens` in place of the whole token map.
    pub fn replace_tokens(&mut self, tokens: TokenMap)
        requires
            old(self).wf(),
            tokens.wf(),
        ensures
            final(self).wf(),
            final(self)@ == (SessionRouterView { tokens: tokens@, ..old(self)@ }),
    {
        self.token_map = tokens;
    }

    /// The table to scan for tokens.
    pub fn table_name(&self) -> (name: &String)
        ensures
            name@ == self@.table_name,
    {
        &self.config.dynamo_table_name
    }

    /// The endpoint that `token` names in the token map.
    pub fn lookup_endpoint(&self, token: &str) -> (endpoint: Option<Endpoint>)
        requires
            self.wf(),
        ensures
            endpoint == resolved(self@.tokens, token@),
    {
        let key = token.to_owned();
        match self.token_map.get(&key) {
            Some(target) => match EndpointAddress::parse(target.as_str()) {
                Some(address) => Some(Endpoint::new(address)),
                None => None,
            },
            None => None,
        }
    }

    /// Routes a packet whose handshake gave `token`.
    pub fn establish(&mut self, ctx: &mut ReadContext, token: &str) -> (r: Result<(), FilterError>)
        requires
            old(self).wf(),
        ensures
            final(self).wf(),
            r is Ok,
            (final(self)@, final(ctx)@) == establish_model(old(self)@, old(ctx)@, token@),
    {
        match self.lookup_endpoint(token) {
            Some(endpoint) => {
                let address = endpoint.address;
                self.sessions.insert(ctx.source, endpoint);
                ctx.destinations.clear();
                ctx.destinations.push(address);
            },
            None => {
                ctx.destinations.clear();
            },
        }
        Ok(())
    }

    /// Routes a packet from a client. Never fails: a packet that cannot be
    /// routed is dropped.
    pub fn read(&mut self, ctx: &mut ReadContext) -> (r: Result<(), FilterError>)
        requires
            old(self).wf(),
        ensures
            final(self).wf(),
            r is Ok,
            (final(self)@, final(ctx)@) == read_model(old(self)@, old(ctx)@),
    {
        match self.sessions.get(&ctx.source) {
            Some(endpoint) => {
                let address = endpoint.address;
                ctx.destinations.clear();
                ctx.destinations.push(address);
                return Ok(());
            },
            None => {},
        }
        let needed = self.config.handshake_bytes;
        if ctx.contents.len() < needed || !token_has_room(needed) {
            ctx.destinations.clear();
            return Ok(());
        }
        let rest = ctx.contents.split_off(needed);
        let token = base64_encode(ctx.contents.as_slice());
        ctx.contents = rest;
        self.establish(ctx, token.as_str())
    }

    /// Lets a packet to a client pass as it is.
    pub fn write(&self, ctx: &mut WriteContext) -> (r: Result<(), FilterError>)
        ensures
            r is Ok,
            *final(ctx) == *old(ctx),
    {
        Ok(())
    }

    /// A session router is built by its factory, which knows the client of
    /// the token table: a configuration alone never makes one.
    pub fn try_from_config(cfg: Option<SessionRouterConfig>) -> (r: Result<
        SessionRouter,
        CreationError,
    >)
        ensures
            r is Err,
            r->Err_0@ == CreationErrorView::MissingConfig(NAME@),
    {
        Err(CreationError::MissingConfig(NAME))
    }
}

// ---------------------------------------------------------------------------
// Refreshing the token map
// ---------------------------------------------------------------------------

/// One record of the token table, as far as a scan found its fields: the
/// token and the IP address as strings, the port as a number in a string.
#[derive(Clone, Debug, PartialEq, Eq)]
pub struct TokenRecord {
    pub token: Option<String>,
    pub ip_address: Option<String>,
    pub port: Option<String>,
}

/// A [`TokenRecord`] as plain values.
pub struct TokenRecordView {
    pub token: Option<Seq<char>>,
    pub ip_address: Option<Seq<char>>,
    pub port: Option<Seq<char>>,
}

impl View for TokenRecord {
    type V = TokenRecordView;

    open spec fn view(&self) -> TokenRecordView {
        TokenRecordView {
            token: match self.token {
                Some(t) => Some(t@),
                None => None,
            },
            ip_address: match self.ip_address {
                Some(t) => Some(t@),
                None => None,
            },
            port: match self.port {
                Some(t) => Some(t@),
                None => None,
            },
        }
    }
}

/// A field of a record, or what stands for it where the record lacks it.
pub open spec fn field_or(field: Option<Seq<char>>, fallback: Seq<char>) -> Seq<char> {
    match field {
        Some(text) => text,
        None => fallback,
    }
}

/// The token under which a record is filed.
pub open spec fn record_token(record: TokenRecordView) -> Seq<char> {
    field_or(record.token, "<NO_TOKEN>"@)
}

/// The `host:port` that a record names.
pub open spec fn record_target(record: TokenRecordView) -> Seq<char> {
    field_or(record.ip_address, "127.0.0.1"@) + ":"@ + field_or(record.port, "7777"@)
}

/// The token map that a scan's records make: each record files its target
/// under its token, a later record in place of an earlier one.
pub open spec fn records_map(records: Seq<TokenRecordView>) -> Map<Seq<char>, Seq<char>>
    decreases records.len(),
{
    if records.len() == 0 {
        Map::empty()
    } else {
        records_map(records.drop_last()).insert(
            record_token(records.last()),
            record_target(records.last()),
        )
    }
}

/// The views of a scan's records.
pub open spec fn record_views(records: Seq<TokenRecord>) -> Seq<TokenRecordView> {
    records.map_values(|record: TokenRecord| record@)
}

/// A copy of a field, or of its fallback.
fn field_or_fallback(field: &Option<String>, fallback: &str) -> (text: String)
    ensures
        text@ == field_or(
            match *field {
                Some(t) => Some(t@),
                None => None,
            },
            fallback@,
        ),
{
    match field {
        Some(text) => text.clone(),
        None => fallback.to_owned(),
    }
}

/// The token and the target of one record.
pub fn record_entry(record: &TokenRecord) -> (entry: (String, String))
    ensures
        entry.0@ == record_token(record@),
        entry.1@ == record_target(record@),
{
    let token = field_or_fallback(&record.token, "<NO_TOKEN>");
    let mut target = field_or_fallback(&record.ip_address, "127.0.0.1");
    let port = field_or_fallback(&record.port, "7777");
    target.append(":");
    target.append(port.as_str());
    (token, target)
}

/// The token map that a scan's records make.
pub fn token_map_from_records(records: &Vec<TokenRecord>) -> (map: TokenMap)
    ensures
        map.wf(),
        map@ == records_map(record_views(records@)),
{
    let mut map = TokenMap::new();
    let mut i: usize = 0;
    while i < records.len()
        invariant
            i <= records@.len(),
            map.wf(),
            map@ == records_map(record_views(records@).take(i as int)),
        decreases records@.len() - i,
    {
        let (token, target) = record_entry(&records[i]);
        map.insert(token, target);
        proof {
            let views = record_views(records@);
            assert(views.take(i + 1).drop_last() =~= views.take(i as int));
            assert(views.take(i + 1).last() == records@[i as int]@);
        }
        i = i + 1;
    }
    proof {
        assert(record_views(records@).take(i as int) =~= record_views(records@));
    }
    map
}

/// What the refresh task does after a scan.
#[derive(Clone, Debug, PartialEq, Eq)]
pub struct RefreshStep {
    /// What to log, where the scan failed.
    pub warning: Option<String>,
    /// After how many seconds to scan the table again.
    pub rescan_after_secs: u64,
}

/// The token map after a scan: that of the records where the scan brought
/// any, the old one where it failed.
pub open spec fn tokens_after_scan(
    tokens: Map<Seq<char>, Seq<char>>,
    outcome: Result<Vec<TokenRecord>, String>,
) -> Map<Seq<char>, Seq<char>> {
    match outcome {
        Ok(records) => records_map(record_views(records@)),
        Err(_) => tokens,
    }
}

/// What to log after a scan: nothing where it brought records, its error
/// where it failed.
pub open spec fn warning_after_scan(outcome: Result<Vec<TokenRecord>, String>) -> Option<
    Seq<char>,
> {
    match outcome {
        Ok(_) => None,
        Err(error) => Some("Failed to fetch token map: "@ + error@),
    }
}

impl SessionRouter {
    /// Takes in the outcome of a scan of the token table and says when to
    /// scan next. Records replace the whole token map; a failed scan leaves
    /// it as it was. Either way the sessions stay, and the next scan is due
    /// one interval later.
    pub fn apply_scan(&mut self, outcome: Result<Vec<TokenRecord>, String>) -> (step: RefreshStep)
        requires
            old(self).wf(),
        ensures
            final(self).wf(),
            final(self)@ == (SessionRouterView {
                tokens: tokens_after_scan(old(self)@.tokens, outcome),
                ..old(self)@
            }),
            step.rescan_after_secs == POLL_INTERVAL_SECS,
            match step.warning {
                Some(text) => warning_after_scan(outcome) == Some(text@),
                None => warning_after_scan(outcome) is None,
            },
    {
        match outcome {
            Ok(records) => {
                self.replace_tokens(token_map_from_records(&records));
                RefreshStep { warning: None, rescan_after_secs: POLL_INTERVAL_SECS }
            },
            Err(error) => {
                let mut text = "Failed to fetch token map: ".to_owned();
                text.append(error.as_str());
                RefreshStep { warning: Some(text), rescan_after_secs: POLL_INTERVAL_SECS }
            },
        }
    }
}

// ---------------------------------------------------------------------------
// Building the filter
// ---------------------------------------------------------------------------

/// The configuration from which a filter is to be built.
#[derive(Debug, PartialEq, Eq)]
pub enum ConfigType {
    /// A structured document, as its decoder left it: the configuration, or
    /// the decoder's complaint.
    Static(Result<SessionRouterConfig, String>),
    /// A binary message of the control plane.
    Dynamic,
}

/// Builds session routers. `C` is the client of the token table.
#[derive(Debug)]
pub struct SessionRouterFactory<C> {
    dynamo_client: Option<C>,
}

/// The factory of session routers that scan their table through
/// `dynamo_client`.
pub fn factory<C>(dynamo_client: Option<C>) -> (factory: SessionRouterFactory<C>)
    ensures
        factory.client() == dynamo_client,
{
    SessionRouterFactory { dynamo_client }
}

/// Why no router is built from `config`, if none is: a binary message is
/// not understood, a complaint of the decoder is handed on, and without a
/// client of the token table there is nothing to scan with.
pub open spec fn creation_error(config: ConfigType, has_client: bool) -> Option<CreationErrorView> {
    match config {
        ConfigType::Dynamic => Some(
            CreationErrorView::NotFound("xDS dynamic config not implemented for SessionRouter"@),
        ),
        ConfigType::Static(Err(complaint)) => Some(CreationErrorView::DeserializeFailed(complaint@)),
        ConfigType::Static(Ok(_)) => if has_client {
            None
        } else {
            Some(CreationErrorView::NotFound("No DynamoClient provided to SessionRouterFactory"@))
        },
    }
}

impl<C> SessionRouterFactory<C> {
    /// The client that the factory was made with.
    pub closed spec fn client(&self) -> Option<C> {
        self.dynamo_client
    }

    /// The name under which a configuration asks for this filter.
    pub fn name(&self) -> (name: &'static str)
        ensures
            name == NAME,
    {
        NAME
    }

    /// Builds a router from its configuration, and hands out the client
    /// with which its token table is to be scanned.
    pub fn create_filter(&self, config: ConfigType) -> (r: Result<(SessionRouter, &C), CreationError>)
        ensures
            match r {
                Ok((router, client)) => {
                    &&& creation_error(config, self.client() is Some) is None
                    &&& self.client() == Some(*client)
                    &&& router.wf()
                    &&& config matches ConfigType::Static(Ok(cfg)) && router@ == fresh_router(cfg@)
                },
                Err(error) => creation_error(config, self.client() is Some) == Some(error@),
            },
    {
        let cfg = match config {
            ConfigType::Static(Ok(cfg)) => cfg,
            ConfigType::Static(Err(complaint)) => {
                return Err(CreationError::DeserializeFailed(complaint));
            },
            ConfigType::Dynamic => {
                return Err(
                    CreationError::NotFound(
                        "xDS dynamic config not implemented for SessionRouter".to_owned(),
                    ),
                );
            },
        };
        let client = match &self.dynamo_client {
            Some(client) => client,
            None => {
                return Err(
                    CreationError::NotFound(
                        "No DynamoClient provided to SessionRouterFactory".to_owned(),
                    ),
                );
            },
        };
        Ok((SessionRouter::new(cfg), client))
    }
}

// ---------------------------------------------------------------------------
// What holds of every packet
// ---------------------------------------------------------------------------

/// A packet leaves with one destination or with none, and its source is
/// never touched.
pub proof fn lemma_at_most_one_destination(router: SessionRouterView, packet: ReadContextView)
    ensures
        read_model(router, packet).1.destinations.len() <= 1,
        read_model(router, packet).1.source == packet.source,
{
}

/// A client without a session whose payload is shorter than the handshake
/// is dropped, and nothing is learned from it.
pub proof fn lemma_short_payload_is_dropped(router: SessionRouterView, packet: ReadContextView)
    requires
        !router.sessions.contains_key(packet.source),
        packet.contents.len() < router.handshake_bytes,
    ensures
        read_model(router, packet).1.destinations.len() == 0,
        read_model(router, packet).1.contents == packet.contents,
        read_model(router, packet).0 == router,
{
}

/// A client without a session whose token the token map does not resolve
/// is dropped, and gets no session.
pub proof fn lemma_unknown_token_is_dropped(router: SessionRouterView, packet: ReadContextView)
    requires
        !router.sessions.contains_key(packet.source),
        packet.contents.len() >= router.handshake_bytes,
        resolved(
            router.tokens,
            base64_standard(packet.contents.take(router.handshake_bytes as int)),
        ) is None,
    ensures
        read_model(router, packet).1.destinations.len() == 0,
        read_model(router, packet).0 == router,
        !read_model(router, packet).0.sessions.contains_key(packet.source),
{
}

/// A client without a session whose token resolves gets a session with
/// the token's endpoint, and its packet goes there without the handshake.
pub proof fn lemma_known_token_opens_session(router: SessionRouterView, packet: ReadContextView)
    requires
        !router.sessions.contains_key(packet.source),
        holds_handshake(router.handshake_bytes, packet.contents),
        resolved(
            router.tokens,
            base64_standard(packet.contents.take(router.handshake_bytes as int)),
        ) is Some,
    ensures
        ({
            let endpoint = resolved(
                router.tokens,
                base64_standard(packet.contents.take(router.handshake_bytes as int)),
            )->0;
            let after = read_model(router, packet);
            &&& after.1.destinations == seq![endpoint.address]
            &&& after.1.contents == packet.contents.skip(router.handshake_bytes as int)
            &&& after.0.sessions == router.sessions.insert(packet.source, endpoint)
            &&& after.0.tokens == router.tokens
        }),
{
}

/// Session affinity: once a packet of a client has found a destination,
/// every later packet of that client goes to the same one, whatever it
/// carries and whatever the token map holds by then; its payload is not
/// read, and the router stays as it is.
pub proof fn lemma_session_is_sticky(
    router: SessionRouterView,
    first: ReadContextView,
    tokens: Map<Seq<char>, Seq<char>>,
    later: ReadContextView,
)
    requires
        later.source == first.source,
        read_model(router, first).1.destinations.len() > 0,
    ensures
        ({
            let established = SessionRouterView { tokens, ..read_model(router, first).0 };
            &&& read_model(established, later).1.destinations == read_model(
                router,
                first,
            ).1.destinations
            &&& read_model(established, later).1.contents == later.contents
            &&& read_model(established, later).0 == established
        }),
{
}

/// A session never ends and never moves: whatever packet comes, from
/// whatever client, a client that had a session has the same one after it.
pub proof fn lemma_sessions_are_kept(
    router: SessionRouterView,
    packet: ReadContextView,
    client: EndpointAddress,
)
    requires
        router.sessions.contains_key(client),
    ensures
        read_model(router, packet).0.sessions.contains_key(client),
        read_model(router, packet).0.sessions[client] == router.sessions[client],
{
}

/// A packet changes neither the token map nor the configuration.
pub proof fn lemma_read_keeps_tokens(router: SessionRouterView, packet: ReadContextView)
    ensures
        read_model(router, packet).0.tokens == router.tokens,
        read_model(router, packet).0.handshake_bytes == router.handshake_bytes,
        read_model(router, packet).0.table_name == router.table_name,
{
}

/// A failed scan leaves the token map as it was.
pub proof fn lemma_failed_scan_keeps_tokens(tokens: Map<Seq<char>, Seq<char>>, error: String)
    ensures
        tokens_after_scan(tokens, Err(error)) == tokens,
{
}

} // verus!
