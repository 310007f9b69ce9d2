//! Filters: the stages through which a packet's context passes in a fixed
//! order, each of which may narrow or replace its destinations.

pub mod chain;
pub mod load_balancer;
pub mod session_router;
pub mod source_ip_router;

use crate::net::EndpointAddress;
use vstd::prelude::*;

verus! {

/// What a filter sees of a packet on its way from a client to the upstream
/// endpoints.
#[derive(Clone, Debug, PartialEq, Eq)]
pub struct ReadContext {
    /// Where the packet came from.
    pub source: EndpointAddress,
    /// The payload.
    pub contents: Vec<u8>,
    /// Where the packet will be sent. None at all: the packet is dropped.
    pub destinations: Vec<EndpointAddress>,
}

/// A [`ReadContext`] as plain values.
pub struct ReadContextView {
    pub source: EndpointAddress,
    pub contents: Seq<u8>,
    pub destinations: Seq<EndpointAddress>,
}

impl View for ReadContext {
    type V = ReadContextView;

    open spec fn view(&self) -> ReadContextView {
        ReadContextView {
            source: self.source,
            contents: self.contents@,
            destinations: self.destinations@,
        }
    }
}

impl ReadContext {
    /// The context of a packet for which no destination is chosen yet.
    pub fn new(source: EndpointAddress, contents: Vec<u8>) -> (ctx: ReadContext)
        ensures
            ctx@ == (ReadContextView { source, contents: contents@, destinations: Seq::empty() }),
    {
        ReadContext { source, contents, destinations: Vec::new() }
    }
}

/// What a filter sees of a packet on its way from an upstream endpoint back
/// to a client.
#[derive(Clone, Debug, PartialEq, Eq)]
pub struct WriteContext {
    /// The upstream endpoint that sent the packet.
    pub source: EndpointAddress,
    /// The client that will receive it.
    pub dest: EndpointAddress,
    /// The payload.
    pub contents: Vec<u8>,
}

/// Why a filter gave up on a packet.
#[derive(Clone, Copy, Debug, PartialEq, Eq)]
pub enum FilterError {
    Custom(&'static str),
}

/// A [`FilterError`] as plain values.
pub enum FilterErrorView {
    Custom(Seq<char>),
}

impl View for FilterError {
    type V = FilterErrorView;

    open spec fn view(&self) -> FilterErrorView {
        match *self {
            FilterError::Custom(why) => FilterErrorView::Custom(why@),
        }
    }
}

/// Why a filter could not be built from its configuration.
#[derive(Clone, Debug, PartialEq, Eq)]
pub enum CreationError {
    NotFound(String),
    MissingConfig(&'static str),
    DeserializeFailed(String),
}

/// A [`CreationError`] as plain values.
pub enum CreationErrorView {
    NotFound(Seq<char>),
    MissingConfig(Seq<char>),
    DeserializeFailed(Seq<char>),
}

impl View for CreationError {
    type V = CreationErrorView;

    open spec fn view(&self) -> CreationErrorView {
        match *self {
            CreationError::NotFound(what) => CreationErrorView::NotFound(what@),
            CreationError::MissingConfig(name) => CreationErrorView::MissingConfig(name@),
            CreationError::DeserializeFailed(why) => CreationErrorView::DeserializeFailed(why@),
        }
    }
}

/// Why a configuration in binary form could not be taken over.
#[derive(Clone, Debug, PartialEq, Eq)]
pub struct ConvertProtoConfigError {
    pub reason: String,
    pub field: Option<String>,
}

/// A [`ConvertProtoConfigError`] as plain values.
pub struct ConvertProtoConfigErrorView {
    pub reason: Seq<char>,
    pub field: Option<Seq<char>>,
}

impl View for ConvertProtoConfigError {
    type V = ConvertProtoConfigErrorView;

    open spec fn view(&self) -> ConvertProtoConfigErrorView {
        ConvertProtoConfigErrorView {
            reason: self.reason@,
            field: match self.field {
                Some(name) => Some(name@),
                None => None,
            },
        }
    }
}

impl ConvertProtoConfigError {
    pub fn new(reason: String, field: Option<String>) -> (error: ConvertProtoConfigError)
        ensures
            error == (ConvertProtoConfigError { reason, field }),
    {
        ConvertProtoConfigError { reason, field }
    }
}

} // verus!
