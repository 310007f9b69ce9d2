//! The configuration of the session router, in its structured and in its
//! binary form.

use crate::filters::{ConvertProtoConfigError, ConvertProtoConfigErrorView};
use vstd::prelude::*;

verus! {

/// The configuration as the control plane sends it.
#[derive(Clone, Debug, PartialEq, Eq)]
pub struct SessionRouterConfigProto {
    pub handshake_bytes: u32,
    pub dynamo_table_name: String,
}

/// The configuration as a static file gives it.
#[derive(Clone, Debug, PartialEq, Eq)]
pub struct SessionRouterConfig {
    /// How many leading bytes of a client's first payload form its token.
    pub handshake_bytes: usize,
    /// The table that maps tokens to endpoints.
    pub dynamo_table_name: String,
}

/// What a configuration says, in either form.
pub struct ConfigView {
    pub handshake_bytes: nat,
    pub table_name: Seq<char>,
}

impl View for SessionRouterConfig {
    type V = ConfigView;

    open spec fn view(&self) -> ConfigView {
        ConfigView {
            handshake_bytes: self.handshake_bytes as nat,
            table_name: self.dynamo_table_name@,
        }
    }
}

impl View for SessionRouterConfigProto {
    type V = ConfigView;

    open spec fn view(&self) -> ConfigView {
        ConfigView {
            handshake_bytes: self.handshake_bytes as nat,
            table_name: self.dynamo_table_name@,
        }
    }
}

/// The number of handshake bytes where a configuration names none.
pub fn default_handshake_bytes() -> (n: usize)
    ensures
        n == 4,
{
    4
}

/// The table where a configuration names none.
pub fn default_table_name() -> (name: String)
    ensures
        name@ == "MyMatchmakingTable"@,
{
    "MyMatchmakingTable".to_owned()
}

impl Default for SessionRouterConfig {
    fn default() -> (config: SessionRouterConfig)
        ensures
            config@ == (ConfigView { handshake_bytes: 4, table_name: "MyMatchmakingTable"@ }),
    {
        SessionRouterConfig {
            handshake_bytes: default_handshake_bytes(),
            dynamo_table_name: default_table_name(),
        }
    }
}

/// Whether a number of handshake bytes has room in the binary form.
pub open spec fn fits_binary(handshake_bytes: nat) -> bool {
    handshake_bytes <= u32::MAX
}

impl SessionRouterConfig {
    /// Takes over a configuration in binary form. Every field has room in
    /// the structured form, so this never fails, and the configuration
    /// says what the message said.
    pub fn try_from(proto: SessionRouterConfigProto) -> (r: Result<
        SessionRouterConfig,
        ConvertProtoConfigError,
    >)
        ensures
            r is Ok,
            r->Ok_0@ == proto@,
    {
        Ok(
            SessionRouterConfig {
                handshake_bytes: proto.handshake_bytes as usize,
                dynamo_table_name: proto.dynamo_table_name,
            },
        )
    }
}

impl SessionRouterConfigProto {
    /// Puts a configuration into binary form, which says what the
    /// configuration said. A number of handshake bytes with no room in 32
    /// bits is refused: nothing is cut off.
    pub fn try_from(config: SessionRouterConfig) -> (r: Result<
        SessionRouterConfigProto,
        ConvertProtoConfigError,
    >)
        ensures
            match r {
                Ok(proto) => fits_binary(config@.handshake_bytes) && proto@ == config@,
                Err(error) => !fits_binary(config@.handshake_bytes) && error@ == (
                ConvertProtoConfigErrorView {
                    reason: "handshake_bytes does not fit in 32 bits"@,
                    field: Some("handshake_bytes"@),
                }),
            },
    {
        if config.handshake_bytes > 0xffff_ffff {
            return Err(
                ConvertProtoConfigError::new(
                    "handshake_bytes does not fit in 32 bits".to_owned(),
                    Some("handshake_bytes".to_owned()),
                ),
            );
        }
        Ok(
            SessionRouterConfigProto {
                handshake_bytes: config.handshake_bytes as u32,
                dynamo_table_name: config.dynamo_table_name,
            },
        )
    }
}

} // verus!
