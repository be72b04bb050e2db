//! Codec for the binary interface of smart contracts: typed values to and from
//! the canonical head/tail byte layout, call payloads, and event logs.

pub mod constructor;
pub mod contract;
pub mod decoder;
pub mod encoder;
pub mod errors;
pub mod event;
pub mod filter;
pub mod function;
pub mod log;
pub mod naming;
pub mod param_type;
pub mod roundtrip;
pub mod signature;
pub mod token;
pub mod word;

pub use crate::constructor::Constructor;
pub use crate::contract::Contract;
pub use crate::decoder::decode;
pub use crate::encoder::encode;
pub use crate::errors::Error;
pub use crate::event::{Event, EventParam};
pub use crate::filter::{RawTopicFilter, Topic, TopicFilter};
pub use crate::function::{Function, Param};
pub use crate::log::{Log, LogParam, LogValue, RawLog};
pub use crate::param_type::ParamType;
pub use crate::signature::{long_signature, short_signature};
pub use crate::token::Token;
