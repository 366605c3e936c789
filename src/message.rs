//! Messages of the client protocol, as the engine reads them.
use vstd::prelude::*;

verus! {

/// Size of the surface that touches are reported in, announced by the client.
#[derive(Clone, Copy, Debug, PartialEq, Eq, Structural)]
pub struct DimensionsData {
    pub width: i32,
    pub height: i32,
    pub resolution: i32,
}

/// One contact reported by the client, its position truncated to device coordinates.
#[derive(Clone, Copy, Debug, PartialEq, Eq, Structural)]
pub struct Touch {
    pub id: i32,
    pub x: i32,
    pub y: i32,
}

/// An inbound message of the client protocol.
#[derive(Debug)]
pub enum Message {
    DimensionsUpdate(DimensionsData),
    TouchUpdate(Vec<Touch>),
    TouchEnd(Vec<i32>),
}

} // verus!
