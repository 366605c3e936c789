//! A virtual multitouch trackpad engine: it maps a client's touch ids to the
//! slots of a kernel multitouch device and works out, for each client message,
//! the ordered events that the device has to receive.
use vstd::prelude::*;

pub mod event;
pub mod laws;
pub mod message;
pub mod trackpad;

verus! {

} // verus!
