use vstd::prelude::*;

verus! {

/// Why a request on a connection or a channel was refused.
#[derive(Debug, Clone, Copy, PartialEq, Eq, Structural)]
pub enum ChannelError {
    /// No authentication has been accepted on the connection yet.
    Unauthenticated,
    /// No open channel has this id.
    ChannelNotFound,
    /// A channel with this id is already registered.
    DuplicateChannel,
    /// The channel is in a phase where this request is not allowed.
    InvalidStateForRequest,
    /// Data arrived for a channel that is not bound to a resource.
    NoBoundResource,
    /// The bound resource no longer accepts input.
    IoError,
    /// A reverse forward is already registered on this address and port.
    AlreadyBound,
    /// No reverse forward is registered on this address and port.
    NotFound,
    /// The named subsystem is not offered by this server.
    UnknownSubsystem,
}

} // verus!
