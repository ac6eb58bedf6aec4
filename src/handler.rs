//! What a connection handler decides for one request: who may ask for a
//! lease, and what to do with each kind of request.

use crate::protocol::{failure_text, invalid_reply, not_local_reply, ClientRequest, RequestView};
use vstd::prelude::*;

verus! {

/// The address of a connection's peer: an IPv4 address as its 32-bit
/// number, or an IPv6 address as its 128-bit number.
pub enum PeerAddress {
    V4(u32),
    V6(u128),
}

/// 127.0.0.1 as a number.
pub const LOOPBACK_V4: u32 = 0x7f00_0001;

/// ::1 as a number.
pub const LOOPBACK_V6: u128 = 1;

/// The peer is the host itself: 127.0.0.1 or ::1.
pub open spec fn is_loopback(peer: PeerAddress) -> bool {
    match peer {
        PeerAddress::V4(a) => a == LOOPBACK_V4,
        PeerAddress::V6(a) => a == LOOPBACK_V6,
    }
}

/// Whether the peer is local, and so may hold a lease.
pub fn is_local(peer: &PeerAddress) -> (r: bool)
    ensures
        r == is_loopback(*peer),
{
    match peer {
        PeerAddress::V4(a) => *a == LOOPBACK_V4,
        PeerAddress::V6(a) => *a == LOOPBACK_V6,
    }
}

/// What the handler does with a request.
pub enum Dispatch {
    /// Ask the registry for a lease, reply, and watch the connection.
    Allocate { service_name: String, user_name: String },
    /// Ask the registry for its leases, reply, and close.
    List,
    /// Shut the process down, without a reply.
    Terminate,
    /// Send this reply and close.
    Reply(String),
}

/// What the handler does, mathematically.
pub ghost enum DispatchView {
    Allocate { service: Seq<char>, user: Seq<char> },
    List,
    Terminate,
    Reply(Seq<char>),
}

impl View for Dispatch {
    type V = DispatchView;

    open spec fn view(&self) -> DispatchView {
        match self {
            Dispatch::Allocate { service_name, user_name } => DispatchView::Allocate {
                service: service_name@,
                user: user_name@,
            },
            Dispatch::List => DispatchView::List,
            Dispatch::Terminate => DispatchView::Terminate,
            Dispatch::Reply(text) => DispatchView::Reply(text@),
        }
    }
}

/// A lease is granted only to a local peer; listing and shutting down are
/// open to any peer; an invalid request is answered with a failure.
pub open spec fn route_spec(request: RequestView, local: bool) -> DispatchView {
    match request {
        RequestView::Gimme { service, user } => if local {
            DispatchView::Allocate { service, user }
        } else {
            DispatchView::Reply(failure_text("can only allocate to local senders"@))
        },
        RequestView::List => DispatchView::List,
        RequestView::Terminate => DispatchView::Terminate,
        RequestView::Invalid => DispatchView::Reply(failure_text("- invalid request"@)),
    }
}

/// Decide what to do with `request`, received from `peer`.
pub fn route(request: ClientRequest, peer: &PeerAddress) -> (r: Dispatch)
    ensures
        r@ == route_spec(request@, is_loopback(*peer)),
{
    match request {
        ClientRequest::Gimme { service_name, user_name } => {
            if is_local(peer) {
                Dispatch::Allocate { service_name, user_name }
            } else {
                Dispatch::Reply(not_local_reply())
            }
        },
        ClientRequest::List => Dispatch::List,
        ClientRequest::Terminate => Dispatch::Terminate,
        ClientRequest::Invalid => Dispatch::Reply(invalid_reply()),
    }
}

} // verus!
