//! The registry actor: the one owner of the port pool. Requests reach it
//! over a channel, one at a time; those that want an answer carry their own
//! reply channel.

use crate::ports::{PortPool, UsedPort, UsedPortView};
use std::sync::mpsc::{Receiver, Sender};
use vstd::prelude::*;

verus! {

/// `std::sync::mpsc::Sender`, the sending end of a channel: carried, never
/// looked into.
#[verifier::external_type_specification]
#[verifier::external_body]
#[verifier::reject_recursive_types(T)]
pub struct ExSender<T>(Sender<T>);

/// `std::sync::mpsc::Receiver`, the receiving end of a channel: carried,
/// never looked into.
#[verifier::external_type_specification]
#[verifier::external_body]
#[verifier::reject_recursive_types(T)]
pub struct ExReceiver<T>(Receiver<T>);

/// The answer to a request that wants one.
pub enum ReplyMessage {
    AllocatePort(u16),
    ListAllocations(Vec<UsedPort>),
}

/// What travels on a reply channel: an answer, or the reason for a failure.
pub type Reply = Result<ReplyMessage, String>;

/// The requests the registry serves.
pub enum RequestMessage {
    AllocatePort { service_name: String, user_name: String, reply_chan: Sender<Reply> },
    FreePort(u16),
    ListAllocations(Sender<Reply>),
    Terminate,
}

/// An answer, mathematically.
pub ghost enum ReplyView {
    AllocatePort(u16),
    ListAllocations(Seq<UsedPortView>),
}

impl View for ReplyMessage {
    type V = ReplyView;

    open spec fn view(&self) -> ReplyView {
        match self {
            ReplyMessage::AllocatePort(p) => ReplyView::AllocatePort(*p),
            ReplyMessage::ListAllocations(rows) => ReplyView::ListAllocations(
                rows@.map_values(|u: UsedPort| u@),
            ),
        }
    }
}

/// What travels on a reply channel, mathematically.
pub open spec fn reply_view(reply: Reply) -> Result<ReplyView, Seq<char>> {
    match reply {
        Ok(m) => Ok(m@),
        Err(e) => Err(e@),
    }
}

/// What the registry does after handling one request.
pub enum Step {
    /// Send this reply on this channel, then take the next request.
    Send(Sender<Reply>, Reply),
    /// Take the next request.
    Continue,
    /// Stop serving.
    Stop,
}

/// Handle one request against the pool: allocate, free or list, and say
/// what to send back. Freeing a port that is not leased changes nothing and
/// is not answered.
pub fn handle_request(pool: &mut PortPool, request: RequestMessage) -> (r: Step)
    requires
        old(pool).wf(),
    ensures
        final(pool).wf(),
        match request {
            RequestMessage::AllocatePort { service_name, user_name, reply_chan } => {
                &&& final(pool)@ == old(pool)@.after_allocation(service_name@, user_name@)
                &&& r is Send
                &&& r->Send_0 == reply_chan
                &&& reply_view(r->Send_1) == match old(pool)@.allocation(service_name@, user_name@) {
                    Ok(p) => Ok(ReplyView::AllocatePort(p)),
                    Err(e) => Err::<ReplyView, Seq<char>>(e),
                }
            },
            RequestMessage::FreePort(port) => {
                &&& final(pool)@ == old(pool)@.after_release(port)
                &&& r is Continue
            },
            RequestMessage::ListAllocations(reply_chan) => {
                &&& final(pool)@ == old(pool)@
                &&& r is Send
                &&& r->Send_0 == reply_chan
                &&& reply_view(r->Send_1) matches Ok(ReplyView::ListAllocations(rows))
                &&& old(pool)@.lists(rows)
            },
            RequestMessage::Terminate => {
                &&& final(pool)@ == old(pool)@
                &&& r is Stop
            },
        },
{
    match request {
        RequestMessage::AllocatePort { service_name, user_name, reply_chan } => {
            let reply = match pool.allocate(service_name.as_str(), user_name.as_str()) {
                Ok(lease) => Ok(ReplyMessage::AllocatePort(lease.port())),
                Err(reason) => Err(reason),
            };
            Step::Send(reply_chan, reply)
        },
        RequestMessage::FreePort(port) => {
            let _ = pool.free(port);
            Step::Continue
        },
        RequestMessage::ListAllocations(reply_chan) => {
            Step::Send(reply_chan, Ok(ReplyMessage::ListAllocations(pool.usage())))
        },
        RequestMessage::Terminate => Step::Stop,
    }
}


/// Why a request fails when the registry hangs up before it answers.
pub open spec fn closed_channel_reason() -> Seq<char> {
    "receiving on a closed channel"@
}

/// Relies on `std::sync::mpsc::channel`: a new channel, as its sending and
/// its receiving end.
#[verifier::external_body]
fn reply_channel() -> (Sender<Reply>, Receiver<Reply>) {
    std::sync::mpsc::channel()
}

/// Relies on `Sender::send`: hands the request to the registry, or, when
/// the registry's receiving end is gone, hands the request back inside the
/// `SendError`, as std documents.
#[verifier::external_body]
fn send_request(request: &Sender<RequestMessage>, message: RequestMessage) -> (r: Result<
    (),
    RequestMessage,
>)
    ensures
        r matches Err(m) ==> m == message,
{
    request.send(message).map_err(|refused| refused.0)
}

/// Relies on `Receiver::recv`: waits for a reply; `None` once every sending
/// end is gone and nothing is left to receive.
#[verifier::external_body]
fn receive_reply(reply: &Receiver<Reply>) -> Option<Reply> {
    reply.recv().ok()
}

/// Why a request fails when the registry is gone before it is sent.
pub open spec fn hung_up_reason() -> Seq<char> {
    "sending on a closed channel"@
}

/// An outcome whose reason is a `String`, mathematically.
pub open spec fn outcome_view<T>(r: Result<T, String>) -> Result<T, Seq<char>> {
    match r {
        Ok(v) => Ok(v),
        Err(e) => Err(e@),
    }
}

/// The port that the reply `received` grants, or why there is none: no
/// reply at all, a reply of the wrong kind, or the registry's refusal.
pub open spec fn port_of_reply(received: Option<Reply>) -> Result<u16, Seq<char>> {
    match received {
        Some(Ok(ReplyMessage::AllocatePort(p))) => Ok(p),
        Some(Ok(ReplyMessage::ListAllocations(_))) => Err("Invalid reply message type"@),
        Some(Err(e)) => Err(e@),
        None => Err(closed_channel_reason()),
    }
}

/// The leases that the reply `received` lists, or why there are none.
pub open spec fn listing_of_reply(received: Option<Reply>) -> Result<Vec<UsedPort>, Seq<char>> {
    match received {
        Some(Ok(ReplyMessage::ListAllocations(rows))) => Ok(rows),
        Some(Ok(ReplyMessage::AllocatePort(_))) => Err("Invalid reply from port manager"@),
        Some(Err(e)) => Err(e@),
        None => Err(closed_channel_reason()),
    }
}

/// The port granted by the reply `received`, or why there is none.
pub fn port_from_reply(received: Option<Reply>) -> (r: Result<u16, String>)
    ensures
        outcome_view(r) == port_of_reply(received),
{
    match received {
        Some(Ok(ReplyMessage::AllocatePort(port))) => Ok(port),
        Some(Ok(ReplyMessage::ListAllocations(_))) => Err(
            String::from_str("Invalid reply message type"),
        ),
        Some(Err(reason)) => Err(reason),
        None => Err(String::from_str("receiving on a closed channel")),
    }
}

/// The leases listed by the reply `received`, or why there are none.
pub fn allocations_from_reply(received: Option<Reply>) -> (r: Result<Vec<UsedPort>, String>)
    ensures
        outcome_view(r) == listing_of_reply(received),
{
    match received {
        Some(Ok(ReplyMessage::ListAllocations(rows))) => Ok(rows),
        Some(Ok(ReplyMessage::AllocatePort(_))) => Err(
            String::from_str("Invalid reply from port manager"),
        ),
        Some(Err(reason)) => Err(reason),
        None => Err(String::from_str("receiving on a closed channel")),
    }
}

/// The request for a port for the service `service_name` of the user
/// `user_name`, to be answered on `reply_chan`.
pub fn allocation_request(service_name: &str, user_name: &str, reply_chan: Sender<Reply>) -> (m:
    RequestMessage)
    ensures
        m matches RequestMessage::AllocatePort { service_name: s, user_name: u, reply_chan: c }
            && s@ == service_name@ && u@ == user_name@ && c == reply_chan,
{
    RequestMessage::AllocatePort {
        service_name: String::from_str(service_name),
        user_name: String::from_str(user_name),
        reply_chan,
    }
}

/// The request that gives `port` back to the pool.
pub fn free_request(port: u16) -> (m: RequestMessage)
    ensures
        m matches RequestMessage::FreePort(p) && p == port,
{
    RequestMessage::FreePort(port)
}

/// The request for the list of leases, to be answered on `reply_chan`.
pub fn listing_request(reply_chan: Sender<Reply>) -> (m: RequestMessage)
    ensures
        m matches RequestMessage::ListAllocations(c) && c == reply_chan,
{
    RequestMessage::ListAllocations(reply_chan)
}

///
/// Ask the registry behind `request` for a port for the service
/// `service_name` of the user `user_name`, and wait for its answer.
/// What is sent is `allocation_request(service_name, user_name, ..)` with a
/// fresh reply channel. When the registry is gone the call fails as hung
/// up; else the outcome is what `port_of_reply` gives on the one reply
/// received, or on none.
///
pub fn request_port(service_name: &str, user_name: &str, request: &Sender<RequestMessage>) -> (r:
    Result<u16, String>)
    ensures
        outcome_view(r) == Err::<u16, Seq<char>>(hung_up_reason()) || exists|received: Option<Reply>|
            outcome_view(r) == port_of_reply(received),
{
    let (reply_sender, reply_receiver) = reply_channel();
    if send_request(request, allocation_request(service_name, user_name, reply_sender)).is_err() {
        return Err(String::from_str("sending on a closed channel"));
    }
    let received = receive_reply(&reply_receiver);
    let ghost seen = received;
    let r = port_from_reply(received);
    assert(outcome_view(r) == port_of_reply(seen));
    r
}

///
/// Tell the registry behind `request` that `port` is no longer used, by
/// sending `free_request(port)`. No answer comes back. When the registry is
/// gone, the request comes back as the error.
///
pub fn release_port(port: u16, request: &Sender<RequestMessage>) -> (r: Result<(), RequestMessage>)
    ensures
        r matches Err(m) ==> m matches RequestMessage::FreePort(p) && p == port,
{
    send_request(request, free_request(port))
}

///
/// Ask the registry behind `request` for its leases, ascending by port, and
/// wait for its answer. What is sent is `listing_request(..)` with a fresh
/// reply channel. When the registry is gone the call fails as hung up; else
/// the outcome is what `listing_of_reply` gives on the one reply received,
/// or on none.
///
pub fn get_allocations(request: &Sender<RequestMessage>) -> (r: Result<Vec<UsedPort>, String>)
    ensures
        outcome_view(r) == Err::<Vec<UsedPort>, Seq<char>>(hung_up_reason()) || exists|
            received: Option<Reply>,
        | outcome_view(r) == listing_of_reply(received),
{
    let (reply_sender, reply_receiver) = reply_channel();
    if send_request(request, listing_request(reply_sender)).is_err() {
        return Err(String::from_str("sending on a closed channel"));
    }
    let received = receive_reply(&reply_receiver);
    let ghost seen = received;
    let r = allocations_from_reply(received);
    assert(outcome_view(r) == listing_of_reply(seen));
    r
}

} // verus!
