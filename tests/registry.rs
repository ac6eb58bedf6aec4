use portman::handler::{is_local, route, Dispatch, PeerAddress, LOOPBACK_V4, LOOPBACK_V6};
use portman::ports::PortPool;
use portman::protocol::{allocation_reply, decode_request, listing_reply};
use portman::responder::{
    allocation_request, allocations_from_reply, free_request, get_allocations, listing_request, handle_request, port_from_reply, release_port,
    request_port, Reply, ReplyMessage, RequestMessage, Step,
};
use std::sync::mpsc;

// Hands one request to the registry step and returns what it answered.
fn ask(pool: &mut PortPool, make: impl FnOnce(mpsc::Sender<Reply>) -> RequestMessage) -> Reply {
    let (tx, rx) = mpsc::channel();
    match handle_request(pool, make(tx)) {
        Step::Send(chan, reply) => chan.send(reply).unwrap(),
        _ => panic!("no reply"),
    }
    rx.recv().unwrap()
}

// One connection: decode the line, route it, and serve it against the pool.
fn serve_line(pool: &mut PortPool, line: &str, peer: PeerAddress) -> (String, Option<u16>) {
    match route(decode_request(line), &peer) {
        Dispatch::Allocate { service_name, user_name } => {
            let reply = ask(pool, |reply_chan| RequestMessage::AllocatePort {
                service_name,
                user_name,
                reply_chan,
            });
            let result = port_from_reply(Some(reply));
            (allocation_reply(&result), result.ok())
        }
        Dispatch::List => {
            let reply = ask(pool, RequestMessage::ListAllocations);
            (listing_reply(&allocations_from_reply(Some(reply)).unwrap()), None)
        }
        Dispatch::Terminate => (String::new(), None),
        Dispatch::Reply(text) => (text, None),
    }
}

fn local() -> PeerAddress {
    PeerAddress::V4(LOOPBACK_V4)
}

#[test]
fn loopback_peers_are_local() {
    assert!(is_local(&PeerAddress::V4(0x7f00_0001)));
    assert!(is_local(&PeerAddress::V6(1)));
    assert!(!is_local(&PeerAddress::V4(0x0a00_0001)));
    assert!(!is_local(&PeerAddress::V4(0x7f00_0002)));
    assert!(!is_local(&PeerAddress::V6(0)));
    assert!(!is_local(&PeerAddress::V6(0xffff_7f00_0001)));
    assert!(is_local(&PeerAddress::V6(LOOPBACK_V6)));
}

#[test]
fn gimme_from_loopback_then_pool_exhausted() {
    let mut pool = PortPool::new(30000, 1);
    let (reply, port) = serve_line(&mut pool, "GIMME svc user", local());
    assert_eq!(reply, "OK 30000\n");
    assert_eq!(port, Some(30000));
    let (reply, port) = serve_line(&mut pool, "GIMME svc user", PeerAddress::V6(LOOPBACK_V6));
    assert_eq!(reply, "FAIL No free ports available\n");
    assert_eq!(port, None);
}

#[test]
fn gimme_from_remote_peer_is_refused() {
    let mut pool = PortPool::new(30000, 1);
    let (reply, port) = serve_line(&mut pool, "GIMME svc user", PeerAddress::V4(0xc0a8_0001));
    assert_eq!(reply, "FAIL can only allocate to local senders\n");
    assert_eq!(port, None);
    assert_eq!(pool.used_count(), 0);
    assert_eq!(pool.unused_count(), 1);
}

#[test]
fn closed_lease_disappears_from_list() {
    let mut pool = PortPool::new(30000, 2);
    let (_, port) = serve_line(&mut pool, "GIMME svc user", local());
    let port = port.unwrap();
    let (reply, _) = serve_line(&mut pool, "LIST", PeerAddress::V4(0x0a00_0001));
    assert_eq!(reply, "OK 1\n30000 svc user\n");
    assert!(matches!(handle_request(&mut pool, RequestMessage::FreePort(port)), Step::Continue));
    let (reply, _) = serve_line(&mut pool, "LIST", local());
    assert_eq!(reply, "OK 0\n");
}

#[test]
fn list_with_trailing_words_gets_invalid_reply() {
    let mut pool = PortPool::new(30000, 2);
    let (reply, _) = serve_line(&mut pool, "LIST extra", local());
    assert_eq!(reply, "FAIL - invalid request\n");
}

#[test]
fn duplicate_gimme_over_the_wire() {
    let mut pool = PortPool::new(30000, 2);
    assert_eq!(serve_line(&mut pool, "GIMME svc user", local()).0, "OK 30000\n");
    assert_eq!(
        serve_line(&mut pool, "GIMME svc user", local()).0,
        "FAIL Duplicate port allocation attempted\n"
    );
}

#[test]
fn terminate_stops_the_registry() {
    let mut pool = PortPool::new(30000, 2);
    assert!(matches!(route(decode_request("TERMINATE"), &local()), Dispatch::Terminate));
    assert!(matches!(handle_request(&mut pool, RequestMessage::Terminate), Step::Stop));
}

#[test]
fn freeing_unknown_port_is_quiet() {
    let mut pool = PortPool::new(30000, 2);
    assert!(matches!(handle_request(&mut pool, RequestMessage::FreePort(1)), Step::Continue));
    assert_eq!(pool.unused_count(), 2);
}

#[test]
fn list_reply_carries_sorted_leases() {
    let mut pool = PortPool::new(30000, 3);
    pool.allocate("a", "x").unwrap();
    pool.allocate("b", "y").unwrap();
    match ask(&mut pool, RequestMessage::ListAllocations) {
        Ok(ReplyMessage::ListAllocations(rows)) => {
            let ports: Vec<u16> = rows.iter().map(|u| u.port()).collect();
            assert_eq!(ports, vec![30000, 30001]);
        }
        _ => panic!("wrong reply"),
    }
}

#[test]
fn replies_of_the_wrong_kind() {
    assert_eq!(port_from_reply(Some(Ok(ReplyMessage::ListAllocations(vec![])))), Err(String::from("Invalid reply message type")));
    assert_eq!(port_from_reply(Some(Err(String::from("why")))), Err(String::from("why")));
    assert_eq!(port_from_reply(None), Err(String::from("receiving on a closed channel")));
    assert!(matches!(allocations_from_reply(Some(Ok(ReplyMessage::AllocatePort(3)))), Err(e) if e == "Invalid reply from port manager"));
    assert!(matches!(allocations_from_reply(None), Err(e) if e == "receiving on a closed channel"));
}

#[test]
fn client_calls_to_a_stopped_registry_fail() {
    let (tx, rx) = mpsc::channel::<RequestMessage>();
    drop(rx);
    assert_eq!(request_port("svc", "user", &tx), Err(String::from("sending on a closed channel")));
    assert!(matches!(get_allocations(&tx), Err(e) if e == "sending on a closed channel"));
    assert!(matches!(release_port(30000, &tx), Err(RequestMessage::FreePort(30000))));
}

#[test]
fn release_port_queues_a_free_request() {
    let (tx, rx) = mpsc::channel::<RequestMessage>();
    assert!(release_port(30001, &tx).is_ok());
    assert!(matches!(rx.recv().unwrap(), RequestMessage::FreePort(30001)));
}

#[test]
fn request_builders_carry_their_arguments() {
    let (tx, rx) = mpsc::channel::<Reply>();
    match allocation_request("svc", "user", tx.clone()) {
        RequestMessage::AllocatePort { service_name, user_name, reply_chan } => {
            assert_eq!(service_name, "svc");
            assert_eq!(user_name, "user");
            reply_chan.send(Ok(ReplyMessage::AllocatePort(7))).unwrap();
            assert!(matches!(rx.recv().unwrap(), Ok(ReplyMessage::AllocatePort(7))));
        }
        _ => panic!("wrong request"),
    }
    assert!(matches!(free_request(30002), RequestMessage::FreePort(30002)));
    match listing_request(tx) {
        RequestMessage::ListAllocations(reply_chan) => {
            reply_chan.send(Err(String::from("x"))).unwrap();
            assert!(matches!(rx.recv().unwrap(), Err(e) if e == "x"));
        }
        _ => panic!("wrong request"),
    }
}

#[test]
fn built_requests_served_by_the_registry() {
    let mut pool = PortPool::new(30000, 1);
    let reply = ask(&mut pool, |c| allocation_request("svc", "user", c));
    assert_eq!(port_from_reply(Some(reply)), Ok(30000));
    let reply = ask(&mut pool, |c| allocation_request("svc", "other", c));
    assert_eq!(port_from_reply(Some(reply)), Err(String::from("No free ports available")));
    let rows = allocations_from_reply(Some(ask(&mut pool, listing_request))).unwrap();
    assert_eq!((rows[0].port(), rows[0].service(), rows[0].user()), (30000, String::from("svc"), String::from("user")));
    assert!(matches!(handle_request(&mut pool, free_request(30000)), Step::Continue));
    assert!(allocations_from_reply(Some(ask(&mut pool, listing_request))).unwrap().is_empty());
}
