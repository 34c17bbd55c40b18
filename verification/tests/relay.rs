use grinrelay::address::{ChainTypes, GrinboxAddress};
use grinrelay::broker::{
    clamp_expiration_ms, BrokerRequest, BrokerResponse, BrokerSession, SessionEvent,
};
use grinrelay::crypto::{
    generate_challenge, public_key_from_secret_key, sign_challenge, verify_signature, Hex,
    PublicKey, SecretKey,
};
use grinrelay::directory::{ConsumerEvent, Directory};
use grinrelay::frame::{Command, Frame, Header, HeaderList};
use grinrelay::protocol::{GrinboxError, GrinboxRequest, GrinboxResponse};
use grinrelay::session::{Session, SessionPhase};

const MODE: ChainTypes = ChainTypes::Mainnet;

fn test_key(seed: u8) -> (SecretKey, PublicKey) {
    let mut bytes = vec![0u8; 32];
    bytes[31] = seed;
    let sk = SecretKey(bytes);
    let pk = public_key_from_secret_key(&sk).unwrap();
    (sk, pk)
}

fn test_addr(seed: u8) -> (SecretKey, GrinboxAddress) {
    let (sk, pk) = test_key(seed);
    (sk, GrinboxAddress::new(pk, None, None, &MODE))
}

fn new_session(id: &str, challenge: &str) -> Session {
    let (s, greeting) = Session::new(id.to_string(), challenge.to_string(), MODE);
    match greeting {
        GrinboxResponse::Challenge { str } => assert_eq!(str, challenge),
        other => panic!("expected a challenge greeting, got {:?}", other),
    }
    s
}

fn subscribe_req(addr: &GrinboxAddress, sk: &SecretKey, challenge: &str) -> GrinboxRequest {
    let sig = sign_challenge(challenge, sk).unwrap();
    GrinboxRequest::Subscribe { address: addr.stripped(), signature: sig.to_hex() }
}

#[test]
fn challenge_tokens_are_fresh_and_long() {
    let a = generate_challenge();
    let b = generate_challenge();
    assert_eq!(a.len(), 32);
    assert_eq!(b.len(), 32);
    assert!(a.chars().all(|c| c.is_ascii_alphanumeric()));
    assert_ne!(a, b);
}

#[test]
fn signature_verifies_only_under_the_signing_key() {
    let (sk1, pk1) = test_key(11);
    let (sk2, pk2) = test_key(12);
    let sig = sign_challenge("X", &sk1).unwrap();
    assert!(verify_signature("X", &sig, &pk1).is_ok());
    assert!(verify_signature("X", &sig, &pk2).is_err());
    assert!(verify_signature("Y", &sig, &pk1).is_err());
    let sig2 = sign_challenge("X", &sk2).unwrap();
    assert!(verify_signature("X", &sig2, &pk1).is_err());
}

#[test]
fn scenario_subscribe_ok() {
    // client connects, receives the challenge, answers with a signed subscribe
    let (sk, addr) = test_addr(21);
    let dir = Directory::new();
    let mut session = new_session("conn-1", "X");
    let (resp, reqs) = session.handle_request(&subscribe_req(&addr, &sk, "X"), &dir);
    assert_eq!(resp, Some(GrinboxResponse::Okay));
    assert_eq!(session.phase, SessionPhase::Bound);
    assert_eq!(
        reqs,
        vec![BrokerRequest::Subscribe { id: "conn-1".to_string(), subject: addr.public_key.clone() }]
    );
}

#[test]
fn scenario_wrong_key_is_rejected() {
    // a subscribe signed under a different key draws InvalidSignature and
    // the session stays unbound
    let (_, addr) = test_addr(22);
    let (other_sk, _) = test_key(23);
    let dir = Directory::new();
    let mut session = new_session("conn-1", "X");
    let (resp, reqs) = session.handle_request(&subscribe_req(&addr, &other_sk, "X"), &dir);
    match resp {
        Some(GrinboxResponse::Error { kind, .. }) => assert_eq!(kind, GrinboxError::InvalidSignature),
        other => panic!("expected an error, got {:?}", other),
    }
    assert_eq!(session.phase, SessionPhase::AwaitingSubscribe);
    assert!(reqs.is_empty());
}

#[test]
fn scenario_wrong_challenge_is_rejected() {
    let (sk, addr) = test_addr(24);
    let dir = Directory::new();
    let mut session = new_session("conn-1", "X");
    let (resp, _) = session.handle_request(&subscribe_req(&addr, &sk, "Y"), &dir);
    match resp {
        Some(GrinboxResponse::Error { kind, .. }) => assert_eq!(kind, GrinboxError::InvalidSignature),
        other => panic!("expected an error, got {:?}", other),
    }
}

fn post_slate_req(
    from: &GrinboxAddress,
    to: &GrinboxAddress,
    payload: &str,
    sk: &SecretKey,
    challenge: &str,
    ttl: Option<u32>,
) -> GrinboxRequest {
    let signed = format!("{}{}", payload, challenge);
    let sig = sign_challenge(&signed, sk).unwrap();
    GrinboxRequest::PostSlate {
        from: from.stripped(),
        to: to.stripped(),
        str: payload.to_string(),
        signature: sig.to_hex(),
        message_expiration_in_seconds: ttl,
    }
}

#[test]
fn scenario_post_and_deliver() {
    // first client binds its mailbox; a second client posts to it; the
    // broker delivery comes back to the first client as a Slate
    let (sk1, addr1) = test_addr(31);
    let (sk2, addr2) = test_addr(32);
    let mut dir = Directory::new();
    let mut broker = BrokerSession::new();

    let mut session1 = new_session("conn-1", "X");
    let (resp, reqs) = session1.handle_request(&subscribe_req(&addr1, &sk1, "X"), &dir);
    assert_eq!(resp, Some(GrinboxResponse::Okay));
    let frames = broker.handle_request(&reqs[0]);
    assert_eq!(frames.len(), 1);
    assert_eq!(frames[0].command, Command::Subscribe);

    // the broker reports the new consumer; the directory learns of it
    dir.handle_event(&ConsumerEvent::Created { queue: addr1.public_key.clone() });

    let mut session2 = new_session("conn-2", "Z");
    let post = post_slate_req(&addr2, &addr1, "payload-bytes", &sk2, "Z", None);
    let (resp, reqs) = session2.handle_request(&post, &dir);
    assert_eq!(resp, Some(GrinboxResponse::Okay));
    assert_eq!(reqs.len(), 1);
    let send_frames = broker.handle_request(&reqs[0]);
    assert_eq!(send_frames.len(), 1);
    assert_eq!(send_frames[0].command, Command::Send);
    assert_eq!(
        send_frames[0].headers.get("destination"),
        Some(format!("/queue/{}", addr1.public_key))
    );
    assert_eq!(send_frames[0].headers.get("grinrelay-reply-to"), Some(addr2.stripped()));
    assert_eq!(send_frames[0].headers.get("expiration"), Some("86400000".to_string()));

    // the broker delivers on the subscription; the session forwards a Slate
    let mut headers = HeaderList::new();
    headers.push(Header::new("subscription", "0"));
    headers.push(Header::new("grinrelay-reply-to", &addr2.stripped()));
    let delivery = Frame { command: Command::Message, headers, body: b"payload-bytes".to_vec() };
    let (go_on, routed) = broker.handle_event(&SessionEvent::Message { frame: delivery });
    assert!(go_on);
    let (target, msg) = routed.expect("delivery must route to the consumer");
    assert_eq!(target, "conn-1");
    let slate = session1.handle_broker_response(&msg).expect("live session forwards");
    match slate {
        GrinboxResponse::Slate { from, str, signature, challenge } => {
            assert_eq!(from, addr2.stripped());
            assert_eq!(str, "payload-bytes");
            assert_eq!(signature, "");
            assert_eq!(challenge, "X");
        },
        other => panic!("expected a slate, got {:?}", other),
    }
}

#[test]
fn scenario_offline_recipient() {
    let (sk2, addr2) = test_addr(33);
    let (_, addr1) = test_addr(34);
    let dir = Directory::new();
    let mut session2 = new_session("conn-2", "Z");
    let post = post_slate_req(&addr2, &addr1, "hello", &sk2, "Z", None);
    let (resp, reqs) = session2.handle_request(&post, &dir);
    match resp {
        Some(GrinboxResponse::Error { kind, .. }) => assert_eq!(kind, GrinboxError::Offline),
        other => panic!("expected Offline, got {:?}", other),
    }
    assert!(reqs.is_empty());
}

#[test]
fn scenario_retrieve_relay_addr() {
    let (sk1, addr1) = test_addr(35);
    let mut dir = Directory::new();
    let mut session = new_session("conn-1", "X");
    let (_, _) = session.handle_request(&subscribe_req(&addr1, &sk1, "X"), &dir);
    dir.handle_event(&ConsumerEvent::Created { queue: addr1.public_key.clone() });

    let abbr: String = addr1.public_key.chars().skip(addr1.public_key.len() - 6).collect();
    let req = GrinboxRequest::RetrieveRelayAddr { abbr: abbr.clone() };
    let (resp, reqs) = session.handle_request(&req, &dir);
    assert!(reqs.is_empty());
    match resp {
        Some(GrinboxResponse::RelayAddr { abbr: a, relay_addr }) => {
            assert_eq!(a, abbr);
            assert_eq!(relay_addr, vec![addr1.public_key.clone()]);
        },
        other => panic!("expected RelayAddr, got {:?}", other),
    }
}

#[test]
fn scenario_bad_abbreviation() {
    let dir = Directory::new();
    let mut session = new_session("conn-1", "X");
    let req = GrinboxRequest::RetrieveRelayAddr { abbr: "xxx".to_string() };
    let (resp, _) = session.handle_request(&req, &dir);
    match resp {
        Some(GrinboxResponse::Error { kind, .. }) => {
            assert_eq!(kind, GrinboxError::InvalidRelayAbbr)
        },
        other => panic!("expected InvalidRelayAbbr, got {:?}", other),
    }
}

#[test]
fn unsubscribe_frees_the_mailbox() {
    let (sk, addr) = test_addr(36);
    let dir = Directory::new();
    let mut session = new_session("conn-1", "X");
    session.handle_request(&subscribe_req(&addr, &sk, "X"), &dir);
    assert_eq!(session.phase, SessionPhase::Bound);
    let (resp, reqs) = session.handle_request(
        &GrinboxRequest::Unsubscribe { address: addr.stripped() },
        &dir,
    );
    assert_eq!(resp, Some(GrinboxResponse::Okay));
    assert_eq!(reqs, vec![BrokerRequest::Unsubscribe { id: "conn-1".to_string() }]);
    assert_eq!(session.phase, SessionPhase::AwaitingSubscribe);
    assert!(session.addr.is_none());
}

#[test]
fn second_subscribe_evicts_the_first_mailbox() {
    // single-mailbox: the broker closes the first subscription when the
    // same connection subscribes again
    let (sk1, addr1) = test_addr(37);
    let (sk2, addr2) = test_addr(38);
    let dir = Directory::new();
    let mut broker = BrokerSession::new();
    let mut session = new_session("conn-1", "X");

    let (_, reqs1) = session.handle_request(&subscribe_req(&addr1, &sk1, "X"), &dir);
    let frames1 = broker.handle_request(&reqs1[0]);
    assert_eq!(frames1.len(), 1);
    assert_eq!(broker.consumers.len(), 1);

    // the session may bind a new address; the subscribed key signs again
    let (_, reqs2) = session.handle_request(&subscribe_req(&addr2, &sk2, "X"), &dir);
    let frames2 = broker.handle_request(&reqs2[0]);
    assert_eq!(session.addr.as_ref().unwrap().public_key, addr2.public_key);
    // the broker still holds exactly one consumer for the connection
    assert_eq!(broker.consumers.len(), 1);
    assert_eq!(broker.consumers[0].id, "conn-1");
    assert_eq!(broker.consumers[0].consumer.subject, addr2.public_key);
    // and the first subscription was closed on the wire
    assert_eq!(frames2.len(), 2);
    assert_eq!(frames2[0].command, Command::Unsubscribe);
    assert_eq!(frames2[0].headers.get("id"), Some("0".to_string()));
    assert_eq!(frames2[1].command, Command::Subscribe);
}

#[test]
fn ttl_is_clamped() {
    assert_eq!(clamp_expiration_ms(Some(0)), 86_400_000);
    assert_eq!(clamp_expiration_ms(Some(86_401)), 86_400_000);
    assert_eq!(clamp_expiration_ms(Some(5)), 5_000);
    assert_eq!(clamp_expiration_ms(Some(86_400)), 86_400_000);
    assert_eq!(clamp_expiration_ms(None), 86_400_000);

    let broker = BrokerSession::new();
    let f = broker.publish("queue", "payload", "reply", Some(5));
    assert_eq!(f.headers.get("expiration"), Some("5000".to_string()));
    let f = broker.publish("queue", "payload", "reply", Some(0));
    assert_eq!(f.headers.get("expiration"), Some("86400000".to_string()));
}

#[test]
fn directory_tracks_lifecycle_events() {
    let (_, addr1) = test_addr(41);
    let (_, addr2) = test_addr(42);
    let q1 = addr1.public_key.clone();
    let q2 = addr2.public_key.clone();
    let mut dir = Directory::new();
    grinrelay::directory::monitor_event(&mut dir, "consumer.created", &q1);
    grinrelay::directory::monitor_event(&mut dir, "consumer.created", &q1); // duplicate: kept once
    grinrelay::directory::monitor_event(&mut dir, "consumer.created", &q2);
    grinrelay::directory::monitor_event(&mut dir, "queue.created", &q2); // other keys ignored
    grinrelay::directory::monitor_event(&mut dir, "consumer.created", "short"); // not relayable
    assert_eq!(dir.queues.len(), 2);
    grinrelay::directory::monitor_event(&mut dir, "consumer.deleted", &q1);
    assert_eq!(dir.queues, vec![q2.clone()]);
    let abbr: String = q2.chars().skip(q2.len() - 6).collect();
    assert_eq!(dir.lookup(&abbr), vec![q2]);
}

#[test]
fn closing_releases_the_mailbox() {
    let (sk, addr) = test_addr(43);
    let dir = Directory::new();
    let mut session = new_session("conn-9", "C");
    session.handle_request(&subscribe_req(&addr, &sk, "C"), &dir);
    let reqs = session.close();
    assert_eq!(reqs, vec![BrokerRequest::Unsubscribe { id: "conn-9".to_string() }]);
    assert_eq!(session.phase, SessionPhase::Closed);
    // a closed session neither answers nor forwards
    let (resp, reqs) = session.handle_request(
        &GrinboxRequest::Subscribe { address: addr.stripped(), signature: "00".to_string() },
        &dir,
    );
    assert_eq!(resp, None);
    assert!(reqs.is_empty());
    let delivery = BrokerResponse::Message {
        subject: addr.public_key.clone(),
        payload: "p".to_string(),
        reply_to: "r".to_string(),
    };
    assert!(session.handle_broker_response(&delivery).is_none());
}

#[test]
fn stomp_frames_render() {
    let f = Frame::connect(10000, 10000);
    let mut out: Vec<u8> = Vec::new();
    f.write(&mut out);
    let text = String::from_utf8(out.clone()).unwrap();
    assert_eq!(
        text,
        "CONNECT\naccept-version:1.2\nheart-beat:10000,10000\ncontent-length:0\n\n\0"
    );
    assert_eq!(f.count_bytes() + 1, out.len());

    let s = Frame::send("/queue/q", b"body");
    let mut out2: Vec<u8> = Vec::new();
    s.write(&mut out2);
    assert_eq!(
        String::from_utf8(out2).unwrap(),
        "SEND\ndestination:/queue/q\ncontent-length:4\n\nbody\0"
    );
    assert_eq!(Command::Unsubscribe.as_str(), "UNSUBSCRIBE");
}

#[test]
fn challenge_request_reissues_the_nonce() {
    let dir = Directory::new();
    let mut session = new_session("conn-1", "KNOWN");
    let (resp, reqs) = session.handle_request(&GrinboxRequest::Challenge, &dir);
    assert!(reqs.is_empty());
    assert_eq!(resp, Some(GrinboxResponse::Challenge { str: "KNOWN".to_string() }));
}

#[test]
fn summaries_and_messages() {
    let req = GrinboxRequest::RetrieveRelayAddr { abbr: "abc123".to_string() };
    assert_eq!(req.describe(), "RetrieveRelayAddr : abc123");
    let resp = GrinboxResponse::Okay;
    assert_eq!(resp.describe(), "Ok");
    let e = grinrelay::error::ErrorKind::GrinboxAddressParsingError("nope".to_string());
    assert_eq!(e.message(), "error: could not parse `nope` to a grinrelay address!");
}
