//! Federation between nodes, and the switchboard.

use std::collections::HashMap;

use rust_pipeline::codec::{decode_envelope, encode_envelope};
use rust_pipeline::error::PipelineError;
use rust_pipeline::federation::{
    admit_inbound, encode_header, framed, open, outbound_peer, parse_header, receive_frame,
    reroot_origin, seal, seal_with_nonce, send_frame, stamp_inbound, unsealed, AllowAll,
    Authorizer, FederationError, Peer, PeerDirectory, PeerKey,
};
use rust_pipeline::switchboard::{destination, injection, SwitchboardError};
use rust_pipeline::wire::{Address, Envelope, Meta, Payload, PayloadValue, Provenance};

fn sample() -> Envelope {
    Envelope {
        meta: Meta {
            from: Address::parse("agentos.concierge[alice]").unwrap(),
            to: Some(Address::parse("ringhub.bob").unwrap()),
            thread: "t-fed".into(),
            provenance: Provenance::from_bit(3),
        },
        payload: Payload::single("Order", "item", "two coffees"),
    }
}

/// A directory where peer `sender` is reachable with `key`.
fn dir_with(sender: &str, key: PeerKey) -> PeerDirectory {
    let mut d = PeerDirectory::new();
    d.register(Peer {
        namespace: sender.into(),
        endpoint: "test".into(),
        key,
        inbound_provenance: Provenance::empty(),
    });
    d
}

#[test]
fn seal_open_round_trip_authenticates_sender() {
    let key: PeerKey = [7u8; 32];
    let env = sample();
    let frame = seal(&env, "agentos", &key).unwrap();
    // payload not in clear
    assert!(!frame.windows(7).any(|w| w == b"coffees"));

    let (back, sender) = open(&frame, &dir_with("agentos", key)).unwrap();
    assert_eq!(back, env);
    assert_eq!(sender, "agentos"); // authenticated node identity
}

#[test]
fn wrong_key_fails_closed() {
    let frame = seal(&sample(), "agentos", &[1u8; 32]).unwrap();
    let err = open(&frame, &dir_with("agentos", [2u8; 32])).unwrap_err();
    assert!(matches!(err, FederationError::OpenFailed));
}

#[test]
fn tampered_ciphertext_fails_closed() {
    let key: PeerKey = [9u8; 32];
    let mut frame = seal(&sample(), "agentos", &key).unwrap();
    let last = frame.len() - 1;
    frame[last] ^= 0xff;
    assert!(matches!(
        open(&frame, &dir_with("agentos", key)),
        Err(FederationError::OpenFailed)
    ));
}

#[test]
fn tampered_sender_claim_rejected() {
    // The sender identity is AEAD-bound: flipping a sender byte either points at an
    // unregistered peer or breaks the AAD — either way, rejected.
    let key: PeerKey = [5u8; 32];
    let mut frame = seal(&sample(), "agentos", &key).unwrap();
    frame[4] ^= 0x01; // first byte of the sender name
    assert!(open(&frame, &dir_with("agentos", key)).is_err());
    // registered under the same key, it is still not the sender that was sealed in
    let mut claimed = dir_with("agentos", key);
    claimed.register(Peer {
        namespace: "`gentos".into(),
        endpoint: "test".into(),
        key,
        inbound_provenance: Provenance::empty(),
    });
    assert!(matches!(open(&frame, &claimed), Err(FederationError::OpenFailed)));
}

#[test]
fn unknown_sender_rejected() {
    let frame = seal(&sample(), "agentos", &[4u8; 32]).unwrap();
    let err = open(&frame, &dir_with("someone-else", [4u8; 32])).unwrap_err();
    assert!(matches!(err, FederationError::UnknownPeer(_)));
}

#[test]
fn bad_version_rejected() {
    let key: PeerKey = [6u8; 32];
    let mut frame = seal(&sample(), "agentos", &key).unwrap();
    frame[0] = 2; // bump version
    assert!(matches!(
        open(&frame, &dir_with("agentos", key)),
        Err(FederationError::UnsupportedVersion(2))
    ));
}

#[test]
fn distinct_nonces_per_seal() {
    let key: PeerKey = [3u8; 32];
    let env = sample();
    let a = seal(&env, "agentos", &key).unwrap();
    let b = seal(&env, "agentos", &key).unwrap();
    assert_ne!(a, b);
    let dir = dir_with("agentos", key);
    assert_eq!(open(&a, &dir).unwrap().0, open(&b, &dir).unwrap().0);
}

#[test]
fn peer_directory_routing() {
    let mut dir = PeerDirectory::new();
    dir.register(Peer {
        namespace: "ringhub".into(),
        endpoint: "https://ringhub.local/fed".into(),
        key: [0u8; 32],
        inbound_provenance: Provenance::empty(),
    });
    assert!(dir.is_remote("ringhub"));
    assert!(!dir.is_remote("agentos")); // local node → not in peer directory
    assert_eq!(dir.get("ringhub").unwrap().endpoint, "https://ringhub.local/fed");
}

#[test]
fn frames_are_laid_out_as_documented() {
    let key: PeerKey = [8u8; 32];
    let nonce = [5u8; 24];
    let frame = seal_with_nonce(&sample(), "agentos", &key, &nonce).unwrap();
    assert_eq!(&frame[..4], &[1, 0, 0, 7]);
    assert_eq!(&frame[4..11], b"agentos");
    assert_eq!(&frame[11..35], &nonce);
    // the ciphertext is as long as the plaintext and its tag
    let plain = rust_pipeline::codec::encode_envelope(&sample()).unwrap();
    assert_eq!(frame.len(), 35 + plain.len() + 16);
    // the same arguments give the same frame
    assert_eq!(seal_with_nonce(&sample(), "agentos", &key, &nonce).unwrap(), frame);
    // a long name has its length in two bytes
    let name = "n".repeat(300);
    let frame = seal_with_nonce(&sample(), &name, &key, &nonce).unwrap();
    assert_eq!(&frame[..4], &[1, 0, 1, 44]);
    assert_eq!(open(&frame, &dir_with(&name, key)).unwrap().1, name);
}

#[test]
fn headers_name_their_sender() {
    let header = encode_header("n\u{e9}");
    assert_eq!(header, [1, 0, 0, 3, b'n', 0xc3, 0xa9]);
    let (sender, end) = parse_header(&header).unwrap();
    assert_eq!((sender.as_str(), end), ("n\u{e9}", 7));
    let long = "x".repeat(300);
    let header = encode_header(&long);
    assert_eq!(header[..4], [1, 0, 1, 44]);
    assert_eq!(parse_header(&header).unwrap(), (long, 304));
    assert!(matches!(parse_header(&[1, 0, 0]), Err(FederationError::MalformedFrame)));
    assert!(matches!(parse_header(&[1, 0, 0, 1]), Err(FederationError::MalformedFrame)));
    assert!(matches!(parse_header(&[1, 0, 0, 1, 0xff]), Err(FederationError::MalformedFrame)));
    assert!(matches!(parse_header(&[2, 0, 0, 0]), Err(FederationError::UnsupportedVersion(2))));
    assert!(matches!(parse_header(&[1, 7, 0, 0]), Err(FederationError::UnsupportedAuth(7))));
}

#[test]
fn what_the_cipher_gives_is_framed_and_read() {
    let frame = framed("a", &[5u8; 24], Some(vec![9, 8])).unwrap();
    assert_eq!(frame.len(), 5 + 24 + 2);
    assert_eq!(frame[..5], [1, 0, 0, 1, b'a']);
    assert_eq!(frame[5..29], [5u8; 24]);
    assert_eq!(frame[29..], [9, 8]);
    assert!(matches!(framed("a", &[5u8; 24], None), Err(FederationError::OpenFailed)));

    let plain = encode_envelope(&sample()).unwrap();
    let (env, sender) = unsealed(Some(plain), "agentos".into()).unwrap();
    assert_eq!(env, sample());
    assert_eq!(sender, "agentos");
    assert!(matches!(unsealed(None, "agentos".into()), Err(FederationError::OpenFailed)));
    assert!(matches!(
        unsealed(Some(b"<x/>".to_vec()), "agentos".into()),
        Err(FederationError::Codec(_))
    ));
}

#[test]
fn malformed_frames_are_rejected() {
    let key: PeerKey = [6u8; 32];
    let dir = dir_with("agentos", key);
    let frame = seal(&sample(), "agentos", &key).unwrap();
    for cut in [0, 3, 4, 10, 11, 34] {
        assert!(matches!(open(&frame[..cut], &dir), Err(FederationError::MalformedFrame)), "{cut}");
    }
    assert!(matches!(open(&frame[..35], &dir), Err(FederationError::OpenFailed)));
    let mut other = frame.clone();
    other[1] = 9;
    assert!(matches!(open(&other, &dir), Err(FederationError::UnsupportedAuth(9))));
    let mut other = frame.clone();
    other[4] = 0xff;
    assert!(matches!(open(&other, &dir), Err(FederationError::MalformedFrame)));
}

#[test]
fn federation_messages() {
    let m = || "x".to_string();
    for (e, want) in [
        (FederationError::UnknownPeer(m()), "unknown peer namespace: x"),
        (FederationError::MalformedFrame, "malformed frame"),
        (FederationError::UnsupportedVersion(2), "unsupported federation protocol version: 2"),
        (FederationError::UnsupportedAuth(12), "unsupported auth method: 12"),
        (
            FederationError::OpenFailed,
            "decrypt/authentication failed (wrong key or tampered frame)",
        ),
        (FederationError::Nonce, "nonce generation failed"),
        (FederationError::NoDestination, "envelope has no destination address"),
        (FederationError::NotRemote(m()), "not a remote node: x"),
        (FederationError::Transport(m()), "transport error: x"),
        (FederationError::Delivery(m()), "local delivery error: x"),
        (FederationError::Unauthorized(m()), "unauthorized: x"),
        (FederationError::from(PipelineError::NoRoute(m())), "no route for: x"),
    ] {
        assert_eq!(e.to_string(), want);
    }
}

// ── What a federation server decides ──

fn peer(ns: &str, key: PeerKey, inbound_bit: u8) -> Peer {
    Peer {
        namespace: ns.into(),
        endpoint: format!("https://{ns}.local/fed"),
        key,
        inbound_provenance: Provenance::from_bit(inbound_bit),
    }
}

#[test]
fn send_seals_to_the_right_peer() {
    let key: PeerKey = [11u8; 32];
    let mut dir = PeerDirectory::new();
    dir.register(peer("ringhub", key, 10));

    // Address a message to ringhub.bob[alice] — leading segment "ringhub" is the node.
    let env = Envelope {
        meta: Meta {
            from: Address::flat("concierge"),
            to: Some(Address::parse("ringhub.bob[alice]").unwrap()),
            thread: "t".into(),
            provenance: Provenance::empty(),
        },
        payload: Payload::single("Order", "item", "coffee"),
    };
    let (endpoint, frame) = send_frame("agentos", &dir, &env).unwrap();

    assert_eq!(endpoint, "https://ringhub.local/fed"); // right endpoint
    // The frame opens (from agentos's perspective on the receiving side).
    let (opened, sender) = open(&frame, &dir_with("agentos", key)).unwrap();
    assert_eq!(sender, "agentos");
    assert_eq!(opened, env);
}

#[test]
fn send_rejects_non_peer_destination() {
    let mut env = Envelope {
        meta: Meta {
            from: Address::flat("x"),
            to: Some(Address::parse("bob[alice]").unwrap()), // local, not a peer node
            thread: "t".into(),
            provenance: Provenance::empty(),
        },
        payload: Payload::single("Order", "item", "coffee"),
    };
    assert!(matches!(
        send_frame("agentos", &PeerDirectory::new(), &env),
        Err(FederationError::NotRemote(_))
    ));
    env.meta.to = None;
    assert!(matches!(
        outbound_peer(&env, &PeerDirectory::default()),
        Err(FederationError::NoDestination)
    ));
    env.meta.to = Some(Address { segments: vec![] });
    assert!(matches!(
        outbound_peer(&env, &PeerDirectory::default()),
        Err(FederationError::NoDestination)
    ));
}

#[test]
fn receive_stamps_edge_provenance_and_strips_self_namespace() {
    let key: PeerKey = [22u8; 32];

    // A frame from ringhub → agentos, addressed to agentos.concierge[alice].
    let inbound = Envelope {
        meta: Meta {
            from: Address::parse("ringhub.bob").unwrap(),
            to: Some(Address::parse("agentos.concierge[alice]").unwrap()),
            thread: "t".into(),
            provenance: Provenance::from_bit(2), // some pre-existing label
        },
        payload: Payload::single("Reply", "text", "ok"),
    };
    let frame = seal(&inbound, "ringhub", &key).unwrap();

    // agentos's federation server: peer "ringhub" stamps edge bit 10 on inbound.
    let mut dir = PeerDirectory::new();
    dir.register(peer("ringhub", key, 10));

    let env = receive_frame("agentos", &dir, &AllowAll, &frame).unwrap();

    // Origin re-rooted to the authenticated peer namespace (here unchanged).
    assert_eq!(env.meta.from.to_string(), "ringhub.bob");
    // Self-namespace stripped → locally routable.
    assert_eq!(env.meta.to.as_ref().unwrap().to_string(), "concierge[alice]");
    assert_eq!(env.meta.to.as_ref().unwrap().organism(), Some("concierge"));
    // Edge provenance unioned in, original preserved.
    assert!(env.meta.provenance.contains_bit(10)); // edge stamp
    assert!(env.meta.provenance.contains_bit(2)); // carried
}

#[test]
fn receive_rejects_unknown_peer() {
    let frame = seal(&sample(), "ringhub", &[1u8; 32]).unwrap();
    // ringhub not registered
    assert!(matches!(
        receive_frame("agentos", &PeerDirectory::new(), &AllowAll, &frame),
        Err(FederationError::UnknownPeer(_))
    ));
}

#[test]
fn receive_reroots_forged_origin_namespace() {
    // A compromised peer forges `from: root.evil` to claim admin authority.
    let key: PeerKey = [44u8; 32];
    let forged = Envelope {
        meta: Meta {
            from: Address::parse("root.evil").unwrap(), // lie
            to: Some(Address::parse("agentos.concierge[alice]").unwrap()),
            thread: "t".into(),
            provenance: Provenance::empty(),
        },
        payload: Payload::single("X", "a", "b"),
    };
    let frame = seal(&forged, "ringhub", &key).unwrap();

    let mut dir = PeerDirectory::new();
    dir.register(peer("ringhub", key, 0));

    let env = receive_frame("agentos", &dir, &AllowAll, &frame).unwrap();

    // The forged `root` namespace is overwritten with the authenticated peer's.
    assert_eq!(env.meta.from.to_string(), "ringhub.evil");
    assert_eq!(env.meta.from.node(), Some("ringhub"));
    assert_ne!(env.meta.from.node(), Some("root"));
}

/// A matrix that forbids the `ringhub` origin from reaching the `root` namespace.
struct NoRinghubToRoot;

impl Authorizer for NoRinghubToRoot {
    fn authorize(&self, from: &Address, to: &Address) -> Result<(), String> {
        // Federation authz keys on the node (leading segment), not namespace().
        if from.node() == Some("ringhub") && to.node() == Some("root") {
            Err("ringhub may not reach root".into())
        } else {
            Ok(())
        }
    }
}

#[test]
fn receive_blocked_by_authorizer_delivers_nothing() {
    let key: PeerKey = [55u8; 32];
    // ringhub tries to reach root.coding-expert (escalation).
    let env = Envelope {
        meta: Meta {
            from: Address::parse("ringhub.cart").unwrap(),
            to: Some(Address::parse("root.coding-expert[x]").unwrap()),
            thread: "t".into(),
            provenance: Provenance::empty(),
        },
        payload: Payload::single("X", "a", "b"),
    };
    let frame = seal(&env, "ringhub", &key).unwrap();

    let mut dir = PeerDirectory::new();
    dir.register(peer("ringhub", key, 0));

    let err = receive_frame("agentos", &dir, &NoRinghubToRoot, &frame).unwrap_err();
    assert!(matches!(err, FederationError::Unauthorized(_)));
    assert_eq!(err.to_string(), "unauthorized: ringhub may not reach root");
}

#[test]
fn inbound_steps() {
    // a bare agent is prefixed, a longer address has its namespace replaced
    assert_eq!(reroot_origin(&Address::flat("bob"), "hub").to_string(), "hub.bob");
    assert_eq!(
        reroot_origin(&Address::parse("a.b[k].c").unwrap(), "hub").to_string(),
        "hub.b[k].c"
    );
    // a sender that is not registered adds no labels
    let env = stamp_inbound(sample(), "hub", &PeerDirectory::new());
    assert_eq!(env.meta.from.to_string(), "hub.concierge[alice]");
    assert_eq!(env.meta.provenance, Provenance::from_bit(3));
    // a destination that is the node alone is not stripped, nor one of another node
    let mut env = sample();
    env.meta.to = Some(Address::flat("agentos"));
    let env = admit_inbound(env, "agentos", Ok(())).unwrap();
    assert_eq!(env.meta.to.unwrap().to_string(), "agentos");
    let env = admit_inbound(sample(), "agentos", Ok(())).unwrap();
    assert_eq!(env.meta.to.unwrap().to_string(), "ringhub.bob");
    assert!(admit_inbound(sample(), "agentos", Err("no".into())).is_err());
}

#[test]
fn undestined_messages_are_not_put_to_the_authorizer() {
    struct Never;
    impl Authorizer for Never {
        fn authorize(&self, _from: &Address, _to: &Address) -> Result<(), String> {
            Err("never".into())
        }
    }
    let key: PeerKey = [1u8; 32];
    let dir = dir_with("ringhub", key);
    let mut env = sample();
    env.meta.to = None;
    let frame = seal(&env, "ringhub", &key).unwrap();
    assert!(receive_frame("agentos", &dir, &Never, &frame).is_ok());
    let frame = seal(&sample(), "ringhub", &key).unwrap();
    assert!(receive_frame("agentos", &dir, &Never, &frame).is_err());
}

#[test]
fn a_sealed_text_that_is_no_envelope_is_a_codec_error() {
    // an envelope that is written but not read back: an address without segments
    let key: PeerKey = [1u8; 32];
    let mut env = sample();
    env.meta.from = Address { segments: vec![] };
    let frame = seal(&env, "ringhub", &key).unwrap();
    let err = open(&frame, &dir_with("ringhub", key)).unwrap_err();
    assert!(matches!(err, FederationError::Codec(PipelineError::MissingMeta("from"))));
}

// ── Switchboard ──

/// A test materializer: assigns sequential `inst-NNNNNN` ids keyed by *instance*
/// address (buffer dropped, so `bob[alice]` and `bob[alice].dm` share an instance),
/// reuses the id on repeat, and rejects organism "nobody".
#[derive(Default)]
struct TestMat {
    table: HashMap<String, String>,
    materialized: Vec<String>,
    next: u64,
}

impl TestMat {
    fn resolve(&mut self, address: &Address) -> Result<String, String> {
        if address.organism() == Some("nobody") {
            return Err("unknown organism".into());
        }
        let inst = address.instance_address().to_string();
        if let Some(t) = self.table.get(&inst) {
            return Ok(t.clone());
        }
        self.next += 1;
        let tid = format!("inst-{:06}", self.next);
        self.table.insert(inst.clone(), tid.clone());
        self.materialized.push(inst);
        Ok(tid)
    }
}

/// Materialize the destination instance and inject the canonical envelope.
fn route(
    mat: &mut TestMat,
    ingress: &mut Vec<Vec<u8>>,
    envelope: Envelope,
) -> Result<(), SwitchboardError> {
    let resolved = mat.resolve(destination(&envelope)?);
    ingress.push(injection(envelope, resolved)?);
    Ok(())
}

fn env_to(to: &str) -> Envelope {
    Envelope {
        meta: Meta {
            from: "ext".into(),
            to: Some(Address::parse(to).unwrap()),
            thread: "unset".into(),
            provenance: Provenance::empty(),
        },
        payload: Payload::single("Greeting", "text", "hi"),
    }
}

#[test]
fn materializes_then_injects() {
    let mut mat = TestMat::default();
    let mut ingress = Vec::new();

    route(&mut mat, &mut ingress, env_to("ringhub.bob[alice].dm")).unwrap();

    // The instance (buffer dropped) was materialized exactly once.
    assert_eq!(mat.materialized, vec!["ringhub.bob[alice]".to_string()]);

    // The canonical envelope arrived at ingress with the resolved thread stamped,
    // address intact (no collapse).
    let env = decode_envelope(&ingress[0]).unwrap();
    assert_eq!(env.meta.thread, "inst-000001");
    let to = env.meta.to.unwrap();
    assert_eq!(to.organism(), Some("bob"));
    assert_eq!(to.namespace(), Some("ringhub"));
    assert_eq!(to.buffer().map(|s| s.name.as_str()), Some("dm"));
}

#[test]
fn reuses_instance_thread() {
    let mut mat = TestMat::default();
    let mut ingress = Vec::new();

    route(&mut mat, &mut ingress, env_to("bob[alice]")).unwrap();
    route(&mut mat, &mut ingress, env_to("bob[alice].dm")).unwrap();

    // Same instance → materialized once, same delivery thread on both injects.
    assert_eq!(mat.materialized.len(), 1);
    let t1 = decode_envelope(&ingress[0]).unwrap().meta.thread;
    let t2 = decode_envelope(&ingress[1]).unwrap().meta.thread;
    assert_eq!(t1, t2);
}

#[test]
fn unknown_organism_errors_and_injects_nothing() {
    let mut mat = TestMat::default();
    let mut ingress = Vec::new();

    let err = route(&mut mat, &mut ingress, env_to("nobody[x]")).unwrap_err();
    assert!(matches!(err, SwitchboardError::Materialize(_)));
    assert_eq!(err.to_string(), "materialization failed: unknown organism");
    assert!(ingress.is_empty(), "nothing should be injected on failure");
}

#[test]
fn no_destination_errors() {
    let mut mat = TestMat::default();
    let mut ingress = Vec::new();
    let env = Envelope {
        meta: Meta {
            from: "ext".into(),
            to: None,
            thread: "t".into(),
            provenance: Provenance::empty(),
        },
        payload: Payload::single("Greeting", "text", "hi"),
    };
    assert!(matches!(
        route(&mut mat, &mut ingress, env),
        Err(SwitchboardError::NoDestination)
    ));
}

#[test]
fn switchboard_messages() {
    assert_eq!(
        SwitchboardError::NoDestination.to_string(),
        "envelope has no destination address"
    );
    assert_eq!(SwitchboardError::IngressClosed.to_string(), "pipeline ingress closed");
    assert_eq!(
        SwitchboardError::from(PipelineError::Serialization("x".into())).to_string(),
        "serialization error: x"
    );
    let bytes = injection(env_to("bob"), Ok("t".into())).unwrap();
    let env = decode_envelope(&bytes).unwrap();
    assert_eq!(env.payload.value, PayloadValue::record(vec![("text", PayloadValue::text("hi"))]));
}
