//! Addresses, provenance and payload values.

use rust_pipeline::address::{AddressError, Segment};
use rust_pipeline::wire::{Address, Envelope, Field, Meta, Payload, PayloadValue, Provenance};

#[test]
fn address_flat_is_single_segment() {
    let a = Address::flat("greeter");
    assert_eq!(a.segments.len(), 1);
    assert_eq!(a.segments[0].name, "greeter");
    assert_eq!(a.segments[0].key, None);
    assert_eq!(a.target(), Some("greeter"));
    assert_eq!(a.to_string(), "greeter");
}

#[test]
fn address_parse_full_path() {
    let a = Address::parse("ringhub.bob[alice].calendar").unwrap();
    assert_eq!(a.segments.len(), 3);
    assert_eq!(a.segments[0].name, "ringhub");
    assert_eq!(a.segments[1].name, "bob");
    assert_eq!(a.segments[1].key.as_deref(), Some("alice"));
    assert_eq!(a.segments[2].name, "calendar");
    assert_eq!(a.organism(), Some("bob"));
    assert_eq!(a.namespace(), Some("ringhub"));
    assert_eq!(a.instance_key(), Some("alice"));
    assert_eq!(a.buffer().map(|s| s.name.as_str()), Some("calendar"));
    assert_eq!(a.target(), Some("calendar"));
    // instance_address drops the buffer
    assert_eq!(a.instance_address().to_string(), "ringhub.bob[alice]");
    // round-trips through its written form
    assert_eq!(a.to_string(), "ringhub.bob[alice].calendar");
}

#[test]
fn address_cache_composition() {
    let a = Address::parse("bob[main+alice]").unwrap();
    assert_eq!(a.segments[0].cache_keys(), vec!["main", "alice"]);
    assert_eq!(a.cache_keys(), vec!["main", "alice"]);
    assert_eq!(a.organism(), Some("bob"));
    assert_eq!(a.instance_key(), Some("main+alice"));
    assert_eq!(a.namespace(), None);
    assert_eq!(a.buffer(), None);
}

#[test]
fn address_rejects_garbage() {
    assert_eq!(Address::parse(""), Err(AddressError::Empty));
    assert!(matches!(Address::parse("a..b"), Err(AddressError::EmptySegment(_))));
    assert!(matches!(Address::parse("bob[alice"), Err(AddressError::Unbalanced(_))));
}

#[test]
fn address_errors_quote_the_address() {
    let whole = |e: AddressError| e.to_string();
    assert_eq!(whole(Address::parse("").unwrap_err()), "empty address");
    assert_eq!(whole(Address::parse("a..b").unwrap_err()), "empty segment in address \"a..b\"");
    assert_eq!(
        whole(Address::parse("a]").unwrap_err()),
        "unbalanced '[' / ']' in address \"a]\""
    );
    assert_eq!(Address::parse("[k]"), Err(AddressError::EmptyName("[k]".to_string())));
    assert_eq!(
        whole(Address::parse("[k]").unwrap_err()),
        "empty segment name in address \"[k]\""
    );
    assert_eq!(Address::parse("a[k]b"), Err(AddressError::Unbalanced("a[k]b".to_string())));
}

#[test]
fn address_keys_may_hold_dots_and_brackets() {
    for s in ["a[x.y].b", "a[x[y]z]", "a[]", "n.a[1+2+3].b.c"] {
        assert_eq!(Address::parse(s).unwrap().to_string(), s);
    }
    assert_eq!(Address::parse("a[x.y].b").unwrap().segments.len(), 2);
    assert_eq!(Address::parse("a[]").unwrap().segments[0].key.as_deref(), Some(""));
    assert!(Address::parse("a[]").unwrap().cache_keys().is_empty());
    assert_eq!(Address::parse("a[+x++y+]").unwrap().cache_keys(), vec!["x", "y"]);
}

#[test]
fn address_without_segments_has_no_parts() {
    let a = Address { segments: vec![] };
    assert_eq!(a.to_string(), "");
    assert_eq!(a.target(), None);
    assert_eq!(a.node(), None);
    assert_eq!(a.organism(), None);
    assert_eq!(a.namespace(), None);
    assert_eq!(a.instance_key(), None);
    assert!(a.cache_keys().is_empty());
    assert_eq!(a.buffer(), None);
}

#[test]
fn address_node_is_the_leading_segment() {
    assert_eq!(Address::parse("ringhub.bob").unwrap().node(), Some("ringhub"));
    assert_eq!(Address::from("echo").node(), Some("echo"));
    assert_eq!(Address::from(String::from("x.y")).segments[0].name, "x.y");
}

#[test]
fn clones_are_equal() {
    let a = Address::parse("ringhub.bob[alice].calendar").unwrap();
    assert_eq!(a.clone(), a);
    let s: Segment = a.segments[1].clone();
    assert_eq!(s, a.segments[1]);
    let v = PayloadValue::Rec(vec![
        Field::new("l", PayloadValue::List(vec![PayloadValue::Nil, PayloadValue::Sint(-1)])),
        Field::new("r", PayloadValue::Real("1.5".into())),
        Field::new("b", PayloadValue::Blob(vec![1, 2])),
        Field::new("t", PayloadValue::Boolean(false)),
        Field::new("u", PayloadValue::Uint(9)),
    ]);
    assert_eq!(v.clone(), v);
}

#[test]
fn provenance_union_and_mask() {
    let a = Provenance::from_bit(3);
    let b = Provenance::from_bit(70); // crosses into bits_hi
    assert!(a.contains_bit(3));
    assert!(!a.contains_bit(70));
    assert!(b.contains_bit(70));

    let u = a.union(b);
    assert!(u.contains_bit(3) && u.contains_bit(70));
    assert!(!u.is_empty());

    // mask test: u intersects {3} but a clean set does not
    assert!(u.intersects(Provenance::from_bit(3)));
    assert!(!Provenance::empty().intersects(Provenance::from_bit(3)));
}

#[test]
fn provenance_empty_is_default() {
    assert!(Provenance::default().is_empty());
    assert!(Provenance::empty().is_empty());
}

#[test]
fn provenance_words() {
    assert_eq!(Provenance::from_bit(0), Provenance { bits_lo: 1, bits_hi: 0 });
    assert_eq!(Provenance::from_bit(63), Provenance { bits_lo: 1 << 63, bits_hi: 0 });
    assert_eq!(Provenance::from_bit(64), Provenance { bits_lo: 0, bits_hi: 1 });
    assert_eq!(Provenance::from_bit(127), Provenance { bits_lo: 0, bits_hi: 1 << 63 });
    // bits that are not representable are left out
    assert!(Provenance::from_bit(128).is_empty());
    assert!(!Provenance::from_bit(5).contains_bit(200));
    let mut p = Provenance::from_bit(1).with_bit(65);
    p.union_with(Provenance::from_bit(2));
    assert_eq!(p, Provenance { bits_lo: 6, bits_hi: 2 });
}

#[test]
fn payload_value_record_access() {
    let pv = PayloadValue::Rec(vec![
        Field { name: "text".into(), value: PayloadValue::Text("hello".into()) },
        Field { name: "count".into(), value: PayloadValue::Uint(7) },
    ]);
    assert_eq!(pv.get("text").and_then(|v| v.as_text()), Some("hello"));
    assert_eq!(pv.get("count"), Some(&PayloadValue::Uint(7)));
    assert_eq!(pv.get("missing"), None);
}

#[test]
fn payload_value_first_field_wins() {
    let pv = PayloadValue::record(vec![
        ("a", PayloadValue::Uint(1)),
        ("a", PayloadValue::Uint(2)),
    ]);
    assert_eq!(pv.get("a"), Some(&PayloadValue::Uint(1)));
    assert_eq!(PayloadValue::Nil.get("a"), None);
    assert_eq!(PayloadValue::Nil.as_text(), None);
}

#[test]
fn envelope_builds() {
    let env = Envelope {
        meta: Meta {
            from: Address::flat("alice"),
            to: Some(Address::flat("bob")),
            thread: "t1".into(),
            provenance: Provenance::from_bit(1),
        },
        payload: Payload {
            tag: "Greeting".into(),
            value: PayloadValue::Rec(vec![Field {
                name: "text".into(),
                value: PayloadValue::Text("hi".into()),
            }]),
        },
    };
    assert_eq!(env.meta.from.target(), Some("alice"));
    assert_eq!(env.meta.to.as_ref().and_then(|a| a.target()), Some("bob"));
    assert!(env.meta.provenance.contains_bit(1));
    assert_eq!(env.payload.tag, "Greeting");
    assert_eq!(env.payload, Payload::single("Greeting", "text", "hi"));
}

/// The interface definition of the wire types.
const WIT: &str = "
package pipeline:wire;

interface types {
    // one segment of a hierarchical address
    record segment {
        name: string,
        key: option<string>,
    }

    record address {
        segments: list<segment>,
    }

    // a 128-bit label-set
    record provenance {
        bits-lo: u64,
        bits-hi: u64,
    }

    record meta {
        from: address,         // last hop
        to: option<address>,   // none = unrouted
        thread: string,
        provenance: provenance,
    }

    record field {
        name: string,
        value: payload-value,
    }

    variant payload-value {
        rec(list<field>),
        seq(list<payload-value>),
        text(string),
        uint(u64),
        sint(s64),
        real(f64),
        boolean(bool),
        blob(list<u8>),
        nil,
    }

    record payload {
        tag: string,
        value: payload-value,
    }

    record envelope {
        meta: meta,
        payload: payload,
    }
}
";

/// Extract the member names declared in a `record`/`variant` block.
/// One member per comma; takes the identifier before `:` (records) or `(` (variants).
fn wit_members(wit: &str, header: &str) -> Vec<String> {
    let start = wit.find(header).unwrap_or_else(|| panic!("block not found: {header}"));
    let after = &wit[start + header.len()..];
    let end = after.find('}').expect("unterminated block");
    // strip line comments, then split members on commas
    let body: String = after[..end]
        .lines()
        .map(|l| l.find("//").map(|i| &l[..i]).unwrap_or(l))
        .collect::<Vec<_>>()
        .join("\n");
    body.split(',')
        .filter_map(|m| {
            let token = m.trim().split([':', '(', ' ', '\n', '\t']).next().unwrap_or("").trim();
            (!token.is_empty()).then_some(token.to_string())
        })
        .collect()
}

/// Drift guard: the interface definition and these types must declare the same members.
#[test]
fn wire_wit_matches_rust_types() {
    let wit = WIT;
    let check = |header: &str, expected: &[&str]| {
        let mut got = wit_members(wit, header);
        got.sort();
        let mut want: Vec<String> = expected.iter().map(|s| s.to_string()).collect();
        want.sort();
        assert_eq!(got, want, "drift in `{header}`");
    };
    check("record segment {", &["name", "key"]);
    check("record address {", &["segments"]);
    check("record provenance {", &["bits-lo", "bits-hi"]);
    check("record meta {", &["from", "to", "thread", "provenance"]);
    check("record payload {", &["tag", "value"]);
    check("record field {", &["name", "value"]);
    check("record envelope {", &["meta", "payload"]);
    check(
        "variant payload-value {",
        &["rec", "seq", "text", "uint", "sint", "real", "boolean", "blob", "nil"],
    );

    // The members by their names in code.
    let Segment { name: _, key: _ } = Segment { name: "n".into(), key: None };
    let Address { segments: _ } = Address::flat("n");
    let Provenance { bits_lo: _, bits_hi: _ } = Provenance::empty();
    let Envelope { meta, payload } = Envelope {
        meta: Meta {
            from: Address::flat("n"),
            to: None,
            thread: "t".into(),
            provenance: Provenance::empty(),
        },
        payload: Payload::new("T", PayloadValue::Nil),
    };
    let Meta { from: _, to: _, thread: _, provenance: _ } = meta;
    let Payload { tag: _, value } = payload;
    let Field { name: _, value: _ } = Field::new("n", PayloadValue::Nil);
    match value {
        PayloadValue::Rec(_)
        | PayloadValue::List(_)
        | PayloadValue::Text(_)
        | PayloadValue::Uint(_)
        | PayloadValue::Sint(_)
        | PayloadValue::Real(_)
        | PayloadValue::Boolean(_)
        | PayloadValue::Blob(_)
        | PayloadValue::Nil => {}
    }
}

#[test]
fn address_errors_are_copied() {
    for text in ["", "a..b", "bob[alice", "[k]"] {
        let e = Address::parse(text).unwrap_err();
        assert_eq!(e.clone(), e);
    }
}
