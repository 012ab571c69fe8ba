//! Envelopes on the wire.

use quick_xml::events::Event;
use quick_xml::reader::Reader;
use rust_pipeline::codec::{
    decode_envelope, decode_markup, encode_envelope, prov_from_hex, prov_to_hex,
};
use rust_pipeline::error::PipelineError;
use rust_pipeline::markup::{read_markup, Attr, Markup, Tag, Words};
use rust_pipeline::numbers::{
    i64_text, is_real_literal, read_hex_bytes, read_i64, read_u64, to_hex, u64_hex, u64_text,
};
use rust_pipeline::wire::{Address, Envelope, Field, Meta, Payload, PayloadValue, Provenance};

fn sample() -> Envelope {
    Envelope {
        meta: Meta {
            from: Address::parse("ringhub.bob[alice]").unwrap(),
            to: Some(Address::flat("carol")),
            thread: "550e8400-e29b-41d4-a716-446655440000".into(),
            provenance: Provenance::from_bit(3).union(Provenance::from_bit(70)),
        },
        payload: Payload {
            tag: "Greeting".into(),
            value: PayloadValue::Rec(vec![
                Field { name: "text".into(), value: PayloadValue::Text("Hello, world!".into()) },
                Field { name: "count".into(), value: PayloadValue::Uint(42) },
                Field {
                    name: "nested".into(),
                    value: PayloadValue::Rec(vec![Field {
                        name: "flag".into(),
                        value: PayloadValue::Boolean(true),
                    }]),
                },
                Field {
                    name: "items".into(),
                    value: PayloadValue::List(vec![
                        PayloadValue::Sint(-5),
                        PayloadValue::Real("1.5".into()),
                        PayloadValue::Nil,
                    ]),
                },
                Field { name: "raw".into(), value: PayloadValue::Blob(vec![0xde, 0xad, 0xbe, 0xef]) },
            ]),
        },
    }
}

fn minimal(value: PayloadValue) -> Envelope {
    Envelope {
        meta: Meta {
            from: Address::flat("system"),
            to: None,
            thread: "t1".into(),
            provenance: Provenance::empty(),
        },
        payload: Payload { tag: "Ping".into(), value },
    }
}

#[test]
fn round_trip_complex() {
    let env = sample();
    let bytes = encode_envelope(&env).unwrap();
    let back = decode_envelope(&bytes).unwrap();
    assert_eq!(env, back);
}

#[test]
fn round_trip_minimal() {
    // no `to`, empty provenance, nil payload
    let env = minimal(PayloadValue::Nil);
    let bytes = encode_envelope(&env).unwrap();
    let back = decode_envelope(&bytes).unwrap();
    assert_eq!(env, back);
    // empty provenance is omitted from the wire
    assert!(!String::from_utf8_lossy(&bytes).contains("provenance"));
    // absent `to` stays None
    assert!(back.meta.to.is_none());
}

#[test]
fn provenance_survives_round_trip() {
    let env = sample();
    let bytes = encode_envelope(&env).unwrap();
    let back = decode_envelope(&bytes).unwrap();
    assert!(back.meta.provenance.contains_bit(3));
    assert!(back.meta.provenance.contains_bit(70));
    assert!(!back.meta.provenance.contains_bit(5));
}

#[test]
fn garbage_rejected() {
    assert!(decode_envelope(b"not xml").is_err());
    assert!(decode_envelope(b"<message><meta></meta></message>").is_err()); // missing from/thread/payload
}

#[test]
fn envelope_roundtrip_preserves_data() {
    let env = Envelope {
        meta: Meta {
            from: "alice".into(),
            to: Some("bob".into()),
            thread: "thread-rt".into(),
            provenance: Provenance::from_bit(2),
        },
        payload: Payload::new(
            "TestPayload",
            PayloadValue::record(vec![
                ("value", PayloadValue::Uint(42)),
                ("nested", PayloadValue::record(vec![("deep", PayloadValue::text("data"))])),
            ]),
        ),
    };

    let bytes = encode_envelope(&env).unwrap();
    let back = decode_envelope(&bytes).unwrap();

    // Full structural round-trip, including provenance.
    assert_eq!(back, env);
    assert!(back.meta.provenance.contains_bit(2));
    assert_eq!(back.meta.from.target(), Some("alice"));
    assert_eq!(back.payload.value.get("value"), Some(&PayloadValue::Uint(42)));
}

#[test]
fn wire_bytes_are_exact() {
    let bytes = encode_envelope(&minimal(PayloadValue::Text("a<b".into()))).unwrap();
    assert_eq!(
        String::from_utf8(bytes).unwrap(),
        "<message xmlns=\"https://xml-pipeline.org/ns/envelope/v1\"><meta><from>system</from>\
         <thread>t1</thread></meta><payload tag=\"Ping\"><v k=\"text\">a&lt;b</v></payload></message>"
    );
    let mut env = minimal(PayloadValue::Nil);
    env.meta.provenance = Provenance { bits_lo: 0xab, bits_hi: 1 };
    let text = String::from_utf8(encode_envelope(&env).unwrap()).unwrap();
    assert!(text.contains("<provenance>000000000000000100000000000000ab</provenance>"));
    assert!(text.contains("<v k=\"nil\"/>"));
}

#[test]
fn values_round_trip() {
    for v in [
        PayloadValue::Text(String::new()),
        PayloadValue::Text("<&>'\" mixed \u{e9}".into()),
        PayloadValue::Uint(u64::MAX),
        PayloadValue::Uint(0),
        PayloadValue::Sint(i64::MIN),
        PayloadValue::Sint(i64::MAX),
        PayloadValue::Real("-1.25e10".into()),
        PayloadValue::Real("NaN".into()),
        PayloadValue::Boolean(false),
        PayloadValue::Blob(vec![]),
        PayloadValue::Blob((0..=255).collect()),
        PayloadValue::Rec(vec![]),
        PayloadValue::List(vec![]),
        PayloadValue::List(vec![
            PayloadValue::List(vec![PayloadValue::Nil]),
            PayloadValue::Rec(vec![Field::new("", PayloadValue::Nil)]),
        ]),
    ] {
        let env = minimal(v);
        assert_eq!(decode_envelope(&encode_envelope(&env).unwrap()).unwrap(), env);
    }
}

#[test]
fn any_payload_value_round_trips() {
    for text in ["", " ", "  hi  ", "\n\tpadded\r\n", "<&>\"'", "&amp;", "]]>", "\u{a0}x\u{a0}"] {
        let env = minimal(PayloadValue::Text(text.into()));
        assert_eq!(decode_envelope(&encode_envelope(&env).unwrap()).unwrap(), env);
        // as the name of a field, and as a tag
        let mut env = minimal(PayloadValue::record(vec![
            (text, PayloadValue::Nil),
            ("list", PayloadValue::List(vec![PayloadValue::text(text), PayloadValue::Nil])),
        ]));
        env.payload.tag = text.into();
        assert_eq!(decode_envelope(&encode_envelope(&env).unwrap()).unwrap(), env);
    }
    let env = Envelope {
        meta: Meta {
            from: Address::flat("a"),
            to: None,
            thread: "t".into(),
            provenance: Provenance::empty(),
        },
        payload: Payload::single("Greeting", "text", "  hi  "),
    };
    assert_eq!(decode_envelope(&encode_envelope(&env).unwrap()).unwrap(), env);
    let payload = Payload::new("P", PayloadValue::record(vec![("a&b", PayloadValue::Nil)]));
    let env = Envelope { payload, ..env };
    assert_eq!(decode_envelope(&encode_envelope(&env).unwrap()).unwrap(), env);
}

#[test]
fn headers_that_do_not_survive_the_wire() {
    // a name with a dot comes back as two segments
    let mut env = minimal(PayloadValue::Nil);
    env.meta.from = Address::flat("a.b");
    let back = decode_envelope(&encode_envelope(&env).unwrap()).unwrap();
    assert_eq!(back.meta.from.segments.len(), 2);
    // a thread loses white space at its ends, and is missing where nothing else is there
    let mut env = minimal(PayloadValue::Nil);
    env.meta.thread = " t\u{a0}".into();
    let back = decode_envelope(&encode_envelope(&env).unwrap()).unwrap();
    assert_eq!(back.meta.thread, "t");
    env.meta.thread = " ".into();
    let back = decode_envelope(&encode_envelope(&env).unwrap());
    assert_eq!(message(back), "missing meta field: thread");
}

#[test]
fn label_sets_are_written_in_hexadecimal() {
    let p = Provenance::from_bit(3).union(Provenance::from_bit(70));
    assert_eq!(prov_to_hex(p), "00000000000000400000000000000008");
    assert_eq!(prov_from_hex("00000000000000400000000000000008").unwrap(), p);
    assert_eq!(prov_from_hex(" 00000000000000400000000000000008\n").unwrap(), p);
    assert_eq!(
        prov_from_hex("0040").unwrap_err().to_string(),
        "envelope parse error: provenance must be 32 hex chars, got 4"
    );
}

fn message(r: Result<Envelope, PipelineError>) -> String {
    r.unwrap_err().to_string()
}

fn with_value(v: &str) -> Vec<u8> {
    format!(
        "<message><meta><from>a</from><thread>t</thread></meta>\
         <payload tag=\"T\">{v}</payload></message>"
    )
    .into_bytes()
}

#[test]
fn missing_parts_are_named() {
    assert_eq!(
        message(decode_envelope(b"")),
        "envelope parse error: no <message> element"
    );
    assert_eq!(
        message(decode_envelope(b"<message></message>")),
        "missing meta field: from"
    );
    assert_eq!(
        message(decode_envelope(b"<message><meta><from>a</from></meta></message>")),
        "missing meta field: thread"
    );
    assert_eq!(
        message(decode_envelope(
            b"<message><meta><from>a</from><thread>t</thread></meta></message>"
        )),
        "missing meta field: payload"
    );
    assert_eq!(
        message(decode_envelope(b"<message><other/><else></else></message>")),
        "envelope parse error: unexpected element <else>"
    );
    assert_eq!(
        message(decode_envelope(b"<message><meta><from>a..b</from></meta></message>")),
        "envelope parse error: empty segment in address \"a..b\""
    );
    assert_eq!(
        message(decode_envelope(b"<message><meta><from>a</from>")),
        "envelope parse error: unexpected EOF in <meta>"
    );
}

#[test]
fn bad_values_are_named() {
    let err = |v: &str| message(decode_envelope(&with_value(v)));
    assert_eq!(err("<v k=\"uint\">-1</v>"), "envelope parse error: invalid uint \"-1\"");
    assert_eq!(err("<v k=\"sint\">x</v>"), "envelope parse error: invalid sint \"x\"");
    assert_eq!(err("<v k=\"real\">1.2.3</v>"), "envelope parse error: invalid real \"1.2.3\"");
    assert_eq!(
        err("<v k=\"blob\">abc</v>"),
        "envelope parse error: blob hex must have even length"
    );
    assert_eq!(err("<v k=\"blob\">zz</v>"), "envelope parse error: bad blob hex");
    assert_eq!(err("<v k=\"what\">x</v>"), "envelope parse error: unknown value kind \"what\"");
    assert_eq!(
        err("<w></w>"),
        "envelope parse error: expected <v>, found \
         Start(BytesStart { buf: Borrowed(\"w\"), name_len: 1 })"
    );
    assert_eq!(
        err("<w a=\"1\"/>"),
        "envelope parse error: expected <v>, found \
         Empty(BytesStart { buf: Borrowed(\"w a=\\\"1\\\"\"), name_len: 1 })"
    );
    assert_eq!(
        err("</payload>"),
        "envelope parse error: expected <v>, found \
         End(BytesEnd { name: Borrowed(\"payload\") })"
    );
    assert_eq!(
        err("<!-- c -->"),
        "envelope parse error: expected <v>, found \
         Comment(BytesText { content: Borrowed(\" c \") })"
    );
    assert_eq!(
        err("<v k=\"nil\"/><x/>"),
        "envelope parse error: expected </payload>, found \
         Empty(BytesStart { buf: Borrowed(\"x\"), name_len: 1 })"
    );
    assert_eq!(
        err("<v k=\"rec\"><f n=\"a\"><v k=\"nil\"/><y></y></f></v>"),
        "envelope parse error: expected </f>, found \
         Start(BytesStart { buf: Borrowed(\"y\"), name_len: 1 })"
    );
}

#[test]
fn unexpected_markup_is_shown_as_the_reader_shows_it() {
    for v in ["<w x='1'>", "<w/>", "</payload>", "<?p i?>", "<![CDATA[c]]>", "<\u{e9} a=\"b\"/>"] {
        let text = format!("<payload>{v}</payload>");
        let mut reader = Reader::from_str(&text);
        assert!(matches!(reader.read_event(), Ok(Event::Start(_))));
        let event = reader.read_event().unwrap();
        assert_eq!(
            message(decode_envelope(&with_value(v))),
            format!("envelope parse error: expected <v>, found {event:?}")
        );
    }
}

#[test]
fn bad_provenance_is_named() {
    let err = |p: &str| {
        message(decode_envelope(
            format!("<message><meta><provenance>{p}</provenance></meta></message>").as_bytes(),
        ))
    };
    assert_eq!(err("00"), "envelope parse error: provenance must be 32 hex chars, got 2");
    assert_eq!(
        err("0000000000000000000000000000000g"),
        "envelope parse error: bad provenance hex"
    );
}

#[test]
fn lenient_reading() {
    // comments and unknown header elements are passed over, text around values too
    let env = decode_envelope(
        b"<!-- c --><message> <meta> <from> a </from> <x>y</x> <thread> t </thread> </meta> \
          <payload tag=\"T\"> <v k=\"nil\"></v> </payload> </message>",
    )
    .unwrap();
    assert_eq!(env.meta.from, Address::flat("a"));
    assert_eq!(env.meta.thread, "t");
    assert_eq!(env.payload, Payload::new("T", PayloadValue::Nil));
    // white space around a number or a flag is passed over, and kept in a text
    let read = |v: &str| decode_envelope(&with_value(v)).unwrap().payload.value;
    assert_eq!(read("<v k=\"uint\"> 4<!-- c --> 2\n</v>"), PayloadValue::Uint(42));
    assert_eq!(read("<v k=\"sint\">\t-7 </v>"), PayloadValue::Sint(-7));
    assert_eq!(read("<v k=\"real\"> 1.5 </v>"), PayloadValue::Real("1.5".into()));
    assert_eq!(read("<v k=\"bool\"> true </v>"), PayloadValue::Boolean(true));
    assert_eq!(read("<v k=\"blob\"> ab </v>"), PayloadValue::Blob(vec![0xab]));
    assert_eq!(read("<v k=\"text\"> a <!-- c -->b</v>"), PayloadValue::Text(" a b".into()));
    // white space that is written as an entity is content
    assert_eq!(read("<v k=\"bool\"> &#32;true</v>"), PayloadValue::Boolean(false));
    assert_eq!(
        message(decode_envelope(&with_value("<v k=\"uint\"> &#32;42 </v>"))),
        "envelope parse error: invalid uint \" 42\""
    );
    // a self-closing value of a scalar kind is nil
    let env = decode_envelope(&with_value("<v k=\"uint\"/>")).unwrap();
    assert_eq!(env.payload.value, PayloadValue::Nil);
    // a payload without a tag has the empty one
    let env = decode_envelope(
        b"<message><meta><from>a</from><thread>t</thread></meta><payload><v/></payload></message>",
    )
    .unwrap();
    assert_eq!(env.payload, Payload::new("", PayloadValue::Nil));
}

#[test]
fn header_texts_are_trimmed() {
    let read = |from: &str, thread: &str| {
        decode_envelope(
            format!(
                "<message><meta><from>{from}</from><thread>{thread}</thread></meta>\
                 <payload tag=\"T\"><v k=\"nil\"/></payload></message>"
            )
            .as_bytes(),
        )
    };
    assert_eq!(read("\n a ", " t\u{a0}").unwrap().meta.thread, "t");
    // nothing but white space is no text at all
    assert_eq!(message(read("a", " \t\n")), "missing meta field: thread");
    assert_eq!(message(read(" ", "t")), "missing meta field: from");
    // other characters are, though nothing is left of them
    for blank in ["\u{a0}", " \u{2003} ", "&#32;"] {
        assert_eq!(read("a", blank).unwrap().meta.thread, "");
        assert_eq!(message(read(blank, "t")), "envelope parse error: empty address");
    }
    // an entity that is not known is found where it stands in the trimmed text
    assert_eq!(message(read("a", "x&nope;")), message(read("a", "  x&nope; ")));
    assert_ne!(message(read("a", "x&nope;")), message(read("a", "xy&nope;")));
}

#[test]
fn attributes_are_unescaped() {
    let env = decode_envelope(&with_value(
        "<v k=\"rec\"><f n=\"a&lt;b\"><v k=\"bool\">TRUE</v></f></v>",
    ))
    .unwrap();
    assert_eq!(
        env.payload.value,
        PayloadValue::record(vec![("a<b", PayloadValue::Boolean(false))])
    );
    // entities that are not known are left in place
    let env = decode_envelope(&with_value("<v k=\"rec\"><f n=\"a&b\"><v/></f></v>")).unwrap();
    assert_eq!(env.payload.value, PayloadValue::record(vec![("a&b", PayloadValue::Nil)]));
    // bytes that are no UTF-8 are replaced
    let mut raw = with_value("<v k=\"rec\"><f n=\"#\"><v k=\"nil\"/></f></v>");
    let at = raw.iter().position(|b| *b == b'#').unwrap();
    raw[at] = 0xff;
    let env = decode_envelope(&raw).unwrap();
    assert_eq!(
        env.payload.value,
        PayloadValue::record(vec![("\u{fffd}", PayloadValue::Nil)])
    );
}

#[test]
fn decimal_notation() {
    assert_eq!(u64_text(0), "0");
    assert_eq!(u64_text(u64::MAX), "18446744073709551615");
    assert_eq!(i64_text(i64::MIN), "-9223372036854775808");
    assert_eq!(read_u64("+18446744073709551615"), Some(u64::MAX));
    assert_eq!(read_u64("18446744073709551616"), None);
    assert_eq!(read_u64("-0"), None);
    assert_eq!(read_u64(""), None);
    assert_eq!(read_u64("+"), None);
    assert_eq!(read_i64("-9223372036854775808"), Some(i64::MIN));
    assert_eq!(read_i64("9223372036854775808"), None);
    assert_eq!(read_i64("+7"), Some(7));
    assert_eq!(read_i64("--7"), None);
}

#[test]
fn hexadecimal_notation() {
    assert_eq!(u64_hex(0xfeed), "000000000000feed");
    assert_eq!(to_hex(&[0, 0x1f, 0xff]), "001fff");
    assert_eq!(read_hex_bytes(b"001FfF"), Some(vec![0, 0x1f, 0xff]));
    assert_eq!(read_hex_bytes(b"+a"), Some(vec![10]));
    assert_eq!(read_hex_bytes(b"+"), None);
    assert_eq!(read_hex_bytes(b"0x"), None);
}

#[test]
fn real_literals() {
    for s in [
        "0", "-0", "+1", "1.", ".5", "1.5", "1e5", "1E-5", "1.5e+10", "inf", "-INF", "Infinity",
        "nan", "-NaN",
    ] {
        assert!(is_real_literal(s), "{s}");
        assert!(s.parse::<f64>().is_ok(), "{s}");
    }
    for s in ["", "+", ".", "e5", "1e", "1e+", "1.2.3", " 1", "1 ", "infin", "0x1", "1_0", "--1"] {
        assert!(!is_real_literal(s), "{s}");
        assert!(s.parse::<f64>().is_err(), "{s}");
    }
}

// ── Items ──

fn tag(name: &str, attrs: &[(&str, &str)]) -> Tag {
    Tag {
        name: name.as_bytes().to_vec(),
        attrs: attrs
            .iter()
            .map(|(k, v)| {
                Some(Attr {
                    key: k.as_bytes().to_vec(),
                    raw: v.as_bytes().to_vec(),
                    text: Some(v.to_string()),
                })
            })
            .collect(),
        shown: format!("tag {name}"),
    }
}

fn start(name: &str, attrs: &[(&str, &str)]) -> Markup {
    Markup::Start(tag(name, attrs))
}

fn end(name: &str) -> Markup {
    Markup::End(name.as_bytes().to_vec(), format!("end {name}"))
}

fn words(t: &str) -> Markup {
    Markup::Text(Ok(Words { whole: t.to_string(), core: t.trim().to_string() }))
}

fn ping(body: Vec<Markup>) -> Vec<Markup> {
    let mut items = vec![
        start("message", &[]),
        start("meta", &[]),
        start("from", &[]),
        words("alice"),
        end("from"),
        start("thread", &[]),
        words("t1"),
        end("thread"),
        end("meta"),
        start("payload", &[("tag", "Ping")]),
    ];
    items.extend(body);
    items.push(end("payload"));
    items.push(end("message"));
    items
}

#[test]
fn items_are_decoded() {
    let back = decode_markup(&ping(vec![start("v", &[("k", "uint")]), words("7"), end("v")]));
    assert_eq!(
        back.unwrap(),
        Envelope {
            meta: Meta {
                from: Address::flat("alice"),
                to: None,
                thread: "t1".into(),
                provenance: Provenance::empty(),
            },
            payload: Payload { tag: "Ping".into(), value: PayloadValue::Uint(7) },
        }
    );
}

#[test]
fn bad_items_are_named() {
    let cut = |n: usize| {
        let mut items = ping(vec![start("v", &[("k", "text")]), words("x"), end("v")]);
        items.truncate(n);
        message(decode_markup(&items))
    };
    assert_eq!(cut(0), "envelope parse error: no <message> element");
    assert_eq!(cut(4), "envelope parse error: unexpected EOF in <meta>");
    assert_eq!(cut(10), "envelope parse error: expected <v>, found EOF");
    assert_eq!(cut(12), "envelope parse error: EOF in scalar <v>");
    assert_eq!(cut(13), "envelope parse error: expected </payload>, found EOF");

    let of = |item: Markup| message(decode_markup(&ping(vec![item])));
    assert_eq!(of(Markup::Malformed("oops".into())), "envelope parse error: oops");
    let found = |item: Markup| {
        let m = of(item);
        m.strip_prefix("envelope parse error: expected <v>, found ").unwrap().to_string()
    };
    assert_eq!(found(Markup::Other("other".into())), "other");
    assert_eq!(found(start("w", &[])), "Start(tag w)");
    assert_eq!(found(Markup::Empty(tag("w", &[]))), "Empty(tag w)");
    assert_eq!(found(end("w")), "End(end w)");
}

#[test]
fn bytes_are_read_into_items() {
    let items = read_markup(b"<a k=\"&lt;1\" k2>  x &lt; y  <b/><!-- c --></a>");
    assert_eq!(items.len(), 5);
    match &items[0] {
        Markup::Start(t) => {
            assert_eq!(t.name, b"a");
            assert_eq!(t.attrs.len(), 2);
            assert_eq!(t.attrs[0].as_ref().unwrap().key, b"k");
            assert_eq!(t.attrs[0].as_ref().unwrap().raw, b"&lt;1");
            assert_eq!(t.attrs[0].as_ref().unwrap().text.as_deref(), Some("<1"));
            assert!(t.attrs[1].is_none());
        }
        _ => panic!("no start tag"),
    }
    assert!(matches!(
        &items[1],
        Markup::Text(Ok(t)) if t.whole == "  x < y  " && t.core == "x < y"
    ));
    assert!(matches!(
        &read_markup(b" &#32;x\t")[..],
        [Markup::Text(Ok(t))] if t.whole == "  x\t" && t.core == " x"
    ));
    assert!(matches!(&items[2], Markup::Empty(t) if t.name == b"b" && t.attrs.is_empty()));
    assert!(matches!(&items[3], Markup::Other(c) if c.starts_with("Comment(")));
    assert!(matches!(&items[4], Markup::End(n, _) if n == b"a"));
    assert!(matches!(&read_markup(b"<a")[..], [Markup::Malformed(_)]));
    assert!(matches!(&read_markup(b"&nope;")[..], [Markup::Text(Err(_))]));
}
