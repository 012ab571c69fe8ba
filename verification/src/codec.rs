//! Envelope serialization — the encapsulated, swappable codec.
//!
//! [`encode_envelope`] / [`decode_envelope`] are the ONLY place wire bytes exist.
//! Everything upstream (handlers, the switchboard, downstream crates) works with the
//! typed [`Envelope`] value — never bytes. The format is the XML of [`crate::grammar`].

use quick_xml::writer::Writer;
use vstd::prelude::*;

use crate::envelope::ENVELOPE_NS;
use crate::error::{ErrorView, PipelineError, PipelineResult};
use crate::grammar;
use crate::grammar::Draft;
use crate::markup;
use crate::markup::{Markup, MarkupView, Piece, Tag};
use crate::numbers;
use crate::text;
use crate::wire;
use crate::wire::{
    Address, Envelope, EnvelopeView, Field, Meta, Payload, PayloadValue, Provenance, ValueView,
};

verus! {

// ── Encode ───────────────────────────────────────────────────────────

/// A failure to write.
fn ser(m: String) -> (r: PipelineError)
    ensures
        r@ == ErrorView::Serialization(m@),
{
    PipelineError::Serialization(m)
}

/// Writes an opening tag.
fn start(w: &mut Writer<Vec<u8>>, name: &str, attr: Option<(&str, &str)>) -> (r: PipelineResult<
    (),
>)
    ensures
        r is Ok,
        markup::pieces_taken(*final(w)) == markup::pieces_taken(*old(w)).push(
            Piece::Start(name@, markup::attr_piece(attr)),
        ),
{
    match markup::write_start(w, name, attr) {
        Ok(_) => Ok(()),
        Err(e) => Err(ser(e)),
    }
}

/// Writes a closing tag.
fn end(w: &mut Writer<Vec<u8>>, name: &str) -> (r: PipelineResult<()>)
    ensures
        r is Ok,
        markup::pieces_taken(*final(w)) == markup::pieces_taken(*old(w)).push(Piece::End(name@)),
{
    match markup::write_end(w, name) {
        Ok(_) => Ok(()),
        Err(e) => Err(ser(e)),
    }
}

/// Writes text.
fn chars(w: &mut Writer<Vec<u8>>, s: &str) -> (r: PipelineResult<()>)
    ensures
        r is Ok,
        markup::pieces_taken(*final(w)) == markup::pieces_taken(*old(w)).push(Piece::Text(s@)),
{
    match markup::write_text(w, s) {
        Ok(_) => Ok(()),
        Err(e) => Err(ser(e)),
    }
}

/// Writes an element that holds text.
fn text_el(w: &mut Writer<Vec<u8>>, name: &str, s: &str) -> (r: PipelineResult<()>)
    ensures
        r is Ok,
        markup::pieces_taken(*final(w)) == markup::pieces_taken(*old(w)) + grammar::text_pieces(
            name@,
            s@,
        ),
{
    start(w, name, None)?;
    chars(w, s)?;
    end(w, name)
}

/// Writes a value of a scalar kind.
fn scalar(w: &mut Writer<Vec<u8>>, kind: &str, s: &str) -> (r: PipelineResult<()>)
    ensures
        r is Ok,
        markup::pieces_taken(*final(w)) == markup::pieces_taken(*old(w)) + grammar::scalar_pieces(
            kind@,
            s@,
        ),
{
    start(w, "v", Some(("k", kind)))?;
    chars(w, s)?;
    end(w, "v")
}

fn write_value(w: &mut Writer<Vec<u8>>, v: &PayloadValue) -> (r: PipelineResult<()>)
    ensures
        r is Ok,
        markup::pieces_taken(*final(w)) == markup::pieces_taken(*old(w)) + grammar::value_pieces(
            v@,
        ),
    decreases v,
{
    let ghost before = markup::pieces_taken(*w);
    proof {
        wire::lemma_value_view(*v);
    }
    match v {
        PayloadValue::Rec(fields) => {
            start(w, "v", Some(("k", "rec")))?;
            let ghost views = wire::field_views(fields@);
            let ghost opened = markup::pieces_taken(*w);
            let mut i: usize = 0;
            assert(views.skip(0) =~= views);
            assert(opened + grammar::fields_pieces(views) =~= opened + grammar::fields_pieces(
                views.skip(0),
            ));
            while i < fields.len()
                invariant
                    *v == PayloadValue::Rec(*fields),
                    views == wire::field_views(fields@),
                    i <= fields@.len(),
                    opened + grammar::fields_pieces(views) == markup::pieces_taken(*w)
                        + grammar::fields_pieces(views.skip(i as int)),
                decreases fields@.len() - i,
            {
                let f = &fields[i];
                let ghost here = markup::pieces_taken(*w);
                proof {
                    assert(decreases_to!(*v => v->Rec_0));
                    assert(decreases_to!(*fields => fields@));
                    assert(decreases_to!(fields@ => fields@[i as int]));
                    assert(decreases_to!(fields@[i as int] => fields@[i as int].value));
                    assert(views.skip(i as int)[0] == f@);
                    assert(views.skip(i as int).subrange(1, views.skip(i as int).len() as int)
                        =~= views.skip(i + 1));
                }
                start(w, "f", Some(("n", f.name.as_str())))?;
                write_value(w, &f.value)?;
                end(w, "f")?;
                proof {
                    assert(here + grammar::fields_pieces(views.skip(i as int))
                        =~= markup::pieces_taken(*w) + grammar::fields_pieces(views.skip(i + 1)));
                }
                i += 1;
            }
            proof {
                assert(views.skip(i as int).len() == 0);
                assert(markup::pieces_taken(*w) =~= opened + grammar::fields_pieces(views));
            }
            end(w, "v")?;
            assert(markup::pieces_taken(*w) =~= before + grammar::value_pieces(v@));
            Ok(())
        },
        PayloadValue::List(items) => {
            start(w, "v", Some(("k", "seq")))?;
            let ghost views = wire::value_views(items@);
            let ghost opened = markup::pieces_taken(*w);
            let mut i: usize = 0;
            assert(views.skip(0) =~= views);
            while i < items.len()
                invariant
                    *v == PayloadValue::List(*items),
                    views == wire::value_views(items@),
                    i <= items@.len(),
                    opened + grammar::items_pieces(views) == markup::pieces_taken(*w)
                        + grammar::items_pieces(views.skip(i as int)),
                decreases items@.len() - i,
            {
                let ghost here = markup::pieces_taken(*w);
                proof {
                    assert(decreases_to!(*v => v->List_0));
                    assert(decreases_to!(*items => items@));
                    assert(decreases_to!(items@ => items@[i as int]));
                    assert(views.skip(i as int)[0] == items@[i as int]@);
                    assert(views.skip(i as int).subrange(1, views.skip(i as int).len() as int)
                        =~= views.skip(i + 1));
                }
                write_value(w, &items[i])?;
                proof {
                    assert(here + grammar::items_pieces(views.skip(i as int))
                        =~= markup::pieces_taken(*w) + grammar::items_pieces(views.skip(i + 1)));
                }
                i += 1;
            }
            proof {
                assert(views.skip(i as int).len() == 0);
                assert(markup::pieces_taken(*w) =~= opened + grammar::items_pieces(views));
            }
            end(w, "v")?;
            assert(markup::pieces_taken(*w) =~= before + grammar::value_pieces(v@));
            Ok(())
        },
        PayloadValue::Text(s) => scalar(w, "text", s.as_str()),
        PayloadValue::Uint(n) => scalar(w, "uint", numbers::u64_text(*n).as_str()),
        PayloadValue::Sint(n) => scalar(w, "sint", numbers::i64_text(*n).as_str()),
        PayloadValue::Real(s) => scalar(w, "real", s.as_str()),
        PayloadValue::Boolean(b) => scalar(
            w,
            "bool",
            if *b {
                "true"
            } else {
                "false"
            },
        ),
        PayloadValue::Blob(bytes) => scalar(
            w,
            "blob",
            numbers::to_hex(bytes.as_slice()).as_str(),
        ),
        PayloadValue::Nil => {
            // self-closing <v k="nil"/>
            let r = match markup::write_empty(w, "v", Some(("k", "nil"))) {
                Ok(_) => Ok(()),
                Err(e) => Err(ser(e)),
            };
            assert(markup::pieces_taken(*w) =~= before + grammar::value_pieces(v@));
            r
        },
    }
}

pub fn prov_to_hex(p: Provenance) -> (r: String)
    ensures
        r@ == grammar::provenance_text(p),
{
    let hi = numbers::u64_hex(p.bits_hi);
    let lo = numbers::u64_hex(p.bits_lo);
    text::cat(hi.as_str(), lo.as_str())
}

/// Serialize a typed [`Envelope`] to wire bytes.
///
/// Every envelope is written. One that survives the wire is what [`decode_envelope`]
/// makes of the bytes again.
pub fn encode_envelope(env: &Envelope) -> (r: PipelineResult<Vec<u8>>)
    ensures
        r is Ok,
        r->Ok_0@ == text::utf8(markup::rendered(grammar::envelope_pieces(env@))),
        markup::markup_of(r->Ok_0@) == markup::read_back(grammar::envelope_pieces(env@)),
        grammar::envelope_survives(env@) ==> grammar::envelope_from(markup::markup_of(r->Ok_0@))
            == Ok::<_, ErrorView>(env@),
{
    let mut w = markup::new_writer();
    start(&mut w, "message", Some(("xmlns", ENVELOPE_NS)))?;
    start(&mut w, "meta", None)?;
    text_el(&mut w, "from", env.meta.from.to_string().as_str())?;
    if let Some(to) = &env.meta.to {
        text_el(&mut w, "to", to.to_string().as_str())?;
    }
    text_el(&mut w, "thread", env.meta.thread.as_str())?;
    if !env.meta.provenance.is_empty() {
        text_el(&mut w, "provenance", prov_to_hex(env.meta.provenance).as_str())?;
    }
    end(&mut w, "meta")?;
    start(&mut w, "payload", Some(("tag", env.payload.tag.as_str())))?;
    assert(markup::pieces_taken(w) =~= grammar::head_pieces(env@));
    write_value(&mut w, &env.payload.value)?;
    end(&mut w, "payload")?;
    end(&mut w, "message")?;
    proof {
        assert(markup::pieces_taken(w) =~= grammar::envelope_pieces(env@));
        grammar::lemma_envelope_is_document(env@);
        if grammar::envelope_survives(env@) {
            grammar::law_envelope_round_trip(env@);
        }
    }
    Ok(markup::finish(w))
}

// ── Decode ───────────────────────────────────────────────────────────

/// Whether `r`, a value and the position behind it, is what the grammar wants at `at`.
pub open spec fn value_read(
    r: PipelineResult<(PayloadValue, usize)>,
    items: Seq<Markup>,
    at: int,
    want: Result<(ValueView, Seq<MarkupView>), ErrorView>,
) -> bool {
    match (r, want) {
        (Ok((v, next)), Ok((w, rest))) => {
            &&& v@ == w
            &&& at < next <= items.len()
            &&& markup::left_from(items, next as int) == rest
        },
        (Err(e), Err(f)) => e@ == f,
        _ => false,
    }
}

/// An error that says what is wrong with a document.
fn parse_msg(m: String) -> (r: PipelineError)
    ensures
        r@ == grammar::fault(m@),
{
    PipelineError::EnvelopeParse(m)
}

/// How a message names markup that it did not expect.
fn describe(m: &Markup) -> (r: String)
    ensures
        r@ == grammar::described(m@),
{
    match m {
        Markup::Start(tag) => text::cat3("Start(", tag.shown.as_str(), ")"),
        Markup::Empty(tag) => text::cat3("Empty(", tag.shown.as_str(), ")"),
        Markup::End(_, shown) => text::cat3("End(", shown.as_str(), ")"),
        Markup::Text(_) => "Text".to_owned(),
        Markup::Other(shown) => shown.clone(),
        Markup::Malformed(e) => e.clone(),
    }
}

/// Whether the tag's name is `name`.
fn tag_is(tag: &Tag, name: &str) -> (r: bool)
    ensures
        r == (tag@.name == text::utf8(name@)),
{
    text::bytes_are(tag.name.as_slice(), name)
}

/// Read the content of an element of the given kind, up to the closing `</v>`.
fn read_scalar(items: &[Markup], at: usize, kind: &str) -> (r: PipelineResult<(String, usize)>)
    requires
        at <= items@.len(),
    ensures
        match (r, grammar::scalar_from(markup::left_from(items@, at as int), kind@, seq![])) {
            (Ok((s, next)), Ok((t, rest))) => {
                &&& s@ == t
                &&& at < next <= items@.len()
                &&& markup::left_from(items@, next as int) == rest
            },
            (Err(e), Err(f)) => e@ == f,
            _ => false,
        },
{
    let whole = text::same_text(kind, "text");
    let mut s = String::new();
    let mut i: usize = at;
    let ghost want = grammar::scalar_from(markup::left_from(items@, at as int), kind@, seq![]);
    assert(s@ =~= seq![]);
    while i < items.len()
        invariant
            at <= i <= items@.len(),
            whole == (kind@ == "text"@),
            want == grammar::scalar_from(markup::left_from(items@, at as int), kind@, seq![]),
            want == grammar::scalar_from(markup::left_from(items@, i as int), kind@, s@),
        decreases items@.len() - i,
    {
        proof {
            markup::lemma_left_from(items@, i as int);
        }
        match &items[i] {
            Markup::Text(Ok(t)) => {
                if whole {
                    s.append(t.whole.as_str());
                } else {
                    s.append(t.core.as_str());
                }
            },
            Markup::Text(Err(e)) => {
                return Err(parse_msg(e.clone()));
            },
            Markup::End(name, _) => {
                if text::bytes_are(name.as_slice(), "v") {
                    return Ok((s, i + 1));
                }
            },
            Markup::Malformed(e) => {
                return Err(parse_msg(e.clone()));
            },
            _ => {},
        }
        i += 1;
    }
    proof {
        markup::lemma_left_from(items@, i as int);
    }
    Err(parse_msg("EOF in scalar <v>".to_owned()))
}

/// Read up to the closing tag `</name>`; returns the position behind it.
fn expect_end(items: &[Markup], at: usize, name: &str) -> (r: PipelineResult<usize>)
    requires
        at <= items@.len(),
    ensures
        match (r, grammar::end_from(markup::left_from(items@, at as int), name@)) {
            (Ok(next), Ok(rest)) => at < next <= items@.len() && markup::left_from(
                items@,
                next as int,
            ) == rest,
            (Err(e), Err(f)) => e@ == f,
            _ => false,
        },
{
    let mut i: usize = at;
    let ghost want = grammar::end_from(markup::left_from(items@, at as int), name@);
    while i < items.len()
        invariant
            at <= i <= items@.len(),
            want == grammar::end_from(markup::left_from(items@, at as int), name@),
            want == grammar::end_from(markup::left_from(items@, i as int), name@),
        decreases items@.len() - i,
    {
        proof {
            markup::lemma_left_from(items@, i as int);
        }
        match &items[i] {
            Markup::Text(_) => {},
            Markup::Malformed(e) => {
                return Err(parse_msg(e.clone()));
            },
            other => {
                if let Markup::End(n, _) = other {
                    if text::bytes_are(n.as_slice(), name) {
                        return Ok(i + 1);
                    }
                }
                let found = describe(other);
                return Err(
                    parse_msg(text::cat4("expected </", name, ">, found ", found.as_str())),
                );
            },
        }
        i += 1;
    }
    proof {
        markup::lemma_left_from(items@, i as int);
    }
    Err(parse_msg(text::cat3("expected </", name, ">, found EOF")))
}

/// Read the next `<v>` element (skipping text) and parse it into a value.
fn expect_value(items: &[Markup], at: usize) -> (r: PipelineResult<(PayloadValue, usize)>)
    requires
        at <= items@.len(),
    ensures
        value_read(
            r,
            items@,
            at as int,
            grammar::value_at(markup::left_from(items@, at as int)),
        ),
    decreases items@.len() - at, 0nat,
{
    let mut i: usize = at;
    let ghost want = grammar::value_at(markup::left_from(items@, at as int));
    while i < items.len()
        invariant
            at <= i <= items@.len(),
            want == grammar::value_at(markup::left_from(items@, at as int)),
            want == grammar::value_at(markup::left_from(items@, i as int)),
        decreases items@.len() - i,
    {
        proof {
            markup::lemma_left_from(items@, i as int);
        }
        match &items[i] {
            Markup::Text(_) => {},
            Markup::Malformed(e) => {
                return Err(parse_msg(e.clone()));
            },
            other => {
                if let Markup::Start(tag) = other {
                    if tag_is(tag, "v") {
                        let kind = markup::get_attr_or_empty(tag, "k");
                        return parse_value(items, i + 1, kind.as_str());
                    }
                }
                if let Markup::Empty(tag) = other {
                    if tag_is(tag, "v") {
                        let kind = markup::get_attr_or_empty(tag, "k");
                        return Ok((empty_value(kind.as_str()), i + 1));
                    }
                }
                let found = describe(other);
                return Err(parse_msg(text::cat("expected <v>, found ", found.as_str())));
            },
        }
        i += 1;
    }
    proof {
        markup::lemma_left_from(items@, i as int);
    }
    Err(parse_msg("expected <v>, found EOF".to_owned()))
}

/// Parse the body of a `<v k=kind>` whose start tag stands before `at`.
fn parse_value(items: &[Markup], at: usize, kind: &str) -> (r: PipelineResult<
    (PayloadValue, usize),
>)
    requires
        at <= items@.len(),
    ensures
        value_read(
            r,
            items@,
            at as int,
            grammar::value_from(markup::left_from(items@, at as int), kind@),
        ),
    decreases items@.len() - at, 2nat,
{
    if text::same_text(kind, "rec") {
        return parse_fields(items, at);
    }
    if text::same_text(kind, "seq") {
        return parse_items(items, at);
    }
    if text::same_text(kind, "text") || text::same_text(kind, "uint") || text::same_text(
        kind,
        "sint",
    ) || text::same_text(kind, "real") || text::same_text(kind, "bool") || text::same_text(
        kind,
        "blob",
    ) || text::same_text(kind, "nil") {
        match read_scalar(items, at, kind) {
            Ok((s, next)) => match parse_scalar(kind, s) {
                Ok(v) => Ok((v, next)),
                Err(e) => Err(e),
            },
            Err(e) => Err(e),
        }
    } else {
        let shown = text::quoted(kind);
        Err(parse_msg(text::cat("unknown value kind ", shown.as_str())))
    }
}

/// The fields of a record, up to its closing tag.
fn parse_fields(items: &[Markup], at: usize) -> (r: PipelineResult<(PayloadValue, usize)>)
    requires
        at <= items@.len(),
    ensures
        value_read(
            r,
            items@,
            at as int,
            grammar::fields_from(markup::left_from(items@, at as int), seq![]),
        ),
    decreases items@.len() - at, 1nat,
{
    let mut fields: Vec<Field> = Vec::new();
    let mut i: usize = at;
    let ghost want = grammar::fields_from(markup::left_from(items@, at as int), seq![]);
    assert(wire::field_views(fields@) =~= seq![]);
    while i < items.len()
        invariant
            at <= i <= items@.len(),
            want == grammar::fields_from(markup::left_from(items@, at as int), seq![]),
            want == grammar::fields_from(
                markup::left_from(items@, i as int),
                wire::field_views(fields@),
            ),
        decreases items@.len() - i,
    {
        proof {
            markup::lemma_left_from(items@, i as int);
        }
        match &items[i] {
            Markup::Start(tag) => {
                if tag_is(tag, "f") {
                    let name = markup::get_attr_or_empty(tag, "n");
                    let (value, behind) = match expect_value(items, i + 1) {
                        Ok(found) => found,
                        Err(e) => {
                            return Err(e);
                        },
                    };
                    let next = match expect_end(items, behind, "f") {
                        Ok(next) => next,
                        Err(e) => {
                            return Err(e);
                        },
                    };
                    let ghost before = fields@;
                    let field = Field { name, value };
                    fields.push(field);
                    proof {
                        assert(wire::field_views(fields@) =~= wire::field_views(before).push(
                            field@,
                        ));
                        markup::lemma_left_from(items@, next as int);
                    }
                    i = next;
                    continue ;
                }
            },
            Markup::End(name, _) => {
                if text::bytes_are(name.as_slice(), "v") {
                    let r = PayloadValue::Rec(fields);
                    proof {
                        wire::lemma_value_view(r);
                    }
                    return Ok((r, i + 1));
                }
            },
            Markup::Malformed(e) => {
                return Err(parse_msg(e.clone()));
            },
            _ => {},
        }
        i += 1;
    }
    proof {
        markup::lemma_left_from(items@, i as int);
    }
    Err(parse_msg("EOF in <v k=rec>".to_owned()))
}

/// The items of a list, up to its closing tag.
fn parse_items(items: &[Markup], at: usize) -> (r: PipelineResult<(PayloadValue, usize)>)
    requires
        at <= items@.len(),
    ensures
        value_read(
            r,
            items@,
            at as int,
            grammar::items_from(markup::left_from(items@, at as int), seq![]),
        ),
    decreases items@.len() - at, 1nat,
{
    let mut values: Vec<PayloadValue> = Vec::new();
    let mut i: usize = at;
    let ghost want = grammar::items_from(markup::left_from(items@, at as int), seq![]);
    assert(wire::value_views(values@) =~= seq![]);
    while i < items.len()
        invariant
            at <= i <= items@.len(),
            want == grammar::items_from(markup::left_from(items@, at as int), seq![]),
            want == grammar::items_from(
                markup::left_from(items@, i as int),
                wire::value_views(values@),
            ),
        decreases items@.len() - i,
    {
        proof {
            markup::lemma_left_from(items@, i as int);
        }
        match &items[i] {
            Markup::Start(tag) => {
                if tag_is(tag, "v") {
                    let kind = markup::get_attr_or_empty(tag, "k");
                    let (value, next) = match parse_value(items, i + 1, kind.as_str()) {
                        Ok(found) => found,
                        Err(e) => {
                            return Err(e);
                        },
                    };
                    let ghost before = values@;
                    values.push(value);
                    proof {
                        assert(wire::value_views(values@) =~= wire::value_views(before).push(
                            value@,
                        ));
                        markup::lemma_left_from(items@, next as int);
                    }
                    i = next;
                    continue ;
                }
            },
            Markup::Empty(tag) => {
                if tag_is(tag, "v") {
                    let kind = markup::get_attr_or_empty(tag, "k");
                    let value = empty_value(kind.as_str());
                    let ghost before = values@;
                    values.push(value);
                    assert(wire::value_views(values@) =~= wire::value_views(before).push(value@));
                }
            },
            Markup::End(name, _) => {
                if text::bytes_are(name.as_slice(), "v") {
                    let r = PayloadValue::List(values);
                    proof {
                        wire::lemma_value_view(r);
                    }
                    return Ok((r, i + 1));
                }
            },
            Markup::Malformed(e) => {
                return Err(parse_msg(e.clone()));
            },
            _ => {},
        }
        i += 1;
    }
    proof {
        markup::lemma_left_from(items@, i as int);
    }
    Err(parse_msg("EOF in <v k=seq>".to_owned()))
}

/// The value that the text of a scalar element denotes.
fn parse_scalar(kind: &str, s: String) -> (r: PipelineResult<PayloadValue>)
    requires
        grammar::is_scalar_kind(kind@),
    ensures
        match (r, grammar::scalar_value(kind@, s@)) {
            (Ok(v), Ok(w)) => v@ == w,
            (Err(e), Err(f)) => e@ == f,
            _ => false,
        },
{
    if text::same_text(kind, "text") {
        Ok(PayloadValue::Text(s))
    } else if text::same_text(kind, "uint") {
        match numbers::read_u64(s.as_str()) {
            Some(n) => Ok(PayloadValue::Uint(n)),
            None => {
                let shown = text::quoted(s.as_str());
                Err(parse_msg(text::cat("invalid uint ", shown.as_str())))
            },
        }
    } else if text::same_text(kind, "sint") {
        match numbers::read_i64(s.as_str()) {
            Some(n) => Ok(PayloadValue::Sint(n)),
            None => {
                let shown = text::quoted(s.as_str());
                Err(parse_msg(text::cat("invalid sint ", shown.as_str())))
            },
        }
    } else if text::same_text(kind, "real") {
        if numbers::is_real_literal(s.as_str()) {
            Ok(PayloadValue::Real(s))
        } else {
            let shown = text::quoted(s.as_str());
            Err(parse_msg(text::cat("invalid real ", shown.as_str())))
        }
    } else if text::same_text(kind, "bool") {
        Ok(PayloadValue::Boolean(text::same_text(s.as_str(), "true")))
    } else if text::same_text(kind, "blob") {
        match from_hex(s.as_str()) {
            Ok(bytes) => Ok(PayloadValue::Blob(bytes)),
            Err(e) => Err(e),
        }
    } else {
        Ok(PayloadValue::Nil)
    }
}

/// A value for a self-closing `<v k=kind/>` (empty content).
fn empty_value(kind: &str) -> (r: PayloadValue)
    ensures
        r@ == grammar::empty_value(kind@),
{
    let r = if text::same_text(kind, "rec") {
        PayloadValue::Rec(Vec::new())
    } else if text::same_text(kind, "seq") {
        PayloadValue::List(Vec::new())
    } else if text::same_text(kind, "text") {
        PayloadValue::Text(String::new())
    } else if text::same_text(kind, "blob") {
        PayloadValue::Blob(Vec::new())
    } else {
        PayloadValue::Nil
    };
    proof {
        wire::lemma_value_view(r);
        match r@ {
            ValueView::Rec(f) => assert(f =~= seq![]),
            ValueView::List(i) => assert(i =~= seq![]),
            ValueView::Text(t) => assert(t =~= seq![]),
            ValueView::Blob(b) => assert(b =~= seq![]),
            _ => {},
        }
    }
    r
}

fn from_hex(s: &str) -> (r: PipelineResult<Vec<u8>>)
    ensures
        match (r, grammar::blob_of(s@)) {
            (Ok(b), Ok(w)) => b@ == w,
            (Err(e), Err(f)) => e@ == f,
            _ => false,
        },
{
    let digits = text::trim_text(s).as_bytes();
    if digits.len() % 2 != 0 {
        return Err(parse_msg("blob hex must have even length".to_owned()));
    }
    match numbers::read_hex_bytes(digits) {
        Some(bytes) => Ok(bytes),
        None => Err(parse_msg("bad blob hex".to_owned())),
    }
}

pub fn prov_from_hex(s: &str) -> (r: PipelineResult<Provenance>)
    ensures
        match (r, grammar::provenance_of(s@)) {
            (Ok(p), Ok(w)) => p == w,
            (Err(e), Err(f)) => e@ == f,
            _ => false,
        },
{
    let digits = text::trim_text(s).as_bytes();
    if digits.len() != 32 {
        let n = numbers::u64_text(digits.len() as u64);
        return Err(
            parse_msg(text::cat("provenance must be 32 hex chars, got ", n.as_str())),
        );
    }
    proof {
        assert(digits@.subrange(0, 16) =~= digits@.take(16));
        assert(digits@.subrange(16, 32) =~= digits@.skip(16));
    }
    match (numbers::read_hex_field(digits, 0, 16), numbers::read_hex_field(digits, 16, 32)) {
        (Some(hi), Some(lo)) => Ok(Provenance { bits_lo: lo, bits_hi: hi }),
        _ => Err(parse_msg("bad provenance hex".to_owned())),
    }
}

/// What has been read of an envelope so far.
struct Reading {
    in_message: bool,
    from: Option<Address>,
    to: Option<Address>,
    thread: Option<String>,
    provenance: Provenance,
    payload: Option<Payload>,
}

impl Reading {
    spec fn draft(self) -> Draft {
        Draft {
            in_message: self.in_message,
            from: wire::opt_address(self.from),
            to: wire::opt_address(self.to),
            thread: match self.thread {
                Some(t) => Some(t@),
                None => None,
            },
            provenance: self.provenance,
            payload: match self.payload {
                Some(p) => Some(p@),
                None => None,
            },
        }
    }
}

/// Takes the text `s` of the element `name` of `<meta>` into the draft.
fn take_meta(d: &mut Reading, name: &[u8], s: &str) -> (r: PipelineResult<()>)
    ensures
        match (r, grammar::with_meta(old(d).draft(), name@, s@)) {
            (Ok(_), Ok(w)) => final(d).draft() == w,
            (Err(e), Err(f)) => e@ == f,
            _ => false,
        },
{
    if text::bytes_are(name, "from") {
        match Address::parse(s) {
            Ok(a) => {
                d.from = Some(a);
            },
            Err(e) => {
                return Err(PipelineError::from(e));
            },
        }
    } else if text::bytes_are(name, "to") {
        match Address::parse(s) {
            Ok(a) => {
                d.to = Some(a);
            },
            Err(e) => {
                return Err(PipelineError::from(e));
            },
        }
    } else if text::bytes_are(name, "thread") {
        d.thread = Some(s.to_owned());
    } else if text::bytes_are(name, "provenance") {
        match prov_from_hex(s) {
            Ok(p) => {
                d.provenance = p;
            },
            Err(e) => {
                return Err(e);
            },
        }
    }
    Ok(())
}

/// The model of an optional element name.
spec fn opt_name(name: Option<&Vec<u8>>) -> Option<Seq<u8>> {
    match name {
        Some(n) => Some(n@),
        None => None,
    }
}

/// Takes everything up to `</meta>` into the draft; returns the position behind it.
fn read_meta(items: &[Markup], at: usize, d: &mut Reading) -> (r: PipelineResult<usize>)
    requires
        at <= items@.len(),
    ensures
        match (
            r,
            grammar::meta_from(markup::left_from(items@, at as int), None, old(d).draft()),
        ) {
            (Ok(next), Ok((w, rest))) => {
                &&& final(d).draft() == w
                &&& at < next <= items@.len()
                &&& markup::left_from(items@, next as int) == rest
            },
            (Err(e), Err(f)) => e@ == f,
            _ => false,
        },
{
    let ghost want = grammar::meta_from(markup::left_from(items@, at as int), None, d.draft());
    let mut field: Option<&Vec<u8>> = None;
    let mut i: usize = at;
    while i < items.len()
        invariant
            at <= i <= items@.len(),
            want == grammar::meta_from(
                markup::left_from(items@, at as int),
                None,
                old(d).draft(),
            ),
            want == grammar::meta_from(
                markup::left_from(items@, i as int),
                opt_name(field),
                d.draft(),
            ),
        decreases items@.len() - i,
    {
        proof {
            markup::lemma_left_from(items@, i as int);
        }
        match &items[i] {
            Markup::Start(tag) => {
                field = Some(&tag.name);
            },
            Markup::Text(t) => {
                if let Some(name) = field {
                    match t {
                        Ok(s) => {
                            if !text::is_empty_text(s.core.as_str()) {
                                let t = text::trim_text(s.core.as_str());
                                match take_meta(d, name.as_slice(), t) {
                                    Ok(_) => {},
                                    Err(e) => {
                                        return Err(e);
                                    },
                                }
                            }
                        },
                        Err(e) => {
                            return Err(parse_msg(e.clone()));
                        },
                    }
                }
            },
            Markup::End(name, _) => {
                if text::bytes_are(name.as_slice(), "meta") {
                    return Ok(i + 1);
                }
                field = None;
            },
            Markup::Malformed(e) => {
                return Err(parse_msg(e.clone()));
            },
            _ => {},
        }
        i += 1;
    }
    proof {
        markup::lemma_left_from(items@, i as int);
    }
    Err(parse_msg("unexpected EOF in <meta>".to_owned()))
}

/// Whether `r` is the envelope, or the error, that the grammar wants.
pub open spec fn envelope_read(
    r: PipelineResult<Envelope>,
    want: Result<EnvelopeView, ErrorView>,
) -> bool {
    match (r, want) {
        (Ok(env), Ok(w)) => env@ == w,
        (Err(e), Err(f)) => e@ == f,
        _ => false,
    }
}

/// Parse wire bytes into a typed [`Envelope`].
///
/// Absent `<provenance>` ⇒ empty set (fail-closed: empty means *not cleared*, not
/// *clean*; egress policy treats it as such). Absent `<to>` ⇒ `None`.
pub fn decode_envelope(raw: &[u8]) -> (r: PipelineResult<Envelope>)
    ensures
        envelope_read(r, grammar::envelope_from(markup::markup_of(raw@))),
{
    let items = markup::read_markup(raw);
    decode_markup(items.as_slice())
}

/// The envelope that a document's items denote.
pub fn decode_markup(items: &[Markup]) -> (r: PipelineResult<Envelope>)
    ensures
        envelope_read(r, grammar::envelope_from(markup::markup_views(items@))),
{
    let mut d = Reading {
        in_message: false,
        from: None,
        to: None,
        thread: None,
        provenance: Provenance::empty(),
        payload: None,
    };
    let ghost want = grammar::message_from(markup::markup_views(items@), grammar::blank());
    let mut i: usize = 0;
    assert(markup::left_from(items@, 0) =~= markup::markup_views(items@));
    while i < items.len()
        invariant_except_break
            i <= items@.len(),
            want == grammar::message_from(markup::left_from(items@, i as int), d.draft()),
        invariant
            want == grammar::message_from(markup::markup_views(items@), grammar::blank()),
        ensures
            want == Ok::<_, ErrorView>(d.draft()),
        decreases items@.len() - i,
    {
        proof {
            markup::lemma_left_from(items@, i as int);
        }
        match &items[i] {
            Markup::Start(tag) => {
                if tag_is(tag, "message") {
                    d.in_message = true;
                } else if tag_is(tag, "meta") {
                    let next = match read_meta(items, i + 1, &mut d) {
                        Ok(next) => next,
                        Err(e) => {
                            return Err(e);
                        },
                    };
                    proof {
                        markup::lemma_left_from(items@, next as int);
                    }
                    i = next;
                    continue ;
                } else if tag_is(tag, "payload") {
                    let name = markup::get_attr_or_empty(tag, "tag");
                    let (value, behind) = match expect_value(items, i + 1) {
                        Ok(found) => found,
                        Err(e) => {
                            return Err(e);
                        },
                    };
                    let next = match expect_end(items, behind, "payload") {
                        Ok(next) => next,
                        Err(e) => {
                            return Err(e);
                        },
                    };
                    d.payload = Some(Payload { tag: name, value });
                    proof {
                        markup::lemma_left_from(items@, next as int);
                    }
                    i = next;
                    continue ;
                } else {
                    let shown = text::lossy_text(tag.name.as_slice());
                    return Err(parse_msg(text::cat3("unexpected element <", shown.as_str(), ">")));
                }
            },
            Markup::End(name, _) => {
                if text::bytes_are(name.as_slice(), "message") {
                    break;
                }
            },
            Markup::Malformed(e) => {
                return Err(parse_msg(e.clone()));
            },
            _ => {},
        }
        i += 1;
    }
    if !d.in_message {
        return Err(parse_msg("no <message> element".to_owned()));
    }
    let from = match d.from {
        Some(from) => from,
        None => {
            return Err(PipelineError::MissingMeta("from"));
        },
    };
    let thread = match d.thread {
        Some(thread) => thread,
        None => {
            return Err(PipelineError::MissingMeta("thread"));
        },
    };
    let payload = match d.payload {
        Some(payload) => payload,
        None => {
            return Err(PipelineError::MissingMeta("payload"));
        },
    };
    Ok(Envelope { meta: Meta { from, to: d.to, thread, provenance: d.provenance }, payload })
}

} // verus!
