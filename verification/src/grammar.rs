//! The grammar of envelopes: which markup denotes which envelope, and which markup an
//! envelope is written as.
//!
//! ```xml
//! <message xmlns="...">
//!   <meta>
//!     <from>ringhub.bob[alice]</from>
//!     <to>carol</to>                  <!-- omitted if there is none -->
//!     <thread>uuid</thread>
//!     <provenance>00..01</provenance> <!-- 32 hex digits; omitted if empty -->
//!   </meta>
//!   <payload tag="Greeting">
//!     <v k="rec"><f n="text"><v k="text">hi</v></f></v>
//!   </payload>
//! </message>
//! ```
//!
//! A payload value is an element `v` whose attribute `k` names its kind.

use vstd::prelude::*;

use crate::address;
use crate::address::SegmentView;
use crate::envelope::ENVELOPE_NS;
use crate::error::ErrorView;
use crate::markup;
use crate::markup::{MarkupView, Nesting, Piece, WordsView};
use crate::numbers;
use crate::provenance::Provenance;
use crate::text;
use crate::wire::{EnvelopeView, FieldView, MetaView, PayloadView, ValueView};

verus! {

// ── What markup denotes ──────────────────────────────────────────────

/// A document that is no envelope.
pub open spec fn fault(message: Seq<char>) -> ErrorView {
    ErrorView::EnvelopeParse(message)
}

/// How a message names markup that it did not expect.
pub open spec fn described(m: MarkupView) -> Seq<char> {
    match m {
        MarkupView::Start(tag) => "Start("@ + tag.shown + ")"@,
        MarkupView::Empty(tag) => "Empty("@ + tag.shown + ")"@,
        MarkupView::End(_, shown) => "End("@ + shown + ")"@,
        MarkupView::Text(_) => "Text"@,
        MarkupView::Other(shown) => shown,
        MarkupView::Malformed(e) => e,
    }
}

/// What a text adds to the content of an element of the given kind: all of it where the
/// value is a text, otherwise what stands between white space.
pub open spec fn content_of(kind: Seq<char>, t: WordsView) -> Seq<char> {
    if kind == "text"@ {
        t.whole
    } else {
        t.core
    }
}

/// The content up to the next `</v>` of an element of the given kind, put behind `before`,
/// and what is left behind that tag.
pub open spec fn scalar_from(left: Seq<MarkupView>, kind: Seq<char>, before: Seq<char>) -> Result<
    (Seq<char>, Seq<MarkupView>),
    ErrorView,
>
    decreases left.len(),
{
    if left.len() == 0 {
        Err(fault("EOF in scalar <v>"@))
    } else {
        let rest = left.skip(1);
        match left[0] {
            MarkupView::Malformed(e) => Err(fault(e)),
            MarkupView::Text(Ok(t)) => scalar_from(rest, kind, before + content_of(kind, t)),
            MarkupView::Text(Err(e)) => Err(fault(e)),
            MarkupView::End(name, _) => if name == text::utf8("v"@) {
                Ok((before, rest))
            } else {
                scalar_from(rest, kind, before)
            },
            _ => scalar_from(rest, kind, before),
        }
    }
}

/// What is left behind `</name>`, which may have text before it and nothing else.
pub open spec fn end_from(left: Seq<MarkupView>, name: Seq<char>) -> Result<
    Seq<MarkupView>,
    ErrorView,
>
    decreases left.len(),
{
    if left.len() == 0 {
        Err(fault("expected </"@ + name + ">, found EOF"@))
    } else {
        let rest = left.skip(1);
        match left[0] {
            MarkupView::Malformed(e) => Err(fault(e)),
            MarkupView::Text(_) => end_from(rest, name),
            MarkupView::End(n, _) => if n == text::utf8(name) {
                Ok(rest)
            } else {
                Err(fault("expected </"@ + name + ">, found "@ + described(left[0])))
            },
            _ => Err(fault("expected </"@ + name + ">, found "@ + described(left[0]))),
        }
    }
}

/// The bytes that the text of a blob denotes.
pub open spec fn blob_of(s: Seq<char>) -> Result<Seq<u8>, ErrorView> {
    let digits = text::utf8(text::trimmed(s));
    if digits.len() % 2 != 0 {
        Err(fault("blob hex must have even length"@))
    } else {
        match numbers::hex_bytes(digits) {
            Some(bytes) => Ok(bytes),
            None => Err(fault("bad blob hex"@)),
        }
    }
}

/// The label-set that 32 hexadecimal digits denote, the high word first.
pub open spec fn provenance_of(s: Seq<char>) -> Result<Provenance, ErrorView> {
    let digits = text::utf8(text::trimmed(s));
    if digits.len() != 32 {
        Err(fault("provenance must be 32 hex chars, got "@ + numbers::decimal(digits.len())))
    } else {
        match (numbers::hex_field(digits.take(16)), numbers::hex_field(digits.skip(16))) {
            (Some(hi), Some(lo)) => Ok(Provenance { bits_lo: lo as u64, bits_hi: hi as u64 }),
            _ => Err(fault("bad provenance hex"@)),
        }
    }
}

/// The kinds of value whose content is text.
pub open spec fn is_scalar_kind(kind: Seq<char>) -> bool {
    ||| kind == "text"@
    ||| kind == "uint"@
    ||| kind == "sint"@
    ||| kind == "real"@
    ||| kind == "bool"@
    ||| kind == "blob"@
    ||| kind == "nil"@
}

/// The value that the text `s` denotes in an element of the given scalar kind.
pub open spec fn scalar_value(kind: Seq<char>, s: Seq<char>) -> Result<ValueView, ErrorView> {
    if kind == "text"@ {
        Ok(ValueView::Text(s))
    } else if kind == "uint"@ {
        match numbers::u64_value(s) {
            Some(n) => Ok(ValueView::Uint(n)),
            None => Err(fault("invalid uint "@ + text::quoted_text(s))),
        }
    } else if kind == "sint"@ {
        match numbers::i64_value(s) {
            Some(n) => Ok(ValueView::Sint(n)),
            None => Err(fault("invalid sint "@ + text::quoted_text(s))),
        }
    } else if kind == "real"@ {
        if numbers::is_real(s) {
            Ok(ValueView::Real(s))
        } else {
            Err(fault("invalid real "@ + text::quoted_text(s)))
        }
    } else if kind == "bool"@ {
        Ok(ValueView::Boolean(s == "true"@))
    } else if kind == "blob"@ {
        match blob_of(s) {
            Ok(bytes) => Ok(ValueView::Blob(bytes)),
            Err(e) => Err(e),
        }
    } else {
        Ok(ValueView::Nil)
    }
}

/// The value of a self-closing `<v/>` of the given kind.
pub open spec fn empty_value(kind: Seq<char>) -> ValueView {
    if kind == "rec"@ {
        ValueView::Rec(seq![])
    } else if kind == "seq"@ {
        ValueView::List(seq![])
    } else if kind == "text"@ {
        ValueView::Text(seq![])
    } else if kind == "blob"@ {
        ValueView::Blob(seq![])
    } else {
        ValueView::Nil
    }
}

/// The next `v` element's value, text before it passed over, and what is left behind it.
pub open spec fn value_at(left: Seq<MarkupView>) -> Result<
    (ValueView, Seq<MarkupView>),
    ErrorView,
>
    decreases left.len(), 0nat,
{
    if left.len() == 0 {
        Err(fault("expected <v>, found EOF"@))
    } else {
        let rest = left.skip(1);
        match left[0] {
            MarkupView::Malformed(e) => Err(fault(e)),
            MarkupView::Text(_) => value_at(rest),
            MarkupView::Start(tag) => if tag.name == text::utf8("v"@) {
                value_from(rest, markup::attr_or_empty(tag, "k"@))
            } else {
                Err(fault("expected <v>, found "@ + described(left[0])))
            },
            MarkupView::Empty(tag) => if tag.name == text::utf8("v"@) {
                Ok((empty_value(markup::attr_or_empty(tag, "k"@)), rest))
            } else {
                Err(fault("expected <v>, found "@ + described(left[0])))
            },
            _ => Err(fault("expected <v>, found "@ + described(left[0]))),
        }
    }
}

/// The value whose opening tag, of the given kind, has just been read.
pub open spec fn value_from(left: Seq<MarkupView>, kind: Seq<char>) -> Result<
    (ValueView, Seq<MarkupView>),
    ErrorView,
>
    decreases left.len(), 2nat,
{
    if kind == "rec"@ {
        fields_from(left, seq![])
    } else if kind == "seq"@ {
        items_from(left, seq![])
    } else if is_scalar_kind(kind) {
        match scalar_from(left, kind, seq![]) {
            Ok((s, rest)) => match scalar_value(kind, s) {
                Ok(v) => Ok((v, rest)),
                Err(e) => Err(e),
            },
            Err(e) => Err(e),
        }
    } else {
        Err(fault("unknown value kind "@ + text::quoted_text(kind)))
    }
}

/// The fields up to the record's `</v>`, put behind `done`. (What a field leaves is
/// always shorter: see [`law_value_takes_markup`].)
pub open spec fn fields_from(left: Seq<MarkupView>, done: Seq<FieldView>) -> Result<
    (ValueView, Seq<MarkupView>),
    ErrorView,
>
    decreases left.len(), 1nat,
{
    if left.len() == 0 {
        Err(fault("EOF in <v k=rec>"@))
    } else {
        let rest = left.skip(1);
        match left[0] {
            MarkupView::Malformed(e) => Err(fault(e)),
            MarkupView::Start(tag) => if tag.name == text::utf8("f"@) {
                match value_at(rest) {
                    Ok((value, behind)) => match end_from(behind, "f"@) {
                        Ok(next) => if next.len() < left.len() {
                            fields_from(
                                next,
                                done.push(
                                    FieldView { name: markup::attr_or_empty(tag, "n"@), value },
                                ),
                            )
                        } else {
                            arbitrary()
                        },
                        Err(e) => Err(e),
                    },
                    Err(e) => Err(e),
                }
            } else {
                fields_from(rest, done)
            },
            MarkupView::End(name, _) => if name == text::utf8("v"@) {
                Ok((ValueView::Rec(done), rest))
            } else {
                fields_from(rest, done)
            },
            _ => fields_from(rest, done),
        }
    }
}

/// The items up to the list's `</v>`, put behind `done`. (What an item leaves is always
/// shorter: see [`law_value_takes_markup`].)
pub open spec fn items_from(left: Seq<MarkupView>, done: Seq<ValueView>) -> Result<
    (ValueView, Seq<MarkupView>),
    ErrorView,
>
    decreases left.len(), 1nat,
{
    if left.len() == 0 {
        Err(fault("EOF in <v k=seq>"@))
    } else {
        let rest = left.skip(1);
        match left[0] {
            MarkupView::Malformed(e) => Err(fault(e)),
            MarkupView::Start(tag) => if tag.name == text::utf8("v"@) {
                match value_from(rest, markup::attr_or_empty(tag, "k"@)) {
                    Ok((value, next)) => if next.len() < left.len() {
                        items_from(next, done.push(value))
                    } else {
                        arbitrary()
                    },
                    Err(e) => Err(e),
                }
            } else {
                items_from(rest, done)
            },
            MarkupView::Empty(tag) => if tag.name == text::utf8("v"@) {
                items_from(rest, done.push(empty_value(markup::attr_or_empty(tag, "k"@))))
            } else {
                items_from(rest, done)
            },
            MarkupView::End(name, _) => if name == text::utf8("v"@) {
                Ok((ValueView::List(done), rest))
            } else {
                items_from(rest, done)
            },
            _ => items_from(rest, done),
        }
    }
}

/// What has been read of an envelope so far.
pub struct Draft {
    pub in_message: bool,
    pub from: Option<Seq<SegmentView>>,
    pub to: Option<Seq<SegmentView>>,
    pub thread: Option<Seq<char>>,
    pub provenance: Provenance,
    pub payload: Option<PayloadView>,
}

/// Nothing read: no address, no thread, no payload, and no provenance.
pub open spec fn blank() -> Draft {
    Draft {
        in_message: false,
        from: None,
        to: None,
        thread: None,
        provenance: Provenance { bits_lo: 0, bits_hi: 0 },
        payload: None,
    }
}

/// The draft with the text `s` of the element `name` of `<meta>` taken in. Elements that
/// are not known are passed over.
pub open spec fn with_meta(d: Draft, name: Seq<u8>, s: Seq<char>) -> Result<Draft, ErrorView> {
    if name == text::utf8("from"@) {
        match address::address_of(s) {
            Ok(a) => Ok(Draft { from: Some(a), ..d }),
            Err(e) => Err(fault(e.message())),
        }
    } else if name == text::utf8("to"@) {
        match address::address_of(s) {
            Ok(a) => Ok(Draft { to: Some(a), ..d }),
            Err(e) => Err(fault(e.message())),
        }
    } else if name == text::utf8("thread"@) {
        Ok(Draft { thread: Some(s), ..d })
    } else if name == text::utf8("provenance"@) {
        match provenance_of(s) {
            Ok(p) => Ok(Draft { provenance: p, ..d }),
            Err(e) => Err(e),
        }
    } else {
        Ok(d)
    }
}

/// The draft with everything up to `</meta>` taken in, where the element `field` has
/// been opened last, and what is left behind that tag.
pub open spec fn meta_from(left: Seq<MarkupView>, field: Option<Seq<u8>>, d: Draft) -> Result<
    (Draft, Seq<MarkupView>),
    ErrorView,
>
    decreases left.len(),
{
    if left.len() == 0 {
        Err(fault("unexpected EOF in <meta>"@))
    } else {
        let rest = left.skip(1);
        match left[0] {
            MarkupView::Malformed(e) => Err(fault(e)),
            MarkupView::Start(tag) => meta_from(rest, Some(tag.name), d),
            MarkupView::Text(t) => match field {
                Some(name) => match t {
                    Ok(s) => if s.core.len() == 0 {
                        meta_from(rest, field, d)
                    } else {
                        match with_meta(d, name, text::trimmed(s.core)) {
                            Ok(next) => meta_from(rest, field, next),
                            Err(e) => Err(e),
                        }
                    },
                    Err(e) => Err(fault(e)),
                },
                None => meta_from(rest, field, d),
            },
            MarkupView::End(name, _) => if name == text::utf8("meta"@) {
                Ok((d, rest))
            } else {
                meta_from(rest, None, d)
            },
            _ => meta_from(rest, field, d),
        }
    }
}

/// The draft with everything up to `</message>` or the end of the input taken in. (What
/// the header and the payload leave is always shorter: see [`law_meta_takes_markup`] and
/// [`law_value_takes_markup`].)
pub open spec fn message_from(left: Seq<MarkupView>, d: Draft) -> Result<Draft, ErrorView>
    decreases left.len(),
{
    if left.len() == 0 {
        Ok(d)
    } else {
        let rest = left.skip(1);
        match left[0] {
            MarkupView::Malformed(e) => Err(fault(e)),
            MarkupView::Start(tag) => if tag.name == text::utf8("message"@) {
                message_from(rest, Draft { in_message: true, ..d })
            } else if tag.name == text::utf8("meta"@) {
                match meta_from(rest, None, d) {
                    Ok((next, behind)) => if behind.len() < left.len() {
                        message_from(behind, next)
                    } else {
                        arbitrary()
                    },
                    Err(e) => Err(e),
                }
            } else if tag.name == text::utf8("payload"@) {
                match value_at(rest) {
                    Ok((value, inside)) => match end_from(inside, "payload"@) {
                        Ok(behind) => if behind.len() < left.len() {
                            let payload = PayloadView {
                                tag: markup::attr_or_empty(tag, "tag"@),
                                value,
                            };
                            message_from(behind, Draft { payload: Some(payload), ..d })
                        } else {
                            arbitrary()
                        },
                        Err(e) => Err(e),
                    },
                    Err(e) => Err(e),
                }
            } else {
                Err(fault("unexpected element <"@ + text::lossy_text_of(tag.name) + ">"@))
            },
            MarkupView::End(name, _) => if name == text::utf8("message"@) {
                Ok(d)
            } else {
                message_from(rest, d)
            },
            _ => message_from(rest, d),
        }
    }
}

/// The envelope that a draft amounts to, or what it lacks.
pub open spec fn completed(d: Draft) -> Result<EnvelopeView, ErrorView> {
    if !d.in_message {
        Err(fault("no <message> element"@))
    } else {
        match (d.from, d.thread, d.payload) {
            (Some(from), Some(thread), Some(payload)) => Ok(
                EnvelopeView {
                    meta: MetaView { from, to: d.to, thread, provenance: d.provenance },
                    payload,
                },
            ),
            (None, _, _) => Err(ErrorView::MissingMeta("from"@)),
            (_, None, _) => Err(ErrorView::MissingMeta("thread"@)),
            (_, _, None) => Err(ErrorView::MissingMeta("payload"@)),
        }
    }
}

/// The envelope that a sequence of markup denotes.
pub open spec fn envelope_from(left: Seq<MarkupView>) -> Result<EnvelopeView, ErrorView> {
    match message_from(left, blank()) {
        Ok(d) => completed(d),
        Err(e) => Err(e),
    }
}

// ── What is left gets shorter ────────────────────────────────────────

/// A scalar takes up markup.
proof fn lemma_scalar_from_shrinks(left: Seq<MarkupView>, kind: Seq<char>, before: Seq<char>)
    ensures
        scalar_from(left, kind, before) matches Ok((_, rest)) ==> rest.len() < left.len(),
    decreases left.len(),
{
    if left.len() > 0 {
        let rest = left.skip(1);
        match left[0] {
            MarkupView::Text(Ok(t)) => lemma_scalar_from_shrinks(
                rest,
                kind,
                before + content_of(kind, t),
            ),
            _ => lemma_scalar_from_shrinks(rest, kind, before),
        }
    }
}

/// A closing tag takes up markup.
proof fn lemma_end_from_shrinks(left: Seq<MarkupView>, name: Seq<char>)
    ensures
        end_from(left, name) matches Ok(rest) ==> rest.len() < left.len(),
    decreases left.len(),
{
    if left.len() > 0 {
        lemma_end_from_shrinks(left.skip(1), name);
    }
}

/// Reading a value always gets ahead: less markup is left behind it.
pub proof fn law_value_takes_markup(left: Seq<MarkupView>)
    ensures
        value_at(left) matches Ok((_, rest)) ==> rest.len() < left.len(),
    decreases left.len(), 0nat,
{
    if left.len() > 0 {
        let rest = left.skip(1);
        match left[0] {
            MarkupView::Text(_) => law_value_takes_markup(rest),
            MarkupView::Start(tag) => lemma_value_from_shrinks(
                rest,
                markup::attr_or_empty(tag, "k"@),
            ),
            _ => {},
        }
    }
}

/// A value's content and closing tag take up markup.
proof fn lemma_value_from_shrinks(left: Seq<MarkupView>, kind: Seq<char>)
    ensures
        value_from(left, kind) matches Ok((_, rest)) ==> rest.len() < left.len(),
    decreases left.len(), 2nat,
{
    lemma_fields_from_shrinks(left, seq![]);
    lemma_items_from_shrinks(left, seq![]);
    lemma_scalar_from_shrinks(left, kind, seq![]);
}

proof fn lemma_fields_from_shrinks(left: Seq<MarkupView>, done: Seq<FieldView>)
    ensures
        fields_from(left, done) matches Ok((_, rest)) ==> rest.len() < left.len(),
    decreases left.len(), 1nat,
{
    if left.len() > 0 {
        let rest = left.skip(1);
        match left[0] {
            MarkupView::Start(tag) if tag.name == text::utf8("f"@) => {
                law_value_takes_markup(rest);
                if let Ok((value, behind)) = value_at(rest) {
                    lemma_end_from_shrinks(behind, "f"@);
                    if let Ok(next) = end_from(behind, "f"@) {
                        lemma_fields_from_shrinks(
                            next,
                            done.push(FieldView { name: markup::attr_or_empty(tag, "n"@), value }),
                        );
                    }
                }
            },
            _ => lemma_fields_from_shrinks(rest, done),
        }
    }
}

proof fn lemma_items_from_shrinks(left: Seq<MarkupView>, done: Seq<ValueView>)
    ensures
        items_from(left, done) matches Ok((_, rest)) ==> rest.len() < left.len(),
    decreases left.len(), 1nat,
{
    if left.len() > 0 {
        let rest = left.skip(1);
        match left[0] {
            MarkupView::Start(tag) if tag.name == text::utf8("v"@) => {
                let kind = markup::attr_or_empty(tag, "k"@);
                lemma_value_from_shrinks(rest, kind);
                if let Ok((value, next)) = value_from(rest, kind) {
                    lemma_items_from_shrinks(next, done.push(value));
                }
            },
            MarkupView::Empty(tag) if tag.name == text::utf8("v"@) => {
                lemma_items_from_shrinks(
                    rest,
                    done.push(empty_value(markup::attr_or_empty(tag, "k"@))),
                );
            },
            _ => lemma_items_from_shrinks(rest, done),
        }
    }
}

/// Reading the header always gets ahead: less markup is left behind it.
pub proof fn law_meta_takes_markup(left: Seq<MarkupView>, field: Option<Seq<u8>>, d: Draft)
    ensures
        meta_from(left, field, d) matches Ok((_, rest)) ==> rest.len() < left.len(),
    decreases left.len(),
{
    if left.len() > 0 {
        let rest = left.skip(1);
        law_meta_takes_markup(rest, field, d);
        law_meta_takes_markup(rest, None, d);
        match left[0] {
            MarkupView::Start(tag) => law_meta_takes_markup(rest, Some(tag.name), d),
            MarkupView::Text(Ok(s)) => {
                if let Some(name) = field {
                    if let Ok(next) = with_meta(d, name, text::trimmed(s.core)) {
                        law_meta_takes_markup(rest, field, next);
                    }
                }
            },
            _ => {},
        }
    }
}

// ── What an envelope is written as ───────────────────────────────────

/// The opening tag of a value.
pub open spec fn v_start(kind: Seq<char>) -> Piece {
    Piece::Start("v"@, Some(("k"@, kind)))
}

/// A value of a scalar kind with its text.
pub open spec fn scalar_pieces(kind: Seq<char>, s: Seq<char>) -> Seq<Piece> {
    seq![v_start(kind), Piece::Text(s), Piece::End("v"@)]
}

/// A value as it is written.
pub open spec fn value_pieces(v: ValueView) -> Seq<Piece>
    decreases v,
{
    match v {
        ValueView::Rec(fields) => seq![v_start("rec"@)] + fields_pieces(fields) + seq![
            Piece::End("v"@),
        ],
        ValueView::List(items) => seq![v_start("seq"@)] + items_pieces(items) + seq![
            Piece::End("v"@),
        ],
        ValueView::Text(s) => scalar_pieces("text"@, s),
        ValueView::Uint(n) => scalar_pieces("uint"@, numbers::decimal(n as nat)),
        ValueView::Sint(n) => scalar_pieces("sint"@, numbers::signed_decimal(n as int)),
        ValueView::Real(s) => scalar_pieces("real"@, s),
        ValueView::Boolean(b) => scalar_pieces(
            "bool"@,
            if b {
                "true"@
            } else {
                "false"@
            },
        ),
        ValueView::Blob(bytes) => scalar_pieces("blob"@, numbers::hex_text(bytes)),
        ValueView::Nil => seq![Piece::Empty("v"@, Some(("k"@, "nil"@)))],
    }
}

/// The fields of a record as they are written.
pub open spec fn fields_pieces(fields: Seq<FieldView>) -> Seq<Piece>
    decreases fields,
{
    if fields.len() == 0 {
        seq![]
    } else {
        seq![Piece::Start("f"@, Some(("n"@, fields[0].name)))] + value_pieces(fields[0].value)
            + seq![Piece::End("f"@)] + fields_pieces(fields.subrange(1, fields.len() as int))
    }
}

/// The items of a list as they are written.
pub open spec fn items_pieces(items: Seq<ValueView>) -> Seq<Piece>
    decreases items,
{
    if items.len() == 0 {
        seq![]
    } else {
        value_pieces(items[0]) + items_pieces(items.subrange(1, items.len() as int))
    }
}

/// An element that holds text.
pub open spec fn text_pieces(name: Seq<char>, s: Seq<char>) -> Seq<Piece> {
    seq![Piece::Start(name, None), Piece::Text(s), Piece::End(name)]
}

/// The 32 hexadecimal digits of a label-set, the high word first.
pub open spec fn provenance_text(p: Provenance) -> Seq<char> {
    numbers::hex_word(p.bits_hi as nat, 16) + numbers::hex_word(p.bits_lo as nat, 16)
}

/// Whether a label-set is empty.
pub open spec fn is_empty_set(p: Provenance) -> bool {
    p.bits_lo == 0 && p.bits_hi == 0
}

/// The elements of `<meta>`: no destination and no provenance where there is none.
pub open spec fn meta_pieces(meta: MetaView) -> Seq<Piece> {
    text_pieces("from"@, address::shown(meta.from)) + (match meta.to {
        Some(to) => text_pieces("to"@, address::shown(to)),
        None => seq![],
    }) + text_pieces("thread"@, meta.thread) + (if is_empty_set(meta.provenance) {
        seq![]
    } else {
        text_pieces("provenance"@, provenance_text(meta.provenance))
    })
}

/// Everything before the payload's value.
pub open spec fn head_pieces(env: EnvelopeView) -> Seq<Piece> {
    seq![
        Piece::Start("message"@, Some(("xmlns"@, ENVELOPE_NS@))),
        Piece::Start("meta"@, None),
    ] + meta_pieces(env.meta) + seq![
        Piece::End("meta"@),
        Piece::Start("payload"@, Some(("tag"@, env.payload.tag))),
    ]
}

/// Everything behind the payload's value.
pub open spec fn tail_pieces() -> Seq<Piece> {
    seq![Piece::End("payload"@), Piece::End("message"@)]
}

/// An envelope as it is written.
pub open spec fn envelope_pieces(env: EnvelopeView) -> Seq<Piece> {
    head_pieces(env) + value_pieces(env.payload.value) + tail_pieces()
}

// ── What is written is a document ────────────────────────────────────

/// Where a writer stands that has `open` elements open and wrote no text last.
pub open spec fn at(open: Seq<Seq<char>>) -> Option<Nesting> {
    Some(Nesting { open, in_text: false })
}

/// The element and attribute names of an envelope are plain.
proof fn lemma_plain_names()
    ensures
        markup::is_plain_name("v"@),
        markup::is_plain_name("f"@),
        markup::is_plain_name("k"@),
        markup::is_plain_name("n"@),
        markup::is_plain_name("from"@),
        markup::is_plain_name("to"@),
        markup::is_plain_name("thread"@),
        markup::is_plain_name("provenance"@),
        markup::is_plain_name("meta"@),
        markup::is_plain_name("message"@),
        markup::is_plain_name("payload"@),
        markup::is_plain_name("tag"@),
        markup::is_plain_name("xmlns"@),
{
    reveal_strlit("v");
    reveal_strlit("f");
    reveal_strlit("k");
    reveal_strlit("n");
    reveal_strlit("from");
    reveal_strlit("to");
    reveal_strlit("thread");
    reveal_strlit("provenance");
    reveal_strlit("meta");
    reveal_strlit("message");
    reveal_strlit("payload");
    reveal_strlit("tag");
    reveal_strlit("xmlns");
}

/// An element that holds text leaves the writer where it stood.
proof fn lemma_text_nests(
    before: Seq<Piece>,
    open: Seq<Seq<char>>,
    name: Seq<char>,
    attr: Option<(Seq<char>, Seq<char>)>,
    s: Seq<char>,
)
    requires
        markup::nesting_of(before) == at(open),
        markup::is_plain_tag(name, attr),
    ensures
        markup::nesting_of(
            before + seq![Piece::Start(name, attr), Piece::Text(s), Piece::End(name)],
        ) == at(open),
{
    let a = before.push(Piece::Start(name, attr));
    let b = a.push(Piece::Text(s));
    let c = b.push(Piece::End(name));
    markup::lemma_nesting_push(before, Piece::Start(name, attr));
    markup::lemma_nesting_push(a, Piece::Text(s));
    markup::lemma_nesting_push(b, Piece::End(name));
    assert(open.push(name).drop_last() =~= open);
    assert(before + seq![Piece::Start(name, attr), Piece::Text(s), Piece::End(name)] =~= c);
}

/// A value leaves the writer where it stood.
pub proof fn lemma_value_nests(before: Seq<Piece>, open: Seq<Seq<char>>, v: ValueView)
    requires
        markup::nesting_of(before) == at(open),
    ensures
        markup::nesting_of(before + value_pieces(v)) == at(open),
    decreases v,
{
    lemma_plain_names();
    let k = |kind: Seq<char>| Some(("k"@, kind));
    match v {
        ValueView::Rec(fields) => {
            let a = before.push(v_start("rec"@));
            markup::lemma_nesting_push(before, v_start("rec"@));
            lemma_fields_nest(a, open.push("v"@), fields);
            let b = a + fields_pieces(fields);
            markup::lemma_nesting_push(b, Piece::End("v"@));
            assert(open.push("v"@).drop_last() =~= open);
            assert(before + value_pieces(v) =~= b.push(Piece::End("v"@)));
        },
        ValueView::List(items) => {
            let a = before.push(v_start("seq"@));
            markup::lemma_nesting_push(before, v_start("seq"@));
            lemma_items_nest(a, open.push("v"@), items);
            let b = a + items_pieces(items);
            markup::lemma_nesting_push(b, Piece::End("v"@));
            assert(open.push("v"@).drop_last() =~= open);
            assert(before + value_pieces(v) =~= b.push(Piece::End("v"@)));
        },
        ValueView::Nil => {
            let piece = Piece::Empty("v"@, Some(("k"@, "nil"@)));
            markup::lemma_nesting_push(before, piece);
            assert(before + value_pieces(v) =~= before.push(piece));
        },
        ValueView::Text(s) => lemma_text_nests(before, open, "v"@, k("text"@), s),
        ValueView::Uint(n) => lemma_text_nests(
            before,
            open,
            "v"@,
            k("uint"@),
            numbers::decimal(n as nat),
        ),
        ValueView::Sint(n) => lemma_text_nests(
            before,
            open,
            "v"@,
            k("sint"@),
            numbers::signed_decimal(n as int),
        ),
        ValueView::Real(s) => lemma_text_nests(before, open, "v"@, k("real"@), s),
        ValueView::Boolean(b) => lemma_text_nests(
            before,
            open,
            "v"@,
            k("bool"@),
            if b {
                "true"@
            } else {
                "false"@
            },
        ),
        ValueView::Blob(bytes) => lemma_text_nests(
            before,
            open,
            "v"@,
            k("blob"@),
            numbers::hex_text(bytes),
        ),
    }
}

proof fn lemma_fields_nest(before: Seq<Piece>, open: Seq<Seq<char>>, fields: Seq<FieldView>)
    requires
        markup::nesting_of(before) == at(open),
    ensures
        markup::nesting_of(before + fields_pieces(fields)) == at(open),
    decreases fields,
{
    if fields.len() == 0 {
        assert(before + fields_pieces(fields) =~= before);
    } else {
        lemma_plain_names();
        let rest = fields.subrange(1, fields.len() as int);
        let start = Piece::Start("f"@, Some(("n"@, fields[0].name)));
        let a = before.push(start);
        markup::lemma_nesting_push(before, start);
        lemma_value_nests(a, open.push("f"@), fields[0].value);
        let b = a + value_pieces(fields[0].value);
        let c = b.push(Piece::End("f"@));
        markup::lemma_nesting_push(b, Piece::End("f"@));
        assert(open.push("f"@).drop_last() =~= open);
        lemma_fields_nest(c, open, rest);
        assert(before + fields_pieces(fields) =~= c + fields_pieces(rest));
    }
}

proof fn lemma_items_nest(before: Seq<Piece>, open: Seq<Seq<char>>, items: Seq<ValueView>)
    requires
        markup::nesting_of(before) == at(open),
    ensures
        markup::nesting_of(before + items_pieces(items)) == at(open),
    decreases items,
{
    if items.len() == 0 {
        assert(before + items_pieces(items) =~= before);
    } else {
        let rest = items.subrange(1, items.len() as int);
        lemma_value_nests(before, open, items[0]);
        lemma_items_nest(before + value_pieces(items[0]), open, rest);
        assert(before + items_pieces(items) =~= before + value_pieces(items[0]) + items_pieces(
            rest,
        ));
    }
}

/// Every envelope is written as a document.
pub proof fn lemma_envelope_is_document(env: EnvelopeView)
    ensures
        markup::is_document(envelope_pieces(env)),
{
    lemma_plain_names();
    let none = Seq::<Piece>::empty();
    let message = Piece::Start("message"@, Some(("xmlns"@, ENVELOPE_NS@)));
    let in_message = seq!["message"@];
    let in_meta = seq!["message"@, "meta"@];
    let in_payload = seq!["message"@, "payload"@];
    let a = seq![message];
    markup::lemma_nesting_push(none, message);
    assert(none.push(message) =~= a);
    assert(Seq::<Seq<char>>::empty().push("message"@) =~= in_message);
    let b = a.push(Piece::Start("meta"@, None));
    markup::lemma_nesting_push(a, Piece::Start("meta"@, None));
    assert(in_message.push("meta"@) =~= in_meta);
    let c = b + text_pieces("from"@, address::shown(env.meta.from));
    lemma_text_nests(b, in_meta, "from"@, None, address::shown(env.meta.from));
    let d = c + (match env.meta.to {
        Some(to) => text_pieces("to"@, address::shown(to)),
        None => seq![],
    });
    match env.meta.to {
        Some(to) => lemma_text_nests(c, in_meta, "to"@, None, address::shown(to)),
        None => assert(d =~= c),
    }
    let e = d + text_pieces("thread"@, env.meta.thread);
    lemma_text_nests(d, in_meta, "thread"@, None, env.meta.thread);
    let p = env.meta.provenance;
    let f = e + (if is_empty_set(p) {
        seq![]
    } else {
        text_pieces("provenance"@, provenance_text(p))
    });
    if is_empty_set(p) {
        assert(f =~= e);
    } else {
        lemma_text_nests(e, in_meta, "provenance"@, None, provenance_text(p));
    }
    let g = f.push(Piece::End("meta"@));
    markup::lemma_nesting_push(f, Piece::End("meta"@));
    assert(in_meta.drop_last() =~= in_message);
    let start = Piece::Start("payload"@, Some(("tag"@, env.payload.tag)));
    let h = g.push(start);
    markup::lemma_nesting_push(g, start);
    assert(in_message.push("payload"@) =~= in_payload);
    assert(head_pieces(env) =~= h);
    lemma_value_nests(h, in_payload, env.payload.value);
    let i = h + value_pieces(env.payload.value);
    let j = i.push(Piece::End("payload"@));
    markup::lemma_nesting_push(i, Piece::End("payload"@));
    assert(in_payload.drop_last() =~= in_message);
    markup::lemma_nesting_push(j, Piece::End("message"@));
    assert(in_message.drop_last() =~= Seq::<Seq<char>>::empty());
    assert(envelope_pieces(env) =~= j.push(Piece::End("message"@)));
}

// ── What is written is read back ─────────────────────────────────────

/// Text that does not start or end in white space.
pub open spec fn is_trimmed(s: Seq<char>) -> bool {
    s.len() > 0 ==> !text::white_space(s[0]) && !text::white_space(s.last())
}

/// Whether a value is one: each real in it is a literal that denotes a number.
pub open spec fn is_value(v: ValueView) -> bool
    decreases v,
{
    match v {
        ValueView::Rec(fields) => are_fields(fields),
        ValueView::List(items) => are_values(items),
        ValueView::Real(s) => numbers::is_real(s),
        _ => true,
    }
}

/// Whether each field holds a value.
pub open spec fn are_fields(fields: Seq<FieldView>) -> bool
    decreases fields,
{
    fields.len() == 0 || (is_value(fields[0].value) && are_fields(
        fields.subrange(1, fields.len() as int),
    ))
}

/// Whether each item is a value.
pub open spec fn are_values(items: Seq<ValueView>) -> bool
    decreases items,
{
    items.len() == 0 || (is_value(items[0]) && are_values(items.subrange(1, items.len() as int)))
}

/// An address that survives the wire.
pub open spec fn address_survives(a: Seq<SegmentView>) -> bool {
    address::is_canonical(a) && is_trimmed(address::shown(a))
}

/// An envelope that survives the wire: with any payload, and a header that is read back.
pub open spec fn envelope_survives(env: EnvelopeView) -> bool {
    &&& address_survives(env.meta.from)
    &&& env.meta.to matches Some(to) ==> address_survives(to)
    &&& env.meta.thread.len() > 0
    &&& is_trimmed(env.meta.thread)
    &&& is_value(env.payload.value)
}

/// Bytes of the given text.
pub proof fn lemma_names_differ(a: Seq<char>, b: Seq<char>)
    requires
        a != b,
    ensures
        text::utf8(a) != text::utf8(b),
{
    if text::utf8(a) == text::utf8(b) {
        text::lemma_utf8_injective(a, b);
    }
}

/// An attribute is read back as it was written.
pub proof fn lemma_attr_back(name: Seq<char>, key: Seq<char>, value: Seq<char>)
    ensures
        markup::attr_or_empty(markup::tag_back(name, Some((key, value))), key) == value,
{
    let attrs = markup::tag_back(name, Some((key, value))).attrs;
    assert(attrs.len() == 1);
    assert(markup::attr_in(attrs, text::utf8(key)) == Some(value));
}

pub proof fn lemma_kinds()
    ensures
        markup::is_plain_name("rec"@),
        markup::is_plain_name("seq"@),
        markup::is_plain_name("text"@),
        markup::is_plain_name("uint"@),
        markup::is_plain_name("sint"@),
        markup::is_plain_name("real"@),
        markup::is_plain_name("bool"@),
        markup::is_plain_name("blob"@),
        markup::is_plain_name("nil"@),
        "rec"@ != "seq"@,
        forall|kind: Seq<char>| #[trigger]
            is_scalar_kind(kind) ==> kind != "rec"@ && kind != "seq"@,
        "uint"@ != "text"@,
        "sint"@ != "text"@ && "sint"@ != "uint"@,
        "real"@ != "text"@ && "real"@ != "uint"@ && "real"@ != "sint"@,
        "bool"@ != "text"@ && "bool"@ != "uint"@ && "bool"@ != "sint"@ && "bool"@ != "real"@,
        "blob"@ != "text"@ && "blob"@ != "uint"@ && "blob"@ != "sint"@ && "blob"@ != "real"@
            && "blob"@ != "bool"@,
        "nil"@ != "rec"@ && "nil"@ != "seq"@ && "nil"@ != "text"@ && "nil"@ != "blob"@,
{
    reveal_strlit("rec");
    reveal_strlit("seq");
    reveal_strlit("text");
    reveal_strlit("uint");
    reveal_strlit("sint");
    reveal_strlit("real");
    reveal_strlit("bool");
    reveal_strlit("blob");
    reveal_strlit("nil");
    assert("rec"@[0] == 'r' && "seq"@[0] == 's' && "text"@[0] == 't' && "uint"@[0] == 'u');
    assert("sint"@[0] == 's' && "real"@[0] == 'r' && "bool"@[1] == 'o' && "blob"@[1] == 'l');
    assert("nil"@[0] == 'n' && "sint"@.len() == 4 && "real"@.len() == 4);
    assert("bool"@[0] == 'b' && "blob"@[0] == 'b');
}

/// What is read back of an element is its tags around what is read back of its content.
pub proof fn lemma_element_back(
    name: Seq<char>,
    attr: Option<(Seq<char>, Seq<char>)>,
    inner: Seq<Piece>,
    rest: Seq<MarkupView>,
)
    ensures
        markup::read_back(seq![Piece::Start(name, attr)] + inner + seq![Piece::End(name)]) + rest
            == seq![MarkupView::Start(markup::tag_back(name, attr))] + (markup::read_back(inner)
            + (seq![markup::end_back(name)] + rest)),
{
    let start = Piece::Start(name, attr);
    let end = Piece::End(name);
    markup::lemma_read_back_concat(seq![start] + inner, seq![end]);
    markup::lemma_read_back_concat(seq![start], inner);
    markup::lemma_read_back_one(start);
    markup::lemma_read_back_one(end);
    assert(markup::read_back(seq![start] + inner + seq![end]) + rest =~= seq![
        MarkupView::Start(markup::tag_back(name, attr)),
    ] + (markup::read_back(inner) + (seq![markup::end_back(name)] + rest)));
}

/// A scalar is read back as the value that its content denotes.
proof fn lemma_scalar_back(kind: Seq<char>, s: Seq<char>, v: ValueView, rest: Seq<MarkupView>)
    requires
        is_scalar_kind(kind),
        markup::is_plain_name(kind),
        content_of(kind, markup::words_back(s)) == s,
        scalar_value(kind, s) == Ok::<_, ErrorView>(v),
    ensures
        value_at(markup::read_back(scalar_pieces(kind, s)) + rest) == Ok::<_, ErrorView>((v, rest)),
{
    let attr = Some(("k"@, kind));
    let inner = seq![Piece::Text(s)];
    let behind = seq![markup::end_back("v"@)] + rest;
    let body = markup::read_back(inner) + behind;
    let all = seq![MarkupView::Start(markup::tag_back("v"@, attr))] + body;
    assert(scalar_pieces(kind, s) =~= seq![Piece::Start("v"@, attr)] + inner + seq![
        Piece::End("v"@),
    ]);
    lemma_element_back("v"@, attr, inner, rest);
    markup::lemma_read_back_one(Piece::Text(s));
    lemma_attr_back("v"@, "k"@, kind);
    lemma_kinds();
    assert(all[0] == MarkupView::Start(markup::tag_back("v"@, attr)));
    assert(all.skip(1) =~= body);
    assert(behind[0] == markup::end_back("v"@));
    assert(behind.skip(1) =~= rest);
    if s.len() == 0 {
        assert(body =~= behind);
        assert(s =~= seq![]);
        assert(scalar_from(body, kind, seq![]) == Ok::<_, ErrorView>((s, rest)));
    } else {
        assert(body[0] == MarkupView::Text(Ok(markup::words_back(s))));
        assert(body.skip(1) =~= behind);
        assert(seq![] + s =~= s);
        assert(scalar_from(behind, kind, s) == Ok::<_, ErrorView>((s, rest)));
        assert(scalar_from(body, kind, seq![]) == Ok::<_, ErrorView>((s, rest)));
    }
    assert(value_at(all) == value_from(body, kind));
}

/// Content that neither starts nor ends in white space is taken whole.
proof fn lemma_content(kind: Seq<char>, s: Seq<char>)
    requires
        s.len() > 0 ==> !text::markup_space(s[0]) && !text::markup_space(s.last()),
    ensures
        content_of(kind, markup::words_back(s)) == s,
{
    text::lemma_trim_identity(s, |c: char| text::markup_space(c));
}

/// Any payload value round-trips: it is read back as it was written.
pub proof fn law_value_round_trip(v: ValueView, rest: Seq<MarkupView>)
    requires
        is_value(v),
    ensures
        value_at(markup::read_back(value_pieces(v)) + rest) == Ok::<_, ErrorView>((v, rest)),
    decreases v,
{
    lemma_kinds();
    match v {
        ValueView::Rec(fields) => {
            let attr = Some(("k"@, "rec"@));
            let inner = fields_pieces(fields);
            lemma_element_back("v"@, attr, inner, rest);
            lemma_attr_back("v"@, "k"@, "rec"@);
            lemma_fields_back(fields, seq![], rest);
            let all = markup::read_back(value_pieces(v)) + rest;
            assert(all.skip(1) =~= markup::read_back(inner) + (seq![
                markup::end_back("v"@),
            ] + rest));
            assert(Seq::<FieldView>::empty() + fields =~= fields);
            assert(all[0] == MarkupView::Start(markup::tag_back("v"@, attr)));
            assert(value_at(all) == value_from(all.skip(1), "rec"@));
            assert(value_at(all) == Ok::<_, ErrorView>((v, rest)));
        },
        ValueView::List(items) => {
            let attr = Some(("k"@, "seq"@));
            let inner = items_pieces(items);
            lemma_element_back("v"@, attr, inner, rest);
            lemma_attr_back("v"@, "k"@, "seq"@);
            lemma_items_back(items, seq![], rest);
            let all = markup::read_back(value_pieces(v)) + rest;
            assert(all.skip(1) =~= markup::read_back(inner) + (seq![
                markup::end_back("v"@),
            ] + rest));
            assert(Seq::<ValueView>::empty() + items =~= items);
            assert(all[0] == MarkupView::Start(markup::tag_back("v"@, attr)));
            assert(value_at(all) == value_from(all.skip(1), "seq"@));
            assert(value_at(all) == Ok::<_, ErrorView>((v, rest)));
        },
        ValueView::Nil => {
            let piece = Piece::Empty("v"@, Some(("k"@, "nil"@)));
            markup::lemma_read_back_one(piece);
            lemma_attr_back("v"@, "k"@, "nil"@);
            let all = markup::read_back(value_pieces(v)) + rest;
            assert(all[0] == MarkupView::Empty(markup::tag_back("v"@, Some(("k"@, "nil"@)))));
            assert(all.skip(1) =~= rest);
            assert(value_at(all) == Ok::<_, ErrorView>((v, rest)));
        },
        ValueView::Text(s) => lemma_scalar_back("text"@, s, v, rest),
        ValueView::Uint(n) => {
            numbers::lemma_u64_round_trip(n);
            let s = numbers::decimal(n as nat);
            numbers::lemma_decimal(n as nat);
            assert(numbers::is_digit(s[0]) && numbers::is_digit(s[s.len() - 1]));
            lemma_content("uint"@, s);
            lemma_scalar_back("uint"@, s, v, rest);
        },
        ValueView::Sint(n) => {
            numbers::lemma_i64_round_trip(n);
            let s = numbers::signed_decimal(n as int);
            if n < 0 {
                let digits = numbers::decimal((-n) as nat);
                numbers::lemma_decimal((-n) as nat);
                assert(numbers::is_digit(digits[digits.len() - 1]));
                assert(s.last() == digits[digits.len() - 1]);
            } else {
                numbers::lemma_decimal(n as nat);
                assert(numbers::is_digit(s[0]) && numbers::is_digit(s[s.len() - 1]));
            }
            lemma_content("sint"@, s);
            lemma_scalar_back("sint"@, s, v, rest);
        },
        ValueView::Real(s) => {
            numbers::lemma_real_ends(s);
            lemma_content("real"@, s);
            lemma_scalar_back("real"@, s, v, rest);
        },
        ValueView::Boolean(b) => {
            reveal_strlit("true");
            reveal_strlit("false");
            assert("true"@.len() != "false"@.len());
            let s = if b {
                "true"@
            } else {
                "false"@
            };
            lemma_content("bool"@, s);
            lemma_scalar_back("bool"@, s, v, rest);
        },
        ValueView::Blob(bytes) => {
            lemma_blob_back(bytes);
            lemma_content("blob"@, numbers::hex_text(bytes));
            lemma_scalar_back("blob"@, numbers::hex_text(bytes), v, rest);
        },
    }
}

pub proof fn lemma_blob_back(bytes: Seq<u8>)
    ensures
        numbers::hex_text(bytes).len() > 0 ==> !text::markup_space(numbers::hex_text(bytes)[0])
            && !text::markup_space(numbers::hex_text(bytes).last()),
        blob_of(numbers::hex_text(bytes)) == Ok::<_, ErrorView>(bytes),
{
    let s = numbers::hex_text(bytes);
    numbers::lemma_hex_bytes_round_trip(bytes);
    text::lemma_trim_identity(s, |c: char| text::white_space(c));
    text::lemma_ascii_utf8(s);
    if s.len() > 0 {
        assert(!text::white_space(s[0]) && !text::white_space(s[s.len() - 1]));
    }
}

proof fn lemma_fields_back(fields: Seq<FieldView>, done: Seq<FieldView>, rest: Seq<MarkupView>)
    requires
        are_fields(fields),
    ensures
        fields_from(
            markup::read_back(fields_pieces(fields)) + (seq![markup::end_back("v"@)]
                + rest),
            done,
        ) == Ok::<_, ErrorView>((ValueView::Rec(done + fields), rest)),
    decreases fields,
{
    let end = seq![markup::end_back("v"@)] + rest;
    if fields.len() == 0 {
        assert(markup::read_back(fields_pieces(fields)) + end =~= end);
        assert(end.skip(1) =~= rest);
        assert(done + fields =~= done);
    } else {
        let first = fields[0];
        let others = fields.subrange(1, fields.len() as int);
        let attr = Some(("n"@, first.name));
        let inner = value_pieces(first.value);
        let element = seq![Piece::Start("f"@, attr)] + inner + seq![Piece::End("f"@)];
        let behind = markup::read_back(fields_pieces(others)) + end;
        assert(fields_pieces(fields) =~= element + fields_pieces(others));
        markup::lemma_read_back_concat(element, fields_pieces(others));
        lemma_element_back("f"@, attr, inner, behind);
        let all = markup::read_back(fields_pieces(fields)) + end;
        let close = seq![markup::end_back("f"@)] + behind;
        assert(all =~= seq![MarkupView::Start(markup::tag_back("f"@, attr))] + (markup::read_back(
            inner,
        ) + close));
        assert(all.skip(1) =~= markup::read_back(inner) + close);
        lemma_attr_back("f"@, "n"@, first.name);
        law_value_round_trip(first.value, close);
        assert(close.skip(1) =~= behind);
        assert(end_from(close, "f"@) == Ok::<_, ErrorView>(behind));
        lemma_fields_back(others, done.push(first), rest);
        assert(done.push(first) + others =~= done + fields);
        assert(first == FieldView { name: first.name, value: first.value });
    }
}

proof fn lemma_items_back(items: Seq<ValueView>, done: Seq<ValueView>, rest: Seq<MarkupView>)
    requires
        are_values(items),
    ensures
        items_from(
            markup::read_back(items_pieces(items)) + (seq![markup::end_back("v"@)]
                + rest),
            done,
        ) == Ok::<_, ErrorView>((ValueView::List(done + items), rest)),
    decreases items,
{
    let end = seq![markup::end_back("v"@)] + rest;
    if items.len() == 0 {
        assert(markup::read_back(items_pieces(items)) + end =~= end);
        assert(end.skip(1) =~= rest);
        assert(done + items =~= done);
    } else {
        let first = items[0];
        let others = items.subrange(1, items.len() as int);
        let behind = markup::read_back(items_pieces(others)) + end;
        assert(items_pieces(items) =~= value_pieces(first) + items_pieces(others));
        markup::lemma_read_back_concat(value_pieces(first), items_pieces(others));
        let all = markup::read_back(items_pieces(items)) + end;
        assert(all =~= markup::read_back(value_pieces(first)) + behind);
        law_value_round_trip(first, behind);
        lemma_starts_with_v(first, behind);
        lemma_items_back(others, done.push(first), rest);
        assert(done.push(first) + others =~= done + items);
    }
}

/// What is read back of a value starts with its tag, so that a list finds it there.
pub proof fn lemma_starts_with_v(v: ValueView, rest: Seq<MarkupView>)
    ensures
        ({
            let all = markup::read_back(value_pieces(v)) + rest;
            all.len() > 0 && match all[0] {
                MarkupView::Start(tag) => tag.name == text::utf8("v"@),
                MarkupView::Empty(tag) => tag.name == text::utf8("v"@),
                _ => false,
            }
        }),
{
    let pieces = value_pieces(v);
    let all = markup::read_back(pieces) + rest;
    assert(pieces.len() > 0);
    assert(pieces[0] is Start || pieces[0] is Empty);
    assert(all[0] == markup::piece_back(pieces[0])[0]);
}

/// The text of an element of `<meta>` is taken into the draft, if there is any left of it.
pub proof fn lemma_meta_element_read(
    name: Seq<char>,
    s: Seq<char>,
    field: Option<Seq<u8>>,
    d: Draft,
    rest: Seq<MarkupView>,
)
    requires
        name != "meta"@,
    ensures
        meta_from(markup::read_back(text_pieces(name, s)) + rest, field, d) == if
            text::markup_trimmed(s).len() == 0 {
            meta_from(rest, None, d)
        } else {
            match with_meta(d, text::utf8(name), text::trimmed(text::markup_trimmed(s))) {
                Ok(next) => meta_from(rest, None, next),
                Err(e) => Err(e),
            }
        },
{
    let inner = seq![Piece::Text(s)];
    let core = text::markup_trimmed(s);
    let close = seq![markup::end_back(name)] + rest;
    let all = markup::read_back(text_pieces(name, s)) + rest;
    assert(text_pieces(name, s) =~= seq![Piece::Start(name, None)] + inner + seq![
        Piece::End(name),
    ]);
    lemma_element_back(name, None, inner, rest);
    markup::lemma_read_back_one(Piece::Text(s));
    lemma_names_differ(name, "meta"@);
    let body = markup::read_back(inner) + close;
    let opened = Some(text::utf8(name));
    assert(all =~= seq![MarkupView::Start(markup::tag_back(name, None))] + body);
    assert(all[0] == MarkupView::Start(markup::tag_back(name, None)));
    assert(all.skip(1) =~= body);
    assert(meta_from(all, field, d) == meta_from(body, opened, d));
    assert(close[0] == markup::end_back(name));
    assert(close.skip(1) =~= rest);
    if s.len() == 0 {
        assert(body =~= close);
    } else {
        assert(body[0] == MarkupView::Text(Ok(markup::words_back(s))));
        assert(body.skip(1) =~= close);
        if core.len() == 0 {
            assert(meta_from(body, opened, d) == meta_from(close, opened, d));
        } else if let Ok(next) = with_meta(d, text::utf8(name), text::trimmed(core)) {
            assert(meta_from(body, opened, d) == meta_from(close, opened, next));
        }
    }
}

/// An element of `<meta>` that holds trimmed text is taken into the draft.
proof fn lemma_meta_element_back(
    name: Seq<char>,
    s: Seq<char>,
    field: Option<Seq<u8>>,
    d: Draft,
    next: Draft,
    rest: Seq<MarkupView>,
)
    requires
        name != "meta"@,
        s.len() > 0,
        is_trimmed(s),
        with_meta(d, text::utf8(name), s) == Ok::<_, ErrorView>(next),
    ensures
        meta_from(markup::read_back(text_pieces(name, s)) + rest, field, d) == meta_from(
            rest,
            None,
            next,
        ),
{
    text::lemma_trim_identity(s, |c: char| text::markup_space(c));
    text::lemma_trim_identity(s, |c: char| text::white_space(c));
    lemma_meta_element_read(name, s, field, d, rest);
}

/// A label-set is read back as it was written: 32 lowercase hexadecimal digits, the
/// sixteen of the high word first, denote it.
pub proof fn law_provenance_round_trip(p: Provenance)
    ensures
        provenance_of(provenance_text(p)) == Ok::<_, ErrorView>(p),
        provenance_text(p).len() == 32,
        forall|i: int|
            0 <= i < 32 ==> numbers::is_lower_hex(#[trigger] provenance_text(p)[i]),
        provenance_text(p).take(16) == numbers::hex_word(p.bits_hi as nat, 16),
        provenance_text(p).skip(16) == numbers::hex_word(p.bits_lo as nat, 16),
        is_trimmed(provenance_text(p)),
{
    numbers::lemma_hex_digits(p.bits_hi as nat, 16);
    numbers::lemma_hex_digits(p.bits_lo as nat, 16);
    let hi = numbers::hex_word(p.bits_hi as nat, 16);
    let lo = numbers::hex_word(p.bits_lo as nat, 16);
    let s = provenance_text(p);
    numbers::lemma_word_fits(p.bits_hi);
    numbers::lemma_word_fits(p.bits_lo);
    numbers::lemma_hex_word(p.bits_hi as nat, 16);
    numbers::lemma_hex_word(p.bits_lo as nat, 16);
    assert(s[0] == hi[0] && s.last() == lo[15]);
    text::lemma_trim_identity(s, |c: char| text::white_space(c));
    assert forall|i: int| 0 <= i < s.len() implies '\0' <= #[trigger] s[i] <= '\u{7f}' by {
        if i < 16 {
            assert(s[i] == hi[i]);
        } else {
            assert(s[i] == lo[i - 16]);
        }
    }
    text::lemma_ascii_utf8(s);
    let digits = text::utf8(s);
    assert(digits.take(16) =~= numbers::ascii_bytes(hi));
    assert(digits.skip(16) =~= numbers::ascii_bytes(lo));
    assert(numbers::ascii_bytes(hi)[0] != 43 && numbers::ascii_bytes(lo)[0] != 43);
    assert(text::trimmed(s) == s);
    assert(s.take(16) =~= hi);
    assert(s.skip(16) =~= lo);
}

/// No ASCII text of another length denotes a label-set.
pub proof fn law_provenance_length(s: Seq<char>)
    requires
        text::is_ascii_text(s),
        text::trimmed(s).len() != 32,
    ensures
        provenance_of(s) == Err::<Provenance, _>(
            fault(
                "provenance must be 32 hex chars, got "@ + numbers::decimal(text::trimmed(s).len()),
            ),
        ),
{
    text::lemma_trim_keeps_ascii(s, |c: char| text::white_space(c));
    text::lemma_ascii_len(text::trimmed(s));
}

pub proof fn lemma_element_names()
    ensures
        "from"@ != "meta"@,
        "to"@ != "meta"@ && "to"@ != "from"@,
        "thread"@ != "meta"@ && "thread"@ != "from"@ && "thread"@ != "to"@,
        "provenance"@ != "meta"@ && "provenance"@ != "from"@ && "provenance"@ != "to"@
            && "provenance"@ != "thread"@,
        "meta"@ != "message"@,
        "payload"@ != "message"@ && "payload"@ != "meta"@,
{
    reveal_strlit("from");
    reveal_strlit("to");
    reveal_strlit("thread");
    reveal_strlit("provenance");
    reveal_strlit("meta");
    reveal_strlit("message");
    reveal_strlit("payload");
    assert("from"@[0] == 'f' && "meta"@[0] == 'm' && "payload"@[0] == 'p' && "to"@.len() == 2);
    assert("meta"@.len() == 4 && "message"@.len() == 7 && "provenance"@.len() == 10);
    assert("thread"@.len() == 6);
}

/// What the header of an envelope amounts to.
pub open spec fn header_of(meta: MetaView) -> Draft {
    Draft {
        in_message: true,
        from: Some(meta.from),
        to: meta.to,
        thread: Some(meta.thread),
        provenance: meta.provenance,
        payload: None,
    }
}

/// The header is read back as it was written.
pub proof fn lemma_meta_back(meta: MetaView, rest: Seq<MarkupView>)
    requires
        address_survives(meta.from),
        meta.to matches Some(to) ==> address_survives(to),
        meta.thread.len() > 0,
        is_trimmed(meta.thread),
    ensures
        meta_from(
            markup::read_back(meta_pieces(meta)) + (seq![markup::end_back("meta"@)]
                + rest),
            None,
            Draft { in_message: true, ..blank() },
        ) == Ok::<_, ErrorView>((header_of(meta), rest)),
{
    lemma_element_names();
    lemma_names_differ("to"@, "from"@);
    lemma_names_differ("thread"@, "from"@);
    lemma_names_differ("thread"@, "to"@);
    lemma_names_differ("provenance"@, "from"@);
    lemma_names_differ("provenance"@, "to"@);
    lemma_names_differ("provenance"@, "thread"@);
    let from = text_pieces("from"@, address::shown(meta.from));
    let to = match meta.to {
        Some(to) => text_pieces("to"@, address::shown(to)),
        None => seq![],
    };
    let thread = text_pieces("thread"@, meta.thread);
    let provenance = if is_empty_set(meta.provenance) {
        seq![]
    } else {
        text_pieces("provenance"@, provenance_text(meta.provenance))
    };
    markup::lemma_read_back_concat(from + to + thread, provenance);
    markup::lemma_read_back_concat(from + to, thread);
    markup::lemma_read_back_concat(from, to);
    let end = seq![markup::end_back("meta"@)] + rest;
    let l3 = markup::read_back(provenance) + end;
    let l2 = markup::read_back(thread) + l3;
    let l1 = markup::read_back(to) + l2;
    let l0 = markup::read_back(from) + l1;
    assert(markup::read_back(meta_pieces(meta)) + end =~= l0);
    let d0 = Draft { in_message: true, ..blank() };
    let d1 = Draft { from: Some(meta.from), ..d0 };
    let d2 = Draft { to: meta.to, ..d1 };
    let d3 = Draft { thread: Some(meta.thread), ..d2 };
    let d4 = Draft { provenance: meta.provenance, ..d3 };
    address::law_parse_of_displayed(meta.from);
    address::lemma_shown_not_empty(meta.from);
    lemma_meta_element_back("from"@, address::shown(meta.from), None, d0, d1, l1);
    match meta.to {
        Some(a) => {
            address::law_parse_of_displayed(a);
            address::lemma_shown_not_empty(a);
            lemma_meta_element_back("to"@, address::shown(a), None, d1, d2, l2);
        },
        None => {
            assert(l1 =~= l2);
            assert(d1 == d2);
        },
    }
    lemma_meta_element_back("thread"@, meta.thread, None, d2, d3, l3);
    if is_empty_set(meta.provenance) {
        assert(l3 =~= end);
        assert(d3 == d4);
    } else {
        law_provenance_round_trip(meta.provenance);
        lemma_meta_element_back(
            "provenance"@,
            provenance_text(meta.provenance),
            None,
            d3,
            d4,
            end,
        );
    }
    assert(end[0] == markup::end_back("meta"@));
    assert(end.skip(1) =~= rest);
    assert(meta_from(end, None, d4) == Ok::<_, ErrorView>((d4, rest)));
}

/// An envelope that survives is read back as it was written.
pub proof fn law_envelope_round_trip(env: EnvelopeView)
    requires
        envelope_survives(env),
    ensures
        envelope_from(markup::read_back(envelope_pieces(env))) == Ok::<_, ErrorView>(env),
{
    lemma_element_names();
    lemma_names_differ("meta"@, "message"@);
    lemma_names_differ("payload"@, "message"@);
    lemma_names_differ("payload"@, "meta"@);
    let xmlns = Some(("xmlns"@, ENVELOPE_NS@));
    let tag = Some(("tag"@, env.payload.tag));
    let meta = seq![Piece::Start("meta"@, None)] + meta_pieces(env.meta) + seq![
        Piece::End("meta"@),
    ];
    let value = value_pieces(env.payload.value);
    let payload = seq![Piece::Start("payload"@, tag)] + value + seq![Piece::End("payload"@)];
    assert(envelope_pieces(env) =~= seq![Piece::Start("message"@, xmlns)] + (meta + payload)
        + seq![Piece::End("message"@)]);
    let none = Seq::<MarkupView>::empty();
    lemma_element_back("message"@, xmlns, meta + payload, none);
    markup::lemma_read_back_concat(meta, payload);
    let end = seq![markup::end_back("message"@)] + none;
    let l2 = markup::read_back(payload) + end;
    let l1 = markup::read_back(meta) + l2;
    let l0 = seq![MarkupView::Start(markup::tag_back("message"@, xmlns))] + l1;
    assert(markup::read_back(envelope_pieces(env)) =~= l0);
    lemma_element_back("meta"@, None, meta_pieces(env.meta), l2);
    lemma_element_back("payload"@, tag, value, end);
    // <message>
    assert(l0[0] == MarkupView::Start(markup::tag_back("message"@, xmlns)));
    assert(l0.skip(1) =~= l1);
    let d0 = Draft { in_message: true, ..blank() };
    assert(message_from(l0, blank()) == message_from(l1, d0));
    // <meta>
    let in_meta = markup::read_back(meta_pieces(env.meta)) + (seq![
        markup::end_back("meta"@),
    ] + l2);
    assert(l1[0] == MarkupView::Start(markup::tag_back("meta"@, None)));
    assert(l1.skip(1) =~= in_meta);
    lemma_meta_back(env.meta, l2);
    let d1 = header_of(env.meta);
    assert(message_from(l1, d0) == message_from(l2, d1));
    // <payload>
    let close = seq![markup::end_back("payload"@)] + end;
    let in_payload = markup::read_back(value) + close;
    assert(l2[0] == MarkupView::Start(markup::tag_back("payload"@, tag)));
    assert(l2.skip(1) =~= in_payload);
    law_value_round_trip(env.payload.value, close);
    assert(close[0] == markup::end_back("payload"@));
    assert(close.skip(1) =~= end);
    assert(end_from(close, "payload"@) == Ok::<_, ErrorView>(end));
    lemma_attr_back("payload"@, "tag"@, env.payload.tag);
    let d2 = Draft { payload: Some(env.payload), ..d1 };
    assert(env.payload == PayloadView { tag: env.payload.tag, value: env.payload.value });
    assert(message_from(l2, d1) == message_from(end, d2));
    // </message>
    assert(end[0] == markup::end_back("message"@));
    assert(message_from(end, d2) == Ok::<_, ErrorView>(d2));
    assert(env.meta == MetaView {
        from: env.meta.from,
        to: env.meta.to,
        thread: env.meta.thread,
        provenance: env.meta.provenance,
    });
}

} // verus!
