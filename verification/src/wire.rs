//! Canonical wire types.
//!
//! This is the ONE envelope, shared by intra-instance hops, inter-pipeline
//! (switchboard) delivery, and federation. Serialization is **internal** to the
//! pipeline — handlers and downstream crates work with these typed values, never raw
//! bytes.

use vstd::prelude::*;

use crate::text;

pub use crate::address::{Address, AddressError, AddressFault, Segment, SegmentView};
pub use crate::provenance::Provenance;

verus! {

// ── Payload ──────────────────────────────────────────────────────────

/// A self-describing, format-agnostic decoded payload value. Keeps the pipeline generic
/// over per-operation schemas while keeping codec details out of downstream crates.
#[derive(Debug, PartialEq)]
pub enum PayloadValue {
    /// An ordered record of named fields.
    Rec(Vec<Field>),
    /// An ordered sequence of values.
    List(Vec<PayloadValue>),
    Text(String),
    Uint(u64),
    Sint(i64),
    /// A real number, as the decimal literal that denotes it.
    Real(String),
    Boolean(bool),
    Blob(Vec<u8>),
    /// Absence of a value.
    Nil,
}

/// One named field of a [`PayloadValue::Rec`].
#[derive(Debug, PartialEq)]
pub struct Field {
    pub name: String,
    pub value: PayloadValue,
}

/// The model of a [`PayloadValue`].
pub enum ValueView {
    Rec(Seq<FieldView>),
    List(Seq<ValueView>),
    Text(Seq<char>),
    Uint(u64),
    Sint(i64),
    Real(Seq<char>),
    Boolean(bool),
    Blob(Seq<u8>),
    Nil,
}

/// The model of a [`Field`].
pub struct FieldView {
    pub name: Seq<char>,
    pub value: ValueView,
}

/// The model of `v`.
pub open spec fn value_view(v: PayloadValue) -> ValueView
    decreases v,
{
    match v {
        PayloadValue::Rec(fields) => ValueView::Rec(
            Seq::new(
                fields@.len(),
                |i: int|
                    if 0 <= i < fields@.len() {
                        field_view(fields@[i])
                    } else {
                        arbitrary()
                    },
            ),
        ),
        PayloadValue::List(items) => ValueView::List(
            Seq::new(
                items@.len(),
                |i: int|
                    if 0 <= i < items@.len() {
                        value_view(items@[i])
                    } else {
                        arbitrary()
                    },
            ),
        ),
        PayloadValue::Text(s) => ValueView::Text(s@),
        PayloadValue::Uint(n) => ValueView::Uint(n),
        PayloadValue::Sint(n) => ValueView::Sint(n),
        PayloadValue::Real(s) => ValueView::Real(s@),
        PayloadValue::Boolean(b) => ValueView::Boolean(b),
        PayloadValue::Blob(b) => ValueView::Blob(b@),
        PayloadValue::Nil => ValueView::Nil,
    }
}

/// The model of `f`.
pub open spec fn field_view(f: Field) -> FieldView
    decreases f,
{
    FieldView { name: f.name@, value: value_view(f.value) }
}

impl View for PayloadValue {
    type V = ValueView;

    open spec fn view(&self) -> ValueView {
        value_view(*self)
    }
}

impl View for Field {
    type V = FieldView;

    open spec fn view(&self) -> FieldView {
        field_view(*self)
    }
}

/// The models of a list of fields.
pub open spec fn field_views(fields: Seq<Field>) -> Seq<FieldView> {
    fields.map_values(|f: Field| f@)
}

/// The models of a list of values.
pub open spec fn value_views(items: Seq<PayloadValue>) -> Seq<ValueView> {
    items.map_values(|v: PayloadValue| v@)
}

/// A record models its fields' models, a list its items' models, each in order.
pub proof fn lemma_value_view(v: PayloadValue)
    ensures
        v matches PayloadValue::Rec(fields) ==> v@ == ValueView::Rec(field_views(fields@)),
        v matches PayloadValue::List(items) ==> v@ == ValueView::List(value_views(items@)),
{
    match v {
        PayloadValue::Rec(fields) => {
            assert(v@->Rec_0 =~= field_views(fields@));
        },
        PayloadValue::List(items) => {
            assert(v@->List_0 =~= value_views(items@));
        },
        _ => {},
    }
}

impl Clone for PayloadValue {
    fn clone(&self) -> (r: Self)
        ensures
            r@ == self@,
        decreases self,
    {
        proof {
            lemma_value_view(*self);
        }
        match self {
            PayloadValue::Rec(fields) => {
                let mut out: Vec<Field> = Vec::new();
                let mut i: usize = 0;
                while i < fields.len()
                    invariant
                        i <= fields@.len(),
                        out@.len() == i,
                        *self == PayloadValue::Rec(*fields),
                        forall|j: int| 0 <= j < i ==> #[trigger] out@[j]@ == fields@[j]@,
                    decreases fields@.len() - i,
                {
                    proof {
                        assert(decreases_to!(*self => self->Rec_0));
                        assert(decreases_to!(*fields => fields@));
                        assert(decreases_to!(fields@ => fields@[i as int]));
                        assert(decreases_to!(fields@[i as int] => fields@[i as int].value));
                    }
                    let name = fields[i].name.clone();
                    let value = fields[i].value.clone();
                    out.push(Field { name, value });
                    i += 1;
                }
                let r = PayloadValue::Rec(out);
                proof {
                    lemma_value_view(r);
                    assert(field_views(out@) =~= field_views(fields@));
                }
                r
            },
            PayloadValue::List(items) => {
                let mut out: Vec<PayloadValue> = Vec::new();
                let mut i: usize = 0;
                while i < items.len()
                    invariant
                        i <= items@.len(),
                        out@.len() == i,
                        *self == PayloadValue::List(*items),
                        forall|j: int| 0 <= j < i ==> #[trigger] out@[j]@ == items@[j]@,
                    decreases items@.len() - i,
                {
                    proof {
                        assert(decreases_to!(*self => self->List_0));
                        assert(decreases_to!(*items => items@));
                        assert(decreases_to!(items@ => items@[i as int]));
                    }
                    out.push(items[i].clone());
                    i += 1;
                }
                let r = PayloadValue::List(out);
                proof {
                    lemma_value_view(r);
                    assert(value_views(out@) =~= value_views(items@));
                }
                r
            },
            PayloadValue::Text(s) => PayloadValue::Text(s.clone()),
            PayloadValue::Uint(n) => PayloadValue::Uint(*n),
            PayloadValue::Sint(n) => PayloadValue::Sint(*n),
            PayloadValue::Real(s) => PayloadValue::Real(s.clone()),
            PayloadValue::Boolean(b) => PayloadValue::Boolean(*b),
            PayloadValue::Blob(b) => PayloadValue::Blob(b.clone()),
            PayloadValue::Nil => PayloadValue::Nil,
        }
    }
}

impl Clone for Field {
    fn clone(&self) -> (r: Self)
        ensures
            r@ == self@,
    {
        Field { name: self.name.clone(), value: self.value.clone() }
    }
}

/// The position of the first field named `name`, or the number of fields.
pub open spec fn field_at(fields: Seq<FieldView>, name: Seq<char>) -> int
    decreases fields.len(),
{
    if fields.len() == 0 || fields[0].name == name {
        0
    } else {
        1 + field_at(fields.skip(1), name)
    }
}

proof fn lemma_field_at(fields: Seq<FieldView>, name: Seq<char>, k: int)
    requires
        0 <= k <= fields.len(),
        k < fields.len() ==> fields[k].name == name,
        forall|i: int| 0 <= i < k ==> (#[trigger] fields[i]).name != name,
    ensures
        field_at(fields, name) == k,
    decreases k,
{
    if k > 0 {
        let rest = fields.skip(1);
        assert(fields[0].name != name);
        assert forall|i: int| 0 <= i < k - 1 implies (#[trigger] rest[i]).name != name by {
            assert(rest[i] == fields[i + 1]);
        }
        lemma_field_at(rest, name, k - 1);
    }
}

impl ValueView {
    /// The value of the first field named `name`, if this is a record that has one.
    pub open spec fn get(self, name: Seq<char>) -> Option<ValueView> {
        match self {
            ValueView::Rec(fields) => {
                let k = field_at(fields, name);
                if k < fields.len() {
                    Some(fields[k].value)
                } else {
                    None
                }
            },
            _ => None,
        }
    }
}

impl PayloadValue {
    /// Construct a `Text` value.
    pub fn text(s: &str) -> (r: PayloadValue)
        ensures
            r@ == ValueView::Text(s@),
    {
        PayloadValue::Text(s.to_owned())
    }

    /// Construct a `Rec` from name/value pairs.
    pub fn record(fields: Vec<(&str, PayloadValue)>) -> (r: PayloadValue)
        ensures
            r@ == ValueView::Rec(
                fields@.map_values(
                    |p: (&str, PayloadValue)| FieldView { name: p.0@, value: p.1@ },
                ),
            ),
    {
        let mut out: Vec<Field> = Vec::new();
        let ghost all = fields@;
        for pair in it: fields
            invariant
                it.seq() == all,
                out@.len() == it.index(),
                forall|j: int|
                    0 <= j < out@.len() ==> #[trigger] out@[j]@ == (FieldView {
                        name: all[j].0@,
                        value: all[j].1@,
                    }),
        {
            out.push(Field::new(pair.0, pair.1));
        }
        let r = PayloadValue::Rec(out);
        proof {
            lemma_value_view(r);
            assert(field_views(out@) =~= all.map_values(
                |p: (&str, PayloadValue)| FieldView { name: p.0@, value: p.1@ },
            ));
        }
        r
    }

    /// Look up a field by name in a `Rec` (first match). `None` for non-records.
    pub fn get(&self, name: &str) -> (r: Option<&PayloadValue>)
        ensures
            match r {
                Some(v) => self@.get(name@) == Some(v@),
                None => self@.get(name@) is None,
            },
    {
        match self {
            PayloadValue::Rec(fields) => {
                proof {
                    lemma_value_view(*self);
                }
                let ghost views = field_views(fields@);
                let mut i: usize = 0;
                while i < fields.len()
                    invariant
                        i <= fields@.len(),
                        views == field_views(fields@),
                        self@ == ValueView::Rec(views),
                        forall|j: int| 0 <= j < i ==> (#[trigger] views[j]).name != name@,
                    decreases fields@.len() - i,
                {
                    assert(views[i as int] == fields@[i as int]@);
                    if text::same_text(fields[i].name.as_str(), name) {
                        proof {
                            lemma_field_at(views, name@, i as int);
                        }
                        return Some(&fields[i].value);
                    }
                    i += 1;
                }
                proof {
                    lemma_field_at(views, name@, i as int);
                }
                None
            },
            _ => None,
        }
    }

    /// Borrow the inner string if this is `Text`.
    pub fn as_text(&self) -> (r: Option<&str>)
        ensures
            text::opt_text(r) == match self@ {
                ValueView::Text(s) => Some(s),
                _ => None,
            },
    {
        match self {
            PayloadValue::Text(s) => Some(s.as_str()),
            _ => None,
        }
    }
}

impl Field {
    /// A field of the given name and value.
    pub fn new(name: &str, value: PayloadValue) -> (r: Field)
        ensures
            r@ == (FieldView { name: name@, value: value@ }),
    {
        Field { name: name.to_owned(), value }
    }
}

/// A typed, tagged payload. `tag` selects the operation/schema; `value` is the decoded,
/// schema-validated content — never raw wire bytes at the handler boundary.
#[derive(Debug, PartialEq)]
pub struct Payload {
    pub tag: String,
    pub value: PayloadValue,
}

/// The model of a [`Payload`].
pub struct PayloadView {
    pub tag: Seq<char>,
    pub value: ValueView,
}

impl View for Payload {
    type V = PayloadView;

    open spec fn view(&self) -> PayloadView {
        PayloadView { tag: self.tag@, value: self.value@ }
    }
}

impl Clone for Payload {
    fn clone(&self) -> (r: Self)
        ensures
            r@ == self@,
    {
        Payload { tag: self.tag.clone(), value: self.value.clone() }
    }
}

impl Payload {
    /// A payload of the given tag and value.
    pub fn new(tag: &str, value: PayloadValue) -> (r: Payload)
        ensures
            r@ == (PayloadView { tag: tag@, value: value@ }),
    {
        Payload { tag: tag.to_owned(), value }
    }

    /// A payload that is a record with a single text field — the common case
    /// (`<Greeting><text>hi</text></Greeting>` ⇒ `single("Greeting", "text", "hi")`).
    pub fn single(tag: &str, field: &str, text: &str) -> (r: Payload)
        ensures
            r@ == single_payload(tag@, field@, text@),
    {
        let mut fields: Vec<Field> = Vec::new();
        fields.push(Field::new(field, PayloadValue::text(text)));
        let r = Payload { tag: tag.to_owned(), value: PayloadValue::Rec(fields) };
        proof {
            lemma_value_view(r.value);
            assert(field_views(fields@) =~= seq![
                FieldView { name: field@, value: ValueView::Text(text@) },
            ]);
        }
        r
    }
}

/// A record with a single text field, tagged.
pub open spec fn single_payload(tag: Seq<char>, field: Seq<char>, text: Seq<char>) -> PayloadView {
    PayloadView {
        tag,
        value: ValueView::Rec(seq![FieldView { name: field, value: ValueView::Text(text) }]),
    }
}

// ── Meta + Envelope ──────────────────────────────────────────────────

/// Trust-relevant envelope header.
#[derive(Debug, PartialEq)]
pub struct Meta {
    /// Last hop. Routing/audit ONLY — no enforcement predicate may read this.
    pub from: Address,
    /// Destination; `None` = unrouted/broadcast.
    pub to: Option<Address>,
    /// Opaque conversation/thread id (UUID string today).
    pub thread: String,
    /// Durable origin set; unioned into every envelope built downstream.
    pub provenance: Provenance,
}

/// The model of a [`Meta`].
pub struct MetaView {
    pub from: Seq<SegmentView>,
    pub to: Option<Seq<SegmentView>>,
    pub thread: Seq<char>,
    pub provenance: Provenance,
}

/// The model of an optional address.
pub open spec fn opt_address(a: Option<Address>) -> Option<Seq<SegmentView>> {
    match a {
        Some(a) => Some(a@),
        None => None,
    }
}

/// A copy of an optional address.
pub fn clone_opt_address(a: &Option<Address>) -> (r: Option<Address>)
    ensures
        opt_address(r) == opt_address(*a),
{
    match a {
        Some(a) => Some(a.clone()),
        None => None,
    }
}

impl View for Meta {
    type V = MetaView;

    open spec fn view(&self) -> MetaView {
        MetaView {
            from: self.from@,
            to: opt_address(self.to),
            thread: self.thread@,
            provenance: self.provenance,
        }
    }
}

impl Clone for Meta {
    fn clone(&self) -> (r: Self)
        ensures
            r@ == self@,
    {
        Meta {
            from: self.from.clone(),
            to: clone_opt_address(&self.to),
            thread: self.thread.clone(),
            provenance: self.provenance,
        }
    }
}

/// The one canonical envelope.
#[derive(Debug, PartialEq)]
pub struct Envelope {
    pub meta: Meta,
    pub payload: Payload,
}

/// The model of an [`Envelope`].
pub struct EnvelopeView {
    pub meta: MetaView,
    pub payload: PayloadView,
}

impl View for Envelope {
    type V = EnvelopeView;

    open spec fn view(&self) -> EnvelopeView {
        EnvelopeView { meta: self.meta@, payload: self.payload@ }
    }
}

impl Clone for Envelope {
    fn clone(&self) -> (r: Self)
        ensures
            r@ == self@,
    {
        Envelope { meta: self.meta.clone(), payload: self.payload.clone() }
    }
}

// ── Laws ─────────────────────────────────────────────────────────────

/// A record gives the value of the first field of a name, whatever stands before it under
/// other names and whatever behind; without such a field it gives none, and neither does
/// what is no record.
pub proof fn law_get_gives_the_first(
    front: Seq<FieldView>,
    field: FieldView,
    back: Seq<FieldView>,
    v: ValueView,
)
    requires
        forall|i: int| 0 <= i < front.len() ==> (#[trigger] front[i]).name != field.name,
    ensures
        ValueView::Rec(front + seq![field] + back).get(field.name) == Some(field.value),
        ValueView::Rec(front).get(field.name) is None,
        !(v is Rec) ==> v.get(field.name) is None,
{
    let all = front + seq![field] + back;
    let k = front.len() as int;
    assert(all[k] == field);
    assert forall|i: int| 0 <= i < k implies (#[trigger] all[i]).name != field.name by {
        assert(all[i] == front[i]);
    }
    lemma_field_at(all, field.name, k);
    lemma_field_at(front, field.name, k);
}

} // verus!
