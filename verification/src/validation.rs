//! Structural validation of payloads.
//!
//! The validation stage sits between parsing and routing — it's the second gate a
//! message must pass through to earn trust. Schemas are [`PayloadSchema`] values that
//! describe expected element structure. Validation checks:
//! - Root element tag matches expected tag
//! - Required child elements are present
//! - No unexpected elements (strict mode) or extras allowed (lax mode)

use vstd::prelude::*;

use crate::error::{ErrorView, PipelineError, PipelineResult};
use crate::markup;
use crate::markup::{Markup, MarkupView, TagView};
use crate::strmap;
use crate::strmap::{StrMap, StrSet};
use crate::text;
use crate::wire;
use crate::wire::{FieldView, PayloadValue, ValueView};

verus! {

/// Schema for a payload element.
///
/// Describes the expected structure of a payload element.
#[derive(Debug, PartialEq)]
pub struct PayloadSchema {
    /// Expected root element tag name.
    pub root_tag: String,
    /// Expected child elements. Key = tag name, Value = field schema.
    pub fields: StrMap<FieldSchema>,
    /// Whether to reject unexpected child elements.
    pub strict: bool,
}

/// Schema for a single field in a payload.
#[derive(Debug, PartialEq)]
pub struct FieldSchema {
    /// Whether this field must be present.
    pub required: bool,
    /// Expected type (for documentation; validation checks presence only).
    pub field_type: FieldType,
}

/// Field types (for documentation and future type checking).
#[derive(Debug, PartialEq)]
pub enum FieldType {
    String,
    Integer,
    Boolean,
    /// Nested element with its own schema.
    Complex(Box<PayloadSchema>),
    /// Any content allowed (lax).
    Any,
}

// ── Copies ───────────────────────────────────────────────────────────

/// Whether `b` is a copy of the schema `a`.
pub open spec fn same_schema(a: PayloadSchema, b: PayloadSchema) -> bool
    decreases a, 0nat,
    via schema_is_finite
{
    &&& a.root_tag@ == b.root_tag@
    &&& a.strict == b.strict
    &&& a.fields.order() == b.fields.order()
    &&& a.fields@.dom() == b.fields@.dom()
    &&& forall|k: Seq<char>|
        a.fields@.contains_key(k) ==> same_type(
            (#[trigger] a.fields@[k]).field_type,
            b.fields@[k].field_type,
        ) && a.fields@[k].required == b.fields@[k].required
}

#[via_fn]
proof fn schema_is_finite(a: PayloadSchema, b: PayloadSchema) {
    assert forall|k: Seq<char>| a.fields@.contains_key(k) implies decreases_to!(
        a => #[trigger] a.fields@[k]) by {
        strmap::lemma_value_smaller(a.fields, k);
    }
}

/// Whether `b` is a copy of the field type `a`.
pub open spec fn same_type(a: FieldType, b: FieldType) -> bool
    decreases a, 1nat,
{
    match (a, b) {
        (FieldType::Complex(s), FieldType::Complex(t)) => same_schema(*s, *t),
        (FieldType::Complex(_), _) => false,
        (_, FieldType::Complex(_)) => false,
        _ => a == b,
    }
}

/// A copy of a schema.
fn copy_schema(s: &PayloadSchema) -> (r: PayloadSchema)
    ensures
        same_schema(*s, r),
    decreases *s,
{
    let mut fields: StrMap<FieldSchema> = StrMap::new();
    let ghost order = s.fields.order();
    let keys = s.fields.keys();
    let mut i: usize = 0;
    assert(keys@.map_values(|k: &str| k@).len() == keys@.len());
    assert(order.take(0) =~= Seq::<Seq<char>>::empty());
    while i < keys.len()
        invariant
            i <= order.len(),
            keys@.len() == order.len(),
            order == s.fields.order(),
            order.no_duplicates(),
            fields.order() == order.take(i as int),
            fields@.dom() == order.take(i as int).to_set(),
            forall|k: Seq<char>|
                fields@.contains_key(k) ==> same_type(
                    s.fields@[k].field_type,
                    (#[trigger] fields@[k]).field_type,
                ) && s.fields@[k].required == fields@[k].required,
        decreases order.len() - i,
    {
        let (name, field) = s.fields.entry(i);
        proof {
            strmap::lemma_value_smaller(s.fields, name@);
            assert(decreases_to!(*s => s.fields));
            assert(order.take(i + 1) =~= order.take(i as int).push(name@));
            order.take(i as int).lemma_push_to_set_commute(name@);
            if order.take(i as int).contains(name@) {
                let j = order.take(i as int).index_of(name@);
                assert(order[j] == name@);
            }
        }
        let field_type = copy_type(&field.field_type);
        fields.insert(name, FieldSchema { required: field.required, field_type });
        i += 1;
    }
    assert(order.take(i as int) =~= order);
    PayloadSchema { root_tag: s.root_tag.clone(), fields, strict: s.strict }
}

/// A copy of a field type.
fn copy_type(t: &FieldType) -> (r: FieldType)
    ensures
        same_type(*t, r),
    decreases *t,
{
    match t {
        FieldType::String => FieldType::String,
        FieldType::Integer => FieldType::Integer,
        FieldType::Boolean => FieldType::Boolean,
        FieldType::Complex(schema) => FieldType::Complex(Box::new(copy_schema(&**schema))),
        FieldType::Any => FieldType::Any,
    }
}

impl Clone for PayloadSchema {
    fn clone(&self) -> (r: Self)
        ensures
            same_schema(*self, r),
    {
        copy_schema(self)
    }
}

impl Clone for FieldSchema {
    fn clone(&self) -> (r: Self)
        ensures
            r.required == self.required,
            same_type(self.field_type, r.field_type),
    {
        FieldSchema { required: self.required, field_type: copy_type(&self.field_type) }
    }
}

impl Clone for FieldType {
    fn clone(&self) -> (r: Self)
        ensures
            same_type(*self, r),
    {
        copy_type(self)
    }
}

// ── Model ────────────────────────────────────────────────────────────

/// The model of a [`PayloadSchema`]: its fields, and the order in which they were declared.
pub struct SchemaView {
    pub root_tag: Seq<char>,
    pub fields: Map<Seq<char>, FieldSchema>,
    pub order: Seq<Seq<char>>,
    pub strict: bool,
}

impl View for PayloadSchema {
    type V = SchemaView;

    open spec fn view(&self) -> SchemaView {
        SchemaView {
            root_tag: self.root_tag@,
            fields: self.fields@,
            order: self.fields.order(),
            strict: self.strict,
        }
    }
}

/// A payload that does not match its schema.
pub open spec fn fault(message: Seq<char>) -> ErrorView {
    ErrorView::Validation(message)
}

/// The local part of a possibly-namespaced tag name.
pub open spec fn local_name_of(name: Seq<u8>) -> Seq<char> {
    if vstd::utf8::valid_utf8(name) {
        text::after_last(vstd::utf8::decode_utf8(name), ':')
    } else {
        seq![]
    }
}

/// What has been seen of a payload so far.
pub struct Seen {
    /// How many elements are open.
    pub depth: nat,
    /// Whether there was a root element of the expected tag.
    pub root: bool,
    /// The direct children of the root.
    pub fields: Set<Seq<char>>,
}

/// Nothing seen.
pub open spec fn unseen() -> Seen {
    Seen { depth: 0, root: false, fields: Set::empty() }
}

/// What has been seen once an element with the local name `tag` is entered, or why it is
/// out of place; `close` is how its tag is closed in a message.
pub open spec fn entered(
    seen: Seen,
    tag: Seq<char>,
    close: Seq<char>,
    schema: SchemaView,
) -> Result<Seen, ErrorView> {
    let depth = seen.depth + 1;
    if depth == 1 {
        if tag != schema.root_tag {
            Err(fault("expected root <"@ + schema.root_tag + ">, found <"@ + tag + close))
        } else {
            Ok(Seen { depth, root: true, ..seen })
        }
    } else if depth == 2 && seen.root {
        if schema.strict && !schema.fields.contains_key(tag) {
            Err(fault("unexpected element <"@ + tag + close + " in <"@ + schema.root_tag + ">"@))
        } else {
            Ok(Seen { depth, fields: seen.fields.insert(tag), ..seen })
        }
    } else {
        Ok(Seen { depth, ..seen })
    }
}

/// What has been seen once an element is left. (The reader takes a closing tag that
/// nothing opened for malformed markup.)
pub open spec fn exited(seen: Seen) -> Seen {
    Seen {
        depth: if seen.depth == 0 {
            0
        } else {
            (seen.depth - 1) as nat
        },
        ..seen
    }
}

/// What has been seen at the end of the input. Deeper structure is not looked at.
pub open spec fn scanned(left: Seq<MarkupView>, seen: Seen, schema: SchemaView) -> Result<
    Seen,
    ErrorView,
>
    decreases left.len(),
{
    if left.len() == 0 {
        Ok(seen)
    } else {
        let rest = left.skip(1);
        match left[0] {
            MarkupView::Malformed(e) => Err(
                fault("XML parse error during validation: "@ + e),
            ),
            MarkupView::Start(tag) => match entered(
                seen,
                local_name_of(tag.name),
                ">"@,
                schema,
            ) {
                Ok(next) => scanned(rest, next, schema),
                Err(e) => Err(e),
            },
            MarkupView::Empty(tag) => match entered(
                seen,
                local_name_of(tag.name),
                "/>"@,
                schema,
            ) {
                Ok(next) => scanned(rest, exited(next), schema),
                Err(e) => Err(e),
            },
            MarkupView::End(_, _) => scanned(rest, exited(seen), schema),
            _ => scanned(rest, seen, schema),
        }
    }
}

/// The first field in `order` that is required and was not found.
pub open spec fn first_missing(
    order: Seq<Seq<char>>,
    fields: Map<Seq<char>, FieldSchema>,
    found: Set<Seq<char>>,
) -> Option<Seq<char>>
    decreases order.len(),
{
    if order.len() == 0 {
        None
    } else if fields[order[0]].required && !found.contains(order[0]) {
        Some(order[0])
    } else {
        first_missing(order.skip(1), fields, found)
    }
}

/// Whether every required field was found.
pub open spec fn fields_present(found: Set<Seq<char>>, schema: SchemaView) -> Result<
    (),
    ErrorView,
> {
    match first_missing(schema.order, schema.fields, found) {
        Some(name) => Err(
            fault("missing required element <"@ + name + "> in <"@ + schema.root_tag + ">"@),
        ),
        None => Ok(()),
    }
}

/// Whether the markup of a payload matches `schema`.
pub open spec fn matches_schema(markup: Seq<MarkupView>, schema: SchemaView) -> Result<
    (),
    ErrorView,
> {
    match scanned(markup, unseen(), schema) {
        Err(e) => Err(e),
        Ok(seen) => if !seen.root {
            Err(fault("no root element found in payload"@))
        } else {
            fields_present(seen.fields, schema)
        },
    }
}

/// The names of the fields of a value; a value that is no record has none.
pub open spec fn field_names(v: ValueView) -> Seq<Seq<char>> {
    match v {
        ValueView::Rec(fields) => fields.map_values(|f: FieldView| f.name),
        _ => seq![],
    }
}

/// The first of `names` that the schema does not declare.
pub open spec fn first_undeclared(
    names: Seq<Seq<char>>,
    fields: Map<Seq<char>, FieldSchema>,
) -> Option<Seq<char>>
    decreases names.len(),
{
    if names.len() == 0 {
        None
    } else if !fields.contains_key(names[0]) {
        Some(names[0])
    } else {
        first_undeclared(names.skip(1), fields)
    }
}

/// Whether the fields of a value match `schema`: no undeclared ones where it is strict,
/// and every required one.
pub open spec fn value_matches(v: ValueView, schema: SchemaView) -> Result<(), ErrorView> {
    let names = field_names(v);
    match first_undeclared(names, schema.fields) {
        Some(name) if schema.strict => Err(
            fault(
                "unexpected element <"@ + name + ">"@ + " in <"@ + schema.root_tag + ">"@,
            ),
        ),
        _ => fields_present(names.to_set(), schema),
    }
}

/// Whether `r` is what the model wants.
pub open spec fn is_verdict(r: PipelineResult<()>, want: Result<(), ErrorView>) -> bool {
    match (r, want) {
        (Ok(_), Ok(_)) => true,
        (Err(e), Err(f)) => e@ == f,
        _ => false,
    }
}

// ── Validation ───────────────────────────────────────────────────────

/// Extract local name from a possibly-namespaced tag.
fn local_name(name: &[u8]) -> (r: String)
    ensures
        r@ == local_name_of(name@),
{
    match core::str::from_utf8(name) {
        Ok(s) => {
            proof {
                vstd::utf8::encode_utf8_decode_utf8(s@);
            }
            text::tail_after(s, ':').to_owned()
        },
        Err(_) => {
            let none = String::new();
            assert(none@ =~= seq![]);
            none
        },
    }
}

/// The elements seen so far.
struct Scan {
    depth: usize,
    root: bool,
    fields: StrSet,
}

impl Scan {
    spec fn seen(self) -> Seen {
        Seen { depth: self.depth as nat, root: self.root, fields: self.fields@ }
    }

    /// Enters an element with the local name `tag`.
    fn enter(&mut self, tag: &str, close: &str, schema: &PayloadSchema) -> (r: PipelineResult<()>)
        requires
            old(self).depth < usize::MAX,
        ensures
            match (r, entered(old(self).seen(), tag@, close@, schema@)) {
                (Ok(_), Ok(w)) => final(self).seen() == w,
                (Err(e), Err(f)) => e@ == f,
                _ => false,
            },
    {
        self.depth = self.depth + 1;
        if self.depth == 1 {
            if !text::same_text(tag, schema.root_tag.as_str()) {
                return Err(
                    PipelineError::Validation(
                        text::cat5(
                            "expected root <",
                            schema.root_tag.as_str(),
                            ">, found <",
                            tag,
                            close,
                        ),
                    ),
                );
            }
            self.root = true;
        } else if self.depth == 2 && self.root {
            if schema.strict && !schema.fields.contains_key(tag) {
                return Err(unexpected(tag, close, schema.root_tag.as_str()));
            }
            self.fields.insert(tag);
        }
        Ok(())
    }

    /// Leaves an element.
    fn exit(&mut self)
        ensures
            final(self).seen() == exited(old(self).seen()),
            final(self).depth <= old(self).depth,
            old(self).depth > 0 ==> final(self).depth == old(self).depth - 1,
    {
        if self.depth > 0 {
            self.depth = self.depth - 1;
        }
    }
}

/// The error for an element that a strict schema does not declare.
fn unexpected(tag: &str, close: &str, root: &str) -> (r: PipelineError)
    ensures
        r@ == fault("unexpected element <"@ + tag@ + close@ + " in <"@ + root@ + ">"@),
{
    let head = text::cat4("unexpected element <", tag, close, " in <");
    PipelineError::Validation(text::cat3(head.as_str(), root, ">"))
}

/// Checks that every required field was found.
fn check_present(found: &StrSet, schema: &PayloadSchema) -> (r: PipelineResult<()>)
    ensures
        is_verdict(r, fields_present(found@, schema@)),
{
    let ghost order = schema.fields.order();
    let mut i: usize = 0;
    assert(order.skip(0) =~= order);
    while i < schema.fields.len()
        invariant
            i <= order.len(),
            order == schema.fields.order(),
            first_missing(order, schema.fields@, found@) == first_missing(
                order.skip(i as int),
                schema.fields@,
                found@,
            ),
        decreases order.len() - i,
    {
        let (name, field) = schema.fields.entry(i);
        proof {
            assert(order.skip(i as int)[0] == name@);
            assert(order.skip(i as int).skip(1) =~= order.skip(i + 1));
        }
        if field.required && !found.contains(name) {
            return Err(
                PipelineError::Validation(
                    text::cat5(
                        "missing required element <",
                        name,
                        "> in <",
                        schema.root_tag.as_str(),
                        ">",
                    ),
                ),
            );
        }
        i += 1;
    }
    Ok(())
}

/// Validate a payload's XML bytes against a schema.
///
/// Returns `Ok(())` if the payload matches the schema, or a
/// `PipelineError::Validation` with a description of what failed.
pub fn validate_payload(payload_xml: &[u8], schema: &PayloadSchema) -> (r: PipelineResult<()>)
    ensures
        is_verdict(r, matches_schema(markup::markup_of(payload_xml@), schema@)),
{
    let items = markup::read_markup(payload_xml);
    validate_markup(items.as_slice(), schema)
}

/// Validate the items of a payload's markup against a schema.
pub fn validate_markup(items: &[Markup], schema: &PayloadSchema) -> (r: PipelineResult<()>)
    ensures
        is_verdict(r, matches_schema(markup::markup_views(items@), schema@)),
{
    let mut scan = Scan { depth: 0, root: false, fields: StrSet::new() };
    let ghost want = scanned(markup::markup_views(items@), unseen(), schema@);
    let mut i: usize = 0;
    assert(markup::left_from(items@, 0) =~= markup::markup_views(items@));
    while i < items.len()
        invariant
            i <= items@.len(),
            scan.depth <= i,
            want == scanned(markup::markup_views(items@), unseen(), schema@),
            want == scanned(markup::left_from(items@, i as int), scan.seen(), schema@),
        decreases items@.len() - i,
    {
        proof {
            markup::lemma_left_from(items@, i as int);
        }
        match &items[i] {
            Markup::Start(tag) => {
                let local = local_name(tag.name.as_slice());
                match scan.enter(local.as_str(), ">", schema) {
                    Ok(_) => {},
                    Err(e) => {
                        return Err(e);
                    },
                }
            },
            Markup::Empty(tag) => {
                let local = local_name(tag.name.as_slice());
                match scan.enter(local.as_str(), "/>", schema) {
                    Ok(_) => {},
                    Err(e) => {
                        return Err(e);
                    },
                }
                scan.exit();
            },
            Markup::End(_, _) => {
                scan.exit();
            },
            Markup::Malformed(e) => {
                return Err(
                    PipelineError::Validation(
                        text::cat("XML parse error during validation: ", e.as_str()),
                    ),
                );
            },
            _ => {},
        }
        i += 1;
    }
    proof {
        markup::lemma_left_from(items@, i as int);
    }
    if !scan.root {
        return Err(PipelineError::Validation("no root element found in payload".to_owned()));
    }
    check_present(&scan.fields, schema)
}

/// Validate a decoded payload value against a schema: the fields of a record stand where
/// the child elements of a payload's markup would.
pub fn validate_payload_value(value: &PayloadValue, schema: &PayloadSchema) -> (r: PipelineResult<
    (),
>)
    ensures
        is_verdict(r, value_matches(value@, schema@)),
{
    let mut found = StrSet::new();
    let ghost names = field_names(value@);
    match value {
        PayloadValue::Rec(fields) => {
            proof {
                wire::lemma_value_view(*value);
                assert(names.skip(0) =~= names);
                assert(names.take(0).to_set() =~= Set::<Seq<char>>::empty());
            }
            let mut i: usize = 0;
            while i < fields.len()
                invariant
                    i <= fields@.len(),
                    names.len() == fields@.len(),
                    names == field_names(value@),
                    forall|j: int| 0 <= j < names.len() ==> #[trigger] names[j] == fields@[j].name@,
                    found@ == names.take(i as int).to_set(),
                    schema.strict ==> first_undeclared(names, schema.fields@) == first_undeclared(
                        names.skip(i as int),
                        schema.fields@,
                    ),
                decreases fields@.len() - i,
            {
                let name = fields[i].name.as_str();
                proof {
                    assert(names[i as int] == name@);
                    assert(names.skip(i as int)[0] == name@);
                    assert(names.skip(i as int).skip(1) =~= names.skip(i + 1));
                    assert(names.take(i + 1) =~= names.take(i as int).push(name@));
                    names.take(i as int).lemma_push_to_set_commute(name@);
                }
                if schema.strict && !schema.fields.contains_key(name) {
                    return Err(unexpected(name, ">", schema.root_tag.as_str()));
                }
                found.insert(name);
                i += 1;
            }
            assert(names.take(i as int) =~= names);
        },
        _ => {
            assert(names.to_set() =~= Set::<Seq<char>>::empty());
        },
    }
    check_present(&found, schema)
}

/// The schema that accepts any payload with the given root tag.
pub open spec fn permissive(root_tag: Seq<char>) -> SchemaView {
    SchemaView { root_tag, fields: Map::empty(), order: seq![], strict: false }
}

/// Build a permissive schema that accepts any payload with the given root tag.
///
/// Used for handlers that don't declare a specific schema.
pub fn permissive_schema(root_tag: &str) -> (r: PayloadSchema)
    ensures
        r@ == permissive(root_tag@),
{
    PayloadSchema { root_tag: root_tag.to_owned(), fields: StrMap::new(), strict: false }
}

/// Registry of schemas for known payload types.
#[derive(Debug)]
pub struct SchemaRegistry {
    schemas: StrMap<PayloadSchema>,
}

impl View for SchemaRegistry {
    type V = Map<Seq<char>, PayloadSchema>;

    closed spec fn view(&self) -> Map<Seq<char>, PayloadSchema> {
        self.schemas@
    }
}

impl Default for SchemaRegistry {
    fn default() -> (r: Self)
        ensures
            r@ == Map::<Seq<char>, PayloadSchema>::empty(),
    {
        SchemaRegistry::new()
    }
}

impl SchemaRegistry {
    /// Every schema is registered under its own root tag.
    #[verifier::type_invariant]
    spec fn by_root_tag(self) -> bool {
        forall|tag: Seq<char>| #[trigger]
            self.schemas@.contains_key(tag) ==> self.schemas@[tag].root_tag@ == tag
    }

    /// A registry without schemas.
    pub fn new() -> (r: Self)
        ensures
            r@ == Map::<Seq<char>, PayloadSchema>::empty(),
    {
        SchemaRegistry { schemas: StrMap::new() }
    }

    /// Register a schema for a payload tag.
    pub fn register(&mut self, schema: PayloadSchema)
        ensures
            final(self)@ == old(self)@.insert(schema.root_tag@, schema),
    {
        proof {
            use_type_invariant(&*self);
        }
        let tag = schema.root_tag.clone();
        let mut schemas: StrMap<PayloadSchema> = StrMap::new();
        std::mem::swap(&mut schemas, &mut self.schemas);
        schemas.insert(tag.as_str(), schema);
        self.schemas = schemas;
    }

    /// Look up a schema by payload tag.
    pub fn get(&self, tag: &str) -> (r: Option<&PayloadSchema>)
        ensures
            match r {
                Some(s) => self@.contains_key(tag@) && *s == self@[tag@] && s.root_tag@ == tag@,
                None => !self@.contains_key(tag@),
            },
    {
        proof {
            use_type_invariant(self);
        }
        self.schemas.get(tag)
    }

    /// Validate a payload against its registered schema.
    ///
    /// If no schema is registered for this tag, uses a permissive schema
    /// (accepts any structure with the correct root tag).
    pub fn validate(&self, tag: &str, payload_xml: &[u8]) -> (r: PipelineResult<()>)
        ensures
            is_verdict(
                r,
                matches_schema(markup::markup_of(payload_xml@), schema_for(self@, tag@)),
            ),
    {
        match self.get(tag) {
            Some(schema) => {
                
                validate_payload(payload_xml, schema)
            },
            None => {
                let schema = permissive_schema(tag);
                validate_payload(payload_xml, &schema)
            },
        }
    }

    /// Validate a decoded payload value against its registered schema, or a permissive
    /// one if there is none.
    pub fn validate_value(&self, tag: &str, value: &PayloadValue) -> (r: PipelineResult<()>)
        ensures
            is_verdict(r, value_matches(value@, schema_for(self@, tag@))),
    {
        match self.get(tag) {
            Some(schema) => validate_payload_value(value, schema),
            None => {
                let schema = permissive_schema(tag);
                validate_payload_value(value, &schema)
            },
        }
    }
}

/// The schema that payloads tagged `tag` are held to.
pub open spec fn schema_for(schemas: Map<Seq<char>, PayloadSchema>, tag: Seq<char>) -> SchemaView {
    if schemas.contains_key(tag) {
        schemas[tag]@
    } else {
        permissive(tag)
    }
}

// ── Laws ─────────────────────────────────────────────────────────────

/// Whether a schema lists each of its fields.
pub open spec fn lists_fields(schema: SchemaView) -> bool {
    schema.order.to_set() == schema.fields.dom()
}

/// A value is accepted exactly if it has every required field and, where the schema is
/// strict, no field that is not declared.
pub proof fn law_value_accepted(v: ValueView, schema: SchemaView)
    requires
        lists_fields(schema),
    ensures
        value_matches(v, schema) is Ok <==> {
            &&& schema.strict ==> forall|i: int|
                0 <= i < field_names(v).len() ==> schema.fields.contains_key(
                    #[trigger] field_names(v)[i],
                )
            &&& forall|name: Seq<char>| #[trigger]
                schema.fields.contains_key(name) && schema.fields[name].required
                    ==> field_names(v).contains(name)
        },
{
    let names = field_names(v);
    lemma_first_undeclared(names, schema.fields);
    lemma_first_missing(schema.order, schema.fields, names.to_set());
    assert forall|name: Seq<char>| schema.fields.contains_key(name) == #[trigger]
        schema.order.contains(name) by {
        assert(schema.order.to_set().contains(name) == schema.order.contains(name));
    }
}

/// A permissive schema accepts every value.
pub proof fn law_permissive_accepts_all(v: ValueView, tag: Seq<char>)
    ensures
        value_matches(v, permissive(tag)) is Ok,
{
}

/// Markup that is accepted has a root element and every required field directly in it.
pub proof fn law_markup_accepted(markup: Seq<MarkupView>, schema: SchemaView)
    requires
        lists_fields(schema),
        matches_schema(markup, schema) is Ok,
    ensures
        scanned(markup, unseen(), schema) matches Ok(seen) && seen.root && forall|name: Seq<char>|
            #[trigger]
            schema.fields.contains_key(name) && schema.fields[name].required
                ==> seen.fields.contains(name),
{
    let seen = scanned(markup, unseen(), schema)->Ok_0;
    lemma_first_missing(schema.order, schema.fields, seen.fields);
    assert forall|name: Seq<char>| #[trigger]
        schema.fields.contains_key(name) && schema.fields[name].required implies seen.fields.contains(
    name) by {
        assert(schema.order.to_set().contains(name));
    }
}

proof fn lemma_first_undeclared(names: Seq<Seq<char>>, fields: Map<Seq<char>, FieldSchema>)
    ensures
        first_undeclared(names, fields) is None <==> forall|i: int|
            0 <= i < names.len() ==> fields.contains_key(#[trigger] names[i]),
    decreases names.len(),
{
    if names.len() > 0 {
        let rest = names.skip(1);
        lemma_first_undeclared(rest, fields);
        if first_undeclared(rest, fields) is None {
            assert forall|i: int| 1 <= i < names.len() implies fields.contains_key(
                #[trigger] names[i],
            ) by {
                assert(rest[i - 1] == names[i]);
            }
        } else {
            let i = choose|i: int|
                0 <= i < rest.len() && !fields.contains_key(#[trigger] rest[i]);
            assert(names[i + 1] == rest[i]);
        }
    }
}

proof fn lemma_first_missing(
    order: Seq<Seq<char>>,
    fields: Map<Seq<char>, FieldSchema>,
    found: Set<Seq<char>>,
)
    ensures
        first_missing(order, fields, found) is None <==> forall|name: Seq<char>| #[trigger]
            order.contains(name) && fields[name].required ==> found.contains(name),
    decreases order.len(),
{
    if order.len() > 0 {
        let rest = order.skip(1);
        lemma_first_missing(rest, fields, found);
        assert(order.contains(order[0]));
        assert forall|name: Seq<char>| #[trigger] order.contains(name) == (name == order[0]
            || rest.contains(name)) by {
            if order.contains(name) {
                let i = order.index_of(name);
                if i > 0 {
                    assert(rest[i - 1] == name);
                }
            }
            if rest.contains(name) {
                let i = rest.index_of(name);
                assert(order[i + 1] == name);
            }
        }
        if first_missing(rest, fields, found) is Some {
            let name = choose|name: Seq<char>| #[trigger]
                rest.contains(name) && fields[name].required && !found.contains(name);
            assert(order.contains(name));
        }
    }
}

/// A record is accepted exactly if every required field is among its fields and, where the
/// schema is strict, each of its fields is declared. The values of the fields, their order
/// and how often they occur do not matter.
pub proof fn law_record_accepted(fields: Seq<FieldView>, schema: SchemaView)
    requires
        lists_fields(schema),
    ensures
        value_matches(ValueView::Rec(fields), schema) is Ok <==> {
            &&& schema.strict ==> forall|i: int|
                0 <= i < fields.len() ==> schema.fields.contains_key((#[trigger] fields[i]).name)
            &&& forall|name: Seq<char>| #[trigger]
                schema.fields.contains_key(name) && schema.fields[name].required ==> exists|i: int|
                    0 <= i < fields.len() && (#[trigger] fields[i]).name == name
        },
{
    let v = ValueView::Rec(fields);
    let names = field_names(v);
    law_value_accepted(v, schema);
    assert(names.len() == fields.len());
    assert forall|i: int| 0 <= i < fields.len() implies names[i] == (#[trigger] fields[i]).name by {}
    if value_matches(v, schema) is Ok {
        assert forall|name: Seq<char>| #[trigger]
            schema.fields.contains_key(name) && schema.fields[name].required implies exists|i: int|
            0 <= i < fields.len() && (#[trigger] fields[i]).name == name by {
            assert(names.contains(name));
            let i = names.index_of(name);
            assert(fields[i].name == name);
        }
        if schema.strict {
            assert forall|i: int| 0 <= i < fields.len() implies schema.fields.contains_key(
                (#[trigger] fields[i]).name,
            ) by {
                assert(schema.fields.contains_key(names[i]));
            }
        }
    } else {
        if (schema.strict ==> forall|i: int|
            0 <= i < fields.len() ==> schema.fields.contains_key((#[trigger] fields[i]).name)) && (
        forall|name: Seq<char>| #[trigger]
            schema.fields.contains_key(name) && schema.fields[name].required ==> exists|i: int|
                0 <= i < fields.len() && (#[trigger] fields[i]).name == name) {
            assert forall|i: int| schema.strict && 0 <= i < names.len() implies schema.fields.contains_key(
                #[trigger] names[i],
            ) by {
                assert(schema.fields.contains_key(fields[i].name));
            }
            assert forall|name: Seq<char>| #[trigger]
                schema.fields.contains_key(name) && schema.fields[name].required
                implies names.contains(name) by {
                let i = choose|i: int| 0 <= i < fields.len() && (#[trigger] fields[i]).name == name;
                assert(names[i] == name);
            }
        }
    }
}

/// What is no record has no fields: it is accepted exactly if none is required.
pub proof fn law_other_values_have_no_fields(v: ValueView, schema: SchemaView)
    requires
        lists_fields(schema),
        !(v is Rec),
    ensures
        value_matches(v, schema) is Ok <==> forall|name: Seq<char>| #[trigger]
            schema.fields.contains_key(name) ==> !schema.fields[name].required,
{
    law_value_accepted(v, schema);
    assert(forall|name: Seq<char>| !field_names(v).contains(name));
}

/// A value that is refused is refused for a field that is at fault, and the error names it
/// and the schema's tag: one that the strict schema does not declare, or a required one
/// that is missing.
pub proof fn law_refusal_names_a_field(v: ValueView, schema: SchemaView)
    ensures
        value_matches(v, schema) matches Err(e) ==> ({
            ||| exists|i: int|
                schema.strict && 0 <= i < field_names(v).len() && !schema.fields.contains_key(
                    #[trigger] field_names(v)[i],
                ) && e == ErrorView::Validation(
                    "unexpected element <"@ + field_names(v)[i] + ">"@ + " in <"@ + schema.root_tag
                        + ">"@,
                )
            ||| exists|i: int|
                0 <= i < schema.order.len() && schema.fields[#[trigger] schema.order[i]].required
                    && !field_names(v).contains(schema.order[i]) && e == ErrorView::Validation(
                    "missing required element <"@ + schema.order[i] + "> in <"@ + schema.root_tag
                        + ">"@,
                )
        }),
{
    let names = field_names(v);
    lemma_undeclared_is_there(names, schema.fields);
    lemma_missing_is_there(schema.order, schema.fields, names.to_set());
}

proof fn lemma_undeclared_is_there(names: Seq<Seq<char>>, fields: Map<Seq<char>, FieldSchema>)
    ensures
        first_undeclared(names, fields) matches Some(name) ==> exists|i: int|
            0 <= i < names.len() && #[trigger] names[i] == name && !fields.contains_key(name),
    decreases names.len(),
{
    if names.len() > 0 {
        let rest = names.skip(1);
        if !fields.contains_key(names[0]) {
            assert(names[0] == names[0]);
        } else {
            lemma_undeclared_is_there(rest, fields);
            if let Some(name) = first_undeclared(rest, fields) {
                let i = choose|i: int| 0 <= i < rest.len() && #[trigger] rest[i] == name;
                assert(names[i + 1] == name);
            }
        }
    }
}

proof fn lemma_missing_is_there(
    order: Seq<Seq<char>>,
    fields: Map<Seq<char>, FieldSchema>,
    found: Set<Seq<char>>,
)
    ensures
        first_missing(order, fields, found) matches Some(name) ==> exists|i: int|
            0 <= i < order.len() && #[trigger] order[i] == name && fields[name].required
                && !found.contains(name),
    decreases order.len(),
{
    if order.len() > 0 {
        let rest = order.skip(1);
        if fields[order[0]].required && !found.contains(order[0]) {
            assert(order[0] == order[0]);
        } else {
            lemma_missing_is_there(rest, fields, found);
            if let Some(name) = first_missing(rest, fields, found) {
                let i = choose|i: int| 0 <= i < rest.len() && #[trigger] rest[i] == name;
                assert(order[i + 1] == name);
            }
        }
    }
}

/// Payloads are held to the schema that was registered last for their tag, and to none
/// where there is none: then every value is accepted.
pub proof fn law_schema_of_a_tag(
    schemas: Map<Seq<char>, PayloadSchema>,
    schema: PayloadSchema,
    tag: Seq<char>,
    v: ValueView,
)
    ensures
        schema_for(schemas.insert(schema.root_tag@, schema), schema.root_tag@) == schema@,
        tag != schema.root_tag@ ==> schema_for(schemas.insert(schema.root_tag@, schema), tag)
            == schema_for(schemas, tag),
        !schemas.contains_key(tag) ==> value_matches(v, schema_for(schemas, tag)) is Ok,
        schema_for(schemas, tag).root_tag == tag || schemas.contains_key(tag),
{
}

/// A tag's local name is what stands behind its last colon, or all of it.
pub proof fn law_local_name(prefix: Seq<char>, local: Seq<char>)
    requires
        !local.contains(':'),
    ensures
        local_name_of(text::utf8(prefix + seq![':'] + local)) == local,
        local_name_of(text::utf8(local)) == local,
{
    vstd::utf8::encode_utf8_valid_utf8(prefix + seq![':'] + local);
    vstd::utf8::encode_utf8_decode_utf8(prefix + seq![':'] + local);
    vstd::utf8::encode_utf8_valid_utf8(local);
    vstd::utf8::encode_utf8_decode_utf8(local);
    text::law_last_part(prefix, local, ':');
    text::law_only_part(local, ':');
}

// ── Laws of documents ────────────────────────────────────────────────

/// How many elements are open behind `m` where `depth` were open before it; `None` where it
/// closes more than that, or is no markup.
pub open spec fn level(m: Seq<MarkupView>, depth: nat) -> Option<nat>
    decreases m.len(),
{
    if m.len() == 0 {
        Some(depth)
    } else {
        let rest = m.skip(1);
        match m[0] {
            MarkupView::Malformed(_) => None,
            MarkupView::Start(_) => level(rest, depth + 1),
            MarkupView::End(_, _) => if depth == 0 {
                None
            } else {
                level(rest, (depth - 1) as nat)
            },
            _ => level(rest, depth),
        }
    }
}

/// A direct child of a payload's root: what stands before it, its tag, whether it closes
/// itself, and what stands in it where it does not.
pub struct Child {
    pub before: Seq<MarkupView>,
    pub tag: TagView,
    pub closed: bool,
    pub inside: Seq<MarkupView>,
}

/// Whether nothing but text and the like stands before a child, and what stands in it is
/// complete.
pub open spec fn is_child(c: Child) -> bool {
    &&& forall|i: int| 0 <= i < c.before.len() ==> (c.before[i] is Text || #[trigger] c.before[i] is Other)
    &&& level(c.inside, 0) == Some(0nat)
}

/// A child as it stands in a document.
pub open spec fn child_markup(c: Child) -> Seq<MarkupView> {
    c.before + if c.closed {
        seq![MarkupView::Empty(c.tag)]
    } else {
        seq![MarkupView::Start(c.tag)] + c.inside + seq![MarkupView::End(c.tag.name, seq![])]
    }
}

/// Children as they stand in a document.
pub open spec fn children_markup(children: Seq<Child>) -> Seq<MarkupView>
    decreases children.len(),
{
    if children.len() == 0 {
        seq![]
    } else {
        child_markup(children[0]) + children_markup(children.skip(1))
    }
}

/// A document with one root element.
pub open spec fn document(root: TagView, children: Seq<Child>) -> Seq<MarkupView> {
    seq![MarkupView::Start(root)] + children_markup(children) + seq![
        MarkupView::End(root.name, seq![]),
    ]
}

/// A document is accepted exactly if its root has the schema's tag, every required field is
/// among the root's direct children and, where the schema is strict, each of those is
/// declared. What stands between the children and inside them does not matter, nor whether
/// they close themselves.
pub proof fn law_document_accepted(root: TagView, children: Seq<Child>, schema: SchemaView)
    requires
        lists_fields(schema),
        forall|i: int| 0 <= i < children.len() ==> is_child(#[trigger] children[i]),
    ensures
        matches_schema(document(root, children), schema) is Ok <==> {
            &&& local_name_of(root.name) == schema.root_tag
            &&& schema.strict ==> forall|i: int|
                0 <= i < children.len() ==> schema.fields.contains_key(
                    local_name_of((#[trigger] children[i]).tag.name),
                )
            &&& forall|name: Seq<char>| #[trigger]
                schema.fields.contains_key(name) && schema.fields[name].required ==> exists|i: int|
                    0 <= i < children.len() && local_name_of((#[trigger] children[i]).tag.name)
                        == name
        },
{
    let doc = document(root, children);
    let end = seq![MarkupView::End(root.name, seq![])];
    let inner = children_markup(children) + end;
    assert(doc =~= seq![MarkupView::Start(root)] + inner);
    assert(doc[0] == MarkupView::Start(root));
    assert(doc.skip(1) =~= inner);
    if local_name_of(root.name) == schema.root_tag {
        let start = Seen { depth: 1, root: true, fields: Set::empty() };
        assert(scanned(doc, unseen(), schema) == scanned(inner, start, schema));
        lemma_children(children, start, schema, end);
        let done = Seen { fields: names_in(children), ..start };
        assert(start.fields.union(names_in(children)) =~= names_in(children));
        assert(end.skip(1) =~= Seq::<MarkupView>::empty());
        assert(scanned(end, done, schema) == scanned(end.skip(1), exited(done), schema));
        lemma_first_missing(schema.order, schema.fields, names_in(children));
        assert forall|name: Seq<char>| schema.fields.contains_key(name) == #[trigger]
            schema.order.contains(name) by {
            assert(schema.order.to_set().contains(name) == schema.order.contains(name));
        }
        assert forall|name: Seq<char>| #[trigger] names_in(children).contains(name) == exists|i: int|
            0 <= i < children.len() && local_name_of((#[trigger] children[i]).tag.name) == name by {}
    }
}

/// The local names of children.
spec fn names_in(children: Seq<Child>) -> Set<Seq<char>> {
    Set::new(
        |name: Seq<char>|
            exists|i: int|
                0 <= i < children.len() && local_name_of((#[trigger] children[i]).tag.name) == name,
    )
}

/// What has been seen behind children: their names, or an error for one that is not
/// declared.
proof fn lemma_children(
    children: Seq<Child>,
    seen: Seen,
    schema: SchemaView,
    left: Seq<MarkupView>,
)
    requires
        seen.depth == 1,
        seen.root,
        forall|i: int| 0 <= i < children.len() ==> is_child(#[trigger] children[i]),
    ensures
        ({
            let declared = forall|i: int|
                0 <= i < children.len() ==> schema.fields.contains_key(
                    local_name_of((#[trigger] children[i]).tag.name),
                );
            &&& !schema.strict || declared ==> scanned(
                children_markup(children) + left,
                seen,
                schema,
            ) == scanned(
                left,
                Seen { fields: seen.fields.union(names_in(children)), ..seen },
                schema,
            )
            &&& schema.strict && !declared ==> scanned(
                children_markup(children) + left,
                seen,
                schema,
            ) is Err
        }),
    decreases children.len(),
{
    if children.len() == 0 {
        assert(children_markup(children) + left =~= left);
        assert(seen.fields.union(names_in(children)) =~= seen.fields);
    } else {
        let c = children[0];
        let others = children.skip(1);
        let rest = children_markup(others) + left;
        let name = local_name_of(c.tag.name);
        let next = Seen { fields: seen.fields.insert(name), ..seen };
        assert(is_child(children[0]));
        assert(children_markup(children) + left =~= child_markup(c) + rest);
        lemma_child(c, seen, schema, rest);
        assert forall|i: int| 0 <= i < others.len() implies is_child(#[trigger] others[i]) by {
            assert(is_child(children[i + 1]));
        }
        lemma_children(others, next, schema, left);
        assert forall|i: int| 0 <= i < others.len() implies others[i] == #[trigger] children[i + 1] by {}
        assert(next.fields.union(names_in(others)) =~= seen.fields.union(names_in(children))) by {
            assert forall|n: Seq<char>| #[trigger] names_in(children).contains(n) == (n == name
                || names_in(others).contains(n)) by {
                if names_in(children).contains(n) {
                    let i = choose|i: int|
                        0 <= i < children.len() && local_name_of((#[trigger] children[i]).tag.name)
                            == n;
                    if i > 0 {
                        assert(others[i - 1] == children[i]);
                    }
                }
                if names_in(others).contains(n) {
                    let i = choose|i: int|
                        0 <= i < others.len() && local_name_of((#[trigger] others[i]).tag.name)
                            == n;
                    assert(children[i + 1] == others[i]);
                }
            }
        }
        let all_declared = forall|i: int|
            0 <= i < children.len() ==> schema.fields.contains_key(
                local_name_of((#[trigger] children[i]).tag.name),
            );
        let others_declared = forall|i: int|
            0 <= i < others.len() ==> schema.fields.contains_key(
                local_name_of((#[trigger] others[i]).tag.name),
            );
        assert(all_declared == (schema.fields.contains_key(name) && others_declared)) by {
            if all_declared {
                assert(schema.fields.contains_key(local_name_of(children[0].tag.name)));
                assert forall|i: int| 0 <= i < others.len() implies schema.fields.contains_key(
                    local_name_of((#[trigger] others[i]).tag.name),
                ) by {
                    assert(others[i] == children[i + 1]);
                }
            }
            if schema.fields.contains_key(name) && others_declared {
                assert forall|i: int| 0 <= i < children.len() implies schema.fields.contains_key(
                    local_name_of((#[trigger] children[i]).tag.name),
                ) by {
                    if i > 0 {
                        assert(others[i - 1] == children[i]);
                    }
                }
            }
        }
    }
}

/// What has been seen behind one child.
proof fn lemma_child(c: Child, seen: Seen, schema: SchemaView, left: Seq<MarkupView>)
    requires
        seen.depth == 1,
        seen.root,
        is_child(c),
    ensures
        ({
            let name = local_name_of(c.tag.name);
            if schema.strict && !schema.fields.contains_key(name) {
                scanned(child_markup(c) + left, seen, schema) is Err
            } else {
                scanned(child_markup(c) + left, seen, schema) == scanned(
                    left,
                    Seen { fields: seen.fields.insert(name), ..seen },
                    schema,
                )
            }
        }),
    decreases c.before.len(),
{
    let name = local_name_of(c.tag.name);
    let all = child_markup(c) + left;
    if c.before.len() > 0 {
        let less = Child { before: c.before.skip(1), ..c };
        assert(c.before[0] is Text || c.before[0] is Other);
        assert(all[0] == c.before[0]);
        assert(all.skip(1) =~= child_markup(less) + left);
        assert forall|i: int| 0 <= i < less.before.len() implies (less.before[i] is Text
            || #[trigger] less.before[i] is Other) by {
            assert(less.before[i] == c.before[i + 1]);
            assert(c.before[i + 1] is Text || c.before[i + 1] is Other);
        }
        lemma_child(less, seen, schema, left);
    } else if c.closed {
        assert(all =~= seq![MarkupView::Empty(c.tag)] + left);
        assert(all[0] == MarkupView::Empty(c.tag));
        assert(all.skip(1) =~= left);
    } else {
        let end = seq![MarkupView::End(c.tag.name, seq![])] + left;
        assert(all =~= seq![MarkupView::Start(c.tag)] + (c.inside + end));
        assert(all[0] == MarkupView::Start(c.tag));
        assert(all.skip(1) =~= c.inside + end);
        let within = Seen { depth: 2, fields: seen.fields.insert(name), ..seen };
        lemma_inside(c.inside, 0, 0, within, schema, end);
        assert(end[0] == MarkupView::End(c.tag.name, seq![]));
        assert(end.skip(1) =~= left);
    }
}

/// What stands inside a child is not looked at.
proof fn lemma_inside(
    m: Seq<MarkupView>,
    from: nat,
    to: nat,
    seen: Seen,
    schema: SchemaView,
    left: Seq<MarkupView>,
)
    requires
        level(m, from) == Some(to),
        seen.depth == 2 + from,
    ensures
        scanned(m + left, seen, schema) == scanned(left, Seen { depth: 2 + to, ..seen }, schema),
    decreases m.len(),
{
    let all = m + left;
    if m.len() == 0 {
        assert(all =~= left);
    } else {
        let rest = m.skip(1);
        assert(all[0] == m[0]);
        assert(all.skip(1) =~= rest + left);
        match m[0] {
            MarkupView::Start(_) => {
                lemma_inside(
                    rest,
                    from + 1,
                    to,
                    Seen { depth: 3 + from, ..seen },
                    schema,
                    left,
                );
            },
            MarkupView::End(_, _) => {
                lemma_inside(
                    rest,
                    (from - 1) as nat,
                    to,
                    Seen { depth: (1 + from) as nat, ..seen },
                    schema,
                    left,
                );
            },
            _ => lemma_inside(rest, from, to, seen, schema, left),
        }
    }
}

/// Text, comments and the like change nothing, wherever they stand in a document.
pub proof fn law_gap_in_payload(
    gap: Seq<MarkupView>,
    left: Seq<MarkupView>,
    seen: Seen,
    schema: SchemaView,
)
    requires
        forall|i: int| 0 <= i < gap.len() ==> (gap[i] is Text || #[trigger] gap[i] is Other),
    ensures
        scanned(gap + left, seen, schema) == scanned(left, seen, schema),
    decreases gap.len(),
{
    if gap.len() == 0 {
        assert(gap + left =~= left);
    } else {
        let rest = gap.skip(1);
        assert(gap[0] is Text || gap[0] is Other);
        assert((gap + left)[0] == gap[0]);
        assert((gap + left).skip(1) =~= rest + left);
        assert forall|i: int| 0 <= i < rest.len() implies (rest[i] is Text || #[trigger] rest[i] is Other) by {
            assert(rest[i] == gap[i + 1]);
            assert(gap[i + 1] is Text || gap[i + 1] is Other);
        }
        law_gap_in_payload(rest, left, seen, schema);
    }
}

/// An element that closes itself is accepted exactly if one with nothing in it is.
pub proof fn law_self_closing_elements(
    tag: TagView,
    left: Seq<MarkupView>,
    seen: Seen,
    schema: SchemaView,
    name: Seq<u8>,
    shown: Seq<char>,
)
    ensures
        match (
            scanned(seq![MarkupView::Empty(tag)] + left, seen, schema),
            scanned(
                seq![MarkupView::Start(tag), MarkupView::End(name, shown)] + left,
                seen,
                schema,
            ),
        ) {
            (Ok(a), Ok(b)) => a == b,
            (Err(_), Err(_)) => true,
            _ => false,
        },
{
    let short = seq![MarkupView::Empty(tag)] + left;
    let long = seq![MarkupView::Start(tag), MarkupView::End(name, shown)] + left;
    assert(short[0] == MarkupView::Empty(tag));
    assert(short.skip(1) =~= left);
    let end = seq![MarkupView::End(name, shown)] + left;
    assert(long[0] == MarkupView::Start(tag));
    assert(long.skip(1) =~= end);
    assert(end[0] == MarkupView::End(name, shown));
    assert(end.skip(1) =~= left);
    let local = local_name_of(tag.name);
    if let Ok(next) = entered(seen, local, ">"@, schema) {
        assert(entered(seen, local, "/>"@, schema) == Ok::<_, ErrorView>(next));
        assert(scanned(end, next, schema) == scanned(left, exited(next), schema));
    }
}

/// Input that is no markup is refused, and so is a payload without an element.
pub proof fn law_payloads_are_markup(
    e: Seq<char>,
    left: Seq<MarkupView>,
    seen: Seen,
    schema: SchemaView,
)
    ensures
        scanned(seq![MarkupView::Malformed(e)] + left, seen, schema) is Err,
        matches_schema(seq![], schema) is Err,
{
    assert((seq![MarkupView::Malformed(e)] + left)[0] == MarkupView::Malformed(e));
}

} // verus!
