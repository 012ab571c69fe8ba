//! How a document may be laid out: what the reader of envelopes passes over, and that it
//! changes nothing of what is read.

use vstd::prelude::*;

use crate::address;
use crate::envelope::ENVELOPE_NS;
use crate::error::ErrorView;
use crate::grammar;
use crate::grammar::Draft;
use crate::markup;
use crate::markup::{MarkupView, Piece, TagView, WordsView};
use crate::numbers;
use crate::text;
use crate::wire::{EnvelopeView, FieldView, MetaView, PayloadView, ValueView};

verus! {

// ── What is passed over ──────────────────────────────────────────────

/// Whether an item is a tag, of an element or before one, with another name than `name`.
pub open spec fn is_other_tag(m: MarkupView, name: Seq<char>) -> bool {
    match m {
        MarkupView::Start(tag) => tag.name != text::utf8(name),
        MarkupView::Empty(tag) => tag.name != text::utf8(name),
        _ => false,
    }
}

/// Whether an item closes another element than `name`.
pub open spec fn is_other_end(m: MarkupView, name: Seq<char>) -> bool {
    m matches MarkupView::End(n, _) && n != text::utf8(name)
}

/// What is passed over between the fields of a record: all but fields, the end of the
/// record and what is no markup.
pub open spec fn between_fields(m: MarkupView) -> bool {
    m is Text || m is Other || m is Empty || is_other_tag(m, "f"@) || is_other_end(m, "v"@)
}

/// What is passed over between the items of a list: all but values, the end of the list
/// and what is no markup.
pub open spec fn between_items(m: MarkupView) -> bool {
    m is Text || m is Other || is_other_tag(m, "v"@) || is_other_end(m, "v"@)
}

/// What is passed over in a scalar: all but its text, its end and what is no markup.
pub open spec fn between_texts(m: MarkupView) -> bool {
    m is Other || m is Start || m is Empty || is_other_end(m, "v"@)
}

/// What is passed over between the elements of a message: all but opening tags, the end of
/// the message and what is no markup.
pub open spec fn between_parts(m: MarkupView) -> bool {
    m is Text || m is Other || m is Empty || is_other_end(m, "message"@)
}

/// What is passed over between the elements of the header: all but opening and closing tags
/// and what is no markup.
pub open spec fn between_headers(m: MarkupView) -> bool {
    m is Text || m is Other || m is Empty
}

/// Whether there is text and nothing else.
pub open spec fn only_text(gap: Seq<MarkupView>) -> bool {
    forall|i: int| 0 <= i < gap.len() ==> (#[trigger] gap[i]) is Text
}

/// The first of a gap's items, and the gap without it.
proof fn lemma_gap(gap: Seq<MarkupView>, left: Seq<MarkupView>)
    ensures
        gap.len() == 0 ==> gap + left == left,
        gap.len() > 0 ==> (gap + left)[0] == gap[0] && (gap + left).skip(1) == gap.skip(1) + left,
        forall|i: int| 0 <= i < gap.len() - 1 ==> #[trigger] gap.skip(1)[i] == gap[i + 1],
{
    if gap.len() == 0 {
        assert(gap + left =~= left);
    } else {
        assert((gap + left).skip(1) =~= gap.skip(1) + left);
    }
}

/// What stands between the fields of a record changes nothing: not the fields read so far,
/// nor those to come.
pub proof fn law_gap_between_fields(gap: Seq<MarkupView>, left: Seq<MarkupView>, done: Seq<FieldView>)
    requires
        forall|i: int| 0 <= i < gap.len() ==> between_fields(#[trigger] gap[i]),
    ensures
        grammar::fields_from(gap + left, done) == grammar::fields_from(left, done),
    decreases gap.len(),
{
    lemma_gap(gap, left);
    if gap.len() > 0 {
        assert(between_fields(gap[0]));
        assert forall|i: int| 0 <= i < gap.len() - 1 implies between_fields(#[trigger] gap.skip(1)[i]) by {
            assert(gap.skip(1)[i] == gap[i + 1]);
        }
        law_gap_between_fields(gap.skip(1), left, done);
        assert(grammar::fields_from(gap + left, done) == grammar::fields_from(gap.skip(1) + left, done));
    }
}

/// What stands between the items of a list changes nothing: not the items read so far, nor
/// those to come.
pub proof fn law_gap_between_items(gap: Seq<MarkupView>, left: Seq<MarkupView>, done: Seq<ValueView>)
    requires
        forall|i: int| 0 <= i < gap.len() ==> between_items(#[trigger] gap[i]),
    ensures
        grammar::items_from(gap + left, done) == grammar::items_from(left, done),
    decreases gap.len(),
{
    lemma_gap(gap, left);
    if gap.len() > 0 {
        assert(between_items(gap[0]));
        assert forall|i: int| 0 <= i < gap.len() - 1 implies between_items(#[trigger] gap.skip(1)[i]) by {
            assert(gap.skip(1)[i] == gap[i + 1]);
        }
        law_gap_between_items(gap.skip(1), left, done);
        assert(grammar::items_from(gap + left, done) == grammar::items_from(gap.skip(1) + left, done));
    }
}

/// Text before a value changes nothing.
pub proof fn law_gap_before_value(gap: Seq<MarkupView>, left: Seq<MarkupView>)
    requires
        forall|i: int| 0 <= i < gap.len() ==> (#[trigger] gap[i]) is Text,
    ensures
        grammar::value_at(gap + left) == grammar::value_at(left),
    decreases gap.len(),
{
    lemma_gap(gap, left);
    if gap.len() > 0 {
        assert((gap[0]) is Text);
        assert forall|i: int| 0 <= i < gap.len() - 1 implies (#[trigger] gap.skip(1)[i]) is Text by {
            assert(gap.skip(1)[i] == gap[i + 1]);
        }
        law_gap_before_value(gap.skip(1), left);
        assert(grammar::value_at(gap + left) == grammar::value_at(gap.skip(1) + left));
    }
}

/// Text before a closing tag changes nothing.
pub proof fn law_gap_before_end(gap: Seq<MarkupView>, left: Seq<MarkupView>, name: Seq<char>)
    requires
        forall|i: int| 0 <= i < gap.len() ==> (#[trigger] gap[i]) is Text,
    ensures
        grammar::end_from(gap + left, name) == grammar::end_from(left, name),
    decreases gap.len(),
{
    lemma_gap(gap, left);
    if gap.len() > 0 {
        assert((gap[0]) is Text);
        assert forall|i: int| 0 <= i < gap.len() - 1 implies (#[trigger] gap.skip(1)[i]) is Text by {
            assert(gap.skip(1)[i] == gap[i + 1]);
        }
        law_gap_before_end(gap.skip(1), left, name);
        assert(grammar::end_from(gap + left, name) == grammar::end_from(gap.skip(1) + left, name));
    }
}

/// What stands between the texts of a scalar changes nothing.
pub proof fn law_gap_in_scalar(gap: Seq<MarkupView>, left: Seq<MarkupView>, kind: Seq<char>, before: Seq<char>)
    requires
        forall|i: int| 0 <= i < gap.len() ==> between_texts(#[trigger] gap[i]),
    ensures
        grammar::scalar_from(gap + left, kind, before) == grammar::scalar_from(left, kind, before),
    decreases gap.len(),
{
    lemma_gap(gap, left);
    if gap.len() > 0 {
        assert(between_texts(gap[0]));
        assert forall|i: int| 0 <= i < gap.len() - 1 implies between_texts(#[trigger] gap.skip(1)[i]) by {
            assert(gap.skip(1)[i] == gap[i + 1]);
        }
        law_gap_in_scalar(gap.skip(1), left, kind, before);
        assert(grammar::scalar_from(gap + left, kind, before) == grammar::scalar_from(gap.skip(1) + left, kind, before));
    }
}

/// What stands between the elements of a message changes nothing.
pub proof fn law_gap_between_parts(gap: Seq<MarkupView>, left: Seq<MarkupView>, d: Draft)
    requires
        forall|i: int| 0 <= i < gap.len() ==> between_parts(#[trigger] gap[i]),
    ensures
        grammar::message_from(gap + left, d) == grammar::message_from(left, d),
    decreases gap.len(),
{
    lemma_gap(gap, left);
    if gap.len() > 0 {
        assert(between_parts(gap[0]));
        assert forall|i: int| 0 <= i < gap.len() - 1 implies between_parts(#[trigger] gap.skip(1)[i]) by {
            assert(gap.skip(1)[i] == gap[i + 1]);
        }
        law_gap_between_parts(gap.skip(1), left, d);
        assert(grammar::message_from(gap + left, d) == grammar::message_from(gap.skip(1) + left, d));
    }
}

/// What stands between the elements of the header changes nothing.
pub proof fn law_gap_between_headers(gap: Seq<MarkupView>, left: Seq<MarkupView>, d: Draft)
    requires
        forall|i: int| 0 <= i < gap.len() ==> between_headers(#[trigger] gap[i]),
    ensures
        grammar::meta_from(gap + left, None, d) == grammar::meta_from(left, None, d),
    decreases gap.len(),
{
    lemma_gap(gap, left);
    if gap.len() > 0 {
        assert(between_headers(gap[0]));
        assert forall|i: int| 0 <= i < gap.len() - 1 implies between_headers(#[trigger] gap.skip(1)[i]) by {
            assert(gap.skip(1)[i] == gap[i + 1]);
        }
        law_gap_between_headers(gap.skip(1), left, d);
        assert(grammar::meta_from(gap + left, None, d) == grammar::meta_from(gap.skip(1) + left, None, d));
    }
}

// ── What is read one behind the other ────────────────────────────────

/// What a record's reader has read so far stays in front of what it reads, and decides
/// nothing of it.
pub proof fn law_fields_accumulate(left: Seq<MarkupView>, done: Seq<FieldView>)
    ensures
        match (grammar::fields_from(left, done), grammar::fields_from(left, seq![])) {
            (Ok((ValueView::Rec(all), rest)), Ok((ValueView::Rec(fields), end))) => {
                &&& all == done + fields
                &&& rest == end
            },
            (Err(e), Err(f)) => e == f,
            _ => false,
        },
    decreases left.len(),
{
    let none = Seq::<FieldView>::empty();
    if left.len() > 0 {
        let rest = left.skip(1);
        match left[0] {
            MarkupView::Start(tag) if tag.name == text::utf8("f"@) => {
                grammar::law_value_takes_markup(rest);
                if let Ok((value, behind)) = grammar::value_at(rest) {
                    law_end_takes_markup(behind, "f"@);
                    if let Ok(next) = grammar::end_from(behind, "f"@) {
                        let field = FieldView { name: markup::attr_or_empty(tag, "n"@), value };
                        law_fields_accumulate(next, done.push(field));
                        law_fields_accumulate(next, none.push(field));
                        if let Ok((ValueView::Rec(fields), _)) = grammar::fields_from(next, none) {
                            assert(done.push(field) + fields =~= done + (none.push(field)
                                + fields));
                        }
                    }
                }
            },
            MarkupView::End(name, _) if name == text::utf8("v"@) => {
                assert(done + none =~= done);
            },
            _ => law_fields_accumulate(rest, done),
        }
    }
}

/// What a list's reader has read so far stays in front of what it reads, and decides
/// nothing of it.
pub proof fn law_items_accumulate(left: Seq<MarkupView>, done: Seq<ValueView>)
    ensures
        match (grammar::items_from(left, done), grammar::items_from(left, seq![])) {
            (Ok((ValueView::List(all), rest)), Ok((ValueView::List(items), end))) => {
                &&& all == done + items
                &&& rest == end
            },
            (Err(e), Err(f)) => e == f,
            _ => false,
        },
    decreases left.len(),
{
    let none = Seq::<ValueView>::empty();
    if left.len() > 0 {
        let rest = left.skip(1);
        match left[0] {
            MarkupView::Start(tag) if tag.name == text::utf8("v"@) => {
                let kind = markup::attr_or_empty(tag, "k"@);
                grammar::law_value_takes_markup(left);
                if let Ok((value, next)) = grammar::value_from(rest, kind) {
                    law_items_accumulate(next, done.push(value));
                    law_items_accumulate(next, none.push(value));
                    if let Ok((ValueView::List(items), _)) = grammar::items_from(next, none) {
                        assert(done.push(value) + items =~= done + (none.push(value) + items));
                    }
                }
            },
            MarkupView::Empty(tag) if tag.name == text::utf8("v"@) => {
                let value = grammar::empty_value(markup::attr_or_empty(tag, "k"@));
                law_items_accumulate(rest, done.push(value));
                law_items_accumulate(rest, none.push(value));
                if let Ok((ValueView::List(items), _)) = grammar::items_from(rest, none) {
                    assert(done.push(value) + items =~= done + (none.push(value) + items));
                }
            },
            MarkupView::End(name, _) if name == text::utf8("v"@) => {
                assert(done + none =~= done);
            },
            _ => law_items_accumulate(rest, done),
        }
    }
}

/// The text of a scalar that has been read so far stays in front of what is read.
pub proof fn law_texts_accumulate(left: Seq<MarkupView>, kind: Seq<char>, before: Seq<char>)
    ensures
        match (
            grammar::scalar_from(left, kind, before),
            grammar::scalar_from(left, kind, seq![]),
        ) {
            (Ok((all, rest)), Ok((t, end))) => all == before + t && rest == end,
            (Err(e), Err(f)) => e == f,
            _ => false,
        },
    decreases left.len(),
{
    let none = Seq::<char>::empty();
    if left.len() > 0 {
        let rest = left.skip(1);
        match left[0] {
            MarkupView::Text(Ok(t)) => {
                let c = grammar::content_of(kind, t);
                law_texts_accumulate(rest, kind, before + c);
                law_texts_accumulate(rest, kind, none + c);
                if let Ok((s, _)) = grammar::scalar_from(rest, kind, none) {
                    assert((before + c) + s =~= before + ((none + c) + s));
                }
            },
            MarkupView::End(name, _) if name == text::utf8("v"@) => {
                assert(before + none =~= before);
            },
            _ => law_texts_accumulate(rest, kind, before),
        }
    }
}

/// Finding a closing tag always gets ahead: less markup is left behind it.
pub proof fn law_end_takes_markup(left: Seq<MarkupView>, name: Seq<char>)
    ensures
        grammar::end_from(left, name) matches Ok(rest) ==> rest.len() < left.len(),
    decreases left.len(),
{
    if left.len() > 0 {
        law_end_takes_markup(left.skip(1), name);
    }
}

/// Each field of a record is read for itself: one that stands in front is the first field of
/// the record, under its own name, and those behind it are the others, in their order.
pub proof fn law_first_field_comes_first(
    tag: TagView,
    left: Seq<MarkupView>,
    value: ValueView,
    behind: Seq<MarkupView>,
    next: Seq<MarkupView>,
)
    requires
        tag.name == text::utf8("f"@),
        grammar::value_at(left) == Ok::<_, ErrorView>((value, behind)),
        grammar::end_from(behind, "f"@) == Ok::<_, ErrorView>(next),
    ensures
        match (
            grammar::value_from(seq![MarkupView::Start(tag)] + left, "rec"@),
            grammar::value_from(next, "rec"@),
        ) {
            (Ok((ValueView::Rec(all), rest)), Ok((ValueView::Rec(others), end))) => {
                &&& all.len() == 1 + others.len()
                &&& all[0].name == markup::attr_or_empty(tag, "n"@)
                &&& all[0].value == value
                &&& all.skip(1) == others
                &&& rest == end
            },
            (Err(e), Err(f)) => e == f,
            _ => false,
        },
{
    let none = Seq::<FieldView>::empty();
    let all = seq![MarkupView::Start(tag)] + left;
    let field = FieldView { name: markup::attr_or_empty(tag, "n"@), value };
    assert(all.skip(1) =~= left);
    grammar::law_value_takes_markup(left);
    law_end_takes_markup(behind, "f"@);
    assert(grammar::fields_from(all, none) == grammar::fields_from(next, none.push(field)));
    law_fields_accumulate(next, none.push(field));
    if let Ok((ValueView::Rec(others), _)) = grammar::fields_from(next, none) {
        assert((none.push(field) + others).skip(1) =~= others);
    }
}

/// Each item of a list is read for itself: one that stands in front is the first item of the
/// list, and those behind it are the others, in their order.
pub proof fn law_first_item_comes_first(
    left: Seq<MarkupView>,
    value: ValueView,
    next: Seq<MarkupView>,
)
    requires
        left.len() > 0,
        left[0] is Start || left[0] is Empty,
        grammar::value_at(left) == Ok::<_, ErrorView>((value, next)),
    ensures
        match (grammar::value_from(left, "seq"@), grammar::value_from(next, "seq"@)) {
            (Ok((ValueView::List(all), rest)), Ok((ValueView::List(others), end))) => {
                &&& all.len() == 1 + others.len()
                &&& all[0] == value
                &&& all.skip(1) == others
                &&& rest == end
            },
            (Err(e), Err(f)) => e == f,
            _ => false,
        },
{
    reveal_strlit("rec");
    reveal_strlit("seq");
    assert("rec"@[0] == 'r' && "seq"@[0] == 's');
    let none = Seq::<ValueView>::empty();
    grammar::law_value_takes_markup(left);
    assert(grammar::items_from(left, none) == grammar::items_from(next, none.push(value)));
    law_items_accumulate(next, none.push(value));
    if let Ok((ValueView::List(others), _)) = grammar::items_from(next, none) {
        assert((none.push(value) + others).skip(1) =~= others);
    }
}

/// A record or a list ends at its closing tag, with nothing more in it.
pub proof fn law_closing_tag_ends(rest: Seq<MarkupView>, shown: Seq<char>)
    ensures
        ({
            let left = seq![MarkupView::End(text::utf8("v"@), shown)] + rest;
            &&& grammar::value_from(left, "rec"@) == Ok::<_, ErrorView>(
                (ValueView::Rec(seq![]), rest),
            )
            &&& grammar::value_from(left, "seq"@) == Ok::<_, ErrorView>(
                (ValueView::List(seq![]), rest),
            )
            &&& grammar::end_from(left, "v"@) == Ok::<_, ErrorView>(rest)
        }),
{
    reveal_strlit("rec");
    reveal_strlit("seq");
    assert("rec"@[0] == 'r' && "seq"@[0] == 's');
    let left = seq![MarkupView::End(text::utf8("v"@), shown)] + rest;
    assert(left.skip(1) =~= rest);
}

/// Input that is no markup, and the end of the input, are errors wherever a document is not
/// complete.
pub proof fn law_broken_documents_are_refused(
    e: Seq<char>,
    left: Seq<MarkupView>,
    kind: Seq<char>,
    name: Seq<char>,
    field: Option<Seq<u8>>,
    d: Draft,
)
    ensures
        ({
            let broken = seq![MarkupView::Malformed(e)] + left;
            &&& grammar::value_at(broken) == Err::<(ValueView, Seq<MarkupView>), _>(
                ErrorView::EnvelopeParse(e),
            )
            &&& grammar::end_from(broken, name) == Err::<Seq<MarkupView>, _>(
                ErrorView::EnvelopeParse(e),
            )
            &&& grammar::value_from(broken, kind) is Err
            &&& grammar::meta_from(broken, field, d) == Err::<(Draft, Seq<MarkupView>), _>(
                ErrorView::EnvelopeParse(e),
            )
            &&& grammar::message_from(broken, d) == Err::<Draft, _>(ErrorView::EnvelopeParse(e))
        }),
        grammar::value_at(seq![]) is Err,
        grammar::value_from(seq![], kind) is Err,
        grammar::end_from(seq![], name) is Err,
        grammar::meta_from(seq![], field, d) is Err,
        grammar::message_from(seq![], d) == Ok::<_, ErrorView>(d),
{
    let broken = seq![MarkupView::Malformed(e)] + left;
    assert(broken[0] == MarkupView::Malformed(e));
}

// ── The header ───────────────────────────────────────────────────────

/// The elements of the header do not depend on their order: two different ones give the
/// same header whichever comes first, and one that is not known gives nothing.
pub proof fn law_header_order_is_free(
    d: Draft,
    a: Seq<u8>,
    s: Seq<char>,
    b: Seq<u8>,
    t: Seq<char>,
    first: Draft,
    both: Draft,
)
    requires
        a != b,
        grammar::with_meta(d, a, s) == Ok::<_, ErrorView>(first),
        grammar::with_meta(first, b, t) == Ok::<_, ErrorView>(both),
    ensures
        grammar::with_meta(d, b, t) matches Ok(other) && grammar::with_meta(other, a, s) == Ok::<
            _,
            ErrorView,
        >(both),
{
}

/// Each element of the header gives its own part, and leaves the others: the sender and the
/// destination as addresses, the thread as it stands, and the provenance as a label-set.
pub proof fn law_header_elements_are_their_own(d: Draft, s: Seq<char>, other: Seq<u8>)
    ensures
        grammar::with_meta(d, text::utf8("from"@), s) matches Ok(next) ==> {
            &&& address::address_of(s) matches Ok(a) && next == (Draft { from: Some(a), ..d })
        },
        grammar::with_meta(d, text::utf8("to"@), s) matches Ok(next) ==> {
            &&& address::address_of(s) matches Ok(a) && next == (Draft { to: Some(a), ..d })
        },
        grammar::with_meta(d, text::utf8("from"@), s) is Ok <==> address::address_of(s) is Ok,
        grammar::with_meta(d, text::utf8("to"@), s) is Ok <==> address::address_of(s) is Ok,
        grammar::with_meta(d, text::utf8("thread"@), s) == Ok::<_, ErrorView>(
            Draft { thread: Some(s), ..d },
        ),
        grammar::with_meta(d, text::utf8("provenance"@), s) matches Ok(next) ==> {
            &&& grammar::provenance_of(s) matches Ok(p) && next == (Draft { provenance: p, ..d })
        },
        other != text::utf8("from"@) && other != text::utf8("to"@) && other != text::utf8(
            "thread"@,
        ) && other != text::utf8("provenance"@) ==> grammar::with_meta(d, other, s) == Ok::<
            _,
            ErrorView,
        >(d),
{
    grammar::lemma_element_names();
    grammar::lemma_names_differ("to"@, "from"@);
    grammar::lemma_names_differ("thread"@, "from"@);
    grammar::lemma_names_differ("thread"@, "to"@);
    grammar::lemma_names_differ("provenance"@, "from"@);
    grammar::lemma_names_differ("provenance"@, "to"@);
    grammar::lemma_names_differ("provenance"@, "thread"@);
}

/// An envelope needs a message with a sender, a thread and a payload, and is made of them,
/// and of a destination if there is one.
pub proof fn law_envelope_needs_its_parts(d: Draft)
    ensures
        grammar::completed(d) is Ok <==> d.in_message && d.from is Some && d.thread is Some
            && d.payload is Some,
        grammar::completed(d) matches Ok(env) ==> {
            &&& d.from == Some(env.meta.from)
            &&& d.to == env.meta.to
            &&& d.thread == Some(env.meta.thread)
            &&& d.provenance == env.meta.provenance
            &&& d.payload == Some(env.payload)
        },
{
}

// ── Indentation ──────────────────────────────────────────────────────

/// A value as it is written, with text put between its elements: `gap` says which text
/// stands at which place, and `path` leads to the value.
pub open spec fn laid_value(
    v: ValueView,
    gap: spec_fn(Seq<int>) -> Seq<MarkupView>,
    path: Seq<int>,
) -> Seq<MarkupView>
    decreases v,
{
    match v {
        ValueView::Rec(fields) => seq![
            MarkupView::Start(markup::tag_back("v"@, Some(("k"@, "rec"@)))),
        ] + (laid_fields(fields, gap, path, 0) + (gap(path) + seq![markup::end_back("v"@)])),
        ValueView::List(items) => seq![
            MarkupView::Start(markup::tag_back("v"@, Some(("k"@, "seq"@)))),
        ] + (laid_items(items, gap, path, 0) + (gap(path) + seq![markup::end_back("v"@)])),
        _ => markup::read_back(grammar::value_pieces(v)),
    }
}

/// The fields of a record as they are written, with text between them.
pub open spec fn laid_fields(
    fields: Seq<FieldView>,
    gap: spec_fn(Seq<int>) -> Seq<MarkupView>,
    path: Seq<int>,
    i: int,
) -> Seq<MarkupView>
    decreases fields,
{
    if fields.len() == 0 {
        seq![]
    } else {
        let here = path.push(i);
        gap(here) + (seq![
            MarkupView::Start(markup::tag_back("f"@, Some(("n"@, fields[0].name)))),
        ] + (gap(here.push(0)) + (laid_value(fields[0].value, gap, here.push(1)) + (gap(
            here.push(2),
        ) + (seq![markup::end_back("f"@)] + laid_fields(
            fields.subrange(1, fields.len() as int),
            gap,
            path,
            i + 1,
        ))))))
    }
}

/// The items of a list as they are written, with text between them.
pub open spec fn laid_items(
    items: Seq<ValueView>,
    gap: spec_fn(Seq<int>) -> Seq<MarkupView>,
    path: Seq<int>,
    i: int,
) -> Seq<MarkupView>
    decreases items,
{
    if items.len() == 0 {
        seq![]
    } else {
        let here = path.push(i);
        gap(here) + (laid_value(items[0], gap, here.push(0)) + laid_items(
            items.subrange(1, items.len() as int),
            gap,
            path,
            i + 1,
        ))
    }
}

/// However a value is indented, it is read as the value that it is.
pub proof fn law_indented_value(
    v: ValueView,
    gap: spec_fn(Seq<int>) -> Seq<MarkupView>,
    path: Seq<int>,
    rest: Seq<MarkupView>,
)
    requires
        grammar::is_value(v),
        forall|p: Seq<int>| only_text(#[trigger] gap(p)),
    ensures
        grammar::value_at(laid_value(v, gap, path) + rest) == Ok::<_, ErrorView>((v, rest)),
    decreases v,
{
    reveal_strlit("rec");
    reveal_strlit("seq");
    assert("rec"@[0] == 'r' && "seq"@[0] == 's');
    let close = gap(path) + seq![markup::end_back("v"@)];
    match v {
        ValueView::Rec(fields) => {
            let tag = markup::tag_back("v"@, Some(("k"@, "rec"@)));
            let inner = laid_fields(fields, gap, path, 0);
            let all = laid_value(v, gap, path) + rest;
            assert(all =~= seq![MarkupView::Start(tag)] + (inner + (close + rest)));
            assert(all[0] == MarkupView::Start(tag));
            assert(all.skip(1) =~= inner + (close + rest));
            grammar::lemma_attr_back("v"@, "k"@, "rec"@);
            lemma_indented_fields(fields, gap, path, 0, seq![], rest);
            assert(Seq::<FieldView>::empty() + fields =~= fields);
            assert(grammar::value_at(all) == grammar::value_from(all.skip(1), "rec"@));
        },
        ValueView::List(items) => {
            let tag = markup::tag_back("v"@, Some(("k"@, "seq"@)));
            let inner = laid_items(items, gap, path, 0);
            let all = laid_value(v, gap, path) + rest;
            assert(all =~= seq![MarkupView::Start(tag)] + (inner + (close + rest)));
            assert(all[0] == MarkupView::Start(tag));
            assert(all.skip(1) =~= inner + (close + rest));
            grammar::lemma_attr_back("v"@, "k"@, "seq"@);
            lemma_indented_items(items, gap, path, 0, seq![], rest);
            assert(Seq::<ValueView>::empty() + items =~= items);
            assert(grammar::value_at(all) == grammar::value_from(all.skip(1), "seq"@));
        },
        _ => grammar::law_value_round_trip(v, rest),
    }
}

proof fn lemma_indented_fields(
    fields: Seq<FieldView>,
    gap: spec_fn(Seq<int>) -> Seq<MarkupView>,
    path: Seq<int>,
    i: int,
    done: Seq<FieldView>,
    rest: Seq<MarkupView>,
)
    requires
        grammar::are_fields(fields),
        forall|p: Seq<int>| only_text(#[trigger] gap(p)),
    ensures
        grammar::fields_from(
            laid_fields(fields, gap, path, i) + ((gap(path) + seq![markup::end_back("v"@)])
                + rest),
            done,
        ) == Ok::<_, ErrorView>((ValueView::Rec(done + fields), rest)),
    decreases fields,
{
    let close = (gap(path) + seq![markup::end_back("v"@)]) + rest;
    let all = laid_fields(fields, gap, path, i) + close;
    if fields.len() == 0 {
        let end = seq![markup::end_back("v"@)] + rest;
        assert(all =~= gap(path) + end);
        assert(only_text(gap(path)));
        law_gap_between_fields(gap(path), end, done);
        assert(end[0] == markup::end_back("v"@));
        assert(end.skip(1) =~= rest);
        assert(done + fields =~= done);
    } else {
        let here = path.push(i);
        let first = fields[0];
        let others = fields.subrange(1, fields.len() as int);
        let tag = markup::tag_back("f"@, Some(("n"@, first.name)));
        let value = laid_value(first.value, gap, here.push(1));
        let behind = laid_fields(others, gap, path, i + 1) + close;
        let end = seq![markup::end_back("f"@)] + behind;
        let after = gap(here.push(2)) + end;
        let inner = gap(here.push(0)) + (value + after);
        let element = seq![MarkupView::Start(tag)] + inner;
        assert(all =~= gap(here) + element);
        assert(only_text(gap(here)) && only_text(gap(here.push(0))) && only_text(
            gap(here.push(2)),
        ));
        law_gap_between_fields(gap(here), element, done);
        assert(element[0] == MarkupView::Start(tag));
        assert(element.skip(1) =~= inner);
        grammar::lemma_attr_back("f"@, "n"@, first.name);
        law_gap_before_value(gap(here.push(0)), value + after);
        law_indented_value(first.value, gap, here.push(1), after);
        law_gap_before_end(gap(here.push(2)), end, "f"@);
        assert(end[0] == markup::end_back("f"@));
        assert(end.skip(1) =~= behind);
        assert(grammar::end_from(after, "f"@) == Ok::<_, ErrorView>(behind));
        assert(first == FieldView { name: first.name, value: first.value });
        assert(behind.len() < element.len());
        assert(grammar::fields_from(element, done) == grammar::fields_from(
            behind,
            done.push(first),
        ));
        lemma_indented_fields(others, gap, path, i + 1, done.push(first), rest);
        assert(done.push(first) + others =~= done + fields);
    }
}

proof fn lemma_indented_items(
    items: Seq<ValueView>,
    gap: spec_fn(Seq<int>) -> Seq<MarkupView>,
    path: Seq<int>,
    i: int,
    done: Seq<ValueView>,
    rest: Seq<MarkupView>,
)
    requires
        grammar::are_values(items),
        forall|p: Seq<int>| only_text(#[trigger] gap(p)),
    ensures
        grammar::items_from(
            laid_items(items, gap, path, i) + ((gap(path) + seq![markup::end_back("v"@)]) + rest),
            done,
        ) == Ok::<_, ErrorView>((ValueView::List(done + items), rest)),
    decreases items,
{
    let close = (gap(path) + seq![markup::end_back("v"@)]) + rest;
    let all = laid_items(items, gap, path, i) + close;
    if items.len() == 0 {
        let end = seq![markup::end_back("v"@)] + rest;
        assert(all =~= gap(path) + end);
        assert(only_text(gap(path)));
        law_gap_between_items(gap(path), end, done);
        assert(end[0] == markup::end_back("v"@));
        assert(end.skip(1) =~= rest);
        assert(done + items =~= done);
    } else {
        let here = path.push(i);
        let first = items[0];
        let others = items.subrange(1, items.len() as int);
        let behind = laid_items(others, gap, path, i + 1) + close;
        let element = laid_value(first, gap, here.push(0)) + behind;
        assert(all =~= gap(here) + element);
        assert(only_text(gap(here)));
        law_gap_between_items(gap(here), element, done);
        law_indented_value(first, gap, here.push(0), behind);
        lemma_laid_starts_with_v(first, gap, here.push(0), behind);
        grammar::law_value_takes_markup(element);
        assert(grammar::items_from(element, done) == grammar::items_from(
            behind,
            done.push(first),
        ));
        lemma_indented_items(others, gap, path, i + 1, done.push(first), rest);
        assert(done.push(first) + others =~= done + items);
    }
}

proof fn lemma_laid_starts_with_v(
    v: ValueView,
    gap: spec_fn(Seq<int>) -> Seq<MarkupView>,
    path: Seq<int>,
    rest: Seq<MarkupView>,
)
    ensures
        ({
            let all = laid_value(v, gap, path) + rest;
            all.len() > 0 && match all[0] {
                MarkupView::Start(tag) => tag.name == text::utf8("v"@),
                MarkupView::Empty(tag) => tag.name == text::utf8("v"@),
                _ => false,
            }
        }),
{
    match v {
        ValueView::Rec(_) => {},
        ValueView::List(_) => {},
        _ => grammar::lemma_starts_with_v(v, rest),
    }
}

/// An envelope as it is written, with text put between its elements.
pub open spec fn laid_envelope(
    env: EnvelopeView,
    gap: spec_fn(Seq<int>) -> Seq<MarkupView>,
) -> Seq<MarkupView> {
    let close = gap(seq![7]) + seq![markup::end_back("message"@)];
    let payload = seq![
        MarkupView::Start(markup::tag_back("payload"@, Some(("tag"@, env.payload.tag)))),
    ] + (gap(seq![4]) + (laid_value(env.payload.value, gap, seq![5]) + (gap(seq![6]) + (seq![
        markup::end_back("payload"@),
    ] + close))));
    let meta = seq![MarkupView::Start(markup::tag_back("meta"@, None))] + (gap(seq![2])
        + (markup::read_back(grammar::meta_pieces(env.meta)) + (seq![markup::end_back("meta"@)] + (
    gap(seq![3]) + payload))));
    gap(seq![0]) + (seq![
        MarkupView::Start(markup::tag_back("message"@, Some(("xmlns"@, ENVELOPE_NS@)))),
    ] + (gap(seq![1]) + meta))
}

/// However an envelope is indented, it is read as the envelope that it is.
pub proof fn law_indented_envelope(
    env: EnvelopeView,
    gap: spec_fn(Seq<int>) -> Seq<MarkupView>,
)
    requires
        grammar::envelope_survives(env),
        forall|p: Seq<int>| only_text(#[trigger] gap(p)),
    ensures
        grammar::envelope_from(laid_envelope(env, gap)) == Ok::<_, ErrorView>(env),
{
    grammar::lemma_element_names();
    grammar::lemma_names_differ("meta"@, "message"@);
    grammar::lemma_names_differ("payload"@, "message"@);
    grammar::lemma_names_differ("payload"@, "meta"@);
    let xmlns = Some(("xmlns"@, ENVELOPE_NS@));
    let tag = Some(("tag"@, env.payload.tag));
    let end = seq![markup::end_back("message"@)];
    let close = gap(seq![7]) + end;
    let value = laid_value(env.payload.value, gap, seq![5]);
    let payload_end = seq![markup::end_back("payload"@)] + close;
    let after_value = gap(seq![6]) + payload_end;
    let in_payload = gap(seq![4]) + (value + after_value);
    let payload = seq![MarkupView::Start(markup::tag_back("payload"@, tag))] + in_payload;
    let l2 = gap(seq![3]) + payload;
    let headers = markup::read_back(grammar::meta_pieces(env.meta)) + (seq![
        markup::end_back("meta"@),
    ] + l2);
    let in_meta = gap(seq![2]) + headers;
    let meta = seq![MarkupView::Start(markup::tag_back("meta"@, None))] + in_meta;
    let l1 = gap(seq![1]) + meta;
    let l0 = seq![MarkupView::Start(markup::tag_back("message"@, xmlns))] + l1;
    let all = gap(seq![0]) + l0;
    assert(laid_envelope(env, gap) =~= all);
    assert(only_text(gap(seq![0])) && only_text(gap(seq![1])) && only_text(gap(seq![2])));
    assert(only_text(gap(seq![3])) && only_text(gap(seq![4])) && only_text(gap(seq![6])));
    assert(only_text(gap(seq![7])));
    // <message>
    law_gap_between_parts(gap(seq![0]), l0, grammar::blank());
    assert(l0[0] == MarkupView::Start(markup::tag_back("message"@, xmlns)));
    assert(l0.skip(1) =~= l1);
    let d0 = Draft { in_message: true, ..grammar::blank() };
    assert(grammar::message_from(l0, grammar::blank()) == grammar::message_from(l1, d0));
    // <meta>
    law_gap_between_parts(gap(seq![1]), meta, d0);
    assert(meta[0] == MarkupView::Start(markup::tag_back("meta"@, None)));
    assert(meta.skip(1) =~= in_meta);
    law_gap_between_headers(gap(seq![2]), headers, d0);
    grammar::lemma_meta_back(env.meta, l2);
    let d1 = grammar::header_of(env.meta);
    assert(grammar::message_from(meta, d0) == grammar::message_from(l2, d1));
    // <payload>
    law_gap_between_parts(gap(seq![3]), payload, d1);
    assert(payload[0] == MarkupView::Start(markup::tag_back("payload"@, tag)));
    assert(payload.skip(1) =~= in_payload);
    law_gap_before_value(gap(seq![4]), value + after_value);
    law_indented_value(env.payload.value, gap, seq![5], after_value);
    law_gap_before_end(gap(seq![6]), payload_end, "payload"@);
    assert(payload_end[0] == markup::end_back("payload"@));
    assert(payload_end.skip(1) =~= close);
    assert(grammar::end_from(after_value, "payload"@) == Ok::<_, ErrorView>(close));
    grammar::lemma_attr_back("payload"@, "tag"@, env.payload.tag);
    let d2 = Draft { payload: Some(env.payload), ..d1 };
    assert(env.payload == PayloadView { tag: env.payload.tag, value: env.payload.value });
    assert(close.len() < payload.len());
    assert(grammar::message_from(payload, d1) == grammar::message_from(close, d2));
    // </message>
    law_gap_between_parts(gap(seq![7]), end, d2);
    assert(end[0] == markup::end_back("message"@));
    assert(grammar::message_from(end, d2) == Ok::<_, ErrorView>(d2));
    assert(env.meta == MetaView {
        from: env.meta.from,
        to: env.meta.to,
        thread: env.meta.thread,
        provenance: env.meta.provenance,
    });
}

/// Without text between its elements, a document is laid out as it is written.
pub proof fn law_written_without_gaps(v: ValueView, path: Seq<int>)
    ensures
        laid_value(v, |p: Seq<int>| Seq::<MarkupView>::empty(), path) == markup::read_back(
            grammar::value_pieces(v),
        ),
    decreases v,
{
    let gap = |p: Seq<int>| Seq::<MarkupView>::empty();
    let none = Seq::<MarkupView>::empty();
    match v {
        ValueView::Rec(fields) => {
            let inner = grammar::fields_pieces(fields);
            lemma_fields_without_gaps(fields, path, 0);
            grammar::lemma_element_back("v"@, Some(("k"@, "rec"@)), inner, none);
            assert(laid_value(v, gap, path) =~= markup::read_back(grammar::value_pieces(v)) + none);
        },
        ValueView::List(items) => {
            let inner = grammar::items_pieces(items);
            lemma_items_without_gaps(items, path, 0);
            grammar::lemma_element_back("v"@, Some(("k"@, "seq"@)), inner, none);
            assert(laid_value(v, gap, path) =~= markup::read_back(grammar::value_pieces(v)) + none);
        },
        _ => {},
    }
}

proof fn lemma_fields_without_gaps(fields: Seq<FieldView>, path: Seq<int>, i: int)
    ensures
        laid_fields(fields, |p: Seq<int>| Seq::<MarkupView>::empty(), path, i)
            == markup::read_back(grammar::fields_pieces(fields)),
    decreases fields,
{
    let gap = |p: Seq<int>| Seq::<MarkupView>::empty();
    if fields.len() > 0 {
        let first = fields[0];
        let others = fields.subrange(1, fields.len() as int);
        let attr = Some(("n"@, first.name));
        let inner = grammar::value_pieces(first.value);
        let element = seq![Piece::Start("f"@, attr)] + inner + seq![
            Piece::End("f"@),
        ];
        assert(grammar::fields_pieces(fields) =~= element + grammar::fields_pieces(others));
        markup::lemma_read_back_concat(element, grammar::fields_pieces(others));
        grammar::lemma_element_back(
            "f"@,
            attr,
            inner,
            markup::read_back(grammar::fields_pieces(others)),
        );
        law_written_without_gaps(first.value, path.push(i).push(1));
        lemma_fields_without_gaps(others, path, i + 1);
        assert(laid_fields(fields, gap, path, i) =~= markup::read_back(
            grammar::fields_pieces(fields),
        ));
    }
}

proof fn lemma_items_without_gaps(items: Seq<ValueView>, path: Seq<int>, i: int)
    ensures
        laid_items(items, |p: Seq<int>| Seq::<MarkupView>::empty(), path, i) == markup::read_back(
            grammar::items_pieces(items),
        ),
    decreases items,
{
    let gap = |p: Seq<int>| Seq::<MarkupView>::empty();
    if items.len() > 0 {
        let first = items[0];
        let others = items.subrange(1, items.len() as int);
        assert(grammar::items_pieces(items) =~= grammar::value_pieces(first)
            + grammar::items_pieces(others));
        markup::lemma_read_back_concat(
            grammar::value_pieces(first),
            grammar::items_pieces(others),
        );
        law_written_without_gaps(first, path.push(i).push(0));
        lemma_items_without_gaps(others, path, i + 1);
        assert(laid_items(items, gap, path, i) =~= markup::read_back(
            grammar::items_pieces(items),
        ));
    }
}

// ── Scalars ──────────────────────────────────────────────────────────

proof fn lemma_nil_is_short()
    ensures
        "nil"@ != "text"@,
        "nil"@ != "uint"@,
        "nil"@ != "sint"@,
        "nil"@ != "real"@,
        "nil"@ != "bool"@,
        "nil"@ != "blob"@,
{
    reveal_strlit("nil");
    reveal_strlit("text");
    reveal_strlit("uint");
    reveal_strlit("sint");
    reveal_strlit("real");
    reveal_strlit("bool");
    reveal_strlit("blob");
    assert("nil"@.len() == 3 && "text"@.len() == 4 && "uint"@.len() == 4 && "sint"@.len() == 4);
    assert("real"@.len() == 4 && "bool"@.len() == 4 && "blob"@.len() == 4);
}

/// A value that closes itself is read as one with nothing in it, where nothing is a value
/// of its kind; a number or a flag with nothing in it is no value.
pub proof fn law_self_closing_is_empty(
    tag: TagView,
    shown: Seq<char>,
    rest: Seq<MarkupView>,
)
    requires
        tag.name == text::utf8("v"@),
    ensures
        ({
            let kind = markup::attr_or_empty(tag, "k"@);
            let short = seq![MarkupView::Empty(tag)] + rest;
            let long = seq![MarkupView::Start(tag), MarkupView::End(text::utf8("v"@), shown)] + rest;
            if kind == "rec"@ || kind == "seq"@ || kind == "text"@ || kind == "blob"@ || kind
                == "nil"@ {
                grammar::value_at(short) == grammar::value_at(long)
            } else {
                grammar::value_at(short) == Ok::<_, ErrorView>((ValueView::Nil, rest))
            }
        }),
{
    let kind = markup::attr_or_empty(tag, "k"@);
    let short = seq![MarkupView::Empty(tag)] + rest;
    let long = seq![MarkupView::Start(tag), MarkupView::End(text::utf8("v"@), shown)] + rest;
    let end = seq![MarkupView::End(text::utf8("v"@), shown)] + rest;
    assert(short[0] == MarkupView::Empty(tag));
    assert(short.skip(1) =~= rest);
    assert(long[0] == MarkupView::Start(tag));
    assert(long.skip(1) =~= end);
    assert(end[0] == MarkupView::End(text::utf8("v"@), shown));
    assert(end.skip(1) =~= rest);
    grammar::lemma_kinds();
    lemma_nil_is_short();
    law_closing_tag_ends(rest, shown);
    let none = Seq::<char>::empty();
    assert(grammar::scalar_from(end, kind, none) == Ok::<_, ErrorView>((none, rest)));
    text::lemma_trim_identity(none, |c: char| text::white_space(c));
    assert(text::utf8(text::trimmed(none)).len() == 0) by {
        text::lemma_ascii_len(none);
    }
    assert(text::utf8(text::trimmed(none)) =~= Seq::<u8>::empty());
    assert(grammar::blob_of(none) == Ok::<_, ErrorView>(Seq::<u8>::empty()));
    if kind != "rec"@ && kind != "seq"@ {
        assert(grammar::value_at(long) == grammar::value_from(end, kind));
    }
}

/// A scalar is read from its text: a text whole, with the white space at its ends, and
/// anything else from what stands between white space.
pub proof fn law_scalars_are_read_from_their_text(
    tag: TagView,
    w: WordsView,
    shown: Seq<char>,
    rest: Seq<MarkupView>,
)
    requires
        tag.name == text::utf8("v"@),
    ensures
        ({
            let kind = markup::attr_or_empty(tag, "k"@);
            let r = grammar::value_at(
                seq![
                    MarkupView::Start(tag),
                    MarkupView::Text(Ok(w)),
                    MarkupView::End(text::utf8("v"@), shown),
                ] + rest,
            );
            &&& kind == "text"@ ==> r == Ok::<_, ErrorView>((ValueView::Text(w.whole), rest))
            &&& kind == "bool"@ ==> r == Ok::<_, ErrorView>(
                (ValueView::Boolean(w.core == "true"@), rest),
            )
            &&& kind == "uint"@ ==> match numbers::u64_value(w.core) {
                Some(n) => r == Ok::<_, ErrorView>((ValueView::Uint(n), rest)),
                None => r is Err,
            }
            &&& kind == "sint"@ ==> match numbers::i64_value(w.core) {
                Some(n) => r == Ok::<_, ErrorView>((ValueView::Sint(n), rest)),
                None => r is Err,
            }
            &&& kind == "real"@ ==> if numbers::is_real(w.core) {
                r == Ok::<_, ErrorView>((ValueView::Real(w.core), rest))
            } else {
                r is Err
            }
            &&& kind == "blob"@ ==> match grammar::blob_of(w.core) {
                Ok(bytes) => r == Ok::<_, ErrorView>((ValueView::Blob(bytes), rest)),
                Err(_) => r is Err,
            }
            &&& kind == "nil"@ ==> r == Ok::<_, ErrorView>((ValueView::Nil, rest))
        }),
{
    grammar::lemma_kinds();
    lemma_nil_is_short();
    let kind = markup::attr_or_empty(tag, "k"@);
    let end = seq![MarkupView::End(text::utf8("v"@), shown)] + rest;
    let body = seq![MarkupView::Text(Ok(w))] + end;
    let all = seq![
        MarkupView::Start(tag),
        MarkupView::Text(Ok(w)),
        MarkupView::End(text::utf8("v"@), shown),
    ] + rest;
    assert(all[0] == MarkupView::Start(tag));
    assert(all.skip(1) =~= body);
    assert(body[0] == MarkupView::Text(Ok(w)));
    assert(body.skip(1) =~= end);
    assert(end[0] == MarkupView::End(text::utf8("v"@), shown));
    assert(end.skip(1) =~= rest);
    let c = grammar::content_of(kind, w);
    assert(Seq::<char>::empty() + c =~= c);
    assert(grammar::scalar_from(end, kind, c) == Ok::<_, ErrorView>((c, rest)));
    assert(grammar::scalar_from(body, kind, seq![]) == Ok::<_, ErrorView>((c, rest)));
    assert(grammar::value_at(all) == grammar::value_from(body, kind));
    if grammar::is_scalar_kind(kind) {
        assert(kind != "rec"@ && kind != "seq"@);
        assert(grammar::value_from(body, kind) == match grammar::scalar_value(kind, c) {
            Ok(v) => Ok((v, rest)),
            Err(e) => Err(e),
        });
    }
}

/// A value of a kind that is not known is refused.
pub proof fn law_unknown_kinds_are_refused(left: Seq<MarkupView>, kind: Seq<char>)
    requires
        kind != "rec"@ && kind != "seq"@ && kind != "text"@ && kind != "uint"@ && kind != "sint"@
            && kind != "real"@ && kind != "bool"@ && kind != "blob"@ && kind != "nil"@,
    ensures
        grammar::value_from(left, kind) is Err,
{
}

// ── Writing ──────────────────────────────────────────────────────────

/// A document is one message element in the namespace of envelopes.
pub proof fn law_message_in_its_namespace(env: EnvelopeView)
    ensures
        ({
            let pieces = grammar::envelope_pieces(env);
            &&& pieces.len() > 2
            &&& pieces[0] == Piece::Start("message"@, Some(("xmlns"@, ENVELOPE_NS@)))
            &&& pieces[1] == Piece::Start("meta"@, None)
            &&& pieces.last() == Piece::End("message"@)
        }),
{
}

/// The header holds the sender and the thread, and a destination and a label-set only where
/// there are any: three pieces each.
pub proof fn law_absent_headers_are_left_out(meta: MetaView)
    ensures
        grammar::meta_pieces(meta).len() == 6 + (if meta.to is Some {
            3int
        } else {
            0
        }) + (if meta.provenance.bits_lo == 0 && meta.provenance.bits_hi == 0 {
            0int
        } else {
            3
        }),
        grammar::meta_pieces(meta)[0] == Piece::Start("from"@, None),
        grammar::meta_pieces(meta)[1] == Piece::Text(address::shown(meta.from)),
        meta.to matches Some(to) ==> grammar::meta_pieces(meta)[3] == Piece::Start("to"@, None)
            && grammar::meta_pieces(meta)[4] == Piece::Text(address::shown(to)),
{
}

// ── The parts of a message ───────────────────────────────────────────

/// The elements of a message, each read for itself: the message's own tag opens it, a header
/// is read into what is known so far, a payload takes the place of one before it, and
/// anything else is refused. The message's closing tag ends it, whatever stands behind.
pub proof fn law_parts_of_a_message(
    tag: TagView,
    left: Seq<MarkupView>,
    d: Draft,
    shown: Seq<char>,
)
    ensures
        ({
            let all = seq![MarkupView::Start(tag)] + left;
            &&& tag.name == text::utf8("message"@) ==> grammar::message_from(all, d)
                == grammar::message_from(left, Draft { in_message: true, ..d })
            &&& tag.name == text::utf8("meta"@) ==> grammar::message_from(all, d) == match grammar::meta_from(
                left,
                None,
                d,
            ) {
                Ok((next, behind)) => grammar::message_from(behind, next),
                Err(e) => Err(e),
            }
            &&& tag.name == text::utf8("payload"@) ==> grammar::message_from(all, d) == match grammar::value_at(
                left,
            ) {
                Ok((value, inside)) => match grammar::end_from(inside, "payload"@) {
                    Ok(behind) => grammar::message_from(
                        behind,
                        Draft {
                            payload: Some(
                                PayloadView { tag: markup::attr_or_empty(tag, "tag"@), value },
                            ),
                            ..d
                        },
                    ),
                    Err(e) => Err(e),
                },
                Err(e) => Err(e),
            }
            &&& tag.name != text::utf8("message"@) && tag.name != text::utf8("meta"@) && tag.name
                != text::utf8("payload"@) ==> grammar::message_from(all, d) is Err
        }),
        grammar::message_from(
            seq![MarkupView::End(text::utf8("message"@), shown)] + left,
            d,
        ) == Ok::<_, ErrorView>(d),
{
    grammar::lemma_element_names();
    grammar::lemma_names_differ("meta"@, "message"@);
    grammar::lemma_names_differ("payload"@, "message"@);
    grammar::lemma_names_differ("payload"@, "meta"@);
    let all = seq![MarkupView::Start(tag)] + left;
    assert(all[0] == MarkupView::Start(tag));
    assert(all.skip(1) =~= left);
    grammar::law_meta_takes_markup(left, None, d);
    grammar::law_value_takes_markup(left);
    if let Ok((_, inside)) = grammar::value_at(left) {
        law_end_takes_markup(inside, "payload"@);
    }
    let end = seq![MarkupView::End(text::utf8("message"@), shown)] + left;
    assert(end[0] == MarkupView::End(text::utf8("message"@), shown));
}

/// An element of the header gives its text, without white space at its ends, to the part
/// that it names; one with nothing but white space in it gives nothing. The closing tag of
/// the header ends it.
pub proof fn law_header_element_gives_its_text(
    tag: TagView,
    w: WordsView,
    name: Seq<u8>,
    shown: Seq<char>,
    left: Seq<MarkupView>,
    field: Option<Seq<u8>>,
    d: Draft,
)
    requires
        name != text::utf8("meta"@),
    ensures
        ({
            let all = seq![
                MarkupView::Start(tag),
                MarkupView::Text(Ok(w)),
                MarkupView::End(name, shown),
            ] + left;
            grammar::meta_from(all, field, d) == if w.core.len() == 0 {
                grammar::meta_from(left, None, d)
            } else {
                match grammar::with_meta(d, tag.name, text::trimmed(w.core)) {
                    Ok(next) => grammar::meta_from(left, None, next),
                    Err(e) => Err(e),
                }
            }
        }),
        grammar::meta_from(
            seq![MarkupView::End(text::utf8("meta"@), shown)] + left,
            field,
            d,
        ) == Ok::<_, ErrorView>((d, left)),
{
    let end = seq![MarkupView::End(name, shown)] + left;
    let body = seq![MarkupView::Text(Ok(w))] + end;
    let all = seq![
        MarkupView::Start(tag),
        MarkupView::Text(Ok(w)),
        MarkupView::End(name, shown),
    ] + left;
    let opened = Some(tag.name);
    assert(all[0] == MarkupView::Start(tag));
    assert(all.skip(1) =~= body);
    assert(body[0] == MarkupView::Text(Ok(w)));
    assert(body.skip(1) =~= end);
    assert(end[0] == MarkupView::End(name, shown));
    assert(end.skip(1) =~= left);
    assert(grammar::meta_from(all, field, d) == grammar::meta_from(body, opened, d));
    if w.core.len() == 0 {
        assert(grammar::meta_from(body, opened, d) == grammar::meta_from(end, opened, d));
    } else if let Ok(next) = grammar::with_meta(d, tag.name, text::trimmed(w.core)) {
        assert(grammar::meta_from(body, opened, d) == grammar::meta_from(end, opened, next));
    }
    let close = seq![MarkupView::End(text::utf8("meta"@), shown)] + left;
    assert(close[0] == MarkupView::End(text::utf8("meta"@), shown));
    assert(close.skip(1) =~= left);
}

/// Comments and self-closing elements change nothing in the header, inside its elements or
/// between them.
pub proof fn law_gap_in_header_elements(
    gap: Seq<MarkupView>,
    left: Seq<MarkupView>,
    field: Option<Seq<u8>>,
    d: Draft,
)
    requires
        forall|i: int| 0 <= i < gap.len() ==> (gap[i] is Other || #[trigger] gap[i] is Empty),
    ensures
        grammar::meta_from(gap + left, field, d) == grammar::meta_from(left, field, d),
    decreases gap.len(),
{
    lemma_gap(gap, left);
    if gap.len() > 0 {
        let rest = gap.skip(1);
        assert(gap[0] is Other || gap[0] is Empty);
        assert forall|i: int| 0 <= i < rest.len() implies (rest[i] is Other || #[trigger] rest[i] is Empty) by {
            assert(rest[i] == gap[i + 1]);
            assert(gap[i + 1] is Other || gap[i + 1] is Empty);
        }
        law_gap_in_header_elements(rest, left, field, d);
    }
}

/// A byte string is read from pairs of hexadecimal digits, with white space around them or
/// without, and from nothing else.
pub proof fn law_blobs_are_pairs_of_digits(
    front: Seq<char>,
    s: Seq<char>,
    back: Seq<char>,
    bytes: Seq<u8>,
)
    requires
        forall|i: int| 0 <= i < front.len() ==> text::white_space(#[trigger] front[i]),
        forall|i: int| 0 <= i < back.len() ==> text::white_space(#[trigger] back[i]),
        s.len() > 0 ==> !text::white_space(s[0]) && !text::white_space(s.last()),
    ensures
        grammar::blob_of(front + s + back) == grammar::blob_of(s),
        text::utf8(s).len() % 2 != 0 ==> grammar::blob_of(s) is Err,
        text::utf8(s).len() % 2 == 0 ==> match (grammar::blob_of(s), numbers::hex_bytes(
            text::utf8(s),
        )) {
            (Ok(read), Some(given)) => read == given,
            (Err(_), None) => true,
            _ => false,
        },
        grammar::blob_of(numbers::hex_text(bytes)) == Ok::<_, ErrorView>(bytes),
{
    text::law_trimmed_between_spaces(front, s, back);
    text::lemma_trim_identity(s, |c: char| text::white_space(c));
    grammar::lemma_blob_back(bytes);
}

/// A value is one element, which names its kind: scalars hold their text, records their
/// fields and lists their items, and nothing is an element that closes itself.
pub proof fn law_value_is_one_element(v: ValueView)
    ensures
        ({
            let pieces = grammar::value_pieces(v);
            let kind = |k: Seq<char>| Piece::Start("v"@, Some(("k"@, k)));
            let scalar = |k: Seq<char>, s: Seq<char>|
                pieces == seq![kind(k), Piece::Text(s), Piece::End("v"@)];
            match v {
                ValueView::Text(s) => scalar("text"@, s),
                ValueView::Uint(n) => scalar("uint"@, numbers::decimal(n as nat)),
                ValueView::Sint(n) => scalar("sint"@, numbers::signed_decimal(n as int)),
                ValueView::Real(s) => scalar("real"@, s),
                ValueView::Boolean(b) => scalar(
                    "bool"@,
                    if b {
                        "true"@
                    } else {
                        "false"@
                    },
                ),
                ValueView::Blob(bytes) => scalar("blob"@, numbers::hex_text(bytes)),
                ValueView::Nil => pieces == seq![Piece::Empty("v"@, Some(("k"@, "nil"@)))],
                ValueView::Rec(fields) => {
                    &&& pieces[0] == kind("rec"@)
                    &&& pieces.last() == Piece::End("v"@)
                    &&& pieces.subrange(1, pieces.len() - 1) == grammar::fields_pieces(fields)
                },
                ValueView::List(items) => {
                    &&& pieces[0] == kind("seq"@)
                    &&& pieces.last() == Piece::End("v"@)
                    &&& pieces.subrange(1, pieces.len() - 1) == grammar::items_pieces(items)
                },
            }
        }),
{
    let pieces = grammar::value_pieces(v);
    match v {
        ValueView::Rec(fields) => {
            assert(pieces.subrange(1, pieces.len() - 1) =~= grammar::fields_pieces(fields));
        },
        ValueView::List(items) => {
            assert(pieces.subrange(1, pieces.len() - 1) =~= grammar::items_pieces(items));
        },
        _ => {},
    }
}

/// Fields are written one behind the other, each as an element with its name.
pub proof fn law_fields_are_written_in_order(
    a: Seq<FieldView>,
    b: Seq<FieldView>,
    field: FieldView,
)
    ensures
        grammar::fields_pieces(a + b) == grammar::fields_pieces(a) + grammar::fields_pieces(b),
        grammar::fields_pieces(seq![field]) == seq![
            Piece::Start("f"@, Some(("n"@, field.name))),
        ] + grammar::value_pieces(field.value) + seq![Piece::End("f"@)],
    decreases a.len(),
{
    let one = seq![field];
    assert(one.subrange(1, 1) =~= Seq::<FieldView>::empty());
    assert(grammar::fields_pieces(one.subrange(1, 1)) =~= Seq::<Piece>::empty());
    assert(grammar::fields_pieces(one) =~= seq![Piece::Start("f"@, Some(("n"@, field.name)))]
        + grammar::value_pieces(field.value) + seq![Piece::End("f"@)]);
    if a.len() == 0 {
        assert(a + b =~= b);
        assert(grammar::fields_pieces(a + b) =~= grammar::fields_pieces(a)
            + grammar::fields_pieces(b));
    } else {
        let others = a.subrange(1, a.len() as int);
        assert((a + b).subrange(1, (a + b).len() as int) =~= others + b);
        assert((a + b)[0] == a[0]);
        law_fields_are_written_in_order(others, b, field);
        assert(grammar::fields_pieces(a + b) =~= grammar::fields_pieces(a)
            + grammar::fields_pieces(b));
    }
}

/// Items are written one behind the other.
pub proof fn law_items_are_written_in_order(
    a: Seq<ValueView>,
    b: Seq<ValueView>,
    item: ValueView,
)
    ensures
        grammar::items_pieces(a + b) == grammar::items_pieces(a) + grammar::items_pieces(b),
        grammar::items_pieces(seq![item]) == grammar::value_pieces(item),
    decreases a.len(),
{
    let one = seq![item];
    assert(one.subrange(1, 1) =~= Seq::<ValueView>::empty());
    assert(grammar::items_pieces(one.subrange(1, 1)) =~= Seq::<Piece>::empty());
    assert(grammar::items_pieces(one) =~= grammar::value_pieces(item));
    if a.len() == 0 {
        assert(a + b =~= b);
        assert(grammar::items_pieces(a + b) =~= grammar::items_pieces(a) + grammar::items_pieces(b));
    } else {
        let others = a.subrange(1, a.len() as int);
        assert((a + b).subrange(1, (a + b).len() as int) =~= others + b);
        assert((a + b)[0] == a[0]);
        law_items_are_written_in_order(others, b, item);
        assert(grammar::items_pieces(a + b) =~= grammar::items_pieces(a) + grammar::items_pieces(b));
    }
}

/// Nothing but text may stand before a closing tag that is due, nor before a value: any other
/// tag, a comment or the like is refused.
pub proof fn law_nothing_else_is_passed_over(
    m: MarkupView,
    left: Seq<MarkupView>,
    name: Seq<char>,
)
    ensures
        !(m is Text) && !(m matches MarkupView::End(n, _) && n == text::utf8(name))
            ==> grammar::end_from(seq![m] + left, name) is Err,
        m matches MarkupView::End(n, _) ==> n == text::utf8(name) ==> grammar::end_from(
            seq![m] + left,
            name,
        ) == Ok::<_, ErrorView>(left),
        m is Other || m is End || is_other_tag(m, "v"@) ==> grammar::value_at(seq![m] + left) is Err,
{
    let all = seq![m] + left;
    assert(all[0] == m);
    assert(all.skip(1) =~= left);
}

/// Text whose entities cannot be resolved is refused where it counts: in a scalar, and in an
/// element of the header.
pub proof fn law_unresolved_text_is_refused(
    e: Seq<char>,
    left: Seq<MarkupView>,
    kind: Seq<char>,
    before: Seq<char>,
    name: Seq<u8>,
    d: Draft,
)
    ensures
        ({
            let all = seq![MarkupView::Text(Err(e))] + left;
            &&& grammar::scalar_from(all, kind, before) == Err::<(Seq<char>, Seq<MarkupView>), _>(
                ErrorView::EnvelopeParse(e),
            )
            &&& grammar::meta_from(all, Some(name), d) == Err::<(Draft, Seq<MarkupView>), _>(
                ErrorView::EnvelopeParse(e),
            )
        }),
{
    let all = seq![MarkupView::Text(Err(e))] + left;
    assert(all[0] == MarkupView::Text(Err(e)));
}

} // verus!
