//! XML markup: the boundary to `quick-xml`.
//!
//! A document is read into a list of [`Markup`] items, and written piece by piece;
//! [`read_back`] says what is read of the pieces that were written.

use quick_xml::events::{BytesEnd, BytesStart, BytesText, Event};
use quick_xml::reader::Reader;
use quick_xml::writer::Writer;
use vstd::prelude::*;

use crate::text;

verus! {

// ── Outside types ────────────────────────────────────────────────────

/// The pull reader of `quick-xml`.
#[verifier::external_type_specification]
#[verifier::external_body]
#[verifier::reject_recursive_types(R)]
pub struct ExReader<R>(Reader<R>);

/// The event writer of `quick-xml`.
#[verifier::external_type_specification]
#[verifier::external_body]
#[verifier::reject_recursive_types(W)]
pub struct ExWriter<W>(Writer<W>);

/// A text of `quick-xml`.
#[verifier::external_type_specification]
#[verifier::external_body]
pub struct ExBytesText<'a>(BytesText<'a>);

/// An opening or self-closing tag of `quick-xml`: a name and a list of attributes.
#[verifier::external_type_specification]
#[verifier::external_body]
pub struct ExBytesStart<'a>(BytesStart<'a>);

// ── Reading ──────────────────────────────────────────────────────────

/// An attribute of a tag: its key, its value as it stands between the quotes, and that
/// value with its entities resolved, if they can be.
pub struct Attr {
    pub key: Vec<u8>,
    pub raw: Vec<u8>,
    pub text: Option<String>,
}

/// The model of an [`Attr`].
pub struct AttrView {
    pub key: Seq<u8>,
    pub raw: Seq<u8>,
    pub text: Option<Seq<char>>,
}

impl View for Attr {
    type V = AttrView;

    open spec fn view(&self) -> AttrView {
        AttrView {
            key: self.key@,
            raw: self.raw@,
            text: match self.text {
                Some(t) => Some(t@),
                None => None,
            },
        }
    }
}

/// The model of an optional attribute.
pub open spec fn opt_attr(a: Option<Attr>) -> Option<AttrView> {
    match a {
        Some(a) => Some(a@),
        None => None,
    }
}

/// A tag: its name, its attributes, with `None` in the place of an attribute that is not
/// well-formed, and how it is shown in messages.
pub struct Tag {
    pub name: Vec<u8>,
    pub attrs: Vec<Option<Attr>>,
    pub shown: String,
}

/// The model of a [`Tag`].
pub struct TagView {
    pub name: Seq<u8>,
    pub attrs: Seq<Option<AttrView>>,
    pub shown: Seq<char>,
}

impl View for Tag {
    type V = TagView;

    open spec fn view(&self) -> TagView {
        TagView {
            name: self.name@,
            attrs: self.attrs@.map_values(|a: Option<Attr>| opt_attr(a)),
            shown: self.shown@,
        }
    }
}

/// Text between tags with its entities resolved: all of it, and what stands between the
/// white space at its ends. An entity for white space belongs to what stands there.
pub struct Words {
    pub whole: String,
    pub core: String,
}

/// The model of [`Words`].
pub struct WordsView {
    pub whole: Seq<char>,
    pub core: Seq<char>,
}

impl View for Words {
    type V = WordsView;

    open spec fn view(&self) -> WordsView {
        WordsView { whole: self.whole@, core: self.core@ }
    }
}

/// One item of a document.
pub enum Markup {
    /// An opening tag.
    Start(Tag),
    /// A self-closing tag.
    Empty(Tag),
    /// A closing tag's name, and how the tag is shown in messages.
    End(Vec<u8>, String),
    /// Text between tags, or why its entities could not be resolved.
    Text(Result<Words, String>),
    /// A comment, a declaration, a processing instruction or a character data section, as
    /// it is shown in messages.
    Other(String),
    /// Input that is no markup, and what is wrong with it.
    Malformed(String),
}

/// The model of a [`Markup`].
pub enum MarkupView {
    Start(TagView),
    Empty(TagView),
    End(Seq<u8>, Seq<char>),
    Text(Result<WordsView, Seq<char>>),
    Other(Seq<char>),
    Malformed(Seq<char>),
}

impl View for Markup {
    type V = MarkupView;

    open spec fn view(&self) -> MarkupView {
        match self {
            Markup::Start(tag) => MarkupView::Start(tag@),
            Markup::Empty(tag) => MarkupView::Empty(tag@),
            Markup::End(name, shown) => MarkupView::End(name@, shown@),
            Markup::Text(Ok(t)) => MarkupView::Text(Ok(t@)),
            Markup::Text(Err(e)) => MarkupView::Text(Err(e@)),
            Markup::Other(shown) => MarkupView::Other(shown@),
            Markup::Malformed(e) => MarkupView::Malformed(e@),
        }
    }
}

/// The models of a list of items.
pub open spec fn markup_views(items: Seq<Markup>) -> Seq<MarkupView> {
    items.map_values(|m: Markup| m@)
}

/// The models of the items from position `at` on.
pub open spec fn left_from(items: Seq<Markup>, at: int) -> Seq<MarkupView> {
    markup_views(items).skip(at)
}

/// From one position to the next, the first item is gone.
pub proof fn lemma_left_from(items: Seq<Markup>, at: int)
    requires
        0 <= at <= items.len(),
    ensures
        left_from(items, at).len() == items.len() - at,
        at < items.len() ==> left_from(items, at)[0] == items[at]@,
        at < items.len() ==> left_from(items, at).skip(1) == left_from(items, at + 1),
{
    if at < items.len() {
        assert(left_from(items, at).skip(1) =~= left_from(items, at + 1));
    }
}

/// What a reader hands out: an item of a document, with tags and text as the reader holds
/// them, or the end of the input.
enum Read {
    Start(BytesStart<'static>),
    Empty(BytesStart<'static>),
    Text(BytesText<'static>),
    Item(Markup),
    Eof,
}

/// The attributes that a tag holds, in their order.
pub uninterp spec fn attrs_held(tag: BytesStart<'static>) -> Seq<Option<AttrView>>;

/// The name that a tag holds.
pub uninterp spec fn name_held(tag: BytesStart<'static>) -> Seq<u8>;

/// The content that a tag holds: all that stands between its angle brackets, but for the
/// slash of a self-closing tag.
pub uninterp spec fn content_held(tag: BytesStart<'static>) -> Seq<u8>;

/// The debug form of a tag with the given content, whose name takes up `name_len` bytes.
pub uninterp spec fn tag_shown(content: Seq<u8>, name_len: nat) -> Seq<char>;

/// The debug form of a closing tag with the given name.
pub uninterp spec fn end_shown(name: Seq<u8>) -> Seq<char>;

/// The model of `tag`.
pub open spec fn tag_view(tag: BytesStart<'static>) -> TagView {
    TagView {
        name: name_held(tag),
        attrs: attrs_held(tag),
        shown: tag_shown(content_held(tag), name_held(tag).len()),
    }
}

/// A text with its entities resolved, or why they cannot be.
pub uninterp spec fn whole_held(text: BytesText<'static>) -> Result<Seq<char>, Seq<char>>;

/// What stands between the white space at a text's ends, with its entities resolved, or
/// why they cannot be.
pub uninterp spec fn core_held(text: BytesText<'static>) -> Result<Seq<char>, Seq<char>>;

/// The model of `text`.
pub open spec fn text_view(text: BytesText<'static>) -> Result<WordsView, Seq<char>> {
    match (core_held(text), whole_held(text)) {
        (Ok(core), Ok(whole)) => Ok(WordsView { whole, core }),
        (Err(e), _) => Err(e),
        (_, Err(e)) => Err(e),
    }
}

/// The model of what is handed out; the end of the input has none.
spec fn event_view(e: Read) -> Option<MarkupView> {
    match e {
        Read::Start(tag) => Some(MarkupView::Start(tag_view(tag))),
        Read::Empty(tag) => Some(MarkupView::Empty(tag_view(tag))),
        Read::Text(text) => Some(MarkupView::Text(text_view(text))),
        Read::Item(m) => Some(m@),
        Read::Eof => None,
    }
}

/// What `quick-xml` reads from `raw` up to the end of the input.
pub uninterp spec fn markup_of(raw: Seq<u8>) -> Seq<MarkupView>;

/// What `reader` has yet to hand out before the end of the input.
pub uninterp spec fn markup_left(reader: Reader<&[u8]>) -> Seq<MarkupView>;

/// `Reader::from_reader`, which hands out text as it stands: a new reader has everything
/// yet to hand out. Each item takes up at least one byte of input.
#[verifier::external_body]
fn open_markup<'a>(raw: &'a [u8]) -> (reader: Reader<&'a [u8]>)
    ensures
        markup_left(reader) == markup_of(raw@),
        markup_left(reader).len() <= raw@.len(),
{
    Reader::from_reader(raw)
}

/// `Reader::read_event` and the `Debug` form of events: hands out the next item, and the
/// end of the input once nothing is left. The debug form of a closing tag depends on its
/// name alone.
#[verifier::external_body]
fn next_event(reader: &mut Reader<&[u8]>) -> (e: Read)
    ensures
        markup_left(*old(reader)).len() == 0 ==> e is Eof && markup_left(*final(reader)).len() == 0,
        markup_left(*old(reader)).len() > 0 ==> event_view(e) == Some(
            markup_left(*old(reader))[0],
        ) && markup_left(*final(reader)) == markup_left(*old(reader)).skip(1),
        e matches Read::Item(Markup::End(name, shown)) ==> shown@ == end_shown(name@),
{
    match reader.read_event() {
        Ok(Event::Start(e)) => Read::Start(e.into_owned()),
        Ok(Event::Empty(e)) => Read::Empty(e.into_owned()),
        Ok(Event::End(e)) => Read::Item(Markup::End(e.to_vec(), format!("{:?}", e))),
        Ok(Event::Text(t)) => Read::Text(t.into_owned()),
        Ok(Event::Eof) => Read::Eof,
        Ok(e) => Read::Item(Markup::Other(format!("{:?}", e))),
        Err(e) => Read::Item(Markup::Malformed(e.to_string())),
    }
}

/// `BytesStart::name`: the name of a tag.
#[verifier::external_body]
fn tag_name(tag: &BytesStart<'static>) -> (r: Vec<u8>)
    ensures
        r@ == name_held(*tag),
{
    tag.name().as_ref().to_vec()
}

/// The `Debug` form of `BytesStart`, which depends on its content and the length of its
/// name alone.
#[verifier::external_body]
fn show_tag(tag: &BytesStart<'static>) -> (r: String)
    ensures
        r@ == tag_shown(content_held(*tag), name_held(*tag).len()),
{
    format!("{:?}", tag.borrow())
}

/// `BytesStart::attributes` and `Attribute::unescape_value`: the attributes of a tag one by
/// one, those that are not well-formed as `None`.
#[verifier::external_body]
fn tag_attrs(tag: &BytesStart<'static>) -> (r: Vec<Option<Attr>>)
    ensures
        r@.map_values(|a: Option<Attr>| opt_attr(a)) == attrs_held(*tag),
{
    tag.attributes()
        .map(
            |a|
                a.ok().map(
                    |a|
                        Attr {
                            key: a.key.as_ref().to_vec(),
                            raw: a.value.to_vec(),
                            text: a.unescape_value().ok().map(|t| t.into_owned()),
                        },
                ),
        )
        .collect()
}

/// The model of a resolved text.
pub open spec fn resolved_view(r: Result<String, String>) -> Result<Seq<char>, Seq<char>> {
    match r {
        Ok(t) => Ok(t@),
        Err(e) => Err(e@),
    }
}

/// `BytesText::unescape`: a text with its entities resolved.
#[verifier::external_body]
fn whole_text(text: &BytesText<'static>) -> (r: Result<String, String>)
    ensures
        resolved_view(r) == whole_held(*text),
{
    text.unescape().map(|t| t.into_owned()).map_err(|e| e.to_string())
}

/// `BytesText::inplace_trim_start`, `BytesText::inplace_trim_end` and then
/// `BytesText::unescape`: a text without the white space that stands at its ends, with its
/// entities resolved.
#[verifier::external_body]
fn core_text(text: &BytesText<'static>) -> (r: Result<String, String>)
    ensures
        resolved_view(r) == core_held(*text),
{
    let mut text = text.borrow();
    text.inplace_trim_start();
    text.inplace_trim_end();
    text.unescape().map(|t| t.into_owned()).map_err(|e| e.to_string())
}

/// A text as plain values.
fn plain_text(text: BytesText<'static>) -> (r: Markup)
    ensures
        r@ == MarkupView::Text(text_view(text)),
{
    match (core_text(&text), whole_text(&text)) {
        (Ok(core), Ok(whole)) => Markup::Text(Ok(Words { whole, core })),
        (Err(e), _) => Markup::Text(Err(e)),
        (_, Err(e)) => Markup::Text(Err(e)),
    }
}

/// A tag as plain values.
fn plain_tag(tag: BytesStart<'static>) -> (r: Tag)
    ensures
        r@ == tag_view(tag),
{
    Tag { name: tag_name(&tag), attrs: tag_attrs(&tag), shown: show_tag(&tag) }
}

/// Reads a document, item by item, up to the end of the input.
pub fn read_markup(raw: &[u8]) -> (r: Vec<Markup>)
    ensures
        markup_views(r@) == markup_of(raw@),
        r@.len() <= raw@.len(),
{
    let mut reader = open_markup(raw);
    let mut items: Vec<Markup> = Vec::new();
    let ghost all = markup_of(raw@);
    assert(markup_views(items@) + markup_left(reader) =~= all);
    loop
        invariant_except_break
            markup_views(items@) + markup_left(reader) == all,
        invariant
            all == markup_of(raw@),
            all.len() <= raw@.len(),
        ensures
            markup_views(items@) == all,
        decreases markup_left(reader).len(),
    {
        let ghost left = markup_left(reader);
        let ghost before = items@;
        let item = match next_event(&mut reader) {
            Read::Start(tag) => Markup::Start(plain_tag(tag)),
            Read::Empty(tag) => Markup::Empty(plain_tag(tag)),
            Read::Text(text) => plain_text(text),
            Read::Item(m) => m,
            Read::Eof => {
                assert(markup_views(items@) =~= all);
                break;
            },
        };
        items.push(item);
        proof {
            assert(markup_views(items@) =~= markup_views(before).push(item@));
            assert(markup_views(items@) + markup_left(reader) =~= markup_views(before) + left);
        }
    }
    items
}

// ── Writing ──────────────────────────────────────────────────────────

/// What a writer takes: tags with at most one attribute, text and closing tags.
pub enum Piece {
    Start(Seq<char>, Option<(Seq<char>, Seq<char>)>),
    Empty(Seq<char>, Option<(Seq<char>, Seq<char>)>),
    Text(Seq<char>),
    End(Seq<char>),
}

/// `c` with the characters that markup reserves replaced by their entities.
pub open spec fn escaped_char(c: char) -> Seq<char> {
    if c == '<' {
        "&lt;"@
    } else if c == '>' {
        "&gt;"@
    } else if c == '&' {
        "&amp;"@
    } else if c == '\'' {
        "&apos;"@
    } else if c == '"' {
        "&quot;"@
    } else {
        seq![c]
    }
}

/// `s` with every reserved character replaced by its entity.
pub open spec fn escaped(s: Seq<char>) -> Seq<char>
    decreases s.len(),
{
    if s.len() == 0 {
        seq![]
    } else {
        escaped_char(s[0]) + escaped(s.skip(1))
    }
}

/// An attribute as it is written.
pub open spec fn rendered_attr(attr: Option<(Seq<char>, Seq<char>)>) -> Seq<char> {
    match attr {
        Some((key, value)) => " "@ + key + "=\""@ + escaped(value) + "\""@,
        None => seq![],
    }
}

/// One piece as it is written.
pub open spec fn rendered_piece(piece: Piece) -> Seq<char> {
    match piece {
        Piece::Start(name, attr) => "<"@ + name + rendered_attr(attr) + ">"@,
        Piece::Empty(name, attr) => "<"@ + name + rendered_attr(attr) + "/>"@,
        Piece::Text(t) => escaped(t),
        Piece::End(name) => "</"@ + name + ">"@,
    }
}

/// The document that a sequence of pieces is written as.
pub open spec fn rendered(pieces: Seq<Piece>) -> Seq<char>
    decreases pieces.len(),
{
    if pieces.len() == 0 {
        seq![]
    } else {
        rendered(pieces.drop_last()) + rendered_piece(pieces.last())
    }
}

/// A name made of lowercase ASCII letters.
pub open spec fn is_plain_name(name: Seq<char>) -> bool {
    name.len() > 0 && forall|i: int| 0 <= i < name.len() ==> 'a' <= #[trigger] name[i] <= 'z'
}

/// Where a writer stands: the elements that are open, and whether text came last.
pub struct Nesting {
    pub open: Seq<Seq<char>>,
    pub in_text: bool,
}

/// Whether a tag's name, and its attribute's key, are plain.
pub open spec fn is_plain_tag(name: Seq<char>, attr: Option<(Seq<char>, Seq<char>)>) -> bool {
    is_plain_name(name) && (attr matches Some((key, _)) ==> is_plain_name(key))
}

/// Where a writer stands once it has taken `piece`; `None` where the piece is out of place.
pub open spec fn nested(at: Nesting, piece: Piece) -> Option<Nesting> {
    match piece {
        Piece::Start(name, attr) => if is_plain_tag(name, attr) {
            Some(Nesting { open: at.open.push(name), in_text: false })
        } else {
            None
        },
        Piece::Empty(name, attr) => if is_plain_tag(name, attr) {
            Some(Nesting { open: at.open, in_text: false })
        } else {
            None
        },
        Piece::Text(_) => if at.open.len() > 0 && !at.in_text {
            Some(Nesting { open: at.open, in_text: true })
        } else {
            None
        },
        Piece::End(name) => if at.open.len() > 0 && at.open.last() == name {
            Some(Nesting { open: at.open.drop_last(), in_text: false })
        } else {
            None
        },
    }
}

/// Where a writer stands behind `pieces`; `None` where one of them is out of place.
pub open spec fn nesting_of(pieces: Seq<Piece>) -> Option<Nesting>
    decreases pieces.len(),
{
    if pieces.len() == 0 {
        Some(Nesting { open: seq![], in_text: false })
    } else {
        match nesting_of(pieces.drop_last()) {
            Some(at) => nested(at, pieces.last()),
            None => None,
        }
    }
}

/// Whether the pieces are elements that close in the order in which they opened, with
/// plain names, and no two texts side by side.
pub open spec fn is_document(pieces: Seq<Piece>) -> bool {
    nesting_of(pieces) matches Some(at) && at.open.len() == 0
}

/// A tag as it is read back: its attribute comes back as it was written.
pub open spec fn tag_back(name: Seq<char>, attr: Option<(Seq<char>, Seq<char>)>) -> TagView {
    TagView {
        name: vstd::utf8::encode_utf8(name),
        attrs: match attr {
            Some((key, value)) => seq![
                Some(
                    AttrView {
                        key: vstd::utf8::encode_utf8(key),
                        raw: vstd::utf8::encode_utf8(escaped(value)),
                        text: Some(value),
                    },
                ),
            ],
            None => seq![],
        },
        shown: tag_shown(
            vstd::utf8::encode_utf8(name + rendered_attr(attr)),
            vstd::utf8::encode_utf8(name).len(),
        ),
    }
}

/// A closing tag as it is read back.
pub open spec fn end_back(name: Seq<char>) -> MarkupView {
    let bytes = vstd::utf8::encode_utf8(name);
    MarkupView::End(bytes, end_shown(bytes))
}

/// A text as it is read back.
pub open spec fn words_back(t: Seq<char>) -> WordsView {
    WordsView { whole: t, core: text::markup_trimmed(t) }
}

/// A piece as it is read back; of an empty text there is nothing to read.
pub open spec fn piece_back(piece: Piece) -> Seq<MarkupView> {
    match piece {
        Piece::Start(name, attr) => seq![MarkupView::Start(tag_back(name, attr))],
        Piece::Empty(name, attr) => seq![MarkupView::Empty(tag_back(name, attr))],
        Piece::Text(t) => if t.len() == 0 {
            seq![]
        } else {
            seq![MarkupView::Text(Ok(words_back(t)))]
        },
        Piece::End(name) => seq![end_back(name)],
    }
}

/// A document as it is read back.
pub open spec fn read_back(pieces: Seq<Piece>) -> Seq<MarkupView>
    decreases pieces.len(),
{
    if pieces.len() == 0 {
        seq![]
    } else {
        piece_back(pieces[0]) + read_back(pieces.skip(1))
    }
}

/// The pieces that `writer` has taken so far.
pub uninterp spec fn pieces_taken(writer: Writer<Vec<u8>>) -> Seq<Piece>;

/// `Writer::new` on an empty buffer: nothing has been taken.
#[verifier::external_body]
pub(crate) fn new_writer() -> (w: Writer<Vec<u8>>)
    ensures
        pieces_taken(w) == Seq::<Piece>::empty(),
{
    Writer::new(Vec::new())
}

/// The model of an optional attribute to write.
pub open spec fn attr_piece(attr: Option<(&str, &str)>) -> Option<(Seq<char>, Seq<char>)> {
    match attr {
        Some((key, value)) => Some((key@, value@)),
        None => None,
    }
}

/// `Writer::write_event` of an opening tag (`BytesStart::with_attributes`). Writing to a
/// `Vec` does not fail.
#[verifier::external_body]
pub(crate) fn write_start(w: &mut Writer<Vec<u8>>, name: &str, attr: Option<(&str, &str)>) -> (r:
    Result<(), String>)
    ensures
        r is Ok,
        pieces_taken(*final(w)) == pieces_taken(*old(w)).push(Piece::Start(name@, attr_piece(attr))),
{
    w.write_event(Event::Start(BytesStart::new(name).with_attributes(attr))).map_err(
        |e| e.to_string(),
    )
}

/// `Writer::write_event` of a self-closing tag. Writing to a `Vec` does not fail.
#[verifier::external_body]
pub(crate) fn write_empty(w: &mut Writer<Vec<u8>>, name: &str, attr: Option<(&str, &str)>) -> (r:
    Result<(), String>)
    ensures
        r is Ok,
        pieces_taken(*final(w)) == pieces_taken(*old(w)).push(Piece::Empty(name@, attr_piece(attr))),
{
    w.write_event(Event::Empty(BytesStart::new(name).with_attributes(attr))).map_err(
        |e| e.to_string(),
    )
}

/// `Writer::write_event` of text (`BytesText::new`). Writing to a `Vec` does not fail.
#[verifier::external_body]
pub(crate) fn write_text(w: &mut Writer<Vec<u8>>, text: &str) -> (r: Result<(), String>)
    ensures
        r is Ok,
        pieces_taken(*final(w)) == pieces_taken(*old(w)).push(Piece::Text(text@)),
{
    w.write_event(Event::Text(BytesText::new(text))).map_err(|e| e.to_string())
}

/// `Writer::write_event` of a closing tag (`BytesEnd::new`). Writing to a `Vec` does not
/// fail.
#[verifier::external_body]
pub(crate) fn write_end(w: &mut Writer<Vec<u8>>, name: &str) -> (r: Result<(), String>)
    ensures
        r is Ok,
        pieces_taken(*final(w)) == pieces_taken(*old(w)).push(Piece::End(name@)),
{
    w.write_event(Event::End(BytesEnd::new(name))).map_err(|e| e.to_string())
}

/// `Writer::into_inner`: the pieces one behind the other, as UTF-8. Of a document the
/// reader hands back every piece, with the entities of text and attributes resolved.
#[verifier::external_body]
pub(crate) fn finish(w: Writer<Vec<u8>>) -> (r: Vec<u8>)
    ensures
        r@ == vstd::utf8::encode_utf8(rendered(pieces_taken(w))),
        is_document(pieces_taken(w)) ==> markup_of(r@) == read_back(pieces_taken(w)),
{
    w.into_inner()
}

// ── Lemmas ───────────────────────────────────────────────────────────

/// What is read back of two sequences is what is read back of one behind the other.
pub proof fn lemma_read_back_concat(a: Seq<Piece>, b: Seq<Piece>)
    ensures
        read_back(a + b) == read_back(a) + read_back(b),
    decreases a.len(),
{
    if a.len() == 0 {
        assert(a + b =~= b);
        assert(read_back(a) + read_back(b) =~= read_back(b));
    } else {
        assert((a + b)[0] == a[0]);
        assert((a + b).skip(1) =~= a.skip(1) + b);
        lemma_read_back_concat(a.skip(1), b);
        assert(read_back(a + b) =~= read_back(a) + read_back(b));
    }
}

/// What is read back of a single piece.
pub proof fn lemma_read_back_one(piece: Piece)
    ensures
        read_back(seq![piece]) == piece_back(piece),
{
    assert(seq![piece].skip(1) =~= Seq::<Piece>::empty());
    assert(read_back(seq![piece].skip(1)) =~= Seq::<MarkupView>::empty());
    assert(read_back(seq![piece]) =~= piece_back(piece));
}

/// Taking one more piece takes one step from where the writer stands.
pub proof fn lemma_nesting_push(pieces: Seq<Piece>, piece: Piece)
    ensures
        nesting_of(pieces.push(piece)) == match nesting_of(pieces) {
            Some(at) => nested(at, piece),
            None => None,
        },
{
    assert(pieces.push(piece).drop_last() =~= pieces);
}

// ── Attributes ───────────────────────────────────────────────────────

/// The value of an attribute as text: with its entities resolved, or as it stands where
/// they cannot be.
pub open spec fn attr_text(a: AttrView) -> Seq<char> {
    match a.text {
        Some(t) => t,
        None => text::lossy_text_of(a.raw),
    }
}

/// The value of the first well-formed attribute with the given key, as text.
pub open spec fn attr_in(attrs: Seq<Option<AttrView>>, key: Seq<u8>) -> Option<Seq<char>>
    decreases attrs.len(),
{
    if attrs.len() == 0 {
        None
    } else if attrs[0] matches Some(a) && a.key == key {
        Some(attr_text(attrs[0]->0))
    } else {
        attr_in(attrs.skip(1), key)
    }
}

/// The value of the attribute with the given key, or the empty text.
pub open spec fn attr_or_empty(tag: TagView, key: Seq<char>) -> Seq<char> {
    match attr_in(tag.attrs, vstd::utf8::encode_utf8(key)) {
        Some(value) => value,
        None => seq![],
    }
}

/// The value of the first well-formed attribute of `tag` named `key`.
pub fn get_attr(tag: &Tag, key: &str) -> (r: Option<String>)
    ensures
        match r {
            Some(value) => attr_in(tag@.attrs, vstd::utf8::encode_utf8(key@)) == Some(
                value@,
            ),
            None => attr_in(tag@.attrs, vstd::utf8::encode_utf8(key@)) is None,
        },
{
    let attrs = &tag.attrs;
    let ghost all = tag@.attrs;
    let ghost bytes = vstd::utf8::encode_utf8(key@);
    let mut i: usize = 0;
    assert(all.skip(0) =~= all);
    while i < attrs.len()
        invariant
            i <= attrs@.len(),
            *attrs == tag.attrs,
            all == tag@.attrs,
            bytes == vstd::utf8::encode_utf8(key@),
            attr_in(all, bytes) == attr_in(all.skip(i as int), bytes),
        decreases attrs@.len() - i,
    {
        proof {
            assert(all.skip(i as int)[0] == opt_attr(attrs@[i as int]));
            assert(all.skip(i as int).skip(1) =~= all.skip(i + 1));
        }
        match &attrs[i] {
            Some(a) => {
                if text::bytes_are(a.key.as_slice(), key) {
                    return Some(
                        match &a.text {
                            Some(t) => t.clone(),
                            None => text::lossy_text(a.raw.as_slice()),
                        },
                    );
                }
            },
            None => {},
        }
        i += 1;
    }
    None
}

/// The value of the first well-formed attribute of `tag` named `key`, or the empty text.
pub fn get_attr_or_empty(tag: &Tag, key: &str) -> (r: String)
    ensures
        r@ == attr_or_empty(tag@, key@),
{
    match get_attr(tag, key) {
        Some(value) => value,
        None => {
            let none = String::new();
            assert(none@ =~= seq![]);
            none
        },
    }
}

// ── Laws ─────────────────────────────────────────────────────────────

/// The value of an attribute is that of the first well-formed one with its key, whatever
/// others stand before it and behind; where there is none, it has none.
pub proof fn law_first_attribute_counts(
    front: Seq<Option<AttrView>>,
    a: AttrView,
    back: Seq<Option<AttrView>>,
)
    requires
        forall|i: int|
            0 <= i < front.len() ==> ((#[trigger] front[i]) matches Some(other) ==> other.key
                != a.key),
    ensures
        attr_in(front + seq![Some(a)] + back, a.key) == Some(attr_text(a)),
        attr_in(front, a.key) is None,
    decreases front.len(),
{
    let all = front + seq![Some(a)] + back;
    if front.len() == 0 {
        assert(all[0] == Some(a));
    } else {
        let rest = front.skip(1);
        assert(all[0] == front[0]);
        assert(all.skip(1) =~= rest + seq![Some(a)] + back);
        assert forall|i: int| 0 <= i < rest.len() implies ((#[trigger] rest[i]) matches Some(other)
            ==> other.key != a.key) by {
            assert(rest[i] == front[i + 1]);
        }
        law_first_attribute_counts(rest, a, back);
    }
}

/// An attribute is read with its entities resolved, and as it stands where they cannot be.
pub proof fn law_attribute_is_unescaped(a: AttrView)
    ensures
        a.text matches Some(t) ==> attr_text(a) == t,
        a.text is None && vstd::utf8::valid_utf8(a.raw) ==> vstd::utf8::encode_utf8(attr_text(a))
            == a.raw,
{
    if vstd::utf8::valid_utf8(a.raw) {
        vstd::utf8::decode_utf8_encode_utf8(a.raw);
    }
}

} // verus!
