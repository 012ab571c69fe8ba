//! What survives the wire: any payload, with exactly the headers that
//! [`grammar::envelope_survives`] asks for.

use vstd::prelude::*;

use crate::address;
use crate::address::SegmentView;
use crate::envelope::ENVELOPE_NS;
use crate::error::ErrorView;
use crate::grammar;
use crate::grammar::Draft;
use crate::markup;
use crate::markup::{MarkupView, Piece};
use crate::text;
use crate::wire::{EnvelopeView, MetaView, PayloadView};

verus! {

// ── The header ───────────────────────────────────────────────────────

/// An address that comes back as it was written survives.
proof fn lemma_address_read(a: Seq<SegmentView>)
    requires
        address::address_of(text::trimmed(text::markup_trimmed(address::shown(a)))) == Ok::<
            _,
            address::AddressFault,
        >(a),
    ensures
        grammar::address_survives(a),
{
    let s = text::markup_trimmed(address::shown(a));
    text::lemma_trim_ends(s, |c: char| text::white_space(c));
    address::law_parsed_is_canonical(text::trimmed(s), a);
    address::law_display_of_parsed(text::trimmed(s), a);
}

/// A thread that comes back as it was written is trimmed and not empty.
proof fn lemma_thread_read(s: Seq<char>)
    requires
        text::markup_trimmed(s).len() > 0,
        text::trimmed(text::markup_trimmed(s)) == s,
    ensures
        s.len() > 0,
        grammar::is_trimmed(s),
{
    text::lemma_trim_ends(text::markup_trimmed(s), |c: char| text::white_space(c));
}

/// The draft behind an element of `<meta>` that holds `s`.
#[verifier::opaque]
spec fn after(d: Draft, name: Seq<char>, s: Seq<char>) -> Result<Draft, ErrorView> {
    let core = text::markup_trimmed(s);
    if core.len() == 0 {
        Ok(d)
    } else {
        grammar::with_meta(d, text::utf8(name), text::trimmed(core))
    }
}

/// An element of `<meta>` is passed with the draft behind it.
proof fn lemma_element_read(name: Seq<char>, s: Seq<char>, d: Draft, rest: Seq<MarkupView>)
    requires
        name != "meta"@,
    ensures
        grammar::meta_from(markup::read_back(grammar::text_pieces(name, s)) + rest, None, d)
            == match after(d, name, s) {
            Ok(next) => grammar::meta_from(rest, None, next),
            Err(e) => Err(e),
        },
{
    reveal(after);
    grammar::lemma_meta_element_read(name, s, None, d, rest);
}

/// Of the sender's element, only a sender that survives is taken as it was written.
proof fn lemma_after_from(d: Draft, a: Seq<SegmentView>)
    requires
        d.from is None,
    ensures
        after(d, "from"@, address::shown(a)) matches Ok(next) ==> {
            &&& next == Draft { from: next.from, ..d }
            &&& next.from == Some(a) ==> grammar::address_survives(a)
        },
{
    reveal(after);
    let core = text::markup_trimmed(address::shown(a));
    if core.len() > 0 && address::address_of(text::trimmed(core)) == Ok::<_, address::AddressFault>(
        a,
    ) {
        lemma_address_read(a);
    }
}

/// Of the destination's element, only one that survives is taken as it was written.
proof fn lemma_after_to(d: Draft, a: Seq<SegmentView>)
    requires
        d.to is None,
    ensures
        after(d, "to"@, address::shown(a)) matches Ok(next) ==> {
            &&& next == Draft { to: next.to, ..d }
            &&& next.to == Some(a) ==> grammar::address_survives(a)
        },
{
    reveal(after);
    grammar::lemma_element_names();
    grammar::lemma_names_differ("to"@, "from"@);
    let core = text::markup_trimmed(address::shown(a));
    if core.len() > 0 && address::address_of(text::trimmed(core)) == Ok::<_, address::AddressFault>(
        a,
    ) {
        lemma_address_read(a);
    }
}

/// Of the thread's element, only one that survives is taken as it was written.
proof fn lemma_after_thread(d: Draft, thread: Seq<char>)
    requires
        d.thread is None,
    ensures
        after(d, "thread"@, thread) matches Ok(next) && next == (Draft {
            thread: next.thread,
            ..d
        }) && (next.thread == Some(thread) ==> thread.len() > 0 && grammar::is_trimmed(thread)),
{
    reveal(after);
    grammar::lemma_element_names();
    grammar::lemma_names_differ("thread"@, "from"@);
    grammar::lemma_names_differ("thread"@, "to"@);
    let core = text::markup_trimmed(thread);
    if core.len() > 0 && text::trimmed(core) == thread {
        lemma_thread_read(thread);
    }
}

/// The provenance's element changes nothing else.
proof fn lemma_after_provenance(d: Draft, s: Seq<char>)
    ensures
        after(d, "provenance"@, s) matches Ok(next) ==> next == (Draft {
            provenance: next.provenance,
            ..d
        }),
{
    reveal(after);
    grammar::lemma_element_names();
    grammar::lemma_names_differ("provenance"@, "from"@);
    grammar::lemma_names_differ("provenance"@, "to"@);
    grammar::lemma_names_differ("provenance"@, "thread"@);
}

/// Whether what has been read of a header is that header only if it survives.
spec fn reads_meta(d: Draft, meta: MetaView) -> bool {
    &&& d.in_message
    &&& d.payload is None
    &&& d.from == Some(meta.from) ==> grammar::address_survives(meta.from)
    &&& meta.to matches Some(to) ==> d.to == meta.to ==> grammar::address_survives(to)
    &&& d.thread == Some(meta.thread) ==> meta.thread.len() > 0 && grammar::is_trimmed(meta.thread)
}

proof fn lemma_meta_read(meta: MetaView, rest: Seq<MarkupView>)
    ensures
        match grammar::meta_from(
            markup::read_back(grammar::meta_pieces(meta)) + (seq![markup::end_back("meta"@)]
                + rest),
            None,
            Draft { in_message: true, ..grammar::blank() },
        ) {
            Ok((d, left)) => left == rest && reads_meta(d, meta),
            Err(_) => true,
        },
{
    grammar::lemma_element_names();
    let from = grammar::text_pieces("from"@, address::shown(meta.from));
    let to = match meta.to {
        Some(to) => grammar::text_pieces("to"@, address::shown(to)),
        None => seq![],
    };
    let thread = grammar::text_pieces("thread"@, meta.thread);
    let labels = grammar::provenance_text(meta.provenance);
    let provenance = if grammar::is_empty_set(meta.provenance) {
        seq![]
    } else {
        grammar::text_pieces("provenance"@, labels)
    };
    markup::lemma_read_back_concat(from + to + thread, provenance);
    markup::lemma_read_back_concat(from + to, thread);
    markup::lemma_read_back_concat(from, to);
    let end = seq![markup::end_back("meta"@)] + rest;
    let l3 = markup::read_back(provenance) + end;
    let l2 = markup::read_back(thread) + l3;
    let l1 = markup::read_back(to) + l2;
    let l0 = markup::read_back(from) + l1;
    assert(markup::read_back(grammar::meta_pieces(meta)) + end =~= l0);
    assert(end[0] == markup::end_back("meta"@));
    assert(end.skip(1) =~= rest);
    let d0 = Draft { in_message: true, ..grammar::blank() };
    lemma_element_read("from"@, address::shown(meta.from), d0, l1);
    lemma_after_from(d0, meta.from);
    if let Ok(d1) = after(d0, "from"@, address::shown(meta.from)) {
        let to_read = match meta.to {
            Some(a) => after(d1, "to"@, address::shown(a)),
            None => Ok(d1),
        };
        match meta.to {
            Some(a) => {
                lemma_element_read("to"@, address::shown(a), d1, l2);
                lemma_after_to(d1, a);
            },
            None => {
                assert(l1 =~= l2);
            },
        }
        if let Ok(d2) = to_read {
            lemma_element_read("thread"@, meta.thread, d2, l3);
            lemma_after_thread(d2, meta.thread);
            let d3 = after(d2, "thread"@, meta.thread)->Ok_0;
            if grammar::is_empty_set(meta.provenance) {
                assert(l3 =~= end);
            } else {
                lemma_element_read("provenance"@, labels, d3, end);
                lemma_after_provenance(d3, labels);
            }
        }
    }
}

// ── Envelopes ────────────────────────────────────────────────────────

/// No envelope but one whose header survives is read back as it was written.
pub proof fn law_only_survivors_round_trip(env: EnvelopeView)
    requires
        grammar::is_value(env.payload.value),
        grammar::envelope_from(markup::read_back(grammar::envelope_pieces(env))) == Ok::<
            _,
            ErrorView,
        >(env),
    ensures
        grammar::envelope_survives(env),
{
    grammar::lemma_element_names();
    grammar::lemma_names_differ("meta"@, "message"@);
    grammar::lemma_names_differ("payload"@, "message"@);
    grammar::lemma_names_differ("payload"@, "meta"@);
    let xmlns = Some(("xmlns"@, ENVELOPE_NS@));
    let tag = Some(("tag"@, env.payload.tag));
    let meta = seq![Piece::Start("meta"@, None)] + grammar::meta_pieces(env.meta) + seq![
        Piece::End("meta"@),
    ];
    let value = grammar::value_pieces(env.payload.value);
    let payload = seq![Piece::Start("payload"@, tag)] + value + seq![Piece::End("payload"@)];
    assert(grammar::envelope_pieces(env) =~= seq![Piece::Start("message"@, xmlns)] + (meta
        + payload) + seq![Piece::End("message"@)]);
    let none = Seq::<MarkupView>::empty();
    grammar::lemma_element_back("message"@, xmlns, meta + payload, none);
    markup::lemma_read_back_concat(meta, payload);
    let end = seq![markup::end_back("message"@)] + none;
    let l2 = markup::read_back(payload) + end;
    let l1 = markup::read_back(meta) + l2;
    let l0 = seq![MarkupView::Start(markup::tag_back("message"@, xmlns))] + l1;
    assert(markup::read_back(grammar::envelope_pieces(env)) =~= l0);
    grammar::lemma_element_back("meta"@, None, grammar::meta_pieces(env.meta), l2);
    grammar::lemma_element_back("payload"@, tag, value, end);
    // <message>
    assert(l0[0] == MarkupView::Start(markup::tag_back("message"@, xmlns)));
    assert(l0.skip(1) =~= l1);
    let d0 = Draft { in_message: true, ..grammar::blank() };
    assert(grammar::message_from(l0, grammar::blank()) == grammar::message_from(l1, d0));
    // <meta>
    let in_meta = markup::read_back(grammar::meta_pieces(env.meta)) + (seq![
        markup::end_back("meta"@),
    ] + l2);
    assert(l1[0] == MarkupView::Start(markup::tag_back("meta"@, None)));
    assert(l1.skip(1) =~= in_meta);
    lemma_meta_read(env.meta, l2);
    assert(grammar::meta_from(in_meta, None, d0) is Ok);
    let (d1, _) = grammar::meta_from(in_meta, None, d0)->Ok_0;
    assert(grammar::message_from(l1, d0) == grammar::message_from(l2, d1));
    // <payload>
    let close = seq![markup::end_back("payload"@)] + end;
    let in_payload = markup::read_back(value) + close;
    assert(l2[0] == MarkupView::Start(markup::tag_back("payload"@, tag)));
    assert(l2.skip(1) =~= in_payload);
    grammar::law_value_round_trip(env.payload.value, close);
    assert(close[0] == markup::end_back("payload"@));
    assert(close.skip(1) =~= end);
    assert(grammar::end_from(close, "payload"@) == Ok::<_, ErrorView>(end));
    grammar::lemma_attr_back("payload"@, "tag"@, env.payload.tag);
    let d2 = Draft { payload: Some(env.payload), ..d1 };
    assert(env.payload == PayloadView { tag: env.payload.tag, value: env.payload.value });
    assert(grammar::message_from(l2, d1) == grammar::message_from(end, d2));
    // </message>
    assert(end[0] == markup::end_back("message"@));
    assert(grammar::message_from(end, d2) == Ok::<_, ErrorView>(d2));
    assert(grammar::completed(d2) == Ok::<_, ErrorView>(env));
}

} // verus!
