//! Hierarchical agent addresses: `namespace.organism[key].buffer`.

use vstd::prelude::*;

use crate::error::{ErrorView, PipelineError};
use crate::text;

verus! {

// ── Types and their models ───────────────────────────────────────────

/// Errors from address parsing.
#[derive(Debug, PartialEq, Eq)]
pub enum AddressError {
    Empty,
    EmptySegment(String),
    Unbalanced(String),
    EmptyName(String),
}

impl Clone for AddressError {
    fn clone(&self) -> (r: Self)
        ensures
            r@ == self@,
    {
        match self {
            AddressError::Empty => AddressError::Empty,
            AddressError::EmptySegment(s) => AddressError::EmptySegment(s.clone()),
            AddressError::Unbalanced(s) => AddressError::Unbalanced(s.clone()),
            AddressError::EmptyName(s) => AddressError::EmptyName(s.clone()),
        }
    }
}

/// The model of an [`AddressError`].
pub enum AddressFault {
    Empty,
    EmptySegment(Seq<char>),
    Unbalanced(Seq<char>),
    EmptyName(Seq<char>),
}

impl View for AddressError {
    type V = AddressFault;

    open spec fn view(&self) -> AddressFault {
        match self {
            AddressError::Empty => AddressFault::Empty,
            AddressError::EmptySegment(s) => AddressFault::EmptySegment(s@),
            AddressError::Unbalanced(s) => AddressFault::Unbalanced(s@),
            AddressError::EmptyName(s) => AddressFault::EmptyName(s@),
        }
    }
}

impl AddressFault {
    /// The message of the error; it quotes the whole address.
    pub open spec fn message(self) -> Seq<char> {
        match self {
            AddressFault::Empty => "empty address"@,
            AddressFault::EmptySegment(s) => "empty segment in address "@ + text::quoted_text(s),
            AddressFault::Unbalanced(s) => "unbalanced '[' / ']' in address "@
                + text::quoted_text(s),
            AddressFault::EmptyName(s) => "empty segment name in address "@ + text::quoted_text(s),
        }
    }
}

impl AddressError {
    /// The message of the error.
    pub fn to_string(&self) -> (r: String)
        ensures
            r@ == self@.message(),
    {
        match self {
            AddressError::Empty => "empty address".to_owned(),
            AddressError::EmptySegment(s) => {
                let q = text::quoted(s.as_str());
                text::cat("empty segment in address ", q.as_str())
            },
            AddressError::Unbalanced(s) => {
                let q = text::quoted(s.as_str());
                text::cat("unbalanced '[' / ']' in address ", q.as_str())
            },
            AddressError::EmptyName(s) => {
                let q = text::quoted(s.as_str());
                text::cat("empty segment name in address ", q.as_str())
            },
        }
    }
}

impl From<AddressError> for PipelineError {
    fn from(e: AddressError) -> (r: Self)
        ensures
            r@ == ErrorView::EnvelopeParse(e@.message()),
    {
        PipelineError::EnvelopeParse(e.to_string())
    }
}

impl vstd::std_specs::convert::FromSpecImpl<AddressError> for PipelineError {
    open spec fn obeys_from_spec() -> bool {
        false
    }

    open spec fn from_spec(e: AddressError) -> Self {
        arbitrary()
    }
}

/// One segment of a hierarchical address: a name + optional instance key.
///
/// Cache-composition (`bob[main+alice]`) lives inside `key` as a `+`-joined string;
/// [`Segment::cache_keys`] splits it. A bare name with `key: None` is the degenerate
/// flat case.
#[derive(Debug, PartialEq, Eq)]
pub struct Segment {
    pub name: String,
    pub key: Option<String>,
}

/// The model of a [`Segment`].
pub struct SegmentView {
    pub name: Seq<char>,
    pub key: Option<Seq<char>>,
}

impl View for Segment {
    type V = SegmentView;

    open spec fn view(&self) -> SegmentView {
        SegmentView {
            name: self.name@,
            key: match self.key {
                Some(k) => Some(k@),
                None => None,
            },
        }
    }
}

impl Clone for Segment {
    fn clone(&self) -> (r: Self)
        ensures
            r@ == self@,
    {
        let key = match &self.key {
            Some(k) => Some(k.clone()),
            None => None,
        };
        Segment { name: self.name.clone(), key }
    }
}

impl SegmentView {
    /// The keys that a segment's key is composed of.
    pub open spec fn cache_keys(self) -> Seq<Seq<char>> {
        match self.key {
            Some(k) => text::pieces(k, '+'),
            None => seq![],
        }
    }

    /// A segment as it is written.
    pub open spec fn shown(self) -> Seq<char> {
        match self.key {
            Some(k) => self.name + seq!['['] + k + seq![']'],
            None => self.name,
        }
    }
}

impl Segment {
    /// Cache-composition keys: the `key` split on `+`. Empty if no key.
    /// `bob[main+alice]` -> `["main", "alice"]`; `bob[alice]` -> `["alice"]`.
    pub fn cache_keys(&self) -> (r: Vec<&str>)
        ensures
            r@.map_values(|p: &str| p@) == self@.cache_keys(),
    {
        match &self.key {
            Some(k) => text::split_pieces(k.as_str(), '+'),
            None => {
                let none: Vec<&str> = Vec::new();
                assert(none@.map_values(|p: &str| p@) =~= seq![]);
                none
            },
        }
    }
}

/// A hierarchical agent address. `ringhub.bob[alice].calendar` -> 3 segments.
/// Flat single-listener routing is a one-segment address with no key.
#[derive(Debug, PartialEq, Eq)]
pub struct Address {
    pub segments: Vec<Segment>,
}

impl View for Address {
    type V = Seq<SegmentView>;

    open spec fn view(&self) -> Seq<SegmentView> {
        self.segments@.map_values(|s: Segment| s@)
    }
}

impl Clone for Address {
    fn clone(&self) -> (r: Self)
        ensures
            r@ == self@,
    {
        Address { segments: clone_segments(&self.segments, self.segments.len()) }
    }
}

/// A copy of the first `n` segments.
fn clone_segments(segments: &Vec<Segment>, n: usize) -> (r: Vec<Segment>)
    requires
        n <= segments@.len(),
    ensures
        r@.map_values(|s: Segment| s@) == segments@.map_values(|s: Segment| s@).take(n as int),
{
    let mut out: Vec<Segment> = Vec::new();
    let mut i: usize = 0;
    while i < n
        invariant
            i <= n <= segments@.len(),
            out@.len() == i,
            forall|j: int| 0 <= j < i ==> #[trigger] out@[j]@ == segments@[j]@,
        decreases n - i,
    {
        out.push(segments[i].clone());
        i += 1;
    }
    assert(out@.map_values(|s: Segment| s@) =~= segments@.map_values(|s: Segment| s@).take(
        n as int,
    ));
    out
}

// ── Model of parsing and display ─────────────────────────────────────

/// A flat address: one segment without a key.
pub open spec fn flat(name: Seq<char>) -> Seq<SegmentView> {
    seq![SegmentView { name, key: None }]
}

/// An address as it is written: its segments with dots between them.
pub open spec fn shown(segments: Seq<SegmentView>) -> Seq<char>
    decreases segments.len(),
{
    if segments.len() == 0 {
        seq![]
    } else if segments.len() == 1 {
        segments[0].shown()
    } else {
        segments[0].shown() + seq!['.'] + shown(segments.skip(1))
    }
}

/// The segment written as `raw`, part of the address `whole`: a name, or a name and,
/// behind the first `[` and before the closing `]` at the end, a key.
pub open spec fn segment_of(raw: Seq<char>, whole: Seq<char>) -> Result<
    SegmentView,
    AddressFault,
> {
    let open = text::first_at(raw, '[');
    if raw.len() == 0 {
        Err(AddressFault::EmptySegment(whole))
    } else if open == raw.len() {
        Ok(SegmentView { name: raw, key: None })
    } else if open == 0 {
        Err(AddressFault::EmptyName(whole))
    } else if raw.last() != ']' {
        Err(AddressFault::Unbalanced(whole))
    } else {
        Ok(SegmentView { name: raw.take(open), key: Some(raw.subrange(open + 1, raw.len() - 1)) })
    }
}

/// What is left to read of the address `whole` once the segments `done` and the text
/// `current` of the next one have been read and `depth` brackets are open. Dots separate
/// segments where no bracket is open; faults come in the order of the text.
pub open spec fn segments_from(
    rest: Seq<char>,
    depth: int,
    current: Seq<char>,
    done: Seq<SegmentView>,
    whole: Seq<char>,
) -> Result<Seq<SegmentView>, AddressFault>
    decreases rest.len(),
{
    if rest.len() == 0 {
        if depth != 0 {
            Err(AddressFault::Unbalanced(whole))
        } else {
            match segment_of(current, whole) {
                Ok(segment) => Ok(done.push(segment)),
                Err(e) => Err(e),
            }
        }
    } else {
        let c = rest[0];
        let next = rest.skip(1);
        if c == '[' {
            segments_from(next, depth + 1, current.push(c), done, whole)
        } else if c == ']' {
            if depth == 0 {
                Err(AddressFault::Unbalanced(whole))
            } else {
                segments_from(next, depth - 1, current.push(c), done, whole)
            }
        } else if c == '.' && depth == 0 {
            match segment_of(current, whole) {
                Ok(segment) => segments_from(next, 0, seq![], done.push(segment), whole),
                Err(e) => Err(e),
            }
        } else {
            segments_from(next, depth, current.push(c), done, whole)
        }
    }
}

/// The address written as `s`.
pub open spec fn address_of(s: Seq<char>) -> Result<Seq<SegmentView>, AddressFault> {
    if s.len() == 0 {
        Err(AddressFault::Empty)
    } else {
        segments_from(s, 0, seq![], seq![], s)
    }
}

/// How many brackets are open behind `s` when `depth` were open before it; `None` where a
/// bracket closes that was not open, or a dot stands outside brackets.
pub open spec fn open_after(s: Seq<char>, depth: int) -> Option<int>
    decreases s.len(),
{
    if s.len() == 0 {
        Some(depth)
    } else if s[0] == '[' {
        open_after(s.skip(1), depth + 1)
    } else if s[0] == ']' {
        if depth == 0 {
            None
        } else {
            open_after(s.skip(1), depth - 1)
        }
    } else if s[0] == '.' && depth == 0 {
        None
    } else {
        open_after(s.skip(1), depth)
    }
}

/// A segment that is read back as it is written: the name is not empty and holds no dot
/// and no bracket, and the key's brackets match within the segment's own.
pub open spec fn is_canonical_segment(segment: SegmentView) -> bool {
    &&& segment.name.len() > 0
    &&& forall|i: int|
        0 <= i < segment.name.len() ==> {
            let c = #[trigger] segment.name[i];
            c != '.' && c != '[' && c != ']'
        }
    &&& segment.key matches Some(k) ==> open_after(k, 1) == Some(1int)
}

/// An address that is read back as it is written.
pub open spec fn is_canonical(segments: Seq<SegmentView>) -> bool {
    &&& segments.len() > 0
    &&& forall|i: int|
        0 <= i < segments.len() ==> is_canonical_segment(#[trigger] segments[i])
}

// ── Laws of parsing and display ──────────────────────────────────────

/// Appending a segment appends a dot and the segment's text.
pub proof fn lemma_shown_push(segments: Seq<SegmentView>, last: SegmentView)
    ensures
        shown(segments.push(last)) == if segments.len() == 0 {
            last.shown()
        } else {
            shown(segments) + seq!['.'] + last.shown()
        },
    decreases segments.len(),
{
    let longer = segments.push(last);
    if segments.len() > 0 {
        assert(longer.skip(1) =~= segments.skip(1).push(last));
        lemma_shown_push(segments.skip(1), last);
        if segments.len() == 1 {
            assert(segments.skip(1).len() == 0);
        }
        assert(shown(longer) =~= shown(segments) + seq!['.'] + last.shown());
    }
}

/// Whatever text is accepted as an address is what that address is written as.
pub proof fn law_display_of_parsed(s: Seq<char>, segments: Seq<SegmentView>)
    requires
        address_of(s) == Ok::<_, AddressFault>(segments),
    ensures
        shown(segments) == s,
{
    lemma_segments_from_shown(s, 0, seq![], seq![], s, segments);
    assert(seq![] + Seq::<char>::empty() + s =~= s);
}

proof fn lemma_segment_shown(raw: Seq<char>, whole: Seq<char>)
    ensures
        segment_of(raw, whole) matches Ok(segment) ==> segment.shown() == raw,
{
    text::lemma_first_at(raw, '[');
    let open = text::first_at(raw, '[');
    if raw.len() > 0 && 0 < open < raw.len() && raw.last() == ']' {
        assert(raw.take(open) + seq!['['] + raw.subrange(open + 1, raw.len() - 1) + seq![']']
            =~= raw);
    }
}

proof fn lemma_segments_from_shown(
    rest: Seq<char>,
    depth: int,
    current: Seq<char>,
    done: Seq<SegmentView>,
    whole: Seq<char>,
    segments: Seq<SegmentView>,
)
    requires
        segments_from(rest, depth, current, done, whole) == Ok::<_, AddressFault>(segments),
    ensures
        shown(segments) == if done.len() == 0 {
            current + rest
        } else {
            shown(done) + seq!['.'] + current + rest
        },
    decreases rest.len(),
{
    if rest.len() == 0 {
        let segment = segment_of(current, whole)->Ok_0;
        lemma_segment_shown(current, whole);
        lemma_shown_push(done, segment);
        assert(current + rest =~= current);
        assert(shown(done) + seq!['.'] + current + rest =~= shown(done) + seq!['.'] + current);
    } else {
        let c = rest[0];
        let next = rest.skip(1);
        assert(current.push(c) + next =~= current + rest);
        assert(shown(done) + seq!['.'] + current.push(c) + next =~= shown(done) + seq!['.']
            + current + rest);
        if c == '[' {
            lemma_segments_from_shown(next, depth + 1, current.push(c), done, whole, segments);
        } else if c == ']' {
            lemma_segments_from_shown(next, depth - 1, current.push(c), done, whole, segments);
        } else if c == '.' && depth == 0 {
            let segment = segment_of(current, whole)->Ok_0;
            lemma_segment_shown(current, whole);
            lemma_shown_push(done, segment);
            lemma_segments_from_shown(next, 0, seq![], done.push(segment), whole, segments);
            assert(current + seq!['.'] + Seq::<char>::empty() + next =~= current + rest);
            assert(shown(done) + seq!['.'] + current + seq!['.'] + Seq::<char>::empty() + next
                =~= shown(done) + seq!['.'] + current + rest);
        } else {
            lemma_segments_from_shown(next, depth, current.push(c), done, whole, segments);
        }
    }
}

/// A canonical address is not written as the empty text.
pub proof fn lemma_shown_not_empty(segments: Seq<SegmentView>)
    requires
        is_canonical(segments),
    ensures
        shown(segments).len() > 0,
{
    assert(is_canonical_segment(segments[0]));
    assert(segments[0].shown().len() > 0);
}

/// A canonical address is read back as it was written.
pub proof fn law_parse_of_displayed(segments: Seq<SegmentView>)
    requires
        is_canonical(segments),
    ensures
        address_of(shown(segments)) == Ok::<_, AddressFault>(segments),
{
    let whole = shown(segments);
    lemma_shown_not_empty(segments);
    lemma_parse_canonical(segments, seq![], whole);
    assert(Seq::<SegmentView>::empty() + segments =~= segments);
}

/// Every address that is accepted is canonical.
pub proof fn law_parsed_is_canonical(s: Seq<char>, segments: Seq<SegmentView>)
    requires
        address_of(s) == Ok::<_, AddressFault>(segments),
    ensures
        is_canonical(segments),
{
    assert(open_after(Seq::<char>::empty(), 0) == Some(0int));
    lemma_segments_from_canonical(s, 0, seq![], seq![], s, segments);
}

proof fn lemma_parse_canonical(
    segments: Seq<SegmentView>,
    done: Seq<SegmentView>,
    whole: Seq<char>,
)
    requires
        is_canonical(segments),
    ensures
        segments_from(shown(segments), 0, seq![], done, whole) == Ok::<_, AddressFault>(
            done + segments,
        ),
    decreases segments.len(),
{
    let first = segments[0];
    assert(is_canonical_segment(first));
    let raw = first.shown();
    lemma_canonical_segment(first, whole);
    if segments.len() == 1 {
        lemma_read_over(raw, seq![], 0, seq![], done, whole);
        assert(raw + Seq::<char>::empty() =~= raw);
        assert(Seq::<char>::empty() + raw =~= raw);
        assert(done + segments =~= done.push(first));
    } else {
        let others = segments.skip(1);
        let rest = seq!['.'] + shown(others);
        assert(shown(segments) =~= raw + rest);
        lemma_read_over(raw, rest, 0, seq![], done, whole);
        assert(Seq::<char>::empty() + raw =~= raw);
        assert(rest.skip(1) =~= shown(others));
        assert forall|i: int| 0 <= i < others.len() implies is_canonical_segment(
            #[trigger] others[i],
        ) by {
            assert(others[i] == segments[i + 1]);
        }
        lemma_parse_canonical(others, done.push(first), whole);
        assert(done.push(first) + others =~= done + segments);
    }
}

/// Text that keeps within its brackets is read into the current segment.
proof fn lemma_read_over(
    chunk: Seq<char>,
    rest: Seq<char>,
    depth: int,
    current: Seq<char>,
    done: Seq<SegmentView>,
    whole: Seq<char>,
)
    requires
        open_after(chunk, depth) is Some,
    ensures
        segments_from(chunk + rest, depth, current, done, whole) == segments_from(
            rest,
            open_after(chunk, depth)->0,
            current + chunk,
            done,
            whole,
        ),
    decreases chunk.len(),
{
    if chunk.len() == 0 {
        assert(chunk + rest =~= rest);
        assert(current + chunk =~= current);
    } else {
        let c = chunk[0];
        let next = chunk.skip(1);
        assert((chunk + rest).skip(1) =~= next + rest);
        assert(current.push(c) + next =~= current + chunk);
        let d = if c == '[' {
            depth + 1
        } else if c == ']' {
            depth - 1
        } else {
            depth
        };
        lemma_read_over(next, rest, d, current.push(c), done, whole);
    }
}

proof fn lemma_open_after_concat(a: Seq<char>, b: Seq<char>, depth: int)
    ensures
        open_after(a + b, depth) == match open_after(a, depth) {
            Some(d) => open_after(b, d),
            None => None,
        },
    decreases a.len(),
{
    if a.len() == 0 {
        assert(a + b =~= b);
    } else {
        let c = a[0];
        assert((a + b).skip(1) =~= a.skip(1) + b);
        if c == '[' {
            lemma_open_after_concat(a.skip(1), b, depth + 1);
        } else if c == ']' {
            if depth != 0 {
                lemma_open_after_concat(a.skip(1), b, depth - 1);
            }
        } else if !(c == '.' && depth == 0) {
            lemma_open_after_concat(a.skip(1), b, depth);
        }
    }
}

proof fn lemma_open_after_plain(s: Seq<char>, depth: int)
    requires
        forall|i: int|
            0 <= i < s.len() ==> {
                let c = #[trigger] s[i];
                c != '.' && c != '[' && c != ']'
            },
    ensures
        open_after(s, depth) == Some(depth),
    decreases s.len(),
{
    if s.len() > 0 {
        let rest = s.skip(1);
        assert forall|i: int| 0 <= i < rest.len() implies {
            let c = #[trigger] rest[i];
            c != '.' && c != '[' && c != ']'
        } by {
            assert(rest[i] == s[i + 1]);
        }
        assert(s[0] != '.');
        lemma_open_after_plain(rest, depth);
    }
}

proof fn lemma_canonical_segment(segment: SegmentView, whole: Seq<char>)
    requires
        is_canonical_segment(segment),
    ensures
        open_after(segment.shown(), 0) == Some(0int),
        segment_of(segment.shown(), whole) == Ok::<_, AddressFault>(segment),
{
    let name = segment.name;
    let raw = segment.shown();
    lemma_open_after_plain(name, 0);
    match segment.key {
        Some(k) => {
            let tail = seq!['['] + k + seq![']'];
            assert(raw =~= name + tail);
            lemma_open_after_concat(name, tail, 0);
            assert(tail.skip(1) =~= k + seq![']']);
            lemma_open_after_concat(k, seq![']'], 1);
            assert(seq![']'].skip(1) =~= Seq::<char>::empty());
            assert(open_after(seq![']'].skip(1), 0) == Some(0int));
            assert(open_after(seq![']'], 1) == Some(0int));
            text::lemma_first_at_unique(raw, '[', name.len() as int);
            assert(raw.take(name.len() as int) =~= name);
            assert(raw.subrange(name.len() as int + 1, raw.len() - 1) =~= k);
        },
        None => {
            text::lemma_first_at_unique(raw, '[', raw.len() as int);
        },
    }
}

proof fn lemma_segment_canonical(raw: Seq<char>, whole: Seq<char>)
    requires
        open_after(raw, 0) == Some(0int),
    ensures
        segment_of(raw, whole) matches Ok(segment) ==> is_canonical_segment(segment),
{
    text::lemma_first_at(raw, '[');
    let open = text::first_at(raw, '[');
    if raw.len() > 0 && 0 < open < raw.len() && raw.last() == ']' {
        let name = raw.take(open);
        let key = raw.subrange(open + 1, raw.len() - 1);
        let tail = seq!['['] + key + seq![']'];
        assert(raw =~= name + tail);
        lemma_open_after_concat(name, tail, 0);
        lemma_plain_of_open_after(name);
        assert(tail.skip(1) =~= key + seq![']']);
        lemma_open_after_concat(key, seq![']'], 1);
        assert(seq![']'].skip(1) =~= Seq::<char>::empty());
        let d = open_after(key, 1)->0;
        assert(open_after(seq![']'].skip(1), d - 1) == Some(d - 1));
    } else if open == raw.len() {
        lemma_plain_of_open_after(raw);
    }
}

/// Text without an opening bracket that keeps within its brackets holds no dot and no
/// closing bracket.
proof fn lemma_plain_of_open_after(s: Seq<char>)
    requires
        open_after(s, 0) is Some,
        forall|i: int| 0 <= i < s.len() ==> s[i] != '[',
    ensures
        open_after(s, 0) == Some(0int),
        forall|i: int|
            0 <= i < s.len() ==> {
                let c = #[trigger] s[i];
                c != '.' && c != '[' && c != ']'
            },
    decreases s.len(),
{
    if s.len() > 0 {
        let rest = s.skip(1);
        assert(s[0] != '[');
        assert(forall|i: int| 0 <= i < rest.len() ==> rest[i] == s[i + 1]);
        lemma_plain_of_open_after(rest);
        assert forall|i: int| 0 <= i < s.len() implies {
            let c = #[trigger] s[i];
            c != '.' && c != '[' && c != ']'
        } by {
            if i > 0 {
                assert(rest[i - 1] == s[i]);
            }
        }
    }
}

proof fn lemma_segments_from_canonical(
    rest: Seq<char>,
    depth: int,
    current: Seq<char>,
    done: Seq<SegmentView>,
    whole: Seq<char>,
    segments: Seq<SegmentView>,
)
    requires
        segments_from(rest, depth, current, done, whole) == Ok::<_, AddressFault>(segments),
        open_after(current, 0) == Some(depth),
        forall|i: int| 0 <= i < done.len() ==> is_canonical_segment(#[trigger] done[i]),
    ensures
        is_canonical(segments),
    decreases rest.len(),
{
    if rest.len() == 0 {
        lemma_segment_canonical(current, whole);
    } else {
        let c = rest[0];
        let next = rest.skip(1);
        if c == '.' && depth == 0 {
            let segment = segment_of(current, whole)->Ok_0;
            lemma_segment_canonical(current, whole);
            lemma_segments_from_canonical(next, 0, seq![], done.push(segment), whole, segments);
        } else {
            let d = if c == '[' {
                depth + 1
            } else if c == ']' {
                depth - 1
            } else {
                depth
            };
            lemma_open_after_concat(current, seq![c], 0);
            assert(seq![c].skip(1) =~= Seq::<char>::empty());
            assert(open_after(seq![c].skip(1), d) == Some(d));
            assert(open_after(seq![c], depth) == Some(d));
            assert(current + seq![c] =~= current.push(c));
            lemma_segments_from_canonical(next, d, current.push(c), done, whole, segments);
        }
    }
}

// ── Model of the parts of an address ─────────────────────────────────

/// The position of the first segment with a key, or the number of segments.
pub open spec fn first_keyed(segments: Seq<SegmentView>) -> int
    decreases segments.len(),
{
    if segments.len() == 0 || segments[0].key is Some {
        0
    } else {
        1 + first_keyed(segments.skip(1))
    }
}

/// The position of the organism: the first segment with a key, else the first segment.
/// Everything before it is namespace; everything after it is buffer.
pub open spec fn organism_at(segments: Seq<SegmentView>) -> int {
    if first_keyed(segments) < segments.len() {
        first_keyed(segments)
    } else {
        0
    }
}

/// The organism's name.
pub open spec fn organism_of(segments: Seq<SegmentView>) -> Option<Seq<char>> {
    if segments.len() == 0 {
        None
    } else {
        Some(segments[organism_at(segments)].name)
    }
}

/// The name of the first segment, where the organism comes behind it.
pub open spec fn namespace_of(segments: Seq<SegmentView>) -> Option<Seq<char>> {
    if organism_at(segments) > 0 {
        Some(segments[0].name)
    } else {
        None
    }
}

/// The organism's key, if it has one.
pub open spec fn instance_key_of(segments: Seq<SegmentView>) -> Option<Seq<char>> {
    if segments.len() == 0 {
        None
    } else {
        segments[organism_at(segments)].key
    }
}

/// The segment behind the organism, if there is one.
pub open spec fn buffer_of(segments: Seq<SegmentView>) -> Option<SegmentView> {
    if organism_at(segments) + 1 < segments.len() {
        Some(segments[organism_at(segments) + 1])
    } else {
        None
    }
}

/// The address up to the organism. Meant for addresses that have one.
pub open spec fn instance_of(segments: Seq<SegmentView>) -> Seq<SegmentView> {
    segments.take(organism_at(segments) + 1)
}

/// The name of the first segment.
pub open spec fn node_of(segments: Seq<SegmentView>) -> Option<Seq<char>> {
    if segments.len() == 0 {
        None
    } else {
        Some(segments[0].name)
    }
}

proof fn lemma_first_keyed(segments: Seq<SegmentView>, k: int)
    requires
        0 <= k <= segments.len(),
        k < segments.len() ==> segments[k].key is Some,
        forall|i: int| 0 <= i < k ==> (#[trigger] segments[i]).key is None,
    ensures
        first_keyed(segments) == k,
    decreases k,
{
    if k > 0 {
        let rest = segments.skip(1);
        assert(segments[0].key is None);
        assert forall|i: int| 0 <= i < k - 1 implies (#[trigger] rest[i]).key is None by {
            assert(rest[i] == segments[i + 1]);
        }
        lemma_first_keyed(rest, k - 1);
    }
}

// ── Operations ───────────────────────────────────────────────────────

impl Address {
    /// Construct a flat (single-segment, no-key) address — the degenerate case.
    pub fn flat(name: &str) -> (r: Self)
        ensures
            r@ == flat(name@),
    {
        let mut segments: Vec<Segment> = Vec::new();
        segments.push(Segment { name: name.to_owned(), key: None });
        let r = Address { segments };
        assert(r@ =~= flat(name@));
        r
    }

    /// Parse `namespace.organism[key].buffer` into segments.
    ///
    /// Dots separate segments but are ignored inside `[...]` (a key may contain dots).
    pub fn parse(s: &str) -> (r: Result<Address, AddressError>)
        ensures
            match r {
                Ok(a) => address_of(s@) == Ok::<_, AddressFault>(a@),
                Err(e) => address_of(s@) == Err::<Seq<SegmentView>, _>(e@),
            },
    {
        let chars = text::chars_of(s);
        if chars.len() == 0 {
            return Err(AddressError::Empty);
        }
        let mut segments: Vec<Segment> = Vec::new();
        let mut depth: usize = 0;
        let mut current = String::new();
        let mut i: usize = 0;
        proof {
            assert(s@.skip(0) =~= s@);
            assert(segments@.map_values(|x: Segment| x@) =~= seq![]);
            assert(current@ =~= seq![]);
        }
        while i < chars.len()
            invariant
                chars@ == s@,
                i <= chars@.len(),
                depth <= i,
                address_of(s@) == segments_from(
                    s@.skip(i as int),
                    depth as int,
                    current@,
                    segments@.map_values(|x: Segment| x@),
                    s@,
                ),
            decreases chars@.len() - i,
        {
            let c = chars[i];
            proof {
                assert(s@.skip(i as int)[0] == c);
                assert(s@.skip(i as int).skip(1) =~= s@.skip(i + 1));
            }
            if c == '[' {
                depth += 1;
                current.push(c);
            } else if c == ']' {
                if depth == 0 {
                    return Err(AddressError::Unbalanced(s.to_owned()));
                }
                depth -= 1;
                current.push(c);
            } else if c == '.' && depth == 0 {
                match parse_segment(current.as_str(), s) {
                    Ok(segment) => {
                        let ghost before = segments@;
                        segments.push(segment);
                        assert(segments@.map_values(|x: Segment| x@) =~= before.map_values(
                            |x: Segment| x@,
                        ).push(segment@));
                    },
                    Err(e) => {
                        return Err(e);
                    },
                }
                current = String::new();
                assert(current@ =~= seq![]);
            } else {
                current.push(c);
            }
            i += 1;
        }
        assert(s@.skip(i as int).len() == 0);
        if depth != 0 {
            return Err(AddressError::Unbalanced(s.to_owned()));
        }
        match parse_segment(current.as_str(), s) {
            Ok(segment) => {
                let ghost before = segments@;
                segments.push(segment);
                assert(segments@.map_values(|x: Segment| x@) =~= before.map_values(
                    |x: Segment| x@,
                ).push(segment@));
                Ok(Address { segments })
            },
            Err(e) => Err(e),
        }
    }

    /// The address as it is written.
    pub fn to_string(&self) -> (r: String)
        ensures
            r@ == shown(self@),
    {
        let mut out = String::new();
        let mut i: usize = 0;
        assert(self@.take(0) =~= Seq::<SegmentView>::empty());
        assert(out@ =~= shown(self@.take(0)));
        while i < self.segments.len()
            invariant
                i <= self.segments@.len(),
                out@ == shown(self@.take(i as int)),
            decreases self.segments@.len() - i,
        {
            let segment = &self.segments[i];
            proof {
                assert(self@.take(i + 1) =~= self@.take(i as int).push(segment@));
                lemma_shown_push(self@.take(i as int), segment@);
            }
            let ghost before = out@;
            if i > 0 {
                out.push('.');
            }
            out.append(segment.name.as_str());
            match &segment.key {
                Some(k) => {
                    out.push('[');
                    out.append(k.as_str());
                    out.push(']');
                },
                None => {},
            }
            proof {
                if i > 0 {
                    assert(out@ =~= before + seq!['.'] + segment@.shown());
                } else {
                    assert(before =~= Seq::<char>::empty());
                    assert(out@ =~= segment@.shown());
                }
            }
            i += 1;
        }
        assert(self@.take(i as int) =~= self@);
        out
    }

    /// The final segment name — kept for convenience/tests. NB: the *listener* a
    /// pipeline routes to is [`Address::organism`], NOT this; for a flat address they
    /// coincide, but `bob[alice].dm`'s target is "dm" while its organism is "bob".
    pub fn target(&self) -> (r: Option<&str>)
        ensures
            text::opt_text(r) == if self@.len() == 0 {
                None
            } else {
                Some(self@.last().name)
            },
    {
        let n: usize = self.segments.len();
        if n == 0 {
            None
        } else {
            assert(self@.last() == self.segments@[n - 1]@);
            Some(self.segments[n - 1].name.as_str())
        }
    }

    /// The first segment's name — the node that a federated address starts at.
    pub fn node(&self) -> (r: Option<&str>)
        ensures
            text::opt_text(r) == node_of(self@),
    {
        if self.segments.len() == 0 {
            None
        } else {
            assert(self@[0] == self.segments@[0]@);
            Some(self.segments[0].name.as_str())
        }
    }

    /// Index of the organism segment: the first segment with a key, else segment 0.
    /// Everything before is namespace; everything after is buffer.
    fn organism_index(&self) -> (r: usize)
        ensures
            r == organism_at(self@),
            self@.len() > 0 ==> r < self@.len(),
            self@.len() == 0 ==> r == 0,
    {
        let mut i: usize = 0;
        while i < self.segments.len()
            invariant
                i <= self.segments@.len(),
                forall|j: int| 0 <= j < i ==> (#[trigger] self@[j]).key is None,
            decreases self.segments@.len() - i,
        {
            assert(self@[i as int] == self.segments@[i as int]@);
            if self.segments[i].key.is_some() {
                proof {
                    lemma_first_keyed(self@, i as int);
                }
                return i;
            }
            i += 1;
        }
        proof {
            lemma_first_keyed(self@, i as int);
        }
        0
    }

    /// The organism name — the listener a pipeline routes to.
    /// `ringhub.bob[alice].dm` → "bob"; `bob[alice]` → "bob"; flat `echo` → "echo".
    pub fn organism(&self) -> (r: Option<&str>)
        ensures
            text::opt_text(r) == organism_of(self@),
    {
        let i = self.organism_index();
        if i < self.segments.len() {
            assert(self@[i as int] == self.segments@[i as int]@);
            Some(self.segments[i].name.as_str())
        } else {
            None
        }
    }

    /// The namespace prefix (the first segment, where the organism comes behind it), if any.
    /// `ringhub.bob[alice]` → Some("ringhub"); `bob[alice]` → None.
    pub fn namespace(&self) -> (r: Option<&str>)
        ensures
            text::opt_text(r) == namespace_of(self@),
    {
        let i = self.organism_index();
        if i > 0 {
            assert(self@[0] == self.segments@[0]@);
            Some(self.segments[0].name.as_str())
        } else {
            None
        }
    }

    /// The instance key from the organism segment, if present (`bob[alice]` → "alice").
    pub fn instance_key(&self) -> (r: Option<&str>)
        ensures
            text::opt_text(r) == instance_key_of(self@),
    {
        let i = self.organism_index();
        if i < self.segments.len() {
            assert(self@[i as int] == self.segments@[i as int]@);
            match &self.segments[i].key {
                Some(k) => Some(k.as_str()),
                None => None,
            }
        } else {
            None
        }
    }

    /// Cache-composition keys from the organism segment
    /// (`bob[main+alice]` → ["main", "alice"]).
    pub fn cache_keys(&self) -> (r: Vec<&str>)
        ensures
            r@.map_values(|p: &str| p@) == if self@.len() == 0 {
                seq![]
            } else {
                self@[organism_at(self@)].cache_keys()
            },
    {
        let i = self.organism_index();
        if i < self.segments.len() {
            assert(self@[i as int] == self.segments@[i as int]@);
            self.segments[i].cache_keys()
        } else {
            let none: Vec<&str> = Vec::new();
            assert(none@.map_values(|p: &str| p@) =~= seq![]);
            none
        }
    }

    /// The buffer segment (first segment after the organism), if present
    /// (`bob[alice].dm` → "dm"). Buffers sub-route within an instance.
    pub fn buffer(&self) -> (r: Option<&Segment>)
        ensures
            match r {
                Some(s) => buffer_of(self@) == Some(s@),
                None => buffer_of(self@) is None,
            },
    {
        let i = self.organism_index();
        let n: usize = self.segments.len();
        if n > 1 && i < n - 1 {
            assert(self@[i + 1] == self.segments@[i + 1]@);
            Some(&self.segments[i + 1])
        } else {
            None
        }
    }

    /// The instance-level address — namespace + organism[key], dropping any buffer.
    /// `ringhub.bob[alice].dm` → `ringhub.bob[alice]`.
    pub fn instance_address(&self) -> (r: Address)
        requires
            self@.len() > 0,
        ensures
            r@ == instance_of(self@),
    {
        let i = self.organism_index();
        let n: usize = self.segments.len();
        assert(i < n);
        Address { segments: clone_segments(&self.segments, i + 1) }
    }
}

fn parse_segment(raw: &str, whole: &str) -> (r: Result<Segment, AddressError>)
    ensures
        match r {
            Ok(segment) => segment_of(raw@, whole@) == Ok::<_, AddressFault>(segment@),
            Err(e) => segment_of(raw@, whole@) == Err::<SegmentView, _>(e@),
        },
{
    let chars = text::chars_of(raw);
    let n: usize = chars.len();
    if n == 0 {
        return Err(AddressError::EmptySegment(whole.to_owned()));
    }
    let open = text::find_first(chars.as_slice(), '[');
    proof {
        text::lemma_first_at(raw@, '[');
    }
    if open == n {
        return Ok(Segment { name: raw.to_owned(), key: None });
    }
    if open == 0 {
        return Err(AddressError::EmptyName(whole.to_owned()));
    }
    if chars[n - 1] != ']' {
        return Err(AddressError::Unbalanced(whole.to_owned()));
    }
    let name = text::text_of(chars.as_slice(), 0, open);
    let key = text::text_of(chars.as_slice(), open + 1, n - 1);
    assert(name@ =~= raw@.take(open as int));
    Ok(Segment { name, key: Some(key) })
}

/// A bare name becomes a flat (degenerate) address — convenient for the common
/// single-listener case and for tests.
impl From<&str> for Address {
    fn from(s: &str) -> (r: Self)
        ensures
            r@ == flat(s@),
    {
        Address::flat(s)
    }
}

impl vstd::std_specs::convert::FromSpecImpl<&str> for Address {
    open spec fn obeys_from_spec() -> bool {
        false
    }

    open spec fn from_spec(s: &str) -> Self {
        arbitrary()
    }
}

impl From<String> for Address {
    fn from(s: String) -> (r: Self)
        ensures
            r@ == flat(s@),
    {
        Address::flat(s.as_str())
    }
}

impl vstd::std_specs::convert::FromSpecImpl<String> for Address {
    open spec fn obeys_from_spec() -> bool {
        false
    }

    open spec fn from_spec(s: String) -> Self {
        arbitrary()
    }
}

// ── Laws of the parts of an address ──────────────────────────────────

/// The organism is the first segment with a key, and the first of all where none has one.
pub proof fn law_organism_is_first_keyed(segments: Seq<SegmentView>)
    requires
        segments.len() > 0,
    ensures
        ({
            let k = organism_at(segments);
            &&& 0 <= k < segments.len()
            &&& organism_of(segments) == Some(segments[k].name)
            &&& if segments[k].key is Some {
                forall|i: int| 0 <= i < k ==> (#[trigger] segments[i]).key is None
            } else {
                k == 0 && forall|i: int|
                    0 <= i < segments.len() ==> (#[trigger] segments[i]).key is None
            }
        }),
{
    lemma_first_keyed_is_first(segments);
}

proof fn lemma_first_keyed_is_first(segments: Seq<SegmentView>)
    ensures
        0 <= first_keyed(segments) <= segments.len(),
        first_keyed(segments) < segments.len() ==> segments[first_keyed(segments)].key is Some,
        forall|i: int| 0 <= i < first_keyed(segments) ==> (#[trigger] segments[i]).key is None,
    decreases segments.len(),
{
    if segments.len() > 0 && segments[0].key is None {
        let rest = segments.skip(1);
        lemma_first_keyed_is_first(rest);
        assert forall|i: int| 0 <= i < first_keyed(segments) implies (#[trigger] segments[i]).key is None by {
            if i > 0 {
                assert(rest[i - 1] == segments[i]);
            }
        }
    }
}

/// An instance stays the same whatever buffers stand behind it: of an address with a key,
/// the organism, and the address up to it, do not depend on what comes behind.
pub proof fn law_buffers_do_not_change_the_instance(
    instance: Seq<SegmentView>,
    buffers: Seq<SegmentView>,
)
    requires
        instance.len() > 0,
        instance.last().key is Some,
        forall|i: int| 0 <= i < instance.len() - 1 ==> (#[trigger] instance[i]).key is None,
    ensures
        organism_at(instance + buffers) == instance.len() - 1,
        organism_of(instance + buffers) == Some(instance.last().name),
        (instance + buffers).take(organism_at(instance + buffers) + 1) == instance,
{
    let all = instance + buffers;
    let k = instance.len() - 1;
    assert forall|i: int| 0 <= i < k implies (#[trigger] all[i]).key is None by {
        assert(all[i] == instance[i]);
    }
    assert(all[k] == instance.last());
    lemma_first_keyed(all, k);
    assert(all.take(k + 1) =~= instance);
}

/// The node of an address is its first name, whatever stands behind it.
pub proof fn law_node_is_first(first: SegmentView, rest: Seq<SegmentView>)
    ensures
        node_of(seq![first] + rest) == Some(first.name),
        node_of(seq![]) is None,
{
    assert((seq![first] + rest)[0] == first);
}

/// A segment without a key has no cache keys; the keys of a key that is composed of two are
/// those of the one, then those of the other; a key that is not composed is the only one.
pub proof fn law_cache_keys_compose(name: Seq<char>, a: Seq<char>, b: Seq<char>)
    ensures
        (SegmentView { name, key: None }).cache_keys() == Seq::<Seq<char>>::empty(),
        (SegmentView { name, key: Some(a + seq!['+'] + b) }).cache_keys() == (SegmentView {
            name,
            key: Some(a),
        }).cache_keys() + (SegmentView { name, key: Some(b) }).cache_keys(),
        !a.contains('+') && a.len() > 0 ==> (SegmentView { name, key: Some(a) }).cache_keys()
            == seq![a],
{
    text::law_pieces_join(a, b, '+');
    if !a.contains('+') {
        text::law_single_piece(a, '+');
    }
}

/// Two addresses one behind the other are written with a dot between them.
pub proof fn law_shown_joins(a: Seq<SegmentView>, b: Seq<SegmentView>)
    requires
        a.len() > 0,
        b.len() > 0,
    ensures
        shown(a + b) == shown(a) + seq!['.'] + shown(b),
    decreases a.len(),
{
    if a.len() == 1 {
        assert((a + b).skip(1) =~= b);
        assert((a + b)[0] == a[0]);
        assert(shown(a + b) =~= shown(a) + seq!['.'] + shown(b));
    } else {
        assert((a + b).skip(1) =~= a.skip(1) + b);
        law_shown_joins(a.skip(1), b);
        assert(shown(a + b) =~= shown(a) + seq!['.'] + shown(b));
    }
}

/// A segment is written as its name, with its key in brackets behind it if it has one.
pub proof fn law_segment_is_written(name: Seq<char>, key: Seq<char>)
    ensures
        shown(seq![SegmentView { name, key: None }]) == name,
        shown(seq![SegmentView { name, key: Some(key) }]) == name + seq!['['] + key + seq![']'],
{
}

/// Names that are not empty and hold neither dots nor brackets make an address, with keys
/// that hold no brackets, dots among them or not: what is written of it is read as it.
pub proof fn law_plain_names_are_addresses(segments: Seq<SegmentView>)
    requires
        segments.len() > 0,
        forall|i: int|
            0 <= i < segments.len() ==> {
                &&& (#[trigger] segments[i]).name.len() > 0
                &&& !segments[i].name.contains('.')
                &&& !segments[i].name.contains('[')
                &&& !segments[i].name.contains(']')
                &&& segments[i].key matches Some(k) ==> !k.contains('[') && !k.contains(']')
            },
    ensures
        address_of(shown(segments)) == Ok::<_, AddressFault>(segments),
{
    assert forall|i: int| 0 <= i < segments.len() implies is_canonical_segment(
        #[trigger] segments[i],
    ) by {
        let segment = segments[i];
        assert forall|j: int| 0 <= j < segment.name.len() implies {
            let c = #[trigger] segment.name[j];
            c != '.' && c != '[' && c != ']'
        } by {
            assert(segment.name.contains(segment.name[j]));
        }
        if let Some(k) = segment.key {
            lemma_open_without_brackets(k);
        }
    }
    law_parse_of_displayed(segments);
}

proof fn lemma_open_without_brackets(s: Seq<char>)
    requires
        !s.contains('['),
        !s.contains(']'),
    ensures
        open_after(s, 1) == Some(1int),
    decreases s.len(),
{
    if s.len() > 0 {
        let rest = s.skip(1);
        assert(s.contains(s[0]));
        assert forall|c: char| rest.contains(c) implies s.contains(c) by {
            let i = rest.index_of(c);
            assert(s[i + 1] == c);
        }
        lemma_open_without_brackets(rest);
    }
}

/// What is no address is quoted whole in the error, but for the empty text.
pub proof fn law_faults_quote_the_address(s: Seq<char>)
    ensures
        address_of(s) matches Err(e) ==> match e {
            AddressFault::Empty => s.len() == 0,
            AddressFault::EmptySegment(w) => w == s,
            AddressFault::Unbalanced(w) => w == s,
            AddressFault::EmptyName(w) => w == s,
        },
        s.len() == 0 ==> address_of(s) == Err::<Seq<SegmentView>, _>(AddressFault::Empty),
{
    if s.len() > 0 {
        lemma_faults_quote(s, 0, seq![], seq![], s);
    }
}

proof fn lemma_faults_quote(
    rest: Seq<char>,
    depth: int,
    current: Seq<char>,
    done: Seq<SegmentView>,
    whole: Seq<char>,
)
    ensures
        segments_from(rest, depth, current, done, whole) matches Err(e) ==> match e {
            AddressFault::Empty => false,
            AddressFault::EmptySegment(w) => w == whole,
            AddressFault::Unbalanced(w) => w == whole,
            AddressFault::EmptyName(w) => w == whole,
        },
    decreases rest.len(),
{
    if rest.len() > 0 {
        let c = rest[0];
        let next = rest.skip(1);
        lemma_faults_quote(next, depth + 1, current.push(c), done, whole);
        lemma_faults_quote(next, depth - 1, current.push(c), done, whole);
        lemma_faults_quote(next, depth, current.push(c), done, whole);
        if let Ok(segment) = segment_of(current, whole) {
            lemma_faults_quote(next, 0, seq![], done.push(segment), whole);
        }
    }
}

/// Two addresses with a dot between them are the address of the segments of both.
pub proof fn law_addresses_join(a: Seq<char>, b: Seq<char>)
    requires
        address_of(a) is Ok,
        address_of(b) is Ok,
    ensures
        address_of(a + seq!['.'] + b) == Ok::<_, AddressFault>(
            address_of(a)->Ok_0 + address_of(b)->Ok_0,
        ),
{
    let x = address_of(a)->Ok_0;
    let y = address_of(b)->Ok_0;
    law_display_of_parsed(a, x);
    law_display_of_parsed(b, y);
    law_parsed_is_canonical(a, x);
    law_parsed_is_canonical(b, y);
    law_shown_joins(x, y);
    assert forall|i: int| 0 <= i < (x + y).len() implies is_canonical_segment(
        #[trigger] (x + y)[i],
    ) by {
        if i < x.len() {
            assert((x + y)[i] == x[i]);
        } else {
            assert((x + y)[i] == y[i - x.len()]);
        }
    }
    law_parse_of_displayed(x + y);
}

/// The parts of an address with a key: its namespace is the first name before the organism,
/// which is the segment with the key, and its buffer the first segment behind; the instance
/// is everything up to the organism.
pub proof fn law_parts_of_a_keyed_address(
    front: Seq<SegmentView>,
    name: Seq<char>,
    key: Seq<char>,
    back: Seq<SegmentView>,
)
    requires
        forall|i: int| 0 <= i < front.len() ==> (#[trigger] front[i]).key is None,
    ensures
        ({
            let organism = SegmentView { name, key: Some(key) };
            let a = front + seq![organism] + back;
            &&& organism_of(a) == Some(name)
            &&& instance_key_of(a) == Some(key)
            &&& namespace_of(a) == if front.len() > 0 {
                Some(front[0].name)
            } else {
                None
            }
            &&& buffer_of(a) == if back.len() > 0 {
                Some(back[0])
            } else {
                None
            }
            &&& instance_of(a) == front.push(organism)
        }),
{
    let organism = SegmentView { name, key: Some(key) };
    let a = front + seq![organism] + back;
    let k = front.len() as int;
    assert forall|i: int| 0 <= i < k implies (#[trigger] a[i]).key is None by {
        assert(a[i] == front[i]);
    }
    assert(a[k] == organism);
    lemma_first_keyed(a, k);
    assert(a.take(k + 1) =~= front.push(organism));
    if front.len() > 0 {
        assert(a[0] == front[0]);
    }
    if back.len() > 0 {
        assert(a[k + 1] == back[0]);
    }
}

/// The parts of an address without keys: the first segment is the organism, without a
/// namespace, and the second its buffer.
pub proof fn law_parts_of_an_address_without_keys(first: Seq<char>, back: Seq<SegmentView>)
    requires
        forall|i: int| 0 <= i < back.len() ==> (#[trigger] back[i]).key is None,
    ensures
        ({
            let organism = SegmentView { name: first, key: None };
            let a = seq![organism] + back;
            &&& organism_of(a) == Some(first)
            &&& instance_key_of(a) is None
            &&& namespace_of(a) is None
            &&& buffer_of(a) == if back.len() > 0 {
                Some(back[0])
            } else {
                None
            }
            &&& instance_of(a) == seq![organism]
        }),
{
    let organism = SegmentView { name: first, key: None };
    let a = seq![organism] + back;
    assert forall|i: int| 0 <= i < a.len() implies (#[trigger] a[i]).key is None by {
        if i > 0 {
            assert(a[i] == back[i - 1]);
        }
    }
    lemma_first_keyed(a, a.len() as int);
    assert(a.take(1) =~= seq![organism]);
    if back.len() > 0 {
        assert(a[1] == back[0]);
    }
}

/// A bare name is an address of one segment, which is the organism and is written as the
/// name.
pub proof fn law_bare_name(name: Seq<char>)
    ensures
        flat(name).len() == 1,
        organism_of(flat(name)) == Some(name),
        node_of(flat(name)) == Some(name),
        instance_key_of(flat(name)) is None,
        namespace_of(flat(name)) is None,
        buffer_of(flat(name)) is None,
        instance_of(flat(name)) == flat(name),
        shown(flat(name)) == name,
{
    let none = Seq::<SegmentView>::empty();
    law_parts_of_an_address_without_keys(name, none);
    assert(seq![SegmentView { name, key: None }] + none =~= flat(name));
}

} // verus!
