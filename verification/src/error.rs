//! Pipeline error types.
//!
//! Every stage in the pipeline produces `Result<T, PipelineError>`, giving natural
//! short-circuiting through the trust progression.

use vstd::prelude::*;

use crate::text;

verus! {

/// The opaque error of the `quick-xml` reader.
#[verifier::external_type_specification]
#[verifier::external_body]
pub struct ExXmlError(quick_xml::Error);

/// The unified error type for all pipeline stages.
///
/// Each variant corresponds to a stage where trust can fail to be established.
/// Raw bytes enter the pipeline and must earn their way to dispatch — any
/// failure at any stage produces a specific, diagnosable error.
#[derive(Debug)]
pub enum PipelineError {
    /// Raw bytes couldn't be repaired into valid XML.
    Repair(String),
    /// Well-formed XML, but not a valid envelope structure.
    EnvelopeParse(String),
    /// Missing required metadata field.
    MissingMeta(&'static str),
    /// Payload failed schema validation.
    Validation(String),
    /// No listener registered for this payload type / target.
    NoRoute(String),
    /// Agent attempted to message a non-declared peer.
    PeerViolation { from: String, to: String, allowed: Vec<String> },
    /// Thread UUID not found in registry.
    UnknownThread(String),
    /// Thread chain exhausted (response with nowhere to go).
    ChainExhausted(String),
    /// Handler returned an error.
    Handler(String),
    /// Handler panicked.
    HandlerPanic(String),
    /// Configuration file couldn't be loaded or parsed.
    Config(String),
    /// Failed to serialize handler response back to bytes.
    Serialization(String),
    /// Underlying XML parsing error.
    Xml(quick_xml::Error),
}

/// Alias used throughout the crate.
pub type PipelineResult<T> = Result<T, PipelineError>;

/// The mathematical model of a [`PipelineError`].
pub enum ErrorView {
    Repair(Seq<char>),
    EnvelopeParse(Seq<char>),
    MissingMeta(Seq<char>),
    Validation(Seq<char>),
    NoRoute(Seq<char>),
    PeerViolation { from: Seq<char>, to: Seq<char>, allowed: Seq<Seq<char>> },
    UnknownThread(Seq<char>),
    ChainExhausted(Seq<char>),
    Handler(Seq<char>),
    HandlerPanic(Seq<char>),
    Config(Seq<char>),
    Serialization(Seq<char>),
    Xml(quick_xml::Error),
}

impl View for PipelineError {
    type V = ErrorView;

    open spec fn view(&self) -> ErrorView {
        match self {
            PipelineError::Repair(m) => ErrorView::Repair(m@),
            PipelineError::EnvelopeParse(m) => ErrorView::EnvelopeParse(m@),
            PipelineError::MissingMeta(m) => ErrorView::MissingMeta(m@),
            PipelineError::Validation(m) => ErrorView::Validation(m@),
            PipelineError::NoRoute(m) => ErrorView::NoRoute(m@),
            PipelineError::PeerViolation { from, to, allowed } => ErrorView::PeerViolation {
                from: from@,
                to: to@,
                allowed: texts(allowed@),
            },
            PipelineError::UnknownThread(m) => ErrorView::UnknownThread(m@),
            PipelineError::ChainExhausted(m) => ErrorView::ChainExhausted(m@),
            PipelineError::Handler(m) => ErrorView::Handler(m@),
            PipelineError::HandlerPanic(m) => ErrorView::HandlerPanic(m@),
            PipelineError::Config(m) => ErrorView::Config(m@),
            PipelineError::Serialization(m) => ErrorView::Serialization(m@),
            PipelineError::Xml(e) => ErrorView::Xml(*e),
        }
    }
}

/// The texts of a list of strings.
pub open spec fn texts(list: Seq<String>) -> Seq<Seq<char>> {
    list.map_values(|s: String| s@)
}

/// The quoted texts, separated by a comma and a space.
pub open spec fn quoted_items(list: Seq<Seq<char>>) -> Seq<char>
    decreases list.len(),
{
    if list.len() == 0 {
        seq![]
    } else if list.len() == 1 {
        text::quoted_text(list[0])
    } else {
        quoted_items(list.drop_last()) + ", "@ + text::quoted_text(list.last())
    }
}

/// The debug form of a list of strings.
fn quoted_list(list: &Vec<String>) -> (r: String)
    ensures
        r@ == "["@ + quoted_items(texts(list@)) + "]"@,
{
    let mut items = String::new();
    let mut i: usize = 0;
    assert(texts(list@).take(0) =~= Seq::<Seq<char>>::empty());
    assert(items@ =~= quoted_items(texts(list@).take(0)));
    while i < list.len()
        invariant
            i <= list@.len(),
            items@ == quoted_items(texts(list@).take(i as int)),
        decreases list@.len() - i,
    {
        let item = text::quoted(list[i].as_str());
        proof {
            let longer = texts(list@).take(i + 1);
            assert(longer.drop_last() =~= texts(list@).take(i as int));
            assert(longer.last() == list@[i as int]@);
        }
        if i > 0 {
            items.append(", ");
        }
        items.append(item.as_str());
        proof {
            if i == 0 {
                assert(items@ =~= quoted_items(texts(list@).take(1)));
            }
        }
        i += 1;
    }
    assert(texts(list@).take(i as int) =~= texts(list@));
    text::cat3("[", items.as_str(), "]")
}

impl ErrorView {
    /// The message of an error, where `xml` is the message of an underlying XML error.
    pub open spec fn message(self, xml: Seq<char>) -> Seq<char> {
        match self {
            ErrorView::Repair(m) => "repair failed: "@ + m,
            ErrorView::EnvelopeParse(m) => "envelope parse error: "@ + m,
            ErrorView::MissingMeta(m) => "missing meta field: "@ + m,
            ErrorView::Validation(m) => "validation failed: "@ + m,
            ErrorView::NoRoute(m) => "no route for: "@ + m,
            ErrorView::PeerViolation { from, to, allowed } => "peer violation: "@ + from
                + " cannot message "@ + to + " (allowed: "@ + ("["@ + quoted_items(allowed) + "]"@)
                + ")"@,
            ErrorView::UnknownThread(m) => "unknown thread: "@ + m,
            ErrorView::ChainExhausted(m) => "thread chain exhausted: "@ + m,
            ErrorView::Handler(m) => "handler error: "@ + m,
            ErrorView::HandlerPanic(m) => "handler panicked: "@ + m,
            ErrorView::Config(m) => "config error: "@ + m,
            ErrorView::Serialization(m) => "serialization error: "@ + m,
            ErrorView::Xml(_) => "xml error: "@ + xml,
        }
    }
}

impl PipelineError {
    /// Whether the error is displayed as `s`. For an underlying XML error `s` holds the text
    /// that error displays as.
    pub open spec fn is_displayed_as(self, s: Seq<char>) -> bool {
        match self {
            PipelineError::Xml(e) => exists|shown: String|
                #[trigger] vstd::string::to_string_from_display_ensures(&e, shown) && s
                    == self@.message(shown@),
            _ => forall|xml: Seq<char>| s == #[trigger] self@.message(xml),
        }
    }

    /// The message of the error. For an underlying XML error it holds the text that
    /// error displays as.
    pub fn to_string(&self) -> (r: String)
        ensures
            self.is_displayed_as(r@),
    {
        match self {
            PipelineError::Repair(m) => text::cat("repair failed: ", m.as_str()),
            PipelineError::EnvelopeParse(m) => text::cat("envelope parse error: ", m.as_str()),
            PipelineError::MissingMeta(m) => text::cat("missing meta field: ", m),
            PipelineError::Validation(m) => text::cat("validation failed: ", m.as_str()),
            PipelineError::NoRoute(m) => text::cat("no route for: ", m.as_str()),
            PipelineError::PeerViolation { from, to, allowed } => {
                let head = text::cat5(
                    "peer violation: ",
                    from.as_str(),
                    " cannot message ",
                    to.as_str(),
                    " (allowed: ",
                );
                let list = quoted_list(allowed);
                text::cat3(head.as_str(), list.as_str(), ")")
            },
            PipelineError::UnknownThread(m) => text::cat("unknown thread: ", m.as_str()),
            PipelineError::ChainExhausted(m) => text::cat("thread chain exhausted: ", m.as_str()),
            PipelineError::Handler(m) => text::cat("handler error: ", m.as_str()),
            PipelineError::HandlerPanic(m) => text::cat("handler panicked: ", m.as_str()),
            PipelineError::Config(m) => text::cat("config error: ", m.as_str()),
            PipelineError::Serialization(m) => text::cat("serialization error: ", m.as_str()),
            PipelineError::Xml(e) => {
                let shown = e.to_string();
                text::cat("xml error: ", shown.as_str())
            },
        }
    }
}

impl From<quick_xml::Error> for PipelineError {
    fn from(e: quick_xml::Error) -> (r: Self) {
        PipelineError::Xml(e)
    }
}

impl vstd::std_specs::convert::FromSpecImpl<quick_xml::Error> for PipelineError {
    open spec fn obeys_from_spec() -> bool {
        true
    }

    open spec fn from_spec(e: quick_xml::Error) -> Self {
        PipelineError::Xml(e)
    }
}

// ── Laws ─────────────────────────────────────────────────────────────

/// A list of quoted texts is that of its front and that of its back, with a comma and a
/// space between them; one text is quoted alone, and none is nothing.
pub proof fn law_quoted_lists_join(a: Seq<Seq<char>>, b: Seq<Seq<char>>, one: Seq<char>)
    requires
        a.len() > 0,
        b.len() > 0,
    ensures
        quoted_items(a + b) == quoted_items(a) + ", "@ + quoted_items(b),
        quoted_items(seq![one]) == text::quoted_text(one),
        quoted_items(seq![]) == Seq::<char>::empty(),
    decreases b.len(),
{
    let all = a + b;
    assert(all.last() == b.last());
    if b.len() == 1 {
        assert(all.drop_last() =~= a);
        assert(b[0] == b.last());
    } else {
        assert(all.drop_last() =~= a + b.drop_last());
        law_quoted_lists_join(a, b.drop_last(), one);
        assert(quoted_items(all) =~= quoted_items(a) + ", "@ + quoted_items(b));
    }
}

} // verus!
