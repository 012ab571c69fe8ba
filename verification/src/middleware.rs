//! Composable middleware for the dispatch stage.
//!
//! Middleware intercepts messages before and after handler dispatch,
//! enabling cross-cutting concerns (loop guards, permission gates, logging)
//! without polluting handler logic.
//!
//! # Execution Order
//!
//! Pre-dispatch runs in registration order (first registered, first called).
//! Post-dispatch runs in reverse order (last registered, first called).
//! This gives an "onion" wrapping: the first middleware added is the outermost layer.
//!
//! ```text
//! pre[0] → pre[1] → handler → post[1] → post[0]
//! ```
//!
//! [`DispatchRun`] decides what is called next; whoever drives it makes the calls and
//! hands the outcomes back.

use vstd::prelude::*;

use crate::envelope::AgentId;
use crate::error::{ErrorView, PipelineError};
use crate::handler::{HandlerResponse, HandlerResult, ResponseView, ValidatedPayload};
use crate::wire::PayloadView;

verus! {

/// Metadata about the message being dispatched.
///
/// Built from the routed message envelope — middleware sees the same
/// verified fields that the handler would receive via its context.
#[derive(Debug)]
pub struct DispatchMeta {
    /// Who sent this message (verified by pipeline).
    pub from: AgentId,
    /// The resolved dispatch target.
    pub to: AgentId,
    /// Thread UUID for this conversation chain.
    pub thread_id: String,
    /// The payload tag name (e.g., "ToolResponse", "AgentTask").
    pub payload_tag: String,
}

/// The model of a [`DispatchMeta`].
pub struct DispatchMetaView {
    pub from: Seq<char>,
    pub to: Seq<char>,
    pub thread_id: Seq<char>,
    pub payload_tag: Seq<char>,
}

impl View for DispatchMeta {
    type V = DispatchMetaView;

    open spec fn view(&self) -> DispatchMetaView {
        DispatchMetaView {
            from: self.from@,
            to: self.to@,
            thread_id: self.thread_id@,
            payload_tag: self.payload_tag@,
        }
    }
}

impl Clone for DispatchMeta {
    fn clone(&self) -> (r: Self)
        ensures
            r@ == self@,
    {
        DispatchMeta {
            from: self.from.clone(),
            to: self.to.clone(),
            thread_id: self.thread_id.clone(),
            payload_tag: self.payload_tag.clone(),
        }
    }
}

/// Pre-dispatch decision.
#[derive(Debug)]
pub enum PreDispatchVerdict {
    /// Allow dispatch to proceed to the next middleware / handler.
    Continue,
    /// Proceed with this payload in place of the one that came in.
    Transform(ValidatedPayload),
    /// Skip the handler entirely and return this response.
    ShortCircuit(HandlerResponse),
}

/// Post-dispatch decision.
#[derive(Debug)]
pub enum PostDispatchVerdict {
    /// Pass the handler's response through unchanged.
    PassThrough(HandlerResponse),
    /// Replace the handler's response with a different one.
    Replace(HandlerResponse),
}

impl PostDispatchVerdict {
    /// The response that goes on from here.
    pub open spec fn response(self) -> ResponseView {
        match self {
            PostDispatchVerdict::PassThrough(r) => r@,
            PostDispatchVerdict::Replace(r) => r@,
        }
    }
}

// ── Model of a dispatch ──────────────────────────────────────────────

/// What is called next.
#[derive(Debug, Clone, Copy, PartialEq, Eq, Structural)]
pub enum DispatchAction {
    /// The pre-dispatch hook of the middleware at this position.
    Pre(usize),
    /// The handler.
    Handle,
    /// The post-dispatch hook of the middleware at this position.
    Post(usize),
    /// Nothing: the outcome is settled.
    Done,
}

/// Where a dispatch stands.
pub enum PhaseView {
    Pre(int),
    Handle,
    Post(int, ResponseView),
    Done(Result<ResponseView, ErrorView>),
}

/// The model of a [`DispatchRun`].
pub struct RunView {
    /// How many middlewares there are.
    pub total: int,
    /// The payload, as transformed so far.
    pub payload: PayloadView,
    /// Where the dispatch stands.
    pub phase: PhaseView,
}

impl RunView {
    /// A dispatch that has not begun.
    pub open spec fn start(total: int, payload: PayloadView) -> RunView {
        RunView { total, payload, phase: PhaseView::Pre(0) }.settled()
    }

    /// The handler comes once every pre-dispatch hook has been called.
    pub open spec fn settled(self) -> RunView {
        match self.phase {
            PhaseView::Pre(i) if i >= self.total => RunView { phase: PhaseView::Handle, ..self },
            PhaseView::Post(i, r) if i < 0 => RunView { phase: PhaseView::Done(Ok(r)), ..self },
            _ => self,
        }
    }

    /// What is called next.
    pub open spec fn action(self) -> DispatchAction {
        match self.phase {
            PhaseView::Pre(i) => DispatchAction::Pre(i as usize),
            PhaseView::Handle => DispatchAction::Handle,
            PhaseView::Post(i, _) => DispatchAction::Post(i as usize),
            PhaseView::Done(_) => DispatchAction::Done,
        }
    }

    /// With a response, the post-dispatch hooks begin from the last one.
    pub open spec fn respond(self, r: ResponseView) -> RunView {
        RunView { phase: PhaseView::Post(self.total - 1, r), ..self }.settled()
    }

    /// The dispatch has failed.
    pub open spec fn fail(self, e: ErrorView) -> RunView {
        RunView { phase: PhaseView::Done(Err(e)), ..self }
    }

    /// Behind a pre-dispatch hook.
    pub open spec fn after_pre(
        self,
        verdict: Result<PreDispatchVerdict, PipelineError>,
    ) -> RunView {
        let i = self.phase->Pre_0;
        let next = RunView { phase: PhaseView::Pre(i + 1), ..self }.settled();
        match verdict {
            Ok(PreDispatchVerdict::Continue) => next,
            Ok(PreDispatchVerdict::Transform(p)) => RunView { payload: p@, ..next },
            Ok(PreDispatchVerdict::ShortCircuit(r)) => self.respond(r@),
            Err(e) => self.fail(e@),
        }
    }

    /// Behind the handler.
    pub open spec fn after_handler(self, result: HandlerResult) -> RunView {
        match result {
            Ok(r) => self.respond(r@),
            Err(e) => self.fail(e@),
        }
    }

    /// Behind a post-dispatch hook.
    pub open spec fn after_post(
        self,
        verdict: Result<PostDispatchVerdict, PipelineError>,
    ) -> RunView {
        let i = self.phase->Post_0;
        match verdict {
            Ok(v) => RunView { phase: PhaseView::Post(i - 1, v.response()), ..self }.settled(),
            Err(_) => self.fail(ErrorView::Handler("middleware post-dispatch error"@)),
        }
    }

    /// Whether the position of a hook lies among the middlewares.
    pub open spec fn in_range(self) -> bool {
        match self.phase {
            PhaseView::Pre(i) => 0 <= i < self.total,
            PhaseView::Post(i, _) => 0 <= i < self.total,
            _ => true,
        }
    }
}

// ── A dispatch ───────────────────────────────────────────────────────

#[derive(Debug)]
enum Phase {
    Pre(usize),
    Handle,
    Post(usize, HandlerResponse),
    Done(HandlerResult),
}

/// One message on its way through the middlewares and the handler.
#[derive(Debug)]
pub struct DispatchRun {
    total: usize,
    payload: ValidatedPayload,
    phase: Phase,
}

impl View for DispatchRun {
    type V = RunView;

    closed spec fn view(&self) -> RunView {
        RunView {
            total: self.total as int,
            payload: self.payload@,
            phase: match self.phase {
                Phase::Pre(i) => PhaseView::Pre(i as int),
                Phase::Handle => PhaseView::Handle,
                Phase::Post(i, r) => PhaseView::Post(i as int, r@),
                Phase::Done(Ok(r)) => PhaseView::Done(Ok(r@)),
                Phase::Done(Err(e)) => PhaseView::Done(Err(e@)),
            },
        }
    }
}

impl DispatchRun {
    /// A hook's position lies among the middlewares.
    #[verifier::type_invariant]
    spec fn positions_exist(self) -> bool {
        self@.in_range()
    }

    /// A dispatch of `payload` through `total` middlewares.
    pub fn new(total: usize, payload: ValidatedPayload) -> (r: Self)
        ensures
            r@ == RunView::start(total as int, payload@),
    {
        let phase = if total == 0 {
            Phase::Handle
        } else {
            Phase::Pre(0)
        };
        DispatchRun { total, payload, phase }
    }

    /// What to call next. A hook that is named exists.
    pub fn action(&self) -> (r: DispatchAction)
        ensures
            r == self@.action(),
            self@.in_range(),
            self@.total <= usize::MAX,
    {
        proof {
            use_type_invariant(self);
        }
        match &self.phase {
            Phase::Pre(i) => DispatchAction::Pre(*i),
            Phase::Handle => DispatchAction::Handle,
            Phase::Post(i, _) => DispatchAction::Post(*i),
            Phase::Done(_) => DispatchAction::Done,
        }
    }

    /// The payload, as transformed so far.
    pub fn payload(&self) -> (r: &ValidatedPayload)
        ensures
            r@ == self@.payload,
    {
        &self.payload
    }

    /// The response that the next post-dispatch hook is given.
    pub fn response(&self) -> (r: Option<HandlerResponse>)
        ensures
            match r {
                Some(response) => self@.phase matches PhaseView::Post(_, w) && response@ == w,
                None => !(self@.phase is Post),
            },
    {
        match &self.phase {
            Phase::Post(_, r) => Some(r.clone()),
            _ => None,
        }
    }

    /// The outcome of the dispatch, once nothing is left to call; the run itself before.
    pub fn finish(self) -> (r: Result<HandlerResult, DispatchRun>)
        ensures
            match r {
                Ok(Ok(response)) => self@.phase == PhaseView::Done(Ok(response@)),
                Ok(Err(e)) => self@.phase == PhaseView::Done(Err(e@)),
                Err(run) => !(self@.phase is Done) && run@ == self@,
            },
    {
        proof {
            use_type_invariant(&self);
        }
        let DispatchRun { total, payload, phase } = self;
        match phase {
            Phase::Done(result) => Ok(result),
            phase => Err(DispatchRun { total, payload, phase }),
        }
    }

    /// The post-dispatch hooks begin from the last one.
    fn respond(total: usize, response: HandlerResponse) -> (r: Phase)
        ensures
            match r {
                Phase::Post(i, w) => total > 0 && i == total - 1 && w@ == response@,
                Phase::Done(Ok(w)) => total == 0 && w@ == response@,
                _ => false,
            },
    {
        if total == 0 {
            Phase::Done(Ok(response))
        } else {
            Phase::Post(total - 1, response)
        }
    }

    /// Takes the verdict of a pre-dispatch hook.
    pub fn on_pre(self, verdict: Result<PreDispatchVerdict, PipelineError>) -> (r: Self)
        requires
            self@.phase is Pre,
        ensures
            r@ == self@.after_pre(verdict),
    {
        proof {
            use_type_invariant(&self);
        }
        let DispatchRun { total, payload, phase } = self;
        let i: usize = match phase {
            Phase::Pre(i) => i,
            _ => 0,
        };
        let next = if i + 1 >= total {
            Phase::Handle
        } else {
            Phase::Pre(i + 1)
        };
        match verdict {
            Ok(PreDispatchVerdict::Continue) => DispatchRun { total, payload, phase: next },
            Ok(PreDispatchVerdict::Transform(p)) => DispatchRun { total, payload: p, phase: next },
            Ok(PreDispatchVerdict::ShortCircuit(response)) => {
                let phase = DispatchRun::respond(total, response);
                DispatchRun { total, payload, phase }
            },
            Err(e) => DispatchRun { total, payload, phase: Phase::Done(Err(e)) },
        }
    }

    /// Takes the result of the handler.
    pub fn on_handled(self, result: HandlerResult) -> (r: Self)
        requires
            self@.phase is Handle,
        ensures
            r@ == self@.after_handler(result),
    {
        let DispatchRun { total, payload, phase: _ } = self;
        match result {
            Ok(response) => {
                let phase = DispatchRun::respond(total, response);
                DispatchRun { total, payload, phase }
            },
            Err(e) => DispatchRun { total, payload, phase: Phase::Done(Err(e)) },
        }
    }

    /// Takes the verdict of a post-dispatch hook. A hook that fails fails the dispatch.
    pub fn on_post(self, verdict: Result<PostDispatchVerdict, PipelineError>) -> (r: Self)
        requires
            self@.phase is Post,
        ensures
            r@ == self@.after_post(verdict),
    {
        proof {
            use_type_invariant(&self);
        }
        let DispatchRun { total, payload, phase } = self;
        let i: usize = match phase {
            Phase::Post(i, _) => i,
            _ => 0,
        };
        let response = match verdict {
            Ok(PostDispatchVerdict::PassThrough(r)) => r,
            Ok(PostDispatchVerdict::Replace(r)) => r,
            Err(_) => {
                let failed = PipelineError::Handler("middleware post-dispatch error".to_owned());
                return DispatchRun { total, payload, phase: Phase::Done(Err(failed)) };
            },
        };
        let phase = if i == 0 {
            Phase::Done(Ok(response))
        } else {
            Phase::Post(i - 1, response)
        };
        DispatchRun { total, payload, phase }
    }
}

// ── Laws ─────────────────────────────────────────────────────────────

/// How many calls are left at most.
pub open spec fn calls_left(run: RunView) -> int {
    match run.phase {
        PhaseView::Pre(i) => 2 * run.total + 1 - i,
        PhaseView::Handle => run.total + 1,
        PhaseView::Post(i, _) => i + 1,
        PhaseView::Done(_) => 0,
    }
}

/// Every outcome brings a dispatch nearer to its end.
pub proof fn law_dispatch_ends(
    run: RunView,
    pre: Result<PreDispatchVerdict, PipelineError>,
    handled: HandlerResult,
    post: Result<PostDispatchVerdict, PipelineError>,
)
    requires
        run.in_range(),
        run.total >= 0,
    ensures
        run.phase is Pre ==> 0 <= calls_left(run.after_pre(pre)) < calls_left(run),
        run.phase is Handle ==> 0 <= calls_left(run.after_handler(handled)) < calls_left(run),
        run.phase is Post ==> 0 <= calls_left(run.after_post(post)) < calls_left(run),
{
}

/// Short-circuiting skips the hooks and the handler that were still to come, and the
/// response goes through every post-dispatch hook, with the payload as it is.
pub proof fn law_short_circuit_skips_handler(run: RunView, response: HandlerResponse)
    requires
        run.in_range(),
        run.phase is Pre,
    ensures
        run.after_pre(Ok(PreDispatchVerdict::ShortCircuit(response))) == (RunView {
            phase: PhaseView::Post(run.total - 1, response@),
            ..run
        }),
{
}

/// The run once `n` pre-dispatch hooks have let the message pass.
pub open spec fn passed_pre(run: RunView, n: nat) -> RunView
    decreases n,
{
    if n == 0 {
        run
    } else {
        passed_pre(run, (n - 1) as nat).after_pre(Ok(PreDispatchVerdict::Continue))
    }
}

/// The run once `n` post-dispatch hooks have passed on the response they were given.
pub open spec fn passed_post(run: RunView, n: nat, r: HandlerResponse) -> RunView
    decreases n,
{
    if n == 0 {
        run
    } else {
        passed_post(run, (n - 1) as nat, r).after_post(Ok(PostDispatchVerdict::PassThrough(r)))
    }
}

/// Pre-dispatch hooks are called in registration order, then the handler.
pub proof fn law_pre_in_order(total: int, payload: PayloadView, n: nat)
    requires
        n <= total,
    ensures
        passed_pre(RunView::start(total, payload), n) == (RunView {
            total,
            payload,
            phase: if n < total {
                PhaseView::Pre(n as int)
            } else {
                PhaseView::Handle
            },
        }),
    decreases n,
{
    if n > 0 {
        law_pre_in_order(total, payload, (n - 1) as nat);
    }
}

/// Post-dispatch hooks are called in reverse order, and what they pass on is the outcome.
pub proof fn law_post_in_reverse(run: RunView, n: nat, r: HandlerResponse)
    requires
        run.phase is Handle,
        n <= run.total,
    ensures
        passed_post(run.after_handler(Ok(r)), n, r) == (RunView {
            phase: if n < run.total {
                PhaseView::Post(run.total - 1 - n, r@)
            } else {
                PhaseView::Done(Ok(r@))
            },
            ..run
        }),
    decreases n,
{
    if n > 0 {
        law_post_in_reverse(run, (n - 1) as nat, r);
    }
}

/// A transformed payload changes the payload and nothing else: what is called next is what
/// is called next behind a hook that lets the message pass.
pub proof fn law_transform_goes_on(run: RunView, p: ValidatedPayload)
    requires
        run.phase is Pre,
    ensures
        run.after_pre(Ok(PreDispatchVerdict::Transform(p))) == (RunView {
            payload: p@,
            ..run.after_pre(Ok(PreDispatchVerdict::Continue))
        }),
{
}

/// Whether a hook lets the message pass, with its payload or with another.
pub open spec fn lets_pass(verdict: PreDispatchVerdict) -> bool {
    !(verdict is ShortCircuit)
}

/// The run once pre-dispatch hooks have given these verdicts, one behind the other.
pub open spec fn behind_pre(run: RunView, verdicts: Seq<PreDispatchVerdict>) -> RunView
    decreases verdicts.len(),
{
    if verdicts.len() == 0 {
        run
    } else {
        behind_pre(run, verdicts.drop_last()).after_pre(Ok(verdicts.last()))
    }
}

/// The run once post-dispatch hooks have given these verdicts, one behind the other.
pub open spec fn behind_post(run: RunView, verdicts: Seq<PostDispatchVerdict>) -> RunView
    decreases verdicts.len(),
{
    if verdicts.len() == 0 {
        run
    } else {
        behind_post(run, verdicts.drop_last()).after_post(Ok(verdicts.last()))
    }
}

/// Every pre-dispatch hook is called once, in registration order, before the handler,
/// whichever hooks before it have transformed the payload.
pub proof fn law_every_pre_hook_is_called(
    total: int,
    payload: PayloadView,
    verdicts: Seq<PreDispatchVerdict>,
)
    requires
        verdicts.len() <= total,
        forall|i: int| 0 <= i < verdicts.len() ==> lets_pass(#[trigger] verdicts[i]),
    ensures
        ({
            let run = behind_pre(RunView::start(total, payload), verdicts);
            &&& run.total == total
            &&& verdicts.len() < total ==> run.phase == PhaseView::Pre(verdicts.len() as int)
            &&& verdicts.len() == total ==> run.phase == PhaseView::Handle
        }),
    decreases verdicts.len(),
{
    if verdicts.len() > 0 {
        let before = verdicts.drop_last();
        assert forall|i: int| 0 <= i < before.len() implies lets_pass(#[trigger] before[i]) by {
            assert(before[i] == verdicts[i]);
        }
        assert(lets_pass(verdicts[verdicts.len() - 1]));
        law_every_pre_hook_is_called(total, payload, before);
    }
}

/// The hooks to come and the handler are given the payload that was given last: the one
/// of the last transformation, and the first one where nothing has transformed it.
pub proof fn law_last_payload_counts(
    total: int,
    payload: PayloadView,
    verdicts: Seq<PreDispatchVerdict>,
    k: int,
)
    requires
        verdicts.len() <= total,
        forall|i: int| 0 <= i < verdicts.len() ==> lets_pass(#[trigger] verdicts[i]),
        -1 <= k < verdicts.len(),
        k >= 0 ==> verdicts[k] is Transform,
        forall|i: int| k < i < verdicts.len() ==> (#[trigger] verdicts[i]) is Continue,
    ensures
        behind_pre(RunView::start(total, payload), verdicts).payload == if k >= 0 {
            verdicts[k]->Transform_0@
        } else {
            payload
        },
    decreases verdicts.len(),
{
    if verdicts.len() > 0 {
        let before = verdicts.drop_last();
        assert forall|i: int| 0 <= i < before.len() implies lets_pass(#[trigger] before[i]) by {
            assert(before[i] == verdicts[i]);
        }
        law_every_pre_hook_is_called(total, payload, before);
        if k < verdicts.len() - 1 {
            assert(verdicts[verdicts.len() - 1] is Continue);
            assert forall|i: int| k < i < before.len() implies (#[trigger] before[i]) is Continue by {
                assert(before[i] == verdicts[i]);
            }
            law_last_payload_counts(total, payload, before, k);
        }
    }
}

/// Every post-dispatch hook is called once, in reverse order, whichever hooks before it
/// have replaced the response; the response that was given last is passed on, and is the
/// outcome behind the last hook. The payload stays.
pub proof fn law_every_post_hook_is_called(
    run: RunView,
    first: HandlerResponse,
    verdicts: Seq<PostDispatchVerdict>,
)
    requires
        run.phase is Handle,
        verdicts.len() <= run.total,
    ensures
        ({
            let last = if verdicts.len() == 0 {
                first@
            } else {
                match verdicts.last() {
                    PostDispatchVerdict::PassThrough(r) => r@,
                    PostDispatchVerdict::Replace(r) => r@,
                }
            };
            let next = behind_post(run.after_handler(Ok(first)), verdicts);
            &&& next.total == run.total
            &&& next.payload == run.payload
            &&& verdicts.len() < run.total ==> next.phase == PhaseView::Post(
                run.total - 1 - verdicts.len(),
                last,
            )
            &&& verdicts.len() == run.total ==> next.phase == PhaseView::Done(Ok(last))
        }),
    decreases verdicts.len(),
{
    if verdicts.len() > 0 {
        law_every_post_hook_is_called(run, first, verdicts.drop_last());
    }
}

/// An error ends the dispatch at once, wherever it comes from: no hook and no handler is
/// called behind it. That of a hook before the handler, or of the handler, is the outcome;
/// behind the handler a hook's error stands for any.
pub proof fn law_errors_end_the_dispatch(run: RunView, e: PipelineError)
    ensures
        run.phase is Pre ==> run.after_pre(Err(e)).phase == PhaseView::Done(Err(e@)),
        run.phase is Handle ==> run.after_handler(Err(e)).phase == PhaseView::Done(Err(e@)),
        run.phase is Post ==> run.after_post(Err(e)).phase == PhaseView::Done(
            Err(ErrorView::Handler("middleware post-dispatch error"@)),
        ),
        run.phase is Pre ==> run.after_pre(Err(e)).action() == DispatchAction::Done,
        run.phase is Handle ==> run.after_handler(Err(e)).action() == DispatchAction::Done,
        run.phase is Post ==> run.after_post(Err(e)).action() == DispatchAction::Done,
{
}

/// What is called next is the hook, or the handler, that the dispatch stands at.
pub proof fn law_action_is_where_the_run_stands(run: RunView)
    requires
        run.in_range(),
        run.total <= usize::MAX,
    ensures
        run.phase matches PhaseView::Pre(i) ==> run.action() matches DispatchAction::Pre(n) && n
            == i,
        run.phase is Handle ==> run.action() == DispatchAction::Handle,
        run.phase matches PhaseView::Post(i, _) ==> run.action() matches DispatchAction::Post(n)
            && n == i,
        run.phase is Done ==> run.action() == DispatchAction::Done,
{
}

} // verus!
