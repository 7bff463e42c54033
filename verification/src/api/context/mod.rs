//! The context of one logical operation: an immutable store with one entry
//! for each kind of data, and the slot that holds the current one.
use crate::api::correlation::{CorrelationContext, Entry};
use crate::api::trace::{SpanContext, SpanContextView};
use vstd::prelude::*;

pub mod propagation;

verus! {

/// What a [`Context`] holds, as mathematical data: for each kind of entry,
/// the value stored or nothing.
pub struct ContextView {
    pub span_context: Option<SpanContextView>,
    pub correlations: Option<Seq<Entry>>,
}

/// An immutable store with at most one entry of each kind. A context is
/// never changed: `with_value` gives a new one.
#[derive(Debug)]
pub struct Context {
    span_context: Option<SpanContext>,
    has_correlations: bool,
    correlations: CorrelationContext,
}

impl View for Context {
    type V = ContextView;

    closed spec fn view(&self) -> ContextView {
        ContextView {
            span_context: match self.span_context {
                Some(sc) => Some(sc@),
                None => None,
            },
            correlations: if self.has_correlations {
                Some(self.correlations@)
            } else {
                None
            },
        }
    }
}

/// The context without any entry.
pub open spec fn empty_context() -> ContextView {
    ContextView { span_context: None, correlations: None }
}

impl Clone for Context {
    fn clone(&self) -> (r: Self)
        ensures
            r@ == self@,
    {
        proof {
            use_type_invariant(self);
        }
        Context {
            span_context: match &self.span_context {
                Some(sc) => Some(sc.clone()),
                None => None,
            },
            has_correlations: self.has_correlations,
            correlations: self.correlations.clone(),
        }
    }
}

/// A kind of data that a [`Context`] has an entry for. The type of a value
/// picks the entry: a context holds at most one value of each type.
pub trait ContextEntry: View + Sized {
    /// The value of this type in `cx`, if there is one.
    spec fn entry_of(cx: ContextView) -> Option<Self::V>;

    /// `cx` with `value` as its entry of this type, and every other entry as
    /// it was.
    spec fn with_entry_of(cx: ContextView, value: Self::V) -> ContextView;

    /// A context like `cx` that holds `self` as its entry of this type.
    fn store(self, cx: &Context) -> (out: Context)
        ensures
            out@ == Self::with_entry_of(cx@, self@),
    ;

    /// The entry of this type in `cx`.
    fn load(cx: &Context) -> (value: Option<&Self>)
        ensures
            value is Some <==> Self::entry_of(cx@) is Some,
            value matches Some(v) ==> Self::entry_of(cx@) == Some(v@),
    ;
}

impl ContextEntry for SpanContext {
    open spec fn entry_of(cx: ContextView) -> Option<SpanContextView> {
        cx.span_context
    }

    open spec fn with_entry_of(cx: ContextView, value: SpanContextView) -> ContextView {
        ContextView { span_context: Some(value), ..cx }
    }

    fn store(self, cx: &Context) -> (out: Context) {
        proof {
            use_type_invariant(cx);
        }
        Context {
            span_context: Some(self),
            has_correlations: cx.has_correlations,
            correlations: cx.correlations.clone(),
        }
    }

    fn load(cx: &Context) -> (value: Option<&Self>) {
        cx.span_context.as_ref()
    }
}

impl ContextEntry for CorrelationContext {
    open spec fn entry_of(cx: ContextView) -> Option<Seq<Entry>> {
        cx.correlations
    }

    open spec fn with_entry_of(cx: ContextView, value: Seq<Entry>) -> ContextView {
        ContextView { correlations: Some(value), ..cx }
    }

    fn store(self, cx: &Context) -> (out: Context) {
        Context {
            span_context: match &cx.span_context {
                Some(sc) => Some(sc.clone()),
                None => None,
            },
            has_correlations: true,
            correlations: self,
        }
    }

    fn load(cx: &Context) -> (value: Option<&Self>) {
        if cx.has_correlations {
            Some(&cx.correlations)
        } else {
            None
        }
    }
}

/// The correlation data of `cx`: the entries stored, or none where nothing
/// was stored.
pub open spec fn correlations_of(cx: ContextView) -> Seq<Entry> {
    match cx.correlations {
        Some(entries) => entries,
        None => Seq::empty(),
    }
}

impl Context {
    #[verifier::type_invariant]
    closed spec fn unset_is_empty(&self) -> bool {
        !self.has_correlations ==> self.correlations@.len() == 0
    }

    /// The context without any entry.
    pub fn new() -> (cx: Context)
        ensures
            cx@ == empty_context(),
    {
        Context {
            span_context: None,
            has_correlations: false,
            correlations: CorrelationContext::new(),
        }
    }

    /// The correlation data of the context, empty where none was stored.
    pub fn correlations(&self) -> (cc: &CorrelationContext)
        ensures
            cc@ == correlations_of(self@),
    {
        proof {
            use_type_invariant(self);
        }
        &self.correlations
    }

    /// A context like this one that holds `value` as its entry of type `T`.
    /// This context is left as it is.
    pub fn with_value<T: ContextEntry>(&self, value: T) -> (cx: Context)
        ensures
            cx@ == T::with_entry_of(self@, value@),
    {
        value.store(self)
    }

    /// The entry of type `T`, or `None` where the context holds none.
    pub fn get<T: ContextEntry>(&self) -> (value: Option<&T>)
        ensures
            value is Some <==> T::entry_of(self@) is Some,
            value matches Some(v) ==> T::entry_of(self@) == Some(v@),
    {
        T::load(self)
    }
}

/// The slot that holds the current context of one execution flow. Each flow
/// owns its slot; entering a scope puts a context in and hands out a guard,
/// and leaving the scope gives the guard back.
#[derive(Debug)]
pub struct CurrentContext {
    current: Context,
}

impl View for CurrentContext {
    type V = ContextView;

    closed spec fn view(&self) -> ContextView {
        self.current@
    }
}

/// What a scope holds while it lasts: the context that was current before it.
#[derive(Debug)]
pub struct ContextGuard {
    previous: Context,
}

impl View for ContextGuard {
    type V = ContextView;

    closed spec fn view(&self) -> ContextView {
        self.previous@
    }
}

impl CurrentContext {
    /// The slot of a flow that has entered no scope: the empty context is
    /// current.
    pub fn new() -> (slot: CurrentContext)
        ensures
            slot@ == empty_context(),
    {
        CurrentContext { current: Context::new() }
    }

    /// The current context.
    pub fn current(&self) -> (cx: Context)
        ensures
            cx@ == self@,
    {
        self.current.clone()
    }

    /// Enters a scope: `cx` becomes current, and the guard keeps the context
    /// that was current until now.
    pub fn attach(&mut self, cx: Context) -> (guard: ContextGuard)
        ensures
            (final(self)@, guard@) == entered(old(self)@, cx@),
    {
        let mut previous = cx;
        core::mem::swap(&mut self.current, &mut previous);
        ContextGuard { previous }
    }

    /// Leaves a scope: the context that the guard kept is current again.
    pub fn release(&mut self, guard: ContextGuard)
        ensures
            final(self)@ == left(old(self)@, guard@),
    {
        let ContextGuard { previous } = guard;
        self.current = previous;
    }
}

/// What entering a scope with `cx` makes of a slot whose current context is
/// `current`: the new current context, and the context that the guard keeps.
pub open spec fn entered(current: ContextView, cx: ContextView) -> (ContextView, ContextView) {
    (cx, current)
}

/// What leaving a scope makes current, whatever was current inside the
/// scope: the context that its guard kept.
pub open spec fn left(inside: ContextView, guard: ContextView) -> ContextView {
    guard
}

/// Leaving a scope restores exactly the context that was current before the
/// scope was entered, whatever became current inside the scope and on
/// whatever path the scope is left.
pub proof fn scope_exit_restores(before: ContextView, cx: ContextView, inside: ContextView)
    ensures
        left(inside, entered(before, cx).1) == before,
{
}

/// Scopes nest: after entering one scope and then another, leaving the inner
/// scope brings back the context of the outer, and leaving the outer brings
/// back the context from before both.
pub proof fn nested_scopes_restore(before: ContextView, outer: ContextView, inner: ContextView)
    ensures
        left(entered(entered(before, outer).0, inner).0, entered(entered(before, outer).0, inner).1)
            == outer,
        left(outer, entered(before, outer).1) == before,
{
}

} // verus!
