//! The interface of propagators that write a context to a carrier as text
//! fields and read it back.
use crate::api::context::propagation::{
    reading, setting, Extractor, Fields, Injector, Reading, Setting,
};
use crate::api::context::{Context, ContextView, CurrentContext};
use vstd::prelude::*;

verus! {

/// The texts that `names` hold.
pub open spec fn names_of(names: Seq<String>) -> Seq<Seq<char>> {
    names.map_values(|name: String| name@)
}

/// A propagator that injects a context into a carrier as text fields and
/// extracts it from them.
///
/// What an implementation says of itself in `injects`, `extracts` and
/// `lists` is what callers can rely on; one that says nothing promises
/// nothing.
pub trait TextMapFormat {
    /// Whether injecting `cx` may take a carrier from the fields `before` to
    /// the fields `after`, where `sets` says what setting a field does to the
    /// carrier.
    open spec fn injects(
        &self,
        cx: ContextView,
        sets: Setting,
        before: Fields,
        after: Fields,
    ) -> bool {
        true
    }

    /// Whether extraction may make `out` of `base`, where `gives` says what
    /// the carrier may give for each key.
    open spec fn extracts(&self, base: ContextView, gives: Reading, out: ContextView) -> bool {
        true
    }

    /// Whether `fields` may give `names`.
    open spec fn lists(&self, names: Seq<Seq<char>>) -> bool {
        true
    }

    /// Writes the fields derived from `cx` to the carrier.
    fn inject_context<I: Injector>(&self, cx: &Context, injector: &mut I)
        ensures
            self.injects(cx@, setting::<I>(), old(injector).fields(), final(injector).fields()),
    ;

    /// Reads the propagator's fields from the carrier and gives `cx` with
    /// what they hold merged in. Fields that are absent or malformed leave
    /// `cx` as it is: extraction never fails.
    fn extract_with_context<E: Extractor>(&self, cx: &Context, extractor: &E) -> (out: Context)
        ensures
            self.extracts(cx@, reading(extractor), out@),
    ;

    /// Writes the fields derived from the current context of `slot` to the
    /// carrier.
    fn inject<I: Injector>(&self, slot: &CurrentContext, injector: &mut I)
        ensures
            self.injects(slot@, setting::<I>(), old(injector).fields(), final(injector).fields()),
    {
        let cx = slot.current();
        self.inject_context(&cx, injector)
    }

    /// Reads the propagator's fields from the carrier and gives the current
    /// context of `slot` with what they hold merged in.
    fn extract<E: Extractor>(&self, slot: &CurrentContext, extractor: &E) -> (out: Context)
        ensures
            self.extracts(slot@, reading(extractor), out@),
    {
        let cx = slot.current();
        self.extract_with_context(&cx, extractor)
    }

    /// The names of the fields that `inject_context` may write, in order,
    /// so that a caller can clear them from a carrier that is used again.
    fn fields(&self) -> (names: Vec<String>)
        ensures
            self.lists(names_of(names@)),
    ;
}

} // verus!
