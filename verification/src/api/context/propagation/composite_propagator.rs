//! A propagator made of several: it injects with each in turn and extracts
//! with each in turn.
use crate::api::context::propagation::text_propagator::{names_of, TextMapFormat};
use crate::api::context::propagation::{
    field_ignoring_case, reading, setting, Extractor, Fields, Injector, Reading, Setting,
};
use crate::api::context::{Context, ContextView};
use std::collections::HashMap;
use vstd::prelude::*;

verus! {

/// Whether injecting `cx` with each of `propagators` in order may take a
/// carrier from the fields `before` to the fields `after`: each propagator
/// starts from the fields that the one before it left.
pub open spec fn injects_in_order<P: TextMapFormat>(
    propagators: Seq<P>,
    cx: ContextView,
    sets: Setting,
    before: Fields,
    after: Fields,
) -> bool
    decreases propagators.len(),
{
    if propagators.len() == 0 {
        after == before
    } else {
        exists|mid: Fields|
            injects_in_order(propagators.drop_last(), cx, sets, before, mid)
                && #[trigger] propagators.last().injects(cx, sets, mid, after)
    }
}

/// Injecting with one propagator more goes on from where those before it
/// stopped.
pub proof fn lemma_injects_one_more<P: TextMapFormat>(
    propagators: Seq<P>,
    cx: ContextView,
    sets: Setting,
    before: Fields,
    mid: Fields,
    after: Fields,
)
    requires
        propagators.len() > 0,
        injects_in_order(propagators.drop_last(), cx, sets, before, mid),
        propagators.last().injects(cx, sets, mid, after),
    ensures
        injects_in_order(propagators, cx, sets, before, after),
{
}

/// Whether extraction with each of `propagators` in order may make `out` of
/// `base`: each propagator starts from the context that the one before it
/// gave.
pub open spec fn extracts_in_order<P: TextMapFormat>(
    propagators: Seq<P>,
    base: ContextView,
    gives: Reading,
    out: ContextView,
) -> bool
    decreases propagators.len(),
{
    if propagators.len() == 0 {
        out == base
    } else {
        exists|mid: ContextView|
            extracts_in_order(propagators.drop_last(), base, gives, mid)
                && #[trigger] propagators.last().extracts(mid, gives, out)
    }
}

/// Extracting with one propagator more goes on from the context that those
/// before it gave.
pub proof fn lemma_extracts_one_more<P: TextMapFormat>(
    propagators: Seq<P>,
    base: ContextView,
    gives: Reading,
    mid: ContextView,
    out: ContextView,
)
    requires
        propagators.len() > 0,
        extracts_in_order(propagators.drop_last(), base, gives, mid),
        propagators.last().extracts(mid, gives, out),
    ensures
        extracts_in_order(propagators, base, gives, out),
{
}

/// `names` followed by those of `more` that are not yet among them, each
/// once, in the order in which they first come.
pub open spec fn with_new_names(names: Seq<Seq<char>>, more: Seq<Seq<char>>) -> Seq<Seq<char>>
    decreases more.len(),
{
    if more.len() == 0 {
        names
    } else {
        let before = with_new_names(names, more.drop_last());
        if before.contains(more.last()) {
            before
        } else {
            before.push(more.last())
        }
    }
}

/// Adding new names keeps every name that was there, adds every name of
/// `more`, adds no other, and lists no name twice.
pub proof fn new_names_are_the_union(names: Seq<Seq<char>>, more: Seq<Seq<char>>)
    requires
        names.no_duplicates(),
    ensures
        with_new_names(names, more).no_duplicates(),
        forall|name: Seq<char>| #[trigger]
            with_new_names(names, more).contains(name) <==> names.contains(name) || more.contains(
                name,
            ),
        forall|i: int| 0 <= i < names.len() ==> with_new_names(names, more)[i] == names[i],
        with_new_names(names, more).len() >= names.len(),
    decreases more.len(),
{
    if more.len() > 0 {
        let init = more.drop_last();
        new_names_are_the_union(names, init);
        let before = with_new_names(names, init);
        let after = with_new_names(names, more);
        assert forall|name: Seq<char>| #[trigger]
            after.contains(name) <==> names.contains(name) || more.contains(name) by {
            if more.contains(name) {
                let i = choose|i: int| 0 <= i < more.len() && more[i] == name;
                if i < more.len() - 1 {
                    assert(init[i] == name);
                    assert(init.contains(name));
                }
            }
            if init.contains(name) {
                let i = choose|i: int| 0 <= i < init.len() && init[i] == name;
                assert(more[i] == name);
            }
            if before.contains(more.last()) {
            } else {
                assert(after == before.push(more.last()));
                assert(after[before.len() as int] == more.last());
                if before.contains(name) {
                    let i = choose|i: int| 0 <= i < before.len() && before[i] == name;
                    assert(after[i] == name);
                }
                if after.contains(name) {
                    let i = choose|i: int| 0 <= i < after.len() && after[i] == name;
                    if i < before.len() {
                        assert(before[i] == name);
                    }
                }
            }
            assert(more[more.len() - 1] == more.last());
        }
    }
}

/// Whether `names` may be the field names of all of `propagators`: the
/// names that each one lists, each name once, in the order in which they
/// first come.
pub open spec fn lists_in_order<P: TextMapFormat>(
    propagators: Seq<P>,
    names: Seq<Seq<char>>,
) -> bool
    decreases propagators.len(),
{
    if propagators.len() == 0 {
        names == Seq::<Seq<char>>::empty()
    } else {
        exists|before: Seq<Seq<char>>, more: Seq<Seq<char>>|
            lists_in_order(propagators.drop_last(), before) && #[trigger] propagators.last().lists(
                more,
            ) && names == #[trigger] with_new_names(before, more)
    }
}

/// Listing one propagator more adds its new names to those listed before.
pub proof fn lemma_lists_one_more<P: TextMapFormat>(
    propagators: Seq<P>,
    before: Seq<Seq<char>>,
    more: Seq<Seq<char>>,
)
    requires
        propagators.len() > 0,
        lists_in_order(propagators.drop_last(), before),
        propagators.last().lists(more),
    ensures
        lists_in_order(propagators, with_new_names(before, more)),
{
}

/// Whether `name` is among `names`.
fn holds_name(names: &Vec<String>, name: &String) -> (found: bool)
    ensures
        found == names_of(names@).contains(name@),
{
    let mut i: usize = 0;
    while i < names.len()
        invariant
            i <= names.len(),
            forall|k: int| 0 <= k < i ==> names_of(names@)[k] != name@,
        decreases names.len() - i,
    {
        if names[i] == *name {
            assert(names_of(names@)[i as int] == name@);
            return true;
        }
        i += 1;
    }
    false
}

/// Appends to `names` those of `more` that are not yet among them.
fn add_new_names(names: &mut Vec<String>, more: Vec<String>)
    ensures
        names_of(final(names)@) == with_new_names(names_of(old(names)@), names_of(more@)),
{
    let ghost all = names_of(more@);
    let mut more = more;
    let mut i: usize = 0;
    assert(all.take(0) =~= Seq::<Seq<char>>::empty());
    while i < more.len()
        invariant
            i <= more.len(),
            all == names_of(more@),
            names_of(names@) == with_new_names(names_of(old(names)@), all.take(i as int)),
        decreases more.len() - i,
    {
        proof {
            let done = all.take(i + 1);
            assert(done.drop_last() =~= all.take(i as int));
            assert(done.last() == more@[i as int]@);
        }
        let ghost before = names@;
        if !holds_name(names, &more[i]) {
            let name = more[i].clone();
            names.push(name);
            assert(names_of(names@) =~= names_of(before).push(name@));
        }
        i += 1;
    }
    assert(all.take(more.len() as int) =~= all);
}

/// An ordered list of propagators behind the interface of one. The order
/// decides precedence: where two write the same field the later one
/// overwrites the earlier, and each extracts on top of what those before it
/// extracted.
pub struct TextMapCompositePropagator<P: TextMapFormat> {
    propagators: Vec<P>,
}

impl<P: TextMapFormat> TextMapCompositePropagator<P> {
    /// The propagators, in order.
    pub closed spec fn parts(&self) -> Seq<P> {
        self.propagators@
    }

    /// A propagator that works with each of `propagators` in turn.
    pub fn new(propagators: Vec<P>) -> (composite: Self)
        ensures
            composite.parts() == propagators@,
    {
        TextMapCompositePropagator { propagators }
    }
}

impl<P: TextMapFormat> TextMapFormat for TextMapCompositePropagator<P> {
    open spec fn injects(
        &self,
        cx: ContextView,
        sets: Setting,
        before: Fields,
        after: Fields,
    ) -> bool {
        injects_in_order(self.parts(), cx, sets, before, after)
    }

    open spec fn extracts(&self, base: ContextView, gives: Reading, out: ContextView) -> bool {
        extracts_in_order(self.parts(), base, gives, out)
    }

    open spec fn lists(&self, names: Seq<Seq<char>>) -> bool {
        lists_in_order(self.parts(), names)
    }

    /// Injects with each propagator in order into the same carrier.
    fn inject_context<I: Injector>(&self, cx: &Context, injector: &mut I) {
        let ghost all = self.propagators@;
        let mut i: usize = 0;
        while i < self.propagators.len()
            invariant
                i <= self.propagators.len(),
                all == self.propagators@,
                injects_in_order(
                    all.take(i as int),
                    cx@,
                    setting::<I>(),
                    old(injector).fields(),
                    injector.fields(),
                ),
            decreases self.propagators.len() - i,
        {
            let ghost mid = injector.fields();
            self.propagators[i].inject_context(cx, injector);
            proof {
                let done = all.take(i + 1);
                assert(done.drop_last() =~= all.take(i as int));
                assert(done.last() == all[i as int]);
                assert(injects_in_order(
                    done.drop_last(),
                    cx@,
                    setting::<I>(),
                    old(injector).fields(),
                    mid,
                ));
                lemma_injects_one_more(
                    done,
                    cx@,
                    setting::<I>(),
                    old(injector).fields(),
                    mid,
                    injector.fields(),
                );
            }
            i += 1;
        }
        assert(all.take(self.propagators.len() as int) =~= all);
    }

    /// Extracts with each propagator in order: each one starts from the
    /// context that the one before it gave.
    fn extract_with_context<E: Extractor>(&self, cx: &Context, extractor: &E) -> (out: Context) {
        let ghost all = self.propagators@;
        let mut current = cx.clone();
        let mut i: usize = 0;
        while i < self.propagators.len()
            invariant
                i <= self.propagators.len(),
                all == self.propagators@,
                extracts_in_order(all.take(i as int), cx@, reading(extractor), current@),
            decreases self.propagators.len() - i,
        {
            let ghost mid = current@;
            current = self.propagators[i].extract_with_context(&current, extractor);
            proof {
                let done = all.take(i + 1);
                assert(done.drop_last() =~= all.take(i as int));
                assert(done.last() == all[i as int]);
                lemma_extracts_one_more(done, cx@, reading(extractor), mid, current@);
            }
            i += 1;
        }
        assert(all.take(self.propagators.len() as int) =~= all);
        current
    }

    /// The field names of all propagators, each once, in the order in which
    /// they first come.
    fn fields(&self) -> (names: Vec<String>) {
        let ghost all = self.propagators@;
        let mut names: Vec<String> = Vec::new();
        let mut i: usize = 0;
        assert(names_of(names@) =~= Seq::<Seq<char>>::empty());
        while i < self.propagators.len()
            invariant
                i <= self.propagators.len(),
                all == self.propagators@,
                lists_in_order(all.take(i as int), names_of(names@)),
            decreases self.propagators.len() - i,
        {
            let ghost before = names_of(names@);
            let more = self.propagators[i].fields();
            let ghost added = names_of(more@);
            add_new_names(&mut names, more);
            proof {
                let done = all.take(i + 1);
                assert(done.drop_last() =~= all.take(i as int));
                assert(done.last() == all[i as int]);
                lemma_lists_one_more(done, before, added);
            }
            i += 1;
        }
        assert(all.take(self.propagators.len() as int) =~= all);
        names
    }
}

/// The last writer wins: where the last of the propagators sets the field
/// `key` to `value` for the context `cx`, the carrier holds what that `set`
/// left once all have injected, whatever those before it wrote.
pub proof fn last_writer_sets(
    propagators: Seq<impl TextMapFormat>,
    cx: ContextView,
    sets: Setting,
    before: Fields,
    after: Fields,
    key: Seq<char>,
    value: Seq<char>,
)
    requires
        propagators.len() > 0,
        injects_in_order(propagators, cx, sets, before, after),
        forall|mid: Fields, end: Fields| #[trigger]
            propagators.last().injects(cx, sets, mid, end) ==> sets(mid, key, value, end),
    ensures
        exists|mid: Fields| #[trigger] sets(mid, key, value, after),
{
    let mid = choose|mid: Fields|
        injects_in_order(propagators.drop_last(), cx, sets, before, mid)
            && #[trigger] propagators.last().injects(cx, sets, mid, after);
    assert(sets(mid, key, value, after));
}

/// The last writer wins on a map carrier: where the last of the propagators
/// sets the field `key` to `value`, reading `key` from the carrier gives
/// `value` once all have injected.
pub proof fn last_writer_wins(
    propagators: Seq<impl TextMapFormat>,
    cx: ContextView,
    before: Fields,
    after: Fields,
    key: Seq<char>,
    value: Seq<char>,
)
    requires
        propagators.len() > 0,
        injects_in_order(propagators, cx, setting::<HashMap<String, String>>(), before, after),
        forall|mid: Fields, end: Fields| #[trigger]
            propagators.last().injects(cx, setting::<HashMap<String, String>>(), mid, end)
                ==> <HashMap<String, String> as Injector>::sets(mid, key, value, end),
    ensures
        field_ignoring_case(after, key) == Some(value),
{
    let sets = setting::<HashMap<String, String>>();
    let mid = choose|mid: Fields|
        injects_in_order(propagators.drop_last(), cx, sets, before, mid)
            && #[trigger] propagators.last().injects(cx, sets, mid, after);
    assert(<HashMap<String, String> as Injector>::sets(mid, key, value, after));
}

} // verus!
