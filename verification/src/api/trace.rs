//! The identity of a span: what must cross a boundary to continue a trace.
use vstd::prelude::*;

verus! {

/// The flag bit that marks a trace as sampled.
pub const TRACE_FLAG_SAMPLED: u8 = 0x01;

/// The sixteen bytes that identify a trace, as one number.
#[derive(Clone, Copy, Debug, PartialEq, Eq, Structural)]
pub struct TraceId(pub u128);

/// The eight bytes that identify a span, as one number.
#[derive(Clone, Copy, Debug, PartialEq, Eq, Structural)]
pub struct SpanId(pub u64);

impl TraceId {
    /// The identifier that stands for "no trace": all bytes zero.
    pub fn invalid() -> (id: TraceId)
        ensures
            id.0 == 0,
    {
        TraceId(0)
    }

    /// The identifier as a number.
    pub fn to_u128(self) -> (n: u128)
        ensures
            n == self.0,
    {
        self.0
    }
}

impl SpanId {
    /// The identifier that stands for "no span": all bytes zero.
    pub fn invalid() -> (id: SpanId)
        ensures
            id.0 == 0,
    {
        SpanId(0)
    }

    /// The identifier as a number.
    pub fn to_u64(self) -> (n: u64)
        ensures
            n == self.0,
    {
        self.0
    }
}

/// What a [`SpanContext`] holds, as mathematical data.
pub struct SpanContextView {
    pub trace_id: u128,
    pub span_id: u64,
    pub trace_flags: u8,
    pub trace_state: Seq<(Seq<char>, Seq<char>)>,
    pub is_remote: bool,
}

/// The vendor pairs that `pairs` hold.
pub open spec fn state_of(pairs: Seq<(String, String)>) -> Seq<(Seq<char>, Seq<char>)> {
    pairs.map_values(|pair: (String, String)| (pair.0@, pair.1@))
}

/// The identity of a span: trace and span identifiers, flags, vendor state,
/// and whether it came from another process.
#[derive(Debug)]
pub struct SpanContext {
    trace_id: TraceId,
    span_id: SpanId,
    trace_flags: u8,
    trace_state: Vec<(String, String)>,
    is_remote: bool,
}

impl View for SpanContext {
    type V = SpanContextView;

    closed spec fn view(&self) -> SpanContextView {
        SpanContextView {
            trace_id: self.trace_id.0,
            span_id: self.span_id.0,
            trace_flags: self.trace_flags,
            trace_state: state_of(self.trace_state@),
            is_remote: self.is_remote,
        }
    }
}

/// A copy of the vendor pairs.
fn copy_state(pairs: &Vec<(String, String)>) -> (out: Vec<(String, String)>)
    ensures
        state_of(out@) == state_of(pairs@),
{
    let mut out: Vec<(String, String)> = Vec::new();
    let mut i: usize = 0;
    while i < pairs.len()
        invariant
            i <= pairs.len(),
            out.len() == i,
            forall|k: int| 0 <= k < i ==> out@[k].0@ == pairs@[k].0@ && out@[k].1@ == pairs@[k].1@,
        decreases pairs.len() - i,
    {
        out.push((pairs[i].0.clone(), pairs[i].1.clone()));
        i += 1;
    }
    assert(state_of(out@) =~= state_of(pairs@));
    out
}

impl Clone for SpanContext {
    fn clone(&self) -> (r: Self)
        ensures
            r@ == self@,
    {
        SpanContext {
            trace_id: self.trace_id,
            span_id: self.span_id,
            trace_flags: self.trace_flags,
            trace_state: copy_state(&self.trace_state),
            is_remote: self.is_remote,
        }
    }
}

impl SpanContext {
    /// A span context of the given parts, without vendor state.
    pub fn new(trace_id: TraceId, span_id: SpanId, trace_flags: u8, is_remote: bool) -> (sc:
        SpanContext)
        ensures
            sc@ == (SpanContextView {
                trace_id: trace_id.0,
                span_id: span_id.0,
                trace_flags,
                trace_state: Seq::empty(),
                is_remote,
            }),
    {
        let sc = SpanContext { trace_id, span_id, trace_flags, trace_state: Vec::new(), is_remote };
        assert(sc@.trace_state =~= Seq::empty());
        sc
    }

    /// The span context that stands for "no span": identifiers zero, no
    /// flags, local.
    pub fn empty_context() -> (sc: SpanContext)
        ensures
            sc@ == (SpanContextView {
                trace_id: 0,
                span_id: 0,
                trace_flags: 0,
                trace_state: Seq::empty(),
                is_remote: false,
            }),
    {
        SpanContext::new(TraceId::invalid(), SpanId::invalid(), 0, false)
    }

    /// The same span context with `key` and `value` added at the end of its
    /// vendor state.
    pub fn with_state(self, key: String, value: String) -> (sc: SpanContext)
        ensures
            sc@ == (SpanContextView {
                trace_state: self@.trace_state.push((key@, value@)),
                ..self@
            }),
    {
        let SpanContext { trace_id, span_id, trace_flags, mut trace_state, is_remote } = self;
        trace_state.push((key, value));
        let sc = SpanContext { trace_id, span_id, trace_flags, trace_state, is_remote };
        assert(sc@.trace_state =~= self@.trace_state.push((key@, value@)));
        sc
    }

    /// The trace identifier.
    pub fn trace_id(&self) -> (id: TraceId)
        ensures
            id.0 == self@.trace_id,
    {
        self.trace_id
    }

    /// The span identifier.
    pub fn span_id(&self) -> (id: SpanId)
        ensures
            id.0 == self@.span_id,
    {
        self.span_id
    }

    /// The flags.
    pub fn trace_flags(&self) -> (flags: u8)
        ensures
            flags == self@.trace_flags,
    {
        self.trace_flags
    }

    /// The vendor state, in order.
    pub fn trace_state(&self) -> (pairs: &[(String, String)])
        ensures
            state_of(pairs@) == self@.trace_state,
    {
        self.trace_state.as_slice()
    }

    /// Whether both identifiers are other than zero.
    pub fn is_valid(&self) -> (valid: bool)
        ensures
            valid == (self@.trace_id != 0 && self@.span_id != 0),
    {
        self.trace_id.0 != 0 && self.span_id.0 != 0
    }

    /// Whether the span context came from another process.
    pub fn is_remote(&self) -> (remote: bool)
        ensures
            remote == self@.is_remote,
    {
        self.is_remote
    }

    /// Whether the sampled bit is set in the flags.
    pub fn is_sampled(&self) -> (sampled: bool)
        ensures
            sampled == (self@.trace_flags & TRACE_FLAG_SAMPLED == TRACE_FLAG_SAMPLED),
    {
        self.trace_flags & TRACE_FLAG_SAMPLED == TRACE_FLAG_SAMPLED
    }

    /// Whether the two span contexts hold the same data.
    pub fn same_as(&self, other: &SpanContext) -> (same: bool)
        ensures
            same == (self@ == other@),
    {
        if self.trace_id.0 != other.trace_id.0 || self.span_id.0 != other.span_id.0
            || self.trace_flags != other.trace_flags || self.is_remote != other.is_remote
            || self.trace_state.len() != other.trace_state.len() {
            assert(self@.trace_state.len() == self.trace_state@.len());
            assert(other@.trace_state.len() == other.trace_state@.len());
            return false;
        }
        let mut i: usize = 0;
        while i < self.trace_state.len()
            invariant
                i <= self.trace_state.len(),
                self.trace_state.len() == other.trace_state.len(),
                forall|k: int| 0 <= k < i ==> self@.trace_state[k] == other@.trace_state[k],
            decreases self.trace_state.len() - i,
        {
            let same_key = self.trace_state[i].0 == other.trace_state[i].0;
            let same_value = self.trace_state[i].1 == other.trace_state[i].1;
            if !same_key || !same_value {
                assert(self@.trace_state[i as int] != other@.trace_state[i as int]);
                return false;
            }
            i += 1;
        }
        assert(self@.trace_state =~= other@.trace_state);
        true
    }
}

} // verus!
