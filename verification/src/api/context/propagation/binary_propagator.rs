//! Propagators that write a span context as bytes and read it back.
use crate::api::trace::{SpanContext, SpanContextView, SpanId, TraceId};
use vstd::bytes::{
    lemma_auto_spec_u128_to_from_le_bytes, lemma_auto_spec_u64_to_from_le_bytes,
    spec_u128_from_le_bytes, spec_u128_to_le_bytes, spec_u64_from_le_bytes, spec_u64_to_le_bytes,
    u128_from_le_bytes, u128_to_le_bytes, u64_from_le_bytes, u64_to_le_bytes,
};
use vstd::prelude::*;
use vstd::slice::slice_subrange;

verus! {

/// A format that turns a span context into bytes and back.
///
/// What an implementation says of itself in `writes` and `reads` is what
/// callers can rely on; one that says nothing promises nothing.
pub trait BinaryFormat {
    /// Whether `to_bytes` may give `bytes` for `context`.
    open spec fn writes(&self, context: SpanContextView, bytes: Seq<u8>) -> bool {
        true
    }

    /// Whether `from_bytes` may give `context` for `bytes`.
    open spec fn reads(&self, bytes: Seq<u8>, context: SpanContextView) -> bool {
        true
    }

    /// The bytes that stand for the span context.
    fn to_bytes(&self, context: &SpanContext) -> (bytes: Vec<u8>)
        ensures
            self.writes(context@, bytes@),
    ;

    /// The span context that the bytes stand for. Bytes that stand for none
    /// give an empty or invalid span context: reading never fails.
    fn from_bytes(&self, bytes: Vec<u8>) -> (context: SpanContext)
        ensures
            self.reads(bytes@, context@),
    ;
}

/// The number of bytes that a span context takes.
pub const ENCODED_LEN: usize = 29;

/// The bytes of a span context: a version byte of zero, then three fields,
/// each behind the byte that numbers it: the trace identifier, the span
/// identifier, both with the low byte first, and the flags. Vendor state
/// and the remote mark are not written.
pub open spec fn encoded_span(context: SpanContextView) -> Seq<u8> {
    seq![0u8, 0u8] + spec_u128_to_le_bytes(context.trace_id) + seq![1u8] + spec_u64_to_le_bytes(
        context.span_id,
    ) + seq![2u8, context.trace_flags]
}

/// Whether `bytes` have the length, the version byte and the field numbers
/// of an encoded span context.
pub open spec fn is_well_formed(bytes: Seq<u8>) -> bool {
    bytes.len() == ENCODED_LEN && bytes[0] == 0 && bytes[1] == 0 && bytes[18] == 1 && bytes[27]
        == 2
}

/// The span context that stands for "no span".
pub open spec fn no_span() -> SpanContextView {
    SpanContextView {
        trace_id: 0,
        span_id: 0,
        trace_flags: 0,
        trace_state: Seq::empty(),
        is_remote: false,
    }
}

/// The span context that `bytes` stand for: a remote one with the
/// identifiers and flags read from well-formed bytes, and "no span" where
/// the bytes are not well formed or an identifier is zero.
pub open spec fn decoded_span(bytes: Seq<u8>) -> SpanContextView {
    let trace_id = spec_u128_from_le_bytes(bytes.subrange(2, 18));
    let span_id = spec_u64_from_le_bytes(bytes.subrange(19, 27));
    if is_well_formed(bytes) && trace_id != 0 && span_id != 0 {
        SpanContextView {
            trace_id,
            span_id,
            trace_flags: bytes[28],
            trace_state: Seq::empty(),
            is_remote: true,
        }
    } else {
        no_span()
    }
}

/// Writes span contexts as 29 bytes and reads them back.
#[derive(Debug, Default)]
pub struct BinaryPropagator {
    _private: (),
}

impl BinaryPropagator {
    /// The one value of this type.
    pub closed spec fn only() -> Self {
        BinaryPropagator { _private: () }
    }

    /// The binary propagator.
    pub fn new() -> (propagator: Self)
        ensures
            propagator == Self::only(),
    {
        BinaryPropagator { _private: () }
    }
}

/// Appends `tail` to `out`.
fn append_bytes(out: &mut Vec<u8>, tail: &Vec<u8>)
    ensures
        final(out)@ == old(out)@ + tail@,
{
    let mut i: usize = 0;
    while i < tail.len()
        invariant
            i <= tail.len(),
            out@ == old(out)@ + tail@.take(i as int),
        decreases tail.len() - i,
    {
        out.push(tail[i]);
        i += 1;
    }
    assert(tail@.take(tail.len() as int) == tail@);
}

impl BinaryFormat for BinaryPropagator {
    open spec fn writes(&self, context: SpanContextView, bytes: Seq<u8>) -> bool {
        bytes == encoded_span(context)
    }

    open spec fn reads(&self, bytes: Seq<u8>, context: SpanContextView) -> bool {
        context == decoded_span(bytes)
    }

    fn to_bytes(&self, context: &SpanContext) -> (bytes: Vec<u8>) {
        let mut bytes: Vec<u8> = Vec::new();
        bytes.push(0);
        bytes.push(0);
        append_bytes(&mut bytes, &u128_to_le_bytes(context.trace_id().to_u128()));
        bytes.push(1);
        append_bytes(&mut bytes, &u64_to_le_bytes(context.span_id().to_u64()));
        bytes.push(2);
        bytes.push(context.trace_flags());
        assert(bytes@ =~= encoded_span(context@));
        bytes
    }

    fn from_bytes(&self, bytes: Vec<u8>) -> (context: SpanContext) {
        if bytes.len() != ENCODED_LEN || bytes[0] != 0 || bytes[1] != 0 || bytes[18] != 1
            || bytes[27] != 2 {
            return SpanContext::empty_context();
        }
        let trace_id = u128_from_le_bytes(slice_subrange(bytes.as_slice(), 2, 18));
        let span_id = u64_from_le_bytes(slice_subrange(bytes.as_slice(), 19, 27));
        if trace_id == 0 || span_id == 0 {
            return SpanContext::empty_context();
        }
        SpanContext::new(TraceId(trace_id), SpanId(span_id), bytes[28], true)
    }
}

/// Reading undoes writing: the bytes of a valid span context stand for that
/// span context, marked as remote and without its vendor state.
pub proof fn read_inverts_write(context: SpanContextView)
    requires
        context.trace_id != 0,
        context.span_id != 0,
    ensures
        decoded_span(encoded_span(context)) == (SpanContextView {
            trace_state: Seq::empty(),
            is_remote: true,
            ..context
        }),
{
    lemma_auto_spec_u128_to_from_le_bytes();
    lemma_auto_spec_u64_to_from_le_bytes();
    let bytes = encoded_span(context);
    assert(spec_u128_to_le_bytes(context.trace_id).len() == 16);
    assert(spec_u64_to_le_bytes(context.span_id).len() == 8);
    assert(bytes.subrange(2, 18) =~= spec_u128_to_le_bytes(context.trace_id));
    assert(bytes.subrange(19, 27) =~= spec_u64_to_le_bytes(context.span_id));
}

/// A span context that is not valid is read back as "no span".
pub proof fn invalid_reads_as_no_span(context: SpanContextView)
    requires
        context.trace_id == 0 || context.span_id == 0,
    ensures
        decoded_span(encoded_span(context)) == no_span(),
{
    lemma_auto_spec_u128_to_from_le_bytes();
    lemma_auto_spec_u64_to_from_le_bytes();
    let bytes = encoded_span(context);
    assert(spec_u128_to_le_bytes(context.trace_id).len() == 16);
    assert(spec_u64_to_le_bytes(context.span_id).len() == 8);
    assert(bytes.subrange(2, 18) =~= spec_u128_to_le_bytes(context.trace_id));
    assert(bytes.subrange(19, 27) =~= spec_u64_to_le_bytes(context.span_id));
}

} // verus!
