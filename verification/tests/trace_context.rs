//! Trace contexts through their form inside an envelope and through Fory.

use fory::{Fory, ForyDefault, ReadContext, Serializer, TypeId, TypeResolver, WriteContext};
use std::any::Any;
use tarpc_fory::envelope::{
    sampling_to_u8, u8_to_sampling, SamplingDecision, TraceContext, TRACE_CONTEXT_TYPE_ID,
};
use tarpc_fory::ForyTraceContext;

/// A trace context in a form that Fory can carry.
struct Carried(ForyTraceContext);

impl Serializer for Carried {
    fn fory_write_data(&self, context: &mut WriteContext) -> Result<(), fory::Error> {
        self.0.trace_id.fory_write_data(context)?;
        self.0.span_id.fory_write_data(context)?;
        self.0.sampling.fory_write_data(context)
    }

    fn fory_read_data(context: &mut ReadContext) -> Result<Self, fory::Error> {
        let trace_id = u128::fory_read_data(context)?;
        let span_id = u64::fory_read_data(context)?;
        let sampling = u8::fory_read_data(context)?;
        Ok(Carried(ForyTraceContext {
            trace_id,
            span_id,
            sampling,
        }))
    }

    fn fory_type_id_dyn(&self, resolver: &TypeResolver) -> Result<TypeId, fory::Error> {
        Self::fory_get_type_id(resolver)
    }

    fn as_any(&self) -> &dyn Any {
        self
    }
}

impl ForyDefault for Carried {
    fn fory_default() -> Self {
        Carried(ForyTraceContext {
            trace_id: 0,
            span_id: 0,
            sampling: 0,
        })
    }
}

fn through_fory(original: ForyTraceContext) -> ForyTraceContext {
    let mut fory = Fory::default();
    fory.register_serializer::<Carried>(TRACE_CONTEXT_TYPE_ID).unwrap();
    let bytes = fory.serialize(&Carried(original)).unwrap();
    let decoded: Carried = fory.deserialize(&bytes).unwrap();
    decoded.0
}

#[test]
fn fory_trace_context_full_u128_round_trip() {
    let original = ForyTraceContext {
        trace_id: 0x1234_5678_9abc_def0_fedc_ba98_7654_3210_u128,
        span_id: 0xA1B2_C3D4_E5F6_0001_u64,
        sampling: 1,
    };

    let decoded = through_fory(original);

    assert_eq!(decoded.trace_id, original.trace_id, "trace_id truncated");
    assert_eq!(decoded.span_id, original.span_id, "span_id corrupted");
    assert_eq!(decoded.sampling, 1u8, "sampling mismatch");
}

#[test]
fn fory_trace_context_unsampled_round_trip() {
    let original = ForyTraceContext {
        trace_id: 0xFEDC_BA98_7654_3210_1234_5678_9ABC_DEF0_u128,
        span_id: 0x0011_2233_4455_6677_u64,
        sampling: 0,
    };

    let decoded = through_fory(original);

    assert_eq!(decoded.trace_id, original.trace_id);
    assert_eq!(decoded.span_id, original.span_id);
    assert_eq!(decoded.sampling, 0u8, "Unsampled should be 0");
}

#[test]
fn trace_context_survives_both_conversions() {
    for decision in [SamplingDecision::Sampled, SamplingDecision::Unsampled] {
        let context = TraceContext {
            trace_id: 0x1234_5678_9abc_def0_fedc_ba98_7654_3210_u128,
            span_id: 0xA1B2_C3D4_E5F6_0001_u64,
            sampling_decision: decision,
        };
        let wire = ForyTraceContext::from(&context);
        assert_eq!(wire.trace_id, context.trace_id);
        assert_eq!(wire.span_id, context.span_id);
        assert_eq!(TraceContext::from(wire), context);
    }
}

#[test]
fn sampling_decisions_have_their_bytes() {
    assert_eq!(sampling_to_u8(SamplingDecision::Sampled), 1);
    assert_eq!(sampling_to_u8(SamplingDecision::Unsampled), 0);
    assert_eq!(u8_to_sampling(1), SamplingDecision::Sampled);
    assert_eq!(u8_to_sampling(0), SamplingDecision::Unsampled);
    assert_eq!(u8_to_sampling(7), SamplingDecision::Unsampled);
}
