//! The closed catalogue of type-erased values.
//!
//! A dynamically-typed value travelling along a graph edge is one of a
//! fixed set of payload kinds: scalar, stream, or scalar-or-stream of each
//! element kind, a text scalar, an assembled parameter bundle, or the
//! explicit marker for a skipped optional slot.  Recovering a concrete
//! type from a [`DynValue`] is a checked match, never a cast, and a failed
//! recovery hands the original value back unchanged.

use vstd::prelude::*;

use crate::stack::InputStack;
use crate::values::{Many, One, OneOrMany};

verus! {

/// Runtime identifier of a concrete payload type: the closed counterpart
/// of a reflection type id.
#[derive(Debug, Clone, Copy, PartialEq, Eq, Structural, Hash)]
pub enum TypeKey {
    OneUnsigned,
    ManyUnsigned,
    EitherUnsigned,
    OneSigned,
    ManySigned,
    EitherSigned,
    OneText,
    PairValue,
    WideValue,
    ShaderValue,
    /// The declared slot of a shader uniform.
    UniformSlot,
    AbsentMarker,
}

/// A sample parameter bundle: a scalar-or-stream left operand and a scalar
/// right operand.  It doubles as the reference implementation of the
/// mechanical capability derivation for product types.
#[derive(Debug, Clone, PartialEq)]
pub struct PairParams {
    pub lhs: OneOrMany<u32>,
    pub rhs: One<u32>,
}

/// A sample union bundle: either the wide declaration ([`PairParams`]) or
/// a narrow single operand.  It is the reference implementation of the
/// capability derivation for sum types: the union is transparently
/// matchable as itself or as any single arm.
#[derive(Debug, Clone, PartialEq)]
pub enum WideOrNarrow {
    Pair(PairParams),
    Single(OneOrMany<u32>),
}

/// A parameter bundle whose two element kinds differ per position.
#[derive(Debug, Clone, PartialEq)]
pub struct RatioParams {
    pub numerator: OneOrMany<i64>,
    pub denominator: OneOrMany<u32>,
}

/// A parameter bundle with one required and two optional positions.
#[derive(Debug, Clone, PartialEq)]
pub struct OptionalParams {
    pub required: OneOrMany<u32>,
    pub optional: Option<OneOrMany<u32>>,
    pub optional2: Option<OneOrMany<u32>>,
}

/// A type-erased value: one of the closed catalogue of payload kinds a
/// node can produce or consume.
#[derive(Debug, Clone, PartialEq)]
pub enum DynValue {
    OneU(One<u32>),
    ManyU(Many<u32>),
    EitherU(OneOrMany<u32>),
    OneS(One<i64>),
    ManyS(Many<i64>),
    EitherS(OneOrMany<i64>),
    OneText(One<String>),
    Pair(PairParams),
    Wide(WideOrNarrow),
    Shader(crate::shader::ShaderData),
    /// The value a caller passes for an optional slot it leaves empty.
    Absent,
}

impl DynValue {
    /// The runtime type of the payload.
    pub open spec fn kind_spec(self) -> TypeKey {
        match self {
            DynValue::OneU(_) => TypeKey::OneUnsigned,
            DynValue::ManyU(_) => TypeKey::ManyUnsigned,
            DynValue::EitherU(_) => TypeKey::EitherUnsigned,
            DynValue::OneS(_) => TypeKey::OneSigned,
            DynValue::ManyS(_) => TypeKey::ManySigned,
            DynValue::EitherS(_) => TypeKey::EitherSigned,
            DynValue::OneText(_) => TypeKey::OneText,
            DynValue::Pair(_) => TypeKey::PairValue,
            DynValue::Wide(_) => TypeKey::WideValue,
            DynValue::Shader(_) => TypeKey::ShaderValue,
            DynValue::Absent => TypeKey::AbsentMarker,
        }
    }

    /// Query the runtime type of the payload without consuming it.
    pub fn kind(&self) -> (k: TypeKey)
        ensures
            k == self.kind_spec(),
    {
        match self {
            DynValue::OneU(_) => TypeKey::OneUnsigned,
            DynValue::ManyU(_) => TypeKey::ManyUnsigned,
            DynValue::EitherU(_) => TypeKey::EitherUnsigned,
            DynValue::OneS(_) => TypeKey::OneSigned,
            DynValue::ManyS(_) => TypeKey::ManySigned,
            DynValue::EitherS(_) => TypeKey::EitherSigned,
            DynValue::OneText(_) => TypeKey::OneText,
            DynValue::Pair(_) => TypeKey::PairValue,
            DynValue::Wide(_) => TypeKey::WideValue,
            DynValue::Shader(_) => TypeKey::ShaderValue,
            DynValue::Absent => TypeKey::AbsentMarker,
        }
    }
}

/// The runtime types of a run of erased values, position by position.
pub open spec fn kinds_of(s: Seq<DynValue>) -> Seq<TypeKey> {
    s.map_values(|v: DynValue| v.kind_spec())
}

impl InputStack {
    /// The runtime types of the values the view spans, in order: the
    /// read-only walk a type check makes, with no ownership transfer.
    pub fn deref_iter(&self, buf: &Vec<DynValue>) -> (r: Vec<TypeKey>)
        requires
            self.wf_for(buf@),
        ensures
            r@ == kinds_of(self.contents(buf@)),
    {
        let ghost target = kinds_of(self.contents(buf@));
        let mut r: Vec<TypeKey> = Vec::new();
        let mut i: usize = self.lo;
        while i < self.hi
            invariant
                self.wf_for(buf@),
                target == kinds_of(self.contents(buf@)),
                self.lo <= i <= self.hi,
                r@.len() == i - self.lo,
                forall|k: int| 0 <= k < r@.len() ==> r@[k] == target[k],
            decreases self.hi - i,
        {
            let k = buf[i].kind();
            r.push(k);
            i += 1;
        }
        proof {
            assert(r@ =~= target);
        }
        r
    }
}

impl OneOrMany<u32> {
    /// Erase the value, as the scalar or the stream it holds.
    pub fn into_boxed_inner(self) -> (r: DynValue)
        ensures
            self matches OneOrMany::One(o) ==> r == DynValue::OneU(o),
            self matches OneOrMany::Many(m) ==> r == DynValue::ManyU(m),
    {
        match self {
            OneOrMany::One(o) => DynValue::OneU(o),
            OneOrMany::Many(m) => DynValue::ManyU(m),
        }
    }
}

impl OneOrMany<i64> {
    /// Erase the value, as the scalar or the stream it holds.
    pub fn into_boxed_inner(self) -> (r: DynValue)
        ensures
            self matches OneOrMany::One(o) ==> r == DynValue::OneS(o),
            self matches OneOrMany::Many(m) ==> r == DynValue::ManyS(m),
    {
        match self {
            OneOrMany::One(o) => DynValue::OneS(o),
            OneOrMany::Many(m) => DynValue::ManyS(m),
        }
    }
}

} // verus!
