//! The per-type capability of matching and recovering a concrete
//! parameter type from a type-erased value.
//!
//! Every implementation is mechanical: a concrete wrapper matches exactly
//! its own payload kind; a scalar-or-stream parameter matches any of its
//! three representations; an optional parameter delegates to its inner
//! type and additionally accepts the absent marker; a product type matches
//! its own erased form; a sum type matches its own erased form or any one
//! arm's.

use vstd::prelude::*;

use crate::erase::{DynValue, PairParams, TypeKey, WideOrNarrow};
use crate::values::{Many, One, OneOrMany};

verus! {

/// A concrete parameter type that can describe itself and recover itself
/// from a type-erased value.
pub trait InputComponent: Sized {
    /// Whether an erased value currently holds this type.
    spec fn matches_spec(v: DynValue) -> bool;

    /// The runtime types this parameter type might match, in declaration
    /// order.
    spec fn keys_spec() -> Seq<TypeKey>;

    /// The checked recovery: the concrete value, or the original erased
    /// value handed back unchanged.
    spec fn downcast_spec(v: DynValue) -> Result<Self, DynValue>;

    /// Whether a run may simply omit this parameter.
    spec fn is_optional_spec() -> bool;

    /// A mismatching value is never lost: recovery fails exactly on the
    /// values this type does not match, and then returns them unchanged.
    proof fn lemma_downcast_total(v: DynValue)
        ensures
            !Self::matches_spec(v) ==> Self::downcast_spec(v) == Result::<Self, DynValue>::Err(v),
            Self::matches_spec(v) ==> Self::downcast_spec(v) is Ok,
    ;

    /// Check, without consuming, whether the value holds this type.
    fn is(v: &DynValue) -> (r: bool)
        ensures
            r == Self::matches_spec(*v),
    ;

    /// The runtime types this parameter type might match.
    fn type_ids() -> (r: Vec<TypeKey>)
        ensures
            r@ == Self::keys_spec(),
    ;

    /// Consume the value into this type, or hand it back unchanged.
    fn downcast(v: DynValue) -> (r: Result<Self, DynValue>)
        ensures
            r == Self::downcast_spec(v),
    ;

    /// Whether a run may simply omit this parameter.
    fn is_optional() -> (r: bool)
        ensures
            r == Self::is_optional_spec(),
    ;
}

impl InputComponent for One<u32> {
    open spec fn matches_spec(v: DynValue) -> bool {
        v is OneU
    }

    open spec fn keys_spec() -> Seq<TypeKey> {
        seq![TypeKey::OneUnsigned]
    }

    open spec fn downcast_spec(v: DynValue) -> Result<Self, DynValue> {
        match v {
            DynValue::OneU(o) => Ok(o),
            _ => Err(v),
        }
    }

    open spec fn is_optional_spec() -> bool {
        false
    }

    proof fn lemma_downcast_total(v: DynValue) {
    }

    fn is(v: &DynValue) -> bool {
        matches!(v, DynValue::OneU(_))
    }

    fn type_ids() -> (r: Vec<TypeKey>) {
        let mut r = Vec::new();
        r.push(TypeKey::OneUnsigned);
        proof {
            assert(r@ =~= Self::keys_spec());
        }
        r
    }

    fn downcast(v: DynValue) -> (r: Result<Self, DynValue>) {
        match v {
            DynValue::OneU(o) => Ok(o),
            _ => Err(v),
        }
    }

    fn is_optional() -> bool {
        false
    }
}

impl InputComponent for Many<u32> {
    open spec fn matches_spec(v: DynValue) -> bool {
        v is ManyU
    }

    open spec fn keys_spec() -> Seq<TypeKey> {
        seq![TypeKey::ManyUnsigned]
    }

    open spec fn downcast_spec(v: DynValue) -> Result<Self, DynValue> {
        match v {
            DynValue::ManyU(m) => Ok(m),
            _ => Err(v),
        }
    }

    open spec fn is_optional_spec() -> bool {
        false
    }

    proof fn lemma_downcast_total(v: DynValue) {
    }

    fn is(v: &DynValue) -> bool {
        matches!(v, DynValue::ManyU(_))
    }

    fn type_ids() -> (r: Vec<TypeKey>) {
        let mut r = Vec::new();
        r.push(TypeKey::ManyUnsigned);
        proof {
            assert(r@ =~= Self::keys_spec());
        }
        r
    }

    fn downcast(v: DynValue) -> (r: Result<Self, DynValue>) {
        match v {
            DynValue::ManyU(m) => Ok(m),
            _ => Err(v),
        }
    }

    fn is_optional() -> bool {
        false
    }
}

impl InputComponent for OneOrMany<u32> {
    open spec fn matches_spec(v: DynValue) -> bool {
        v is ManyU || v is OneU || v is EitherU
    }

    open spec fn keys_spec() -> Seq<TypeKey> {
        seq![TypeKey::ManyUnsigned, TypeKey::OneUnsigned, TypeKey::EitherUnsigned]
    }

    open spec fn downcast_spec(v: DynValue) -> Result<Self, DynValue> {
        match v {
            DynValue::ManyU(m) => Ok(OneOrMany::Many(m)),
            DynValue::OneU(o) => Ok(OneOrMany::One(o)),
            DynValue::EitherU(e) => Ok(e),
            _ => Err(v),
        }
    }

    open spec fn is_optional_spec() -> bool {
        false
    }

    proof fn lemma_downcast_total(v: DynValue) {
    }

    fn is(v: &DynValue) -> bool {
        matches!(v, DynValue::ManyU(_) | DynValue::OneU(_) | DynValue::EitherU(_))
    }

    fn type_ids() -> (r: Vec<TypeKey>) {
        let mut r = Vec::new();
        r.push(TypeKey::ManyUnsigned);
        r.push(TypeKey::OneUnsigned);
        r.push(TypeKey::EitherUnsigned);
        proof {
            assert(r@ =~= Self::keys_spec());
        }
        r
    }

    fn downcast(v: DynValue) -> (r: Result<Self, DynValue>) {
        match v {
            DynValue::ManyU(m) => Ok(OneOrMany::Many(m)),
            DynValue::OneU(o) => Ok(OneOrMany::One(o)),
            DynValue::EitherU(e) => Ok(e),
            _ => Err(v),
        }
    }

    fn is_optional() -> bool {
        false
    }
}

impl InputComponent for One<i64> {
    open spec fn matches_spec(v: DynValue) -> bool {
        v is OneS
    }

    open spec fn keys_spec() -> Seq<TypeKey> {
        seq![TypeKey::OneSigned]
    }

    open spec fn downcast_spec(v: DynValue) -> Result<Self, DynValue> {
        match v {
            DynValue::OneS(o) => Ok(o),
            _ => Err(v),
        }
    }

    open spec fn is_optional_spec() -> bool {
        false
    }

    proof fn lemma_downcast_total(v: DynValue) {
    }

    fn is(v: &DynValue) -> bool {
        matches!(v, DynValue::OneS(_))
    }

    fn type_ids() -> (r: Vec<TypeKey>) {
        let mut r = Vec::new();
        r.push(TypeKey::OneSigned);
        proof {
            assert(r@ =~= Self::keys_spec());
        }
        r
    }

    fn downcast(v: DynValue) -> (r: Result<Self, DynValue>) {
        match v {
            DynValue::OneS(o) => Ok(o),
            _ => Err(v),
        }
    }

    fn is_optional() -> bool {
        false
    }
}

impl InputComponent for Many<i64> {
    open spec fn matches_spec(v: DynValue) -> bool {
        v is ManyS
    }

    open spec fn keys_spec() -> Seq<TypeKey> {
        seq![TypeKey::ManySigned]
    }

    open spec fn downcast_spec(v: DynValue) -> Result<Self, DynValue> {
        match v {
            DynValue::ManyS(m) => Ok(m),
            _ => Err(v),
        }
    }

    open spec fn is_optional_spec() -> bool {
        false
    }

    proof fn lemma_downcast_total(v: DynValue) {
    }

    fn is(v: &DynValue) -> bool {
        matches!(v, DynValue::ManyS(_))
    }

    fn type_ids() -> (r: Vec<TypeKey>) {
        let mut r = Vec::new();
        r.push(TypeKey::ManySigned);
        proof {
            assert(r@ =~= Self::keys_spec());
        }
        r
    }

    fn downcast(v: DynValue) -> (r: Result<Self, DynValue>) {
        match v {
            DynValue::ManyS(m) => Ok(m),
            _ => Err(v),
        }
    }

    fn is_optional() -> bool {
        false
    }
}

impl InputComponent for OneOrMany<i64> {
    open spec fn matches_spec(v: DynValue) -> bool {
        v is ManyS || v is OneS || v is EitherS
    }

    open spec fn keys_spec() -> Seq<TypeKey> {
        seq![TypeKey::ManySigned, TypeKey::OneSigned, TypeKey::EitherSigned]
    }

    open spec fn downcast_spec(v: DynValue) -> Result<Self, DynValue> {
        match v {
            DynValue::ManyS(m) => Ok(OneOrMany::Many(m)),
            DynValue::OneS(o) => Ok(OneOrMany::One(o)),
            DynValue::EitherS(e) => Ok(e),
            _ => Err(v),
        }
    }

    open spec fn is_optional_spec() -> bool {
        false
    }

    proof fn lemma_downcast_total(v: DynValue) {
    }

    fn is(v: &DynValue) -> bool {
        matches!(v, DynValue::ManyS(_) | DynValue::OneS(_) | DynValue::EitherS(_))
    }

    fn type_ids() -> (r: Vec<TypeKey>) {
        let mut r = Vec::new();
        r.push(TypeKey::ManySigned);
        r.push(TypeKey::OneSigned);
        r.push(TypeKey::EitherSigned);
        proof {
            assert(r@ =~= Self::keys_spec());
        }
        r
    }

    fn downcast(v: DynValue) -> (r: Result<Self, DynValue>) {
        match v {
            DynValue::ManyS(m) => Ok(OneOrMany::Many(m)),
            DynValue::OneS(o) => Ok(OneOrMany::One(o)),
            DynValue::EitherS(e) => Ok(e),
            _ => Err(v),
        }
    }

    fn is_optional() -> bool {
        false
    }
}

impl InputComponent for One<String> {
    open spec fn matches_spec(v: DynValue) -> bool {
        v is OneText
    }

    open spec fn keys_spec() -> Seq<TypeKey> {
        seq![TypeKey::OneText]
    }

    open spec fn downcast_spec(v: DynValue) -> Result<Self, DynValue> {
        match v {
            DynValue::OneText(o) => Ok(o),
            _ => Err(v),
        }
    }

    open spec fn is_optional_spec() -> bool {
        false
    }

    proof fn lemma_downcast_total(v: DynValue) {
    }

    fn is(v: &DynValue) -> bool {
        matches!(v, DynValue::OneText(_))
    }

    fn type_ids() -> (r: Vec<TypeKey>) {
        let mut r = Vec::new();
        r.push(TypeKey::OneText);
        proof {
            assert(r@ =~= Self::keys_spec());
        }
        r
    }

    fn downcast(v: DynValue) -> (r: Result<Self, DynValue>) {
        match v {
            DynValue::OneText(o) => Ok(o),
            _ => Err(v),
        }
    }

    fn is_optional() -> bool {
        false
    }
}

impl InputComponent for PairParams {
    open spec fn matches_spec(v: DynValue) -> bool {
        v is Pair
    }

    open spec fn keys_spec() -> Seq<TypeKey> {
        seq![TypeKey::PairValue]
    }

    open spec fn downcast_spec(v: DynValue) -> Result<Self, DynValue> {
        match v {
            DynValue::Pair(p) => Ok(p),
            _ => Err(v),
        }
    }

    open spec fn is_optional_spec() -> bool {
        false
    }

    proof fn lemma_downcast_total(v: DynValue) {
    }

    fn is(v: &DynValue) -> bool {
        matches!(v, DynValue::Pair(_))
    }

    fn type_ids() -> (r: Vec<TypeKey>) {
        let mut r = Vec::new();
        r.push(TypeKey::PairValue);
        proof {
            assert(r@ =~= Self::keys_spec());
        }
        r
    }

    fn downcast(v: DynValue) -> (r: Result<Self, DynValue>) {
        match v {
            DynValue::Pair(p) => Ok(p),
            _ => Err(v),
        }
    }

    fn is_optional() -> bool {
        false
    }
}

impl InputComponent for WideOrNarrow {
    open spec fn matches_spec(v: DynValue) -> bool {
        PairParams::matches_spec(v) || OneOrMany::<u32>::matches_spec(v) || v is Wide
    }

    open spec fn keys_spec() -> Seq<TypeKey> {
        seq![TypeKey::PairValue, TypeKey::EitherUnsigned, TypeKey::WideValue]
    }

    open spec fn downcast_spec(v: DynValue) -> Result<Self, DynValue> {
        match PairParams::downcast_spec(v) {
            Ok(p) => Ok(WideOrNarrow::Pair(p)),
            Err(v) => match OneOrMany::<u32>::downcast_spec(v) {
                Ok(s) => Ok(WideOrNarrow::Single(s)),
                Err(v) => match v {
                    DynValue::Wide(w) => Ok(w),
                    _ => Err(v),
                },
            },
        }
    }

    open spec fn is_optional_spec() -> bool {
        false
    }

    proof fn lemma_downcast_total(v: DynValue) {
    }

    fn is(v: &DynValue) -> bool {
        PairParams::is(v) || OneOrMany::<u32>::is(v) || matches!(v, DynValue::Wide(_))
    }

    fn type_ids() -> (r: Vec<TypeKey>) {
        let mut r = Vec::new();
        r.push(TypeKey::PairValue);
        r.push(TypeKey::EitherUnsigned);
        r.push(TypeKey::WideValue);
        proof {
            assert(r@ =~= Self::keys_spec());
        }
        r
    }

    fn downcast(v: DynValue) -> (r: Result<Self, DynValue>) {
        let v = match PairParams::downcast(v) {
            Ok(p) => {
                return Ok(WideOrNarrow::Pair(p));
            },
            Err(v) => v,
        };
        let v = match OneOrMany::<u32>::downcast(v) {
            Ok(s) => {
                return Ok(WideOrNarrow::Single(s));
            },
            Err(v) => v,
        };
        match v {
            DynValue::Wide(w) => Ok(w),
            _ => Err(v),
        }
    }

    fn is_optional() -> bool {
        false
    }
}

impl<T: InputComponent> InputComponent for Option<T> {
    open spec fn matches_spec(v: DynValue) -> bool {
        v is Absent || T::matches_spec(v)
    }

    open spec fn keys_spec() -> Seq<TypeKey> {
        T::keys_spec()
    }

    open spec fn downcast_spec(v: DynValue) -> Result<Self, DynValue> {
        match v {
            DynValue::Absent => Ok(None),
            _ => match T::downcast_spec(v) {
                Ok(t) => Ok(Some(t)),
                Err(v) => Err(v),
            },
        }
    }

    open spec fn is_optional_spec() -> bool {
        true
    }

    proof fn lemma_downcast_total(v: DynValue) {
        T::lemma_downcast_total(v);
    }

    fn is(v: &DynValue) -> bool {
        matches!(v, DynValue::Absent) || T::is(v)
    }

    fn type_ids() -> (r: Vec<TypeKey>) {
        T::type_ids()
    }

    fn downcast(v: DynValue) -> (r: Result<Self, DynValue>) {
        match v {
            DynValue::Absent => Ok(None),
            _ => match T::downcast(v) {
                Ok(t) => Ok(Some(t)),
                Err(v) => Err(v),
            },
        }
    }

    fn is_optional() -> bool {
        true
    }
}

} // verus!
