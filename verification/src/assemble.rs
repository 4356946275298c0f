//! Assembling a whole parameter bundle from a run of type-erased values.
//!
//! `from_any` consumes a run held behind an [`InputStack`] view: it checks
//! every present value's runtime type against the corresponding declared
//! position, skips optional positions, and only after every check passes
//! consumes the run.  A rejected run leaves the backing buffer and the
//! view exactly as they were, so a union target can try each arm over an
//! independent sub-view and roll back every arm it does not pick.

use vstd::prelude::*;

use crate::component::InputComponent;
use crate::erase::{DynValue, OptionalParams, PairParams, RatioParams, TypeKey, WideOrNarrow};
use crate::reflect::{cart, combo_models, key_views, str_views, InfoModel, PossibleInputs};
use crate::stack::InputStack;
use crate::values::{Many, One, OneOrMany};

verus! {

/// The shape catalogue of one parameter list: the cartesian product,
/// across positions, of each position's possible runtime types.
pub open spec fn product_groups(
    names: Seq<Seq<char>>,
    tys: Seq<Seq<char>>,
    opts: Seq<bool>,
    keys: Seq<Seq<TypeKey>>,
) -> Seq<Seq<InfoModel>> {
    Seq::new(cart(keys).len(), |i: int| combo_models(names, tys, opts, cart(keys)[i]))
}

/// Build the catalogue that `product_groups` describes.
pub(crate) fn build_possible(
    names: &Vec<&'static str>,
    ty_names: &Vec<&'static str>,
    key_lists: &Vec<Vec<TypeKey>>,
    opts: &Vec<bool>,
) -> (r: PossibleInputs)
    requires
        ty_names@.len() == key_lists@.len(),
        opts@.len() == key_lists@.len(),
        names@.len() >= key_lists@.len(),
    ensures
        r.models() == product_groups(
            str_views(names@),
            str_views(ty_names@),
            opts@,
            key_views(key_lists@),
        ),
{
    let groups = crate::reflect::groups_from(names, ty_names, key_lists, opts);
    let r = PossibleInputs::new(groups);
    proof {
        assert(r.models() =~= product_groups(
            str_views(names@),
            str_views(ty_names@),
            opts@,
            key_views(key_lists@),
        ));
    }
    r
}

/// A parameter bundle constructible from an ordered run of type-erased
/// values, one value per declared position.
pub trait FromAnyProto: Sized {
    /// What `from_any` builds from this run and how many leading values
    /// it consumes; `None` exactly when the run is rejected.
    spec fn accept_spec(run: Seq<DynValue>) -> Option<(Self, int)>;

    /// How many declared parameter names the bundle needs.
    spec fn arity_spec() -> int;

    /// The shapes `possible_inputs` declares.
    spec fn groups_spec(names: Seq<Seq<char>>) -> Seq<Seq<InfoModel>>;

    /// An accepted run never consumes more values than it spans.
    proof fn lemma_accept_bounds(run: Seq<DynValue>)
        ensures
            Self::accept_spec(run) matches Some((x, k)) ==> 0 <= k <= run.len(),
    ;

    /// Try to assemble the bundle from the values the view spans.  On
    /// success exactly the accepted leading values leave the buffer and
    /// the view shrinks by that many positions; on failure the buffer and
    /// the view are left exactly as found.
    fn from_any(buf: &mut Vec<DynValue>, view: &mut InputStack) -> (r: Result<Self, ()>)
        requires
            old(view).wf_for(old(buf)@),
        ensures
            ({
                let run = old(view).contents(old(buf)@);
                match Self::accept_spec(run) {
                    Option::None => {
                        &&& r is Err
                        &&& final(buf)@ == old(buf)@
                        &&& *final(view) == *old(view)
                    },
                    Option::Some((x, k)) => {
                        &&& r == Result::<Self, ()>::Ok(x)
                        &&& final(buf)@ == old(buf)@.subrange(0, old(view).spec_lo())
                            + old(buf)@.subrange(
                            old(view).spec_lo() + k,
                            old(buf)@.len() as int,
                        )
                        &&& final(view).spec_lo() == old(view).spec_lo()
                        &&& final(view).spec_hi() == old(view).spec_hi() - k
                    },
                }
            }),
    ;

    /// The full catalogue of legal shapes, annotated with the declared
    /// parameter names.
    fn possible_inputs(names: &Vec<&'static str>) -> (r: PossibleInputs)
        requires
            names@.len() >= Self::arity_spec(),
        ensures
            r.models() == Self::groups_spec(str_views(names@)),
    ;
}

impl FromAnyProto for One<u32> {
    open spec fn accept_spec(run: Seq<DynValue>) -> Option<(Self, int)> {
        if run.len() == 1 {
            match run[0] {
                DynValue::OneU(o) => Some((o, 1int)),
                _ => None,
            }
        } else {
            None
        }
    }

    open spec fn arity_spec() -> int {
        1
    }

    open spec fn groups_spec(names: Seq<Seq<char>>) -> Seq<Seq<InfoModel>> {
        product_groups(names, seq!["u32"@], seq![false], seq![seq![TypeKey::OneUnsigned]])
    }

    proof fn lemma_accept_bounds(run: Seq<DynValue>) {
    }

    fn from_any(buf: &mut Vec<DynValue>, view: &mut InputStack) -> (r: Result<Self, ()>) {
        let ghost run = old(view).contents(old(buf)@);
        if view.len() != 1 {
            return Err(());
        }
        let matched = matches!(&buf[view.lo], DynValue::OneU(_));
        if !matched {
            return Err(());
        }
        let me = *view;
        let mut vals = me.consume(buf);
        view.note_consumed(1);
        proof {
            assert(vals@ == run);
        }
        match vals.remove(0) {
            DynValue::OneU(o) => Ok(o),
            _ => {
                proof {
                    assert(false);
                }
                Err(())
            },
        }
    }

    fn possible_inputs(names: &Vec<&'static str>) -> (r: PossibleInputs) {
        let mut tys: Vec<&'static str> = Vec::new();
        tys.push("u32");
        let mut keys: Vec<Vec<TypeKey>> = Vec::new();
        keys.push(One::<u32>::type_ids());
        let mut opts: Vec<bool> = Vec::new();
        opts.push(false);
        let r = build_possible(names, &tys, &keys, &opts);
        proof {
            assert(str_views(tys@) =~= seq!["u32"@]);
            assert(opts@ =~= seq![false]);
            assert(key_views(keys@) =~~= seq![seq![TypeKey::OneUnsigned]]);
        }
        r
    }
}

impl FromAnyProto for Many<u32> {
    open spec fn accept_spec(run: Seq<DynValue>) -> Option<(Self, int)> {
        if run.len() == 1 {
            match run[0] {
                DynValue::ManyU(m) => Some((m, 1int)),
                _ => None,
            }
        } else {
            None
        }
    }

    open spec fn arity_spec() -> int {
        1
    }

    open spec fn groups_spec(names: Seq<Seq<char>>) -> Seq<Seq<InfoModel>> {
        product_groups(names, seq!["u32"@], seq![false], seq![seq![TypeKey::ManyUnsigned]])
    }

    proof fn lemma_accept_bounds(run: Seq<DynValue>) {
    }

    fn from_any(buf: &mut Vec<DynValue>, view: &mut InputStack) -> (r: Result<Self, ()>) {
        let ghost run = old(view).contents(old(buf)@);
        if view.len() != 1 {
            return Err(());
        }
        let matched = matches!(&buf[view.lo], DynValue::ManyU(_));
        if !matched {
            return Err(());
        }
        let me = *view;
        let mut vals = me.consume(buf);
        view.note_consumed(1);
        proof {
            assert(vals@ == run);
        }
        match vals.remove(0) {
            DynValue::ManyU(m) => Ok(m),
            _ => {
                proof {
                    assert(false);
                }
                Err(())
            },
        }
    }

    fn possible_inputs(names: &Vec<&'static str>) -> (r: PossibleInputs) {
        let mut tys: Vec<&'static str> = Vec::new();
        tys.push("u32");
        let mut keys: Vec<Vec<TypeKey>> = Vec::new();
        keys.push(Many::<u32>::type_ids());
        let mut opts: Vec<bool> = Vec::new();
        opts.push(false);
        let r = build_possible(names, &tys, &keys, &opts);
        proof {
            assert(str_views(tys@) =~= seq!["u32"@]);
            assert(opts@ =~= seq![false]);
            assert(key_views(keys@) =~~= seq![seq![TypeKey::ManyUnsigned]]);
        }
        r
    }
}

impl FromAnyProto for OneOrMany<u32> {
    /// A scalar-or-stream parameter consumes exactly one leading value,
    /// erased either as the scalar or as the stream; the erased union
    /// wrapper itself is not accepted here.
    open spec fn accept_spec(run: Seq<DynValue>) -> Option<(Self, int)> {
        if run.len() >= 1 {
            match run[0] {
                DynValue::ManyU(m) => Some((OneOrMany::Many(m), 1int)),
                DynValue::OneU(o) => Some((OneOrMany::One(o), 1int)),
                _ => None,
            }
        } else {
            None
        }
    }

    open spec fn arity_spec() -> int {
        1
    }

    open spec fn groups_spec(names: Seq<Seq<char>>) -> Seq<Seq<InfoModel>> {
        product_groups(
            names,
            seq!["u32"@],
            seq![false],
            seq![
                seq![
                    TypeKey::OneUnsigned,
                    TypeKey::ManyUnsigned,
                    TypeKey::EitherUnsigned,
                ],
            ],
        )
    }

    proof fn lemma_accept_bounds(run: Seq<DynValue>) {
    }

    fn from_any(buf: &mut Vec<DynValue>, view: &mut InputStack) -> (r: Result<Self, ()>) {
        let ghost run = old(view).contents(old(buf)@);
        if view.len() == 0 {
            return Err(());
        }
        let matched = matches!(&buf[view.lo], DynValue::ManyU(_) | DynValue::OneU(_));
        if !matched {
            return Err(());
        }
        let child = view.sub(0, 1);
        let mut vals = child.consume(buf);
        view.note_consumed(1);
        proof {
            assert(vals@ =~= run.subrange(0, 1));
        }
        match vals.remove(0) {
            DynValue::ManyU(m) => Ok(OneOrMany::Many(m)),
            DynValue::OneU(o) => Ok(OneOrMany::One(o)),
            _ => {
                proof {
                    assert(false);
                }
                Err(())
            },
        }
    }

    fn possible_inputs(names: &Vec<&'static str>) -> (r: PossibleInputs) {
        let mut tys: Vec<&'static str> = Vec::new();
        tys.push("u32");
        let mut inner: Vec<TypeKey> = Vec::new();
        inner.push(TypeKey::OneUnsigned);
        inner.push(TypeKey::ManyUnsigned);
        inner.push(TypeKey::EitherUnsigned);
        let mut keys: Vec<Vec<TypeKey>> = Vec::new();
        keys.push(inner);
        let mut opts: Vec<bool> = Vec::new();
        opts.push(false);
        let r = build_possible(names, &tys, &keys, &opts);
        proof {
            assert(str_views(tys@) =~= seq!["u32"@]);
            assert(opts@ =~= seq![false]);
            assert(key_views(keys@) =~~= seq![
                seq![
                    TypeKey::OneUnsigned,
                    TypeKey::ManyUnsigned,
                    TypeKey::EitherUnsigned,
                ],
            ]);
        }
        r
    }
}

impl FromAnyProto for OneOrMany<i64> {
    /// See the unsigned instance: one leading value, scalar or stream.
    open spec fn accept_spec(run: Seq<DynValue>) -> Option<(Self, int)> {
        if run.len() >= 1 {
            match run[0] {
                DynValue::ManyS(m) => Some((OneOrMany::Many(m), 1int)),
                DynValue::OneS(o) => Some((OneOrMany::One(o), 1int)),
                _ => None,
            }
        } else {
            None
        }
    }

    open spec fn arity_spec() -> int {
        1
    }

    open spec fn groups_spec(names: Seq<Seq<char>>) -> Seq<Seq<InfoModel>> {
        product_groups(
            names,
            seq!["i64"@],
            seq![false],
            seq![
                seq![TypeKey::OneSigned, TypeKey::ManySigned, TypeKey::EitherSigned],
            ],
        )
    }

    proof fn lemma_accept_bounds(run: Seq<DynValue>) {
    }

    fn from_any(buf: &mut Vec<DynValue>, view: &mut InputStack) -> (r: Result<Self, ()>) {
        let ghost run = old(view).contents(old(buf)@);
        if view.len() == 0 {
            return Err(());
        }
        let matched = matches!(&buf[view.lo], DynValue::ManyS(_) | DynValue::OneS(_));
        if !matched {
            return Err(());
        }
        let child = view.sub(0, 1);
        let mut vals = child.consume(buf);
        view.note_consumed(1);
        proof {
            assert(vals@ =~= run.subrange(0, 1));
        }
        match vals.remove(0) {
            DynValue::ManyS(m) => Ok(OneOrMany::Many(m)),
            DynValue::OneS(o) => Ok(OneOrMany::One(o)),
            _ => {
                proof {
                    assert(false);
                }
                Err(())
            },
        }
    }

    fn possible_inputs(names: &Vec<&'static str>) -> (r: PossibleInputs) {
        let mut tys: Vec<&'static str> = Vec::new();
        tys.push("i64");
        let mut inner: Vec<TypeKey> = Vec::new();
        inner.push(TypeKey::OneSigned);
        inner.push(TypeKey::ManySigned);
        inner.push(TypeKey::EitherSigned);
        let mut keys: Vec<Vec<TypeKey>> = Vec::new();
        keys.push(inner);
        let mut opts: Vec<bool> = Vec::new();
        opts.push(false);
        let r = build_possible(names, &tys, &keys, &opts);
        proof {
            assert(str_views(tys@) =~= seq!["i64"@]);
            assert(opts@ =~= seq![false]);
            assert(key_views(keys@) =~~= seq![
                seq![TypeKey::OneSigned, TypeKey::ManySigned, TypeKey::EitherSigned],
            ]);
        }
        r
    }
}

/// The value an optional slot receives: the slot's value when one is
/// present and recoverable, absent otherwise.
pub open spec fn opt_slot(run: Seq<DynValue>, i: int) -> Option<OneOrMany<u32>> {
    if 0 <= i < run.len() {
        match <Option<OneOrMany<u32>> as InputComponent>::downcast_spec(run[i]) {
            Ok(o) => o,
            Err(_) => None,
        }
    } else {
        None
    }
}

impl FromAnyProto for PairParams {
    /// Both positions are required; extra trailing values are consumed
    /// with the run and dropped.
    open spec fn accept_spec(run: Seq<DynValue>) -> Option<(Self, int)> {
        if run.len() >= 2 {
            match (
                <OneOrMany<u32> as InputComponent>::downcast_spec(run[0]),
                <One<u32> as InputComponent>::downcast_spec(run[1]),
            ) {
                (Ok(l), Ok(rr)) => Some((PairParams { lhs: l, rhs: rr }, run.len() as int)),
                _ => None,
            }
        } else {
            None
        }
    }

    open spec fn arity_spec() -> int {
        2
    }

    open spec fn groups_spec(names: Seq<Seq<char>>) -> Seq<Seq<InfoModel>> {
        product_groups(
            names,
            seq!["OneOrMany<u32>"@, "One<u32>"@],
            seq![false, false],
            seq![
                seq![
                    TypeKey::ManyUnsigned,
                    TypeKey::OneUnsigned,
                    TypeKey::EitherUnsigned,
                ],
                seq![TypeKey::OneUnsigned],
            ],
        )
    }

    proof fn lemma_accept_bounds(run: Seq<DynValue>) {
    }

    fn from_any(buf: &mut Vec<DynValue>, view: &mut InputStack) -> (r: Result<Self, ()>) {
        let ghost run = old(view).contents(old(buf)@);
        let n = view.len();
        if n < 2 {
            return Err(());
        }
        let ok0 = <OneOrMany<u32> as InputComponent>::is(&buf[view.lo]);
        let ok1 = <One<u32> as InputComponent>::is(&buf[view.lo + 1]);
        if !ok0 || !ok1 {
            proof {
                <OneOrMany<u32> as InputComponent>::lemma_downcast_total(run[0]);
                <One<u32> as InputComponent>::lemma_downcast_total(run[1]);
            }
            return Err(());
        }
        let me = *view;
        let mut vals = me.consume(buf);
        view.note_consumed(n);
        proof {
            assert(vals@ == run);
        }
        let v0 = vals.remove(0);
        let v1 = vals.remove(0);
        proof {
            assert(v0 == run[0]);
            assert(v1 == run[1]);
        }
        let lhs = match <OneOrMany<u32> as InputComponent>::downcast(v0) {
            Ok(l) => l,
            Err(_) => {
                proof {
                    assert(false);
                }
                return Err(());
            },
        };
        let rhs = match <One<u32> as InputComponent>::downcast(v1) {
            Ok(rr) => rr,
            Err(_) => {
                proof {
                    assert(false);
                }
                return Err(());
            },
        };
        Ok(PairParams { lhs, rhs })
    }

    fn possible_inputs(names: &Vec<&'static str>) -> (r: PossibleInputs) {
        let mut tys: Vec<&'static str> = Vec::new();
        tys.push("OneOrMany<u32>");
        tys.push("One<u32>");
        let mut keys: Vec<Vec<TypeKey>> = Vec::new();
        keys.push(<OneOrMany<u32> as InputComponent>::type_ids());
        keys.push(<One<u32> as InputComponent>::type_ids());
        let mut opts: Vec<bool> = Vec::new();
        opts.push(false);
        opts.push(false);
        let r = build_possible(names, &tys, &keys, &opts);
        proof {
            assert(str_views(tys@) =~= seq!["OneOrMany<u32>"@, "One<u32>"@]);
            assert(opts@ =~= seq![false, false]);
            assert(key_views(keys@) =~~= seq![
                seq![
                    TypeKey::ManyUnsigned,
                    TypeKey::OneUnsigned,
                    TypeKey::EitherUnsigned,
                ],
                seq![TypeKey::OneUnsigned],
            ]);
        }
        r
    }
}

impl FromAnyProto for RatioParams {
    /// Both positions are required; extra trailing values are consumed
    /// with the run and dropped.
    open spec fn accept_spec(run: Seq<DynValue>) -> Option<(Self, int)> {
        if run.len() >= 2 {
            match (
                <OneOrMany<i64> as InputComponent>::downcast_spec(run[0]),
                <OneOrMany<u32> as InputComponent>::downcast_spec(run[1]),
            ) {
                (Ok(nu), Ok(de)) => Some(
                    (RatioParams { numerator: nu, denominator: de }, run.len() as int),
                ),
                _ => None,
            }
        } else {
            None
        }
    }

    open spec fn arity_spec() -> int {
        2
    }

    open spec fn groups_spec(names: Seq<Seq<char>>) -> Seq<Seq<InfoModel>> {
        product_groups(
            names,
            seq!["OneOrMany<i64>"@, "OneOrMany<u32>"@],
            seq![false, false],
            seq![
                seq![TypeKey::ManySigned, TypeKey::OneSigned, TypeKey::EitherSigned],
                seq![
                    TypeKey::ManyUnsigned,
                    TypeKey::OneUnsigned,
                    TypeKey::EitherUnsigned,
                ],
            ],
        )
    }

    proof fn lemma_accept_bounds(run: Seq<DynValue>) {
    }

    fn from_any(buf: &mut Vec<DynValue>, view: &mut InputStack) -> (r: Result<Self, ()>) {
        let ghost run = old(view).contents(old(buf)@);
        let n = view.len();
        if n < 2 {
            return Err(());
        }
        let ok0 = <OneOrMany<i64> as InputComponent>::is(&buf[view.lo]);
        let ok1 = <OneOrMany<u32> as InputComponent>::is(&buf[view.lo + 1]);
        if !ok0 || !ok1 {
            proof {
                <OneOrMany<i64> as InputComponent>::lemma_downcast_total(run[0]);
                <OneOrMany<u32> as InputComponent>::lemma_downcast_total(run[1]);
            }
            return Err(());
        }
        let me = *view;
        let mut vals = me.consume(buf);
        view.note_consumed(n);
        proof {
            assert(vals@ == run);
        }
        let v0 = vals.remove(0);
        let v1 = vals.remove(0);
        proof {
            assert(v0 == run[0]);
            assert(v1 == run[1]);
        }
        let numerator = match <OneOrMany<i64> as InputComponent>::downcast(v0) {
            Ok(nu) => nu,
            Err(_) => {
                proof {
                    assert(false);
                }
                return Err(());
            },
        };
        let denominator = match <OneOrMany<u32> as InputComponent>::downcast(v1) {
            Ok(de) => de,
            Err(_) => {
                proof {
                    assert(false);
                }
                return Err(());
            },
        };
        Ok(RatioParams { numerator, denominator })
    }

    fn possible_inputs(names: &Vec<&'static str>) -> (r: PossibleInputs) {
        let mut tys: Vec<&'static str> = Vec::new();
        tys.push("OneOrMany<i64>");
        tys.push("OneOrMany<u32>");
        let mut keys: Vec<Vec<TypeKey>> = Vec::new();
        keys.push(<OneOrMany<i64> as InputComponent>::type_ids());
        keys.push(<OneOrMany<u32> as InputComponent>::type_ids());
        let mut opts: Vec<bool> = Vec::new();
        opts.push(false);
        opts.push(false);
        let r = build_possible(names, &tys, &keys, &opts);
        proof {
            assert(str_views(tys@) =~= seq!["OneOrMany<i64>"@, "OneOrMany<u32>"@]);
            assert(opts@ =~= seq![false, false]);
            assert(key_views(keys@) =~~= seq![
                seq![TypeKey::ManySigned, TypeKey::OneSigned, TypeKey::EitherSigned],
                seq![
                    TypeKey::ManyUnsigned,
                    TypeKey::OneUnsigned,
                    TypeKey::EitherUnsigned,
                ],
            ]);
        }
        r
    }
}

impl FromAnyProto for OptionalParams {
    /// Only the first position is required: a run shorter than one value
    /// is rejected, optional positions are skipped rather than
    /// type-checked, and an optional slot is filled only when a matching
    /// value is present at its position.
    open spec fn accept_spec(run: Seq<DynValue>) -> Option<(Self, int)> {
        if run.len() >= 1 {
            match <OneOrMany<u32> as InputComponent>::downcast_spec(run[0]) {
                Ok(req) => Some(
                    (
                        OptionalParams {
                            required: req,
                            optional: opt_slot(run, 1),
                            optional2: opt_slot(run, 2),
                        },
                        run.len() as int,
                    ),
                ),
                Err(_) => None,
            }
        } else {
            None
        }
    }

    open spec fn arity_spec() -> int {
        3
    }

    open spec fn groups_spec(names: Seq<Seq<char>>) -> Seq<Seq<InfoModel>> {
        product_groups(
            names,
            seq![
                "OneOrMany<u32>"@,
                "Option<OneOrMany<u32>>"@,
                "Option<OneOrMany<u32>>"@,
            ],
            seq![false, true, true],
            seq![
                seq![
                    TypeKey::ManyUnsigned,
                    TypeKey::OneUnsigned,
                    TypeKey::EitherUnsigned,
                ],
                seq![
                    TypeKey::ManyUnsigned,
                    TypeKey::OneUnsigned,
                    TypeKey::EitherUnsigned,
                ],
                seq![
                    TypeKey::ManyUnsigned,
                    TypeKey::OneUnsigned,
                    TypeKey::EitherUnsigned,
                ],
            ],
        )
    }

    proof fn lemma_accept_bounds(run: Seq<DynValue>) {
    }

    fn from_any(buf: &mut Vec<DynValue>, view: &mut InputStack) -> (r: Result<Self, ()>) {
        let ghost run = old(view).contents(old(buf)@);
        let n = view.len();
        if n < 1 {
            return Err(());
        }
        let ok0 = <OneOrMany<u32> as InputComponent>::is(&buf[view.lo]);
        if !ok0 {
            proof {
                <OneOrMany<u32> as InputComponent>::lemma_downcast_total(run[0]);
            }
            return Err(());
        }
        let me = *view;
        let mut vals = me.consume(buf);
        view.note_consumed(n);
        proof {
            assert(vals@ == run);
        }
        let v0 = vals.remove(0);
        proof {
            assert(v0 == run[0]);
            assert(vals@ =~= run.subrange(1, n as int));
        }
        let required = match <OneOrMany<u32> as InputComponent>::downcast(v0) {
            Ok(req) => req,
            Err(_) => {
                proof {
                    assert(false);
                }
                return Err(());
            },
        };
        let optional = if vals.len() > 0 {
            let v = vals.remove(0);
            proof {
                assert(v == run[1]);
                assert(vals@ =~= run.subrange(2, n as int));
            }
            match <Option<OneOrMany<u32>> as InputComponent>::downcast(v) {
                Ok(o) => o,
                Err(_) => None,
            }
        } else {
            None
        };
        let optional2 = if vals.len() > 0 {
            let v = vals.remove(0);
            proof {
                assert(v == run[2]);
            }
            match <Option<OneOrMany<u32>> as InputComponent>::downcast(v) {
                Ok(o) => o,
                Err(_) => None,
            }
        } else {
            None
        };
        Ok(OptionalParams { required, optional, optional2 })
    }

    fn possible_inputs(names: &Vec<&'static str>) -> (r: PossibleInputs) {
        let mut tys: Vec<&'static str> = Vec::new();
        tys.push("OneOrMany<u32>");
        tys.push("Option<OneOrMany<u32>>");
        tys.push("Option<OneOrMany<u32>>");
        let mut keys: Vec<Vec<TypeKey>> = Vec::new();
        keys.push(<OneOrMany<u32> as InputComponent>::type_ids());
        keys.push(<Option<OneOrMany<u32>> as InputComponent>::type_ids());
        keys.push(<Option<OneOrMany<u32>> as InputComponent>::type_ids());
        let mut opts: Vec<bool> = Vec::new();
        opts.push(false);
        opts.push(true);
        opts.push(true);
        let r = build_possible(names, &tys, &keys, &opts);
        proof {
            assert(str_views(tys@) =~= seq![
                "OneOrMany<u32>"@,
                "Option<OneOrMany<u32>>"@,
                "Option<OneOrMany<u32>>"@,
            ]);
            assert(opts@ =~= seq![false, true, true]);
            assert(key_views(keys@) =~~= seq![
                seq![
                    TypeKey::ManyUnsigned,
                    TypeKey::OneUnsigned,
                    TypeKey::EitherUnsigned,
                ],
                seq![
                    TypeKey::ManyUnsigned,
                    TypeKey::OneUnsigned,
                    TypeKey::EitherUnsigned,
                ],
                seq![
                    TypeKey::ManyUnsigned,
                    TypeKey::OneUnsigned,
                    TypeKey::EitherUnsigned,
                ],
            ]);
        }
        r
    }
}

impl FromAnyProto for WideOrNarrow {
    /// Each arm is tried over an independent sub-view in declared order;
    /// the first arm that accepts wins, and every arm that does not is
    /// rolled back without touching the buffer.
    open spec fn accept_spec(run: Seq<DynValue>) -> Option<(Self, int)> {
        match PairParams::accept_spec(run) {
            Some((p, k)) => Some((WideOrNarrow::Pair(p), k)),
            None => match <OneOrMany<u32> as FromAnyProto>::accept_spec(run) {
                Some((v, k)) => Some((WideOrNarrow::Single(v), k)),
                None => None,
            },
        }
    }

    open spec fn arity_spec() -> int {
        2
    }

    open spec fn groups_spec(names: Seq<Seq<char>>) -> Seq<Seq<InfoModel>> {
        PairParams::groups_spec(names) + <OneOrMany<u32> as FromAnyProto>::groups_spec(names)
    }

    proof fn lemma_accept_bounds(run: Seq<DynValue>) {
        PairParams::lemma_accept_bounds(run);
        <OneOrMany<u32> as FromAnyProto>::lemma_accept_bounds(run);
    }

    fn from_any(buf: &mut Vec<DynValue>, view: &mut InputStack) -> (r: Result<Self, ()>) {
        let ghost run = old(view).contents(old(buf)@);
        let n = view.len();
        proof {
            PairParams::lemma_accept_bounds(run);
            <OneOrMany<u32> as FromAnyProto>::lemma_accept_bounds(run);
        }
        let mut child = view.sub(0, n);
        match PairParams::from_any(buf, &mut child) {
            Ok(p) => {
                let consumed = n - child.len();
                view.note_consumed(consumed);
                return Ok(WideOrNarrow::Pair(p));
            },
            Err(()) => {},
        }
        let mut child2 = view.sub(0, n);
        match <OneOrMany<u32> as FromAnyProto>::from_any(buf, &mut child2) {
            Ok(v) => {
                let consumed = n - child2.len();
                view.note_consumed(consumed);
                return Ok(WideOrNarrow::Single(v));
            },
            Err(()) => {},
        }
        Err(())
    }

    fn possible_inputs(names: &Vec<&'static str>) -> (r: PossibleInputs) {
        let wide = PairParams::possible_inputs(names);
        let narrow = <OneOrMany<u32> as FromAnyProto>::possible_inputs(names);
        let mut groups = wide.groups;
        let mut tail = narrow.groups;
        groups.append(&mut tail);
        let r = PossibleInputs::new(groups);
        proof {
            assert(r.models() =~= PairParams::groups_spec(str_views(names@))
                + <OneOrMany<u32> as FromAnyProto>::groups_spec(str_views(names@)));
        }
        r
    }
}

} // verus!
