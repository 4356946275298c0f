//! The built-in node catalogue: constants, the explicit frame tick,
//! arithmetic, ranges and repetition, together with the closed dispatch
//! enum the graph arena stores.

use vstd::prelude::*;

use crate::assemble::{build_possible, product_groups, FromAnyProto};
use crate::component::InputComponent;
use crate::erase::{DynValue, TypeKey};
use crate::node::{Node, NodeInput, NodeOutput};
use crate::reflect::{key_views, str_views, InfoModel, PossibleInputs};
use crate::stack::InputStack;
use crate::values::{count2, elem_at, items_of, op2_tuple, Many, One, OneOrMany};
use vstd::wrapping::{i64_specs, u32_specs};

verus! {

/// The element-wise arithmetic operations a binary node applies.
#[derive(Debug, Clone, Copy, PartialEq, Eq, Structural)]
pub enum ArithOp {
    Add,
    Mul,
    Div,
    Rem,
}

/// The operation on the unsigned element kind: addition and
/// multiplication wrap, division and remainder yield zero on a zero
/// divisor.
pub open spec fn apply_u(op: ArithOp, x: u32, y: u32) -> u32 {
    match op {
        ArithOp::Add => u32_specs::wrapping_add(x, y),
        ArithOp::Mul => u32_specs::wrapping_mul(x, y),
        ArithOp::Div => if y == 0 {
            0
        } else {
            (x / y) as u32
        },
        ArithOp::Rem => if y == 0 {
            0
        } else {
            (x % y) as u32
        },
    }
}

/// The operation on the signed element kind: addition and multiplication
/// wrap, division and remainder yield zero when undefined or overflowing.
pub open spec fn apply_s(op: ArithOp, x: i64, y: i64) -> i64 {
    match op {
        ArithOp::Add => i64_specs::wrapping_add(x, y),
        ArithOp::Mul => i64_specs::wrapping_mul(x, y),
        ArithOp::Div => match x.checked_div(y) {
            Some(v) => v,
            None => 0,
        },
        ArithOp::Rem => match x.checked_rem(y) {
            Some(v) => v,
            None => 0,
        },
    }
}

/// An unsigned broadcast result: a scalar when both arguments are
/// scalars, otherwise the position-wise stream.
pub open spec fn bcast_uu(
    a: OneOrMany<u32>,
    b: OneOrMany<u32>,
    op: ArithOp,
    r: DynValue,
) -> bool {
    if a is One && b is One {
        r == DynValue::OneU(One(apply_u(op, elem_at(a, 0), elem_at(b, 0))))
    } else {
        r matches DynValue::ManyU(m) && m.0@.len() == count2(a, b) && (forall|i: int|
            0 <= i < count2(a, b) ==> m.0@[i] == apply_u(op, elem_at(a, i), elem_at(b, i)))
    }
}

/// A signed broadcast result; unsigned arguments are widened first.
pub open spec fn bcast_ss(
    a: OneOrMany<i64>,
    b: OneOrMany<i64>,
    op: ArithOp,
    r: DynValue,
) -> bool {
    if a is One && b is One {
        r == DynValue::OneS(One(apply_s(op, elem_at(a, 0), elem_at(b, 0))))
    } else {
        r matches DynValue::ManyS(m) && m.0@.len() == count2(a, b) && (forall|i: int|
            0 <= i < count2(a, b) ==> m.0@[i] == apply_s(op, elem_at(a, i), elem_at(b, i)))
    }
}

pub open spec fn bcast_su(
    a: OneOrMany<i64>,
    b: OneOrMany<u32>,
    op: ArithOp,
    r: DynValue,
) -> bool {
    if a is One && b is One {
        r == DynValue::OneS(One(apply_s(op, elem_at(a, 0), elem_at(b, 0) as i64)))
    } else {
        r matches DynValue::ManyS(m) && m.0@.len() == count2(a, b) && (forall|i: int|
            0 <= i < count2(a, b) ==> m.0@[i] == apply_s(op, elem_at(a, i), elem_at(b, i) as i64))
    }
}

pub open spec fn bcast_us(
    a: OneOrMany<u32>,
    b: OneOrMany<i64>,
    op: ArithOp,
    r: DynValue,
) -> bool {
    if a is One && b is One {
        r == DynValue::OneS(One(apply_s(op, elem_at(a, 0) as i64, elem_at(b, 0))))
    } else {
        r matches DynValue::ManyS(m) && m.0@.len() == count2(a, b) && (forall|i: int|
            0 <= i < count2(a, b) ==> m.0@[i] == apply_s(op, elem_at(a, i) as i64, elem_at(b, i)))
    }
}

/// Widen every unsigned element to the signed kind, keeping the shape.
fn lift_unsigned(v: OneOrMany<u32>) -> (r: OneOrMany<i64>)
    ensures
        v is One <==> r is One,
        v is One ==> elem_at(r, 0) == elem_at(v, 0) as i64,
        v is Many ==> items_of(r).len() == items_of(v).len(),
        v is Many ==> forall|i: int|
            0 <= i < items_of(v).len() ==> #[trigger] items_of(r)[i] == items_of(v)[i] as i64,
{
    let widen = |x: u32| -> (o: i64)
        ensures
            o == x as i64,
        { x as i64 };
    crate::values::op1(v, widen)
}

/// Apply one unsigned element-wise operation.
fn exec_apply_u(op: ArithOp, x: u32, y: u32) -> (r: u32)
    ensures
        r == apply_u(op, x, y),
{
    match op {
        ArithOp::Add => x.wrapping_add(y),
        ArithOp::Mul => x.wrapping_mul(y),
        ArithOp::Div => if y == 0 {
            0
        } else {
            x / y
        },
        ArithOp::Rem => if y == 0 {
            0
        } else {
            x % y
        },
    }
}

/// Apply one signed element-wise operation.
fn exec_apply_s(op: ArithOp, x: i64, y: i64) -> (r: i64)
    ensures
        r == apply_s(op, x, y),
{
    match op {
        ArithOp::Add => x.wrapping_add(y),
        ArithOp::Mul => x.wrapping_mul(y),
        ArithOp::Div => match x.checked_div(y) {
            Some(v) => v,
            None => 0,
        },
        ArithOp::Rem => match x.checked_rem(y) {
            Some(v) => v,
            None => 0,
        },
    }
}

/// Broadcast one operation over an unsigned pair.
fn run_uu(a: OneOrMany<u32>, b: OneOrMany<u32>, op: ArithOp) -> (r: DynValue)
    ensures
        bcast_uu(a, b, op, r),
{
    let f = move |x: u32, y: u32| -> (o: u32)
        ensures
            o == apply_u(op, x, y),
        { exec_apply_u(op, x, y) };
    op2_tuple((a, b), f).into_boxed_inner()
}

/// Broadcast one operation over a signed pair.
fn run_ss(a: OneOrMany<i64>, b: OneOrMany<i64>, op: ArithOp) -> (r: DynValue)
    ensures
        bcast_ss(a, b, op, r),
{
    let f = move |x: i64, y: i64| -> (o: i64)
        ensures
            o == apply_s(op, x, y),
        { exec_apply_s(op, x, y) };
    op2_tuple((a, b), f).into_boxed_inner()
}

/// The shapes of a signed/unsigned operand pair, per arm.
pub open spec fn arith_rel(
    v: ArithmeticNodeInput,
    op: ArithOp,
    r: DynValue,
) -> bool {
    match v {
        ArithmeticNodeInput::SS(a, b) => bcast_ss(a, b, op, r),
        ArithmeticNodeInput::SU(a, b) => bcast_su(a, b, op, r),
        ArithmeticNodeInput::US(a, b) => bcast_us(a, b, op, r),
        ArithmeticNodeInput::UU(a, b) => bcast_uu(a, b, op, r),
    }
}

/// A binary operand pair: each operand scalar or stream, each element
/// kind signed or unsigned, every combination a separate arm.
#[derive(Debug, Clone)]
pub enum ArithmeticNodeInput {
    SS(OneOrMany<i64>, OneOrMany<i64>),
    SU(OneOrMany<i64>, OneOrMany<u32>),
    US(OneOrMany<u32>, OneOrMany<i64>),
    UU(OneOrMany<u32>, OneOrMany<u32>),
}

impl ArithmeticNodeInput {
    /// Broadcast one operation over the pair, widening a mixed pair to
    /// the signed kind.
    pub fn apply(self, op: ArithOp) -> (r: DynValue)
        ensures
            arith_rel(self, op, r),
    {
        match self {
            ArithmeticNodeInput::SS(a, b) => run_ss(a, b, op),
            ArithmeticNodeInput::SU(a, b) => {
                let ghost ga = a;
                let ghost gb = b;
                let b2 = lift_unsigned(b);
                let r = run_ss(a, b2, op);
                proof {
                    assert(count2(ga, b2) == count2(ga, gb));
                }
                r
            },
            ArithmeticNodeInput::US(a, b) => {
                let ghost ga = a;
                let ghost gb = b;
                let a2 = lift_unsigned(a);
                let r = run_ss(a2, b, op);
                proof {
                    assert(count2(a2, gb) == count2(ga, gb));
                }
                r
            },
            ArithmeticNodeInput::UU(a, b) => run_uu(a, b, op),
        }
    }

    pub fn mul(self) -> (r: DynValue)
        ensures
            arith_rel(self, ArithOp::Mul, r),
    {
        self.apply(ArithOp::Mul)
    }

    pub fn div(self) -> (r: DynValue)
        ensures
            arith_rel(self, ArithOp::Div, r),
    {
        self.apply(ArithOp::Div)
    }
}

impl FromAnyProto for ArithmeticNodeInput {
    /// Exactly two values; the arms are tried in declared order, though
    /// at most one can match any given pair of runtime types.
    open spec fn accept_spec(run: Seq<DynValue>) -> Option<(Self, int)> {
        if run.len() == 2 {
            match (
                <OneOrMany<i64> as InputComponent>::downcast_spec(run[0]),
                <OneOrMany<i64> as InputComponent>::downcast_spec(run[1]),
                <OneOrMany<u32> as InputComponent>::downcast_spec(run[0]),
                <OneOrMany<u32> as InputComponent>::downcast_spec(run[1]),
            ) {
                (Ok(a), Ok(b), _, _) => Some((ArithmeticNodeInput::SS(a, b), 2int)),
                (Ok(a), _, _, Ok(b)) => Some((ArithmeticNodeInput::SU(a, b), 2int)),
                (_, Ok(b), Ok(a), _) => Some((ArithmeticNodeInput::US(a, b), 2int)),
                (_, _, Ok(a), Ok(b)) => Some((ArithmeticNodeInput::UU(a, b), 2int)),
                _ => None,
            }
        } else {
            None
        }
    }

    open spec fn arity_spec() -> int {
        2
    }

    open spec fn groups_spec(names: Seq<Seq<char>>) -> Seq<Seq<InfoModel>> {
        pair_groups_ss(names) + pair_groups_su(names) + pair_groups_us(names) + pair_groups_uu(
            names,
        )
    }

    proof fn lemma_accept_bounds(run: Seq<DynValue>) {
    }

    fn from_any(buf: &mut Vec<DynValue>, view: &mut InputStack) -> (r: Result<Self, ()>) {
        let ghost run = old(view).contents(old(buf)@);
        let n = view.len();
        if n != 2 {
            return Err(());
        }
        let s0 = <OneOrMany<i64> as InputComponent>::is(&buf[view.lo]);
        let s1 = <OneOrMany<i64> as InputComponent>::is(&buf[view.lo + 1]);
        let u0 = <OneOrMany<u32> as InputComponent>::is(&buf[view.lo]);
        let u1 = <OneOrMany<u32> as InputComponent>::is(&buf[view.lo + 1]);
        proof {
            <OneOrMany<i64> as InputComponent>::lemma_downcast_total(run[0]);
            <OneOrMany<i64> as InputComponent>::lemma_downcast_total(run[1]);
            <OneOrMany<u32> as InputComponent>::lemma_downcast_total(run[0]);
            <OneOrMany<u32> as InputComponent>::lemma_downcast_total(run[1]);
        }
        if !((s0 || u0) && (s1 || u1)) {
            return Err(());
        }
        let me = *view;
        let mut vals = me.consume(buf);
        view.note_consumed(2);
        proof {
            assert(vals@ == run);
        }
        let v0 = vals.remove(0);
        let v1 = vals.remove(0);
        proof {
            assert(v0 == run[0]);
            assert(v1 == run[1]);
        }
        if s0 {
            let a = match <OneOrMany<i64> as InputComponent>::downcast(v0) {
                Ok(a) => a,
                Err(_) => {
                    proof {
                        assert(false);
                    }
                    return Err(());
                },
            };
            if s1 {
                let b = match <OneOrMany<i64> as InputComponent>::downcast(v1) {
                    Ok(b) => b,
                    Err(_) => {
                        proof {
                            assert(false);
                        }
                        return Err(());
                    },
                };
                Ok(ArithmeticNodeInput::SS(a, b))
            } else {
                let b = match <OneOrMany<u32> as InputComponent>::downcast(v1) {
                    Ok(b) => b,
                    Err(_) => {
                        proof {
                            assert(false);
                        }
                        return Err(());
                    },
                };
                Ok(ArithmeticNodeInput::SU(a, b))
            }
        } else {
            let a = match <OneOrMany<u32> as InputComponent>::downcast(v0) {
                Ok(a) => a,
                Err(_) => {
                    proof {
                        assert(false);
                    }
                    return Err(());
                },
            };
            if s1 {
                let b = match <OneOrMany<i64> as InputComponent>::downcast(v1) {
                    Ok(b) => b,
                    Err(_) => {
                        proof {
                            assert(false);
                        }
                        return Err(());
                    },
                };
                Ok(ArithmeticNodeInput::US(a, b))
            } else {
                let b = match <OneOrMany<u32> as InputComponent>::downcast(v1) {
                    Ok(b) => b,
                    Err(_) => {
                        proof {
                            assert(false);
                        }
                        return Err(());
                    },
                };
                Ok(ArithmeticNodeInput::UU(a, b))
            }
        }
    }

    fn possible_inputs(names: &Vec<&'static str>) -> (r: PossibleInputs) {
        let p_ss = pair_possible_ss(names);
        let p_su = pair_possible_su(names);
        let p_us = pair_possible_us(names);
        let p_uu = pair_possible_uu(names);
        let mut groups = p_ss.groups;
        let mut t1 = p_su.groups;
        let mut t2 = p_us.groups;
        let mut t3 = p_uu.groups;
        groups.append(&mut t1);
        groups.append(&mut t2);
        groups.append(&mut t3);
        let r = PossibleInputs::new(groups);
        proof {
            assert(r.models() =~= Self::groups_spec(str_views(names@)));
        }
        r
    }
}

/// The nine fully concrete shapes of a signed/signed operand pair.
pub open spec fn pair_groups_ss(names: Seq<Seq<char>>) -> Seq<Seq<InfoModel>> {
    product_groups(
        names,
        seq!["OneOrMany<i64>"@, "OneOrMany<i64>"@],
        seq![false, false],
        seq![signed_keys(), signed_keys()],
    )
}

pub open spec fn pair_groups_su(names: Seq<Seq<char>>) -> Seq<Seq<InfoModel>> {
    product_groups(
        names,
        seq!["OneOrMany<i64>"@, "OneOrMany<u32>"@],
        seq![false, false],
        seq![signed_keys(), unsigned_keys()],
    )
}

pub open spec fn pair_groups_us(names: Seq<Seq<char>>) -> Seq<Seq<InfoModel>> {
    product_groups(
        names,
        seq!["OneOrMany<u32>"@, "OneOrMany<i64>"@],
        seq![false, false],
        seq![unsigned_keys(), signed_keys()],
    )
}

pub open spec fn pair_groups_uu(names: Seq<Seq<char>>) -> Seq<Seq<InfoModel>> {
    product_groups(
        names,
        seq!["OneOrMany<u32>"@, "OneOrMany<u32>"@],
        seq![false, false],
        seq![unsigned_keys(), unsigned_keys()],
    )
}

pub open spec fn signed_keys() -> Seq<TypeKey> {
    seq![TypeKey::ManySigned, TypeKey::OneSigned, TypeKey::EitherSigned]
}

pub open spec fn unsigned_keys() -> Seq<TypeKey> {
    seq![TypeKey::ManyUnsigned, TypeKey::OneUnsigned, TypeKey::EitherUnsigned]
}

fn pair_possible_ss(names: &Vec<&'static str>) -> (r: PossibleInputs)
    requires
        names@.len() >= 2,
    ensures
        r.models() == pair_groups_ss(str_views(names@)),
{
    let mut tys: Vec<&'static str> = Vec::new();
    tys.push("OneOrMany<i64>");
    tys.push("OneOrMany<i64>");
    let mut keys: Vec<Vec<TypeKey>> = Vec::new();
    keys.push(<OneOrMany<i64> as InputComponent>::type_ids());
    keys.push(<OneOrMany<i64> as InputComponent>::type_ids());
    let mut opts: Vec<bool> = Vec::new();
    opts.push(false);
    opts.push(false);
    let r = build_possible(names, &tys, &keys, &opts);
    proof {
        assert(str_views(tys@) =~= seq!["OneOrMany<i64>"@, "OneOrMany<i64>"@]);
        assert(opts@ =~= seq![false, false]);
        assert(key_views(keys@) =~~= seq![signed_keys(), signed_keys()]);
    }
    r
}

fn pair_possible_su(names: &Vec<&'static str>) -> (r: PossibleInputs)
    requires
        names@.len() >= 2,
    ensures
        r.models() == pair_groups_su(str_views(names@)),
{
    let mut tys: Vec<&'static str> = Vec::new();
    tys.push("OneOrMany<i64>");
    tys.push("OneOrMany<u32>");
    let mut keys: Vec<Vec<TypeKey>> = Vec::new();
    keys.push(<OneOrMany<i64> as InputComponent>::type_ids());
    keys.push(<OneOrMany<u32> as InputComponent>::type_ids());
    let mut opts: Vec<bool> = Vec::new();
    opts.push(false);
    opts.push(false);
    let r = build_possible(names, &tys, &keys, &opts);
    proof {
        assert(str_views(tys@) =~= seq!["OneOrMany<i64>"@, "OneOrMany<u32>"@]);
        assert(opts@ =~= seq![false, false]);
        assert(key_views(keys@) =~~= seq![signed_keys(), unsigned_keys()]);
    }
    r
}

fn pair_possible_us(names: &Vec<&'static str>) -> (r: PossibleInputs)
    requires
        names@.len() >= 2,
    ensures
        r.models() == pair_groups_us(str_views(names@)),
{
    let mut tys: Vec<&'static str> = Vec::new();
    tys.push("OneOrMany<u32>");
    tys.push("OneOrMany<i64>");
    let mut keys: Vec<Vec<TypeKey>> = Vec::new();
    keys.push(<OneOrMany<u32> as InputComponent>::type_ids());
    keys.push(<OneOrMany<i64> as InputComponent>::type_ids());
    let mut opts: Vec<bool> = Vec::new();
    opts.push(false);
    opts.push(false);
    let r = build_possible(names, &tys, &keys, &opts);
    proof {
        assert(str_views(tys@) =~= seq!["OneOrMany<u32>"@, "OneOrMany<i64>"@]);
        assert(opts@ =~= seq![false, false]);
        assert(key_views(keys@) =~~= seq![unsigned_keys(), signed_keys()]);
    }
    r
}

fn pair_possible_uu(names: &Vec<&'static str>) -> (r: PossibleInputs)
    requires
        names@.len() >= 2,
    ensures
        r.models() == pair_groups_uu(str_views(names@)),
{
    let mut tys: Vec<&'static str> = Vec::new();
    tys.push("OneOrMany<u32>");
    tys.push("OneOrMany<u32>");
    let mut keys: Vec<Vec<TypeKey>> = Vec::new();
    keys.push(<OneOrMany<u32> as InputComponent>::type_ids());
    keys.push(<OneOrMany<u32> as InputComponent>::type_ids());
    let mut opts: Vec<bool> = Vec::new();
    opts.push(false);
    opts.push(false);
    let r = build_possible(names, &tys, &keys, &opts);
    proof {
        assert(str_views(tys@) =~= seq!["OneOrMany<u32>"@, "OneOrMany<u32>"@]);
        assert(opts@ =~= seq![false, false]);
        assert(key_views(keys@) =~~= seq![unsigned_keys(), unsigned_keys()]);
    }
    r
}

/// The operand of a multiplication node: one pair, signed or unsigned.
#[derive(Debug, Clone)]
pub enum MultiplyNodeInput {
    S(OneOrMany<i64>, OneOrMany<i64>),
    U(OneOrMany<u32>, OneOrMany<u32>),
}

/// The result a multiplication node produces from its operand pair.
pub open spec fn multiply_rel(v: MultiplyNodeInput, r: DynValue) -> bool {
    match v {
        MultiplyNodeInput::S(a, b) => bcast_ss(a, b, ArithOp::Mul, r),
        MultiplyNodeInput::U(a, b) => bcast_uu(a, b, ArithOp::Mul, r),
    }
}

impl MultiplyNodeInput {
    pub fn op(self) -> (r: DynValue)
        ensures
            multiply_rel(self, r),
    {
        match self {
            MultiplyNodeInput::S(a, b) => run_ss(a, b, ArithOp::Mul),
            MultiplyNodeInput::U(a, b) => run_uu(a, b, ArithOp::Mul),
        }
    }
}

impl FromAnyProto for MultiplyNodeInput {
    /// Exactly two values; the signed pair is tried before the unsigned
    /// pair.
    open spec fn accept_spec(run: Seq<DynValue>) -> Option<(Self, int)> {
        if run.len() == 2 {
            match (
                <OneOrMany<i64> as InputComponent>::downcast_spec(run[0]),
                <OneOrMany<i64> as InputComponent>::downcast_spec(run[1]),
                <OneOrMany<u32> as InputComponent>::downcast_spec(run[0]),
                <OneOrMany<u32> as InputComponent>::downcast_spec(run[1]),
            ) {
                (Ok(a), Ok(b), _, _) => Some((MultiplyNodeInput::S(a, b), 2int)),
                (_, _, Ok(a), Ok(b)) => Some((MultiplyNodeInput::U(a, b), 2int)),
                _ => None,
            }
        } else {
            None
        }
    }

    open spec fn arity_spec() -> int {
        2
    }

    open spec fn groups_spec(names: Seq<Seq<char>>) -> Seq<Seq<InfoModel>> {
        pair_groups_ss(names) + pair_groups_uu(names)
    }

    proof fn lemma_accept_bounds(run: Seq<DynValue>) {
    }

    fn from_any(buf: &mut Vec<DynValue>, view: &mut InputStack) -> (r: Result<Self, ()>) {
        let ghost run = old(view).contents(old(buf)@);
        let n = view.len();
        if n != 2 {
            return Err(());
        }
        let s0 = <OneOrMany<i64> as InputComponent>::is(&buf[view.lo]);
        let s1 = <OneOrMany<i64> as InputComponent>::is(&buf[view.lo + 1]);
        let u0 = <OneOrMany<u32> as InputComponent>::is(&buf[view.lo]);
        let u1 = <OneOrMany<u32> as InputComponent>::is(&buf[view.lo + 1]);
        proof {
            <OneOrMany<i64> as InputComponent>::lemma_downcast_total(run[0]);
            <OneOrMany<i64> as InputComponent>::lemma_downcast_total(run[1]);
            <OneOrMany<u32> as InputComponent>::lemma_downcast_total(run[0]);
            <OneOrMany<u32> as InputComponent>::lemma_downcast_total(run[1]);
        }
        if !((s0 && s1) || (u0 && u1)) {
            return Err(());
        }
        let me = *view;
        let mut vals = me.consume(buf);
        view.note_consumed(2);
        proof {
            assert(vals@ == run);
        }
        let v0 = vals.remove(0);
        let v1 = vals.remove(0);
        proof {
            assert(v0 == run[0]);
            assert(v1 == run[1]);
        }
        if s0 && s1 {
            match (
                <OneOrMany<i64> as InputComponent>::downcast(v0),
                <OneOrMany<i64> as InputComponent>::downcast(v1),
            ) {
                (Ok(a), Ok(b)) => Ok(MultiplyNodeInput::S(a, b)),
                _ => {
                    proof {
                        assert(false);
                    }
                    Err(())
                },
            }
        } else {
            match (
                <OneOrMany<u32> as InputComponent>::downcast(v0),
                <OneOrMany<u32> as InputComponent>::downcast(v1),
            ) {
                (Ok(a), Ok(b)) => Ok(MultiplyNodeInput::U(a, b)),
                _ => {
                    proof {
                        assert(false);
                    }
                    Err(())
                },
            }
        }
    }

    fn possible_inputs(names: &Vec<&'static str>) -> (r: PossibleInputs) {
        let p_s = pair_possible_ss(names);
        let p_u = pair_possible_uu(names);
        let mut groups = p_s.groups;
        let mut tail = p_u.groups;
        groups.append(&mut tail);
        let r = PossibleInputs::new(groups);
        proof {
            assert(r.models() =~= Self::groups_spec(str_views(names@)));
        }
        r
    }
}

proof fn lemma_row_index_bound(x: int, y: int, jj: int, w: int)
    requires
        0 <= x < jj,
        0 <= y < w,
    ensures
        0 <= x * w + y < jj * w,
{
    assert(x * w + y < jj * w) by (nonlinear_arith)
        requires
            0 <= x < jj,
            0 <= y < w,
    ;
    assert(x * w + y >= 0) by (nonlinear_arith)
        requires
            x >= 0,
            y >= 0,
            w > 0,
    ;
}

/// The operand of a range node: a scalar-or-stream length.
#[derive(Debug, Clone)]
pub struct RangeNodeInput {
    pub length: OneOrMany<u32>,
}

/// The stream a range node produces: counting up to a scalar length; for
/// a stream length, the whole stream repeated once per element.
pub open spec fn range_rel(v: OneOrMany<u32>, r: DynValue) -> bool {
    match v {
        OneOrMany::One(l) => r matches DynValue::ManyU(m) && m.0@.len() == l.0 && (forall|i: int|
            0 <= i < l.0 ==> m.0@[i] == i as u32),
        OneOrMany::Many(s) => {
            let w = s.0@.len() as int;
            r matches DynValue::ManyU(m) && m.0@.len() == w * w && (forall|jj: int, kk: int|
                0 <= jj < w && 0 <= kk < w ==> #[trigger] m.0@[jj * w + kk] == s.0@[kk])
        },
    }
}

impl RangeNodeInput {
    pub fn op(self) -> (r: DynValue)
        ensures
            range_rel(self.length, r),
    {
        match self.length {
            OneOrMany::One(l) => {
                let n = l.0;
                let mut out: Vec<u32> = Vec::new();
                let mut i: u32 = 0;
                while i < n
                    invariant
                        i <= n,
                        out@.len() == i,
                        forall|x: int| 0 <= x < i ==> out@[x] == x as u32,
                    decreases n - i,
                {
                    out.push(i);
                    i += 1;
                }
                DynValue::ManyU(Many(out))
            },
            OneOrMany::Many(s) => {
                let w = s.0.len();
                let ghost gs = s.0@;
                let mut out: Vec<u32> = Vec::new();
                let mut jj: usize = 0;
                while jj < w
                    invariant
                        gs == s.0@,
                        w == gs.len(),
                        jj <= w,
                        out@.len() == jj * w,
                        forall|x: int, y: int|
                            0 <= x < jj && 0 <= y < w ==> #[trigger] out@[x * w + y] == gs[y],
                    decreases w - jj,
                {
                    let mut kk: usize = 0;
                    while kk < w
                        invariant
                            gs == s.0@,
                            w == gs.len(),
                            jj < w,
                            kk <= w,
                            out@.len() == jj * w + kk,
                            forall|x: int, y: int|
                                0 <= x < jj && 0 <= y < w ==> #[trigger] out@[x * w + y] == gs[y],
                            forall|y: int| 0 <= y < kk ==> #[trigger] out@[jj * w + y] == gs[y],
                        decreases w - kk,
                    {
                        let ghost prev = out@;
                        out.push(s.0[kk]);
                        proof {
                            assert forall|x: int, y: int|
                                0 <= x < jj && 0 <= y < w implies #[trigger] out@[x * w + y]
                                == gs[y] by {
                                lemma_row_index_bound(x, y, jj as int, w as int);
                                assert(prev[x * w + y] == gs[y]);
                            }
                            assert forall|y: int| 0 <= y < kk + 1 implies #[trigger] out@[jj * w
                                + y] == gs[y] by {
                                if y < kk {
                                    assert(prev[jj * w + y] == gs[y]);
                                }
                            }
                        }
                        kk += 1;
                    }
                    proof {
                        assert((jj + 1) * w == jj * w + w) by (nonlinear_arith);
                        assert forall|x: int, y: int|
                            0 <= x < jj + 1 && 0 <= y < w implies #[trigger] out@[x * w + y]
                            == gs[y] by {
                            if x < jj {
                                assert(out@[x * w + y] == gs[y]);
                            } else {
                                assert(x == jj);
                                assert(out@[jj * w + y] == gs[y]);
                            }
                        }
                    }
                    jj += 1;
                }
                DynValue::ManyU(Many(out))
            },
        }
    }
}

impl FromAnyProto for RangeNodeInput {
    /// One leading value in any of the three scalar-or-stream
    /// representations.
    open spec fn accept_spec(run: Seq<DynValue>) -> Option<(Self, int)> {
        if run.len() >= 1 {
            match <OneOrMany<u32> as InputComponent>::downcast_spec(run[0]) {
                Ok(l) => Some((RangeNodeInput { length: l }, 1int)),
                Err(_) => None,
            }
        } else {
            None
        }
    }

    open spec fn arity_spec() -> int {
        1
    }

    open spec fn groups_spec(names: Seq<Seq<char>>) -> Seq<Seq<InfoModel>> {
        product_groups(names, seq!["u32"@], seq![false], seq![unsigned_keys()])
    }

    proof fn lemma_accept_bounds(run: Seq<DynValue>) {
    }

    fn from_any(buf: &mut Vec<DynValue>, view: &mut InputStack) -> (r: Result<Self, ()>) {
        let ghost run = old(view).contents(old(buf)@);
        if view.len() == 0 {
            return Err(());
        }
        let ok0 = <OneOrMany<u32> as InputComponent>::is(&buf[view.lo]);
        proof {
            <OneOrMany<u32> as InputComponent>::lemma_downcast_total(run[0]);
        }
        if !ok0 {
            return Err(());
        }
        let child = view.sub(0, 1);
        let mut vals = child.consume(buf);
        view.note_consumed(1);
        proof {
            assert(vals@ =~= run.subrange(0, 1));
        }
        let v0 = vals.remove(0);
        match <OneOrMany<u32> as InputComponent>::downcast(v0) {
            Ok(l) => Ok(RangeNodeInput { length: l }),
            Err(_) => {
                proof {
                    assert(false);
                }
                Err(())
            },
        }
    }

    fn possible_inputs(names: &Vec<&'static str>) -> (r: PossibleInputs) {
        let mut tys: Vec<&'static str> = Vec::new();
        tys.push("u32");
        let mut keys: Vec<Vec<TypeKey>> = Vec::new();
        keys.push(<OneOrMany<u32> as InputComponent>::type_ids());
        let mut opts: Vec<bool> = Vec::new();
        opts.push(false);
        let r = build_possible(names, &tys, &keys, &opts);
        proof {
            assert(str_views(tys@) =~= seq!["u32"@]);
            assert(opts@ =~= seq![false]);
            assert(key_views(keys@) =~~= seq![unsigned_keys()]);
        }
        r
    }
}

/// The operands of a two-dimensional range node: two scalar extents.
#[derive(Debug, Clone, Copy)]
pub struct Range2DNodeInput {
    pub x: One<u32>,
    pub y: One<u32>,
}

/// One element of the flattened two-dimensional range: the row offset
/// plus the row index scaled by the row length, in wrapping arithmetic.
pub open spec fn range2d_elem(jj: int, kk: int, y: u32) -> u32 {
    u32_specs::wrapping_add((kk as u32), u32_specs::wrapping_mul((jj as u32), y))
}

/// The stream a two-dimensional range node produces.
pub open spec fn range2d_rel(x: u32, y: u32, r: DynValue) -> bool {
    r matches DynValue::ManyU(m) && m.0@.len() == x * y && (forall|jj: int, kk: int|
        0 <= jj < x && 0 <= kk < y ==> #[trigger] m.0@[jj * y + kk] == range2d_elem(jj, kk, y))
}

impl Range2DNodeInput {
    pub fn op(self) -> (r: DynValue)
        ensures
            range2d_rel(self.x.0, self.y.0, r),
    {
        let xn = self.x.0;
        let yn = self.y.0;
        let ghost w = yn as int;
        let mut out: Vec<u32> = Vec::new();
        let mut jj: u32 = 0;
        while jj < xn
            invariant
                jj <= xn,
                out@.len() == jj * w,
                w == yn as int,
                forall|a: int, b: int|
                    0 <= a < jj && 0 <= b < w ==> #[trigger] out@[a * w + b] == range2d_elem(
                        a,
                        b,
                        yn,
                    ),
            decreases xn - jj,
        {
            let mut kk: u32 = 0;
            while kk < yn
                invariant
                    jj < xn,
                    kk <= yn,
                    w == yn as int,
                    out@.len() == jj * w + kk,
                    forall|a: int, b: int|
                        0 <= a < jj && 0 <= b < w ==> #[trigger] out@[a * w + b] == range2d_elem(
                            a,
                            b,
                            yn,
                        ),
                    forall|b: int|
                        0 <= b < kk ==> #[trigger] out@[jj * w + b] == range2d_elem(
                            jj as int,
                            b,
                            yn,
                        ),
                decreases yn - kk,
            {
                let ghost prev = out@;
                out.push(kk.wrapping_add(jj.wrapping_mul(yn)));
                proof {
                    assert forall|a: int, b: int|
                        0 <= a < jj && 0 <= b < w implies #[trigger] out@[a * w + b]
                        == range2d_elem(a, b, yn) by {
                        lemma_row_index_bound(a, b, jj as int, w);
                        assert(prev[a * w + b] == range2d_elem(a, b, yn));
                    }
                    assert forall|b: int| 0 <= b < kk + 1 implies #[trigger] out@[jj * w + b]
                        == range2d_elem(jj as int, b, yn) by {
                        if b < kk {
                            assert(prev[jj * w + b] == range2d_elem(jj as int, b, yn));
                        }
                    }
                }
                kk += 1;
            }
            proof {
                assert((jj + 1) * w == jj * w + w) by (nonlinear_arith);
                assert forall|a: int, b: int|
                    0 <= a < jj + 1 && 0 <= b < w implies #[trigger] out@[a * w + b]
                    == range2d_elem(a, b, yn) by {
                    if a < jj {
                        assert(out@[a * w + b] == range2d_elem(a, b, yn));
                    } else {
                        assert(a == jj);
                        assert(out@[jj * w + b] == range2d_elem(jj as int, b, yn));
                    }
                }
            }
            jj += 1;
        }
        DynValue::ManyU(Many(out))
    }
}

impl FromAnyProto for Range2DNodeInput {
    /// Exactly two scalar extents.
    open spec fn accept_spec(run: Seq<DynValue>) -> Option<(Self, int)> {
        if run.len() == 2 {
            match (run[0], run[1]) {
                (DynValue::OneU(a), DynValue::OneU(b)) => Some(
                    (Range2DNodeInput { x: a, y: b }, 2int),
                ),
                _ => None,
            }
        } else {
            None
        }
    }

    open spec fn arity_spec() -> int {
        2
    }

    open spec fn groups_spec(names: Seq<Seq<char>>) -> Seq<Seq<InfoModel>> {
        product_groups(
            names,
            seq!["One<u32>"@, "One<u32>"@],
            seq![false, false],
            seq![seq![TypeKey::OneUnsigned], seq![TypeKey::OneUnsigned]],
        )
    }

    proof fn lemma_accept_bounds(run: Seq<DynValue>) {
    }

    fn from_any(buf: &mut Vec<DynValue>, view: &mut InputStack) -> (r: Result<Self, ()>) {
        let ghost run = old(view).contents(old(buf)@);
        let n = view.len();
        if n != 2 {
            return Err(());
        }
        let ok0 = matches!(&buf[view.lo], DynValue::OneU(_));
        let ok1 = matches!(&buf[view.lo + 1], DynValue::OneU(_));
        if !ok0 || !ok1 {
            return Err(());
        }
        let me = *view;
        let mut vals = me.consume(buf);
        view.note_consumed(2);
        proof {
            assert(vals@ == run);
        }
        let v0 = vals.remove(0);
        let v1 = vals.remove(0);
        proof {
            assert(v0 == run[0]);
            assert(v1 == run[1]);
        }
        match (v0, v1) {
            (DynValue::OneU(a), DynValue::OneU(b)) => Ok(Range2DNodeInput { x: a, y: b }),
            _ => {
                proof {
                    assert(false);
                }
                Err(())
            },
        }
    }

    fn possible_inputs(names: &Vec<&'static str>) -> (r: PossibleInputs) {
        let mut tys: Vec<&'static str> = Vec::new();
        tys.push("One<u32>");
        tys.push("One<u32>");
        let mut keys: Vec<Vec<TypeKey>> = Vec::new();
        keys.push(<One<u32> as InputComponent>::type_ids());
        keys.push(<One<u32> as InputComponent>::type_ids());
        let mut opts: Vec<bool> = Vec::new();
        opts.push(false);
        opts.push(false);
        let r = build_possible(names, &tys, &keys, &opts);
        proof {
            assert(str_views(tys@) =~= seq!["One<u32>"@, "One<u32>"@]);
            assert(opts@ =~= seq![false, false]);
            assert(key_views(keys@) =~~= seq![
                seq![TypeKey::OneUnsigned],
                seq![TypeKey::OneUnsigned],
            ]);
        }
        r
    }
}

/// The operands of a repeat node: a scalar count and a scalar-or-stream
/// value.
#[derive(Debug, Clone)]
pub struct RepeatNodeInput {
    pub count: One<u32>,
    pub value: OneOrMany<u32>,
}

/// The stream a repeat node produces: a scalar value repeated `count`
/// times; for a stream value, each repetition index emitted once per
/// stream element.
pub open spec fn repeat_rel(count: u32, value: OneOrMany<u32>, r: DynValue) -> bool {
    match value {
        OneOrMany::One(v) => r matches DynValue::ManyU(m) && m.0@.len() == count && (forall|
            i: int,
        |
            0 <= i < count ==> m.0@[i] == v.0),
        OneOrMany::Many(s) => {
            let w = s.0@.len() as int;
            r matches DynValue::ManyU(m) && m.0@.len() == count * w && (forall|jj: int, kk: int|
                0 <= jj < count && 0 <= kk < w ==> #[trigger] m.0@[jj * w + kk] == jj as u32)
        },
    }
}

impl RepeatNodeInput {
    pub fn op(self) -> (r: DynValue)
        ensures
            repeat_rel(self.count.0, self.value, r),
    {
        let n = self.count.0;
        match self.value {
            OneOrMany::One(v) => {
                let mut out: Vec<u32> = Vec::new();
                let mut i: u32 = 0;
                while i < n
                    invariant
                        i <= n,
                        out@.len() == i,
                        forall|x: int| 0 <= x < i ==> out@[x] == v.0,
                    decreases n - i,
                {
                    out.push(v.0);
                    i += 1;
                }
                DynValue::ManyU(Many(out))
            },
            OneOrMany::Many(s) => {
                let w = s.0.len();
                let ghost gw = w as int;
                let mut out: Vec<u32> = Vec::new();
                let mut jj: u32 = 0;
                while jj < n
                    invariant
                        gw == s.0@.len(),
                        w == s.0@.len(),
                        jj <= n,
                        out@.len() == jj * gw,
                        forall|a: int, b: int|
                            0 <= a < jj && 0 <= b < gw ==> #[trigger] out@[a * gw + b] == a as u32,
                    decreases n - jj,
                {
                    let mut kk: usize = 0;
                    while kk < w
                        invariant
                            gw == s.0@.len(),
                            w == s.0@.len(),
                            jj < n,
                            kk <= w,
                            out@.len() == jj * gw + kk,
                            forall|a: int, b: int|
                                0 <= a < jj && 0 <= b < gw ==> #[trigger] out@[a * gw + b] == a
                                    as u32,
                            forall|b: int| 0 <= b < kk ==> #[trigger] out@[jj * gw + b] == jj
                                as u32,
                        decreases w - kk,
                    {
                        let ghost prev = out@;
                        out.push(jj);
                        proof {
                            assert forall|a: int, b: int|
                                0 <= a < jj && 0 <= b < gw implies #[trigger] out@[a * gw + b] == a
                                as u32 by {
                                lemma_row_index_bound(a, b, jj as int, gw);
                                assert(prev[a * gw + b] == a as u32);
                            }
                            assert forall|b: int| 0 <= b < kk + 1 implies #[trigger] out@[jj * gw
                                + b] == jj as u32 by {
                                if b < kk {
                                    assert(prev[jj * gw + b] == jj as u32);
                                }
                            }
                        }
                        kk += 1;
                    }
                    proof {
                        assert((jj + 1) * gw == jj * gw + gw) by (nonlinear_arith);
                        assert forall|a: int, b: int|
                            0 <= a < jj + 1 && 0 <= b < gw implies #[trigger] out@[a * gw + b] == a
                            as u32 by {
                            if a < jj {
                                assert(out@[a * gw + b] == a as u32);
                            } else {
                                assert(a == jj);
                                assert(out@[jj * gw + b] == jj as u32);
                            }
                        }
                    }
                    jj += 1;
                }
                DynValue::ManyU(Many(out))
            },
        }
    }
}

impl FromAnyProto for RepeatNodeInput {
    /// Both positions are required; extra trailing values are consumed
    /// with the run and dropped.
    open spec fn accept_spec(run: Seq<DynValue>) -> Option<(Self, int)> {
        if run.len() >= 2 {
            match (
                <One<u32> as InputComponent>::downcast_spec(run[0]),
                <OneOrMany<u32> as InputComponent>::downcast_spec(run[1]),
            ) {
                (Ok(c), Ok(v)) => Some((RepeatNodeInput { count: c, value: v }, run.len() as int)),
                _ => None,
            }
        } else {
            None
        }
    }

    open spec fn arity_spec() -> int {
        2
    }

    open spec fn groups_spec(names: Seq<Seq<char>>) -> Seq<Seq<InfoModel>> {
        product_groups(
            names,
            seq!["One<u32>"@, "OneOrMany<u32>"@],
            seq![false, false],
            seq![seq![TypeKey::OneUnsigned], unsigned_keys()],
        )
    }

    proof fn lemma_accept_bounds(run: Seq<DynValue>) {
    }

    fn from_any(buf: &mut Vec<DynValue>, view: &mut InputStack) -> (r: Result<Self, ()>) {
        let ghost run = old(view).contents(old(buf)@);
        let n = view.len();
        if n < 2 {
            return Err(());
        }
        let ok0 = <One<u32> as InputComponent>::is(&buf[view.lo]);
        let ok1 = <OneOrMany<u32> as InputComponent>::is(&buf[view.lo + 1]);
        if !ok0 || !ok1 {
            proof {
                <One<u32> as InputComponent>::lemma_downcast_total(run[0]);
                <OneOrMany<u32> as InputComponent>::lemma_downcast_total(run[1]);
            }
            return Err(());
        }
        let me = *view;
        let mut vals = me.consume(buf);
        view.note_consumed(n);
        proof {
            assert(vals@ == run);
        }
        let v0 = vals.remove(0);
        let v1 = vals.remove(0);
        proof {
            assert(v0 == run[0]);
            assert(v1 == run[1]);
        }
        let count = match <One<u32> as InputComponent>::downcast(v0) {
            Ok(c) => c,
            Err(_) => {
                proof {
                    assert(false);
                }
                return Err(());
            },
        };
        let value = match <OneOrMany<u32> as InputComponent>::downcast(v1) {
            Ok(v) => v,
            Err(_) => {
                proof {
                    assert(false);
                }
                return Err(());
            },
        };
        Ok(RepeatNodeInput { count, value })
    }

    fn possible_inputs(names: &Vec<&'static str>) -> (r: PossibleInputs) {
        let mut tys: Vec<&'static str> = Vec::new();
        tys.push("One<u32>");
        tys.push("OneOrMany<u32>");
        let mut keys: Vec<Vec<TypeKey>> = Vec::new();
        keys.push(<One<u32> as InputComponent>::type_ids());
        keys.push(<OneOrMany<u32> as InputComponent>::type_ids());
        let mut opts: Vec<bool> = Vec::new();
        opts.push(false);
        opts.push(false);
        let r = build_possible(names, &tys, &keys, &opts);
        proof {
            assert(str_views(tys@) =~= seq!["One<u32>"@, "OneOrMany<u32>"@]);
            assert(opts@ =~= seq![false, false]);
            assert(key_views(keys@) =~~= seq![seq![TypeKey::OneUnsigned], unsigned_keys()]);
        }
        r
    }
}

/// What remains of a run after its first `k` values were consumed.
pub open spec fn after_consumed(inputs: Seq<DynValue>, k: int) -> Seq<DynValue> {
    inputs.subrange(k, inputs.len() as int)
}

/// A source holding one constant value.
#[derive(Debug, Clone, Copy, PartialEq)]
pub enum ConstantNode {
    Unsigned(u32),
    Signed(i64),
}

impl NodeInput for ConstantNode {
    open spec fn inputs_spec(&self) -> Seq<Seq<InfoModel>> {
        Seq::empty()
    }

    open spec fn variadic_spec(&self) -> bool {
        false
    }

    open spec fn is_terminator_spec(&self) -> bool {
        true
    }

    fn inputs(&self) -> (r: PossibleInputs) {
        let r = PossibleInputs::new(Vec::new());
        proof {
            assert(r.models() =~= Seq::<Seq<InfoModel>>::empty());
        }
        r
    }

    fn variadic(&self) -> bool {
        false
    }

    fn is_terminator(&self) -> bool {
        true
    }
}

impl NodeOutput for ConstantNode {
    open spec fn op_rel(
        self,
        inputs: Seq<DynValue>,
        r: Result<DynValue, ()>,
        leftover: Seq<DynValue>,
        next: Self,
    ) -> bool {
        &&& next == self
        &&& leftover == inputs
        &&& match self {
            ConstantNode::Unsigned(v) => r == Result::<DynValue, ()>::Ok(DynValue::OneU(One(v))),
            ConstantNode::Signed(v) => r == Result::<DynValue, ()>::Ok(DynValue::OneS(One(v))),
        }
    }

    fn op(&mut self, inputs: &mut Vec<DynValue>) -> (r: Result<DynValue, ()>) {
        match self {
            ConstantNode::Unsigned(v) => Ok(DynValue::OneU(One(*v))),
            ConstantNode::Signed(v) => Ok(DynValue::OneS(One(*v))),
        }
    }
}

impl Node for ConstantNode {
    open spec fn name_spec(&self) -> Seq<char> {
        "constant"@
    }

    fn name(&self) -> (r: &'static str) {
        "constant"
    }
}

/// A source handing out the current frame tick; the tick is explicit
/// state advanced by the embedding, never ambient.
#[derive(Debug, Clone, Copy, PartialEq, Eq, Structural)]
pub struct GlobalNode {
    pub tick: u32,
}

impl GlobalNode {
    /// Advance the tick by one, wrapping, and hand back the tick as it
    /// was before the call.
    pub fn incr(&mut self) -> (r: u32)
        ensures
            r == old(self).tick,
            final(self).tick == u32_specs::wrapping_add(old(self).tick, 1),
    {
        let t = self.tick;
        self.tick = self.tick.wrapping_add(1);
        t
    }

    /// The current tick.
    pub fn load(&self) -> (r: u32)
        ensures
            r == self.tick,
    {
        self.tick
    }
}

impl NodeInput for GlobalNode {
    open spec fn inputs_spec(&self) -> Seq<Seq<InfoModel>> {
        Seq::empty()
    }

    open spec fn variadic_spec(&self) -> bool {
        false
    }

    open spec fn is_terminator_spec(&self) -> bool {
        true
    }

    fn inputs(&self) -> (r: PossibleInputs) {
        let r = PossibleInputs::new(Vec::new());
        proof {
            assert(r.models() =~= Seq::<Seq<InfoModel>>::empty());
        }
        r
    }

    fn variadic(&self) -> bool {
        false
    }

    fn is_terminator(&self) -> bool {
        true
    }
}

impl NodeOutput for GlobalNode {
    open spec fn op_rel(
        self,
        inputs: Seq<DynValue>,
        r: Result<DynValue, ()>,
        leftover: Seq<DynValue>,
        next: Self,
    ) -> bool {
        &&& next == self
        &&& leftover == inputs
        &&& r == Result::<DynValue, ()>::Ok(DynValue::OneU(One(self.tick)))
    }

    fn op(&mut self, inputs: &mut Vec<DynValue>) -> (r: Result<DynValue, ()>) {
        Ok(DynValue::OneU(One(self.load())))
    }
}

impl Node for GlobalNode {
    open spec fn name_spec(&self) -> Seq<char> {
        "global"@
    }

    fn name(&self) -> (r: &'static str) {
        "global"
    }
}

/// How an arithmetic node's one call of `op` behaves: the operand pair
/// is assembled from the run, the operation broadcast over it, and the
/// consumed values leave the run.
pub open spec fn arith_op_rel(
    op: ArithOp,
    inputs: Seq<DynValue>,
    r: Result<DynValue, ()>,
    leftover: Seq<DynValue>,
) -> bool {
    match ArithmeticNodeInput::accept_spec(inputs) {
        Option::None => r is Err && leftover == inputs,
        Option::Some((x, k)) => {
            &&& leftover == after_consumed(inputs, k)
            &&& r matches Ok(v) && arith_rel(x, op, v)
        },
    }
}

/// Run one arithmetic node: assemble the pair from the whole run and
/// broadcast the operation.
fn run_arith_node(op: ArithOp, inputs: &mut Vec<DynValue>) -> (r: Result<DynValue, ()>)
    ensures
        arith_op_rel(op, old(inputs)@, r, final(inputs)@),
{
    let ghost run = old(inputs)@;
    let mut view = InputStack::whole(inputs);
    let got = ArithmeticNodeInput::from_any(inputs, &mut view);
    proof {
        ArithmeticNodeInput::lemma_accept_bounds(run);
        assert(InputStack { lo: 0, hi: run.len() as usize }.contents(run) =~= run);
    }
    match got {
        Ok(x) => {
            proof {
                match ArithmeticNodeInput::accept_spec(run) {
                    Option::Some((xx, k)) => {
                        assert(inputs@ =~= after_consumed(run, k));
                    },
                    Option::None => {},
                }
            }
            Ok(x.apply(op))
        },
        Err(()) => Err(()),
    }
}

/// The addition node.
#[derive(Debug, Clone, Copy, PartialEq, Eq, Structural)]
pub struct AddNode;

impl NodeInput for AddNode {
    open spec fn inputs_spec(&self) -> Seq<Seq<InfoModel>> {
        ArithmeticNodeInput::groups_spec(seq!["lhs"@, "rhs"@])
    }

    open spec fn variadic_spec(&self) -> bool {
        false
    }

    open spec fn is_terminator_spec(&self) -> bool {
        false
    }

    fn inputs(&self) -> (r: PossibleInputs) {
        let mut names: Vec<&'static str> = Vec::new();
        names.push("lhs");
        names.push("rhs");
        let r = ArithmeticNodeInput::possible_inputs(&names);
        proof {
            assert(str_views(names@) =~= seq!["lhs"@, "rhs"@]);
        }
        r
    }

    fn variadic(&self) -> bool {
        false
    }

    fn is_terminator(&self) -> bool {
        false
    }
}

impl NodeOutput for AddNode {
    open spec fn op_rel(
        self,
        inputs: Seq<DynValue>,
        r: Result<DynValue, ()>,
        leftover: Seq<DynValue>,
        next: Self,
    ) -> bool {
        &&& next == self
        &&& arith_op_rel(ArithOp::Add, inputs, r, leftover)
    }

    fn op(&mut self, inputs: &mut Vec<DynValue>) -> (r: Result<DynValue, ()>) {
        run_arith_node(ArithOp::Add, inputs)
    }
}

impl Node for AddNode {
    open spec fn name_spec(&self) -> Seq<char> {
        "add"@
    }

    fn name(&self) -> (r: &'static str) {
        "add"
    }
}

/// The division node: division by zero, and the one overflowing signed
/// quotient, yield zero.
#[derive(Debug, Clone, Copy, PartialEq, Eq, Structural)]
pub struct DivisionNode;

impl NodeInput for DivisionNode {
    open spec fn inputs_spec(&self) -> Seq<Seq<InfoModel>> {
        ArithmeticNodeInput::groups_spec(seq!["numerator"@, "denominator"@])
    }

    open spec fn variadic_spec(&self) -> bool {
        false
    }

    open spec fn is_terminator_spec(&self) -> bool {
        false
    }

    fn inputs(&self) -> (r: PossibleInputs) {
        let mut names: Vec<&'static str> = Vec::new();
        names.push("numerator");
        names.push("denominator");
        let r = ArithmeticNodeInput::possible_inputs(&names);
        proof {
            assert(str_views(names@) =~= seq!["numerator"@, "denominator"@]);
        }
        r
    }

    fn variadic(&self) -> bool {
        false
    }

    fn is_terminator(&self) -> bool {
        false
    }
}

impl NodeOutput for DivisionNode {
    open spec fn op_rel(
        self,
        inputs: Seq<DynValue>,
        r: Result<DynValue, ()>,
        leftover: Seq<DynValue>,
        next: Self,
    ) -> bool {
        &&& next == self
        &&& arith_op_rel(ArithOp::Div, inputs, r, leftover)
    }

    fn op(&mut self, inputs: &mut Vec<DynValue>) -> (r: Result<DynValue, ()>) {
        run_arith_node(ArithOp::Div, inputs)
    }
}

impl Node for DivisionNode {
    open spec fn name_spec(&self) -> Seq<char> {
        "division"@
    }

    fn name(&self) -> (r: &'static str) {
        "division"
    }
}

/// The remainder node: a zero divisor, and the one overflowing signed
/// remainder, yield zero.
#[derive(Debug, Clone, Copy, PartialEq, Eq, Structural)]
pub struct ModuloNode;

impl NodeInput for ModuloNode {
    open spec fn inputs_spec(&self) -> Seq<Seq<InfoModel>> {
        ArithmeticNodeInput::groups_spec(seq!["numerator"@, "denominator"@])
    }

    open spec fn variadic_spec(&self) -> bool {
        false
    }

    open spec fn is_terminator_spec(&self) -> bool {
        false
    }

    fn inputs(&self) -> (r: PossibleInputs) {
        let mut names: Vec<&'static str> = Vec::new();
        names.push("numerator");
        names.push("denominator");
        let r = ArithmeticNodeInput::possible_inputs(&names);
        proof {
            assert(str_views(names@) =~= seq!["numerator"@, "denominator"@]);
        }
        r
    }

    fn variadic(&self) -> bool {
        false
    }

    fn is_terminator(&self) -> bool {
        false
    }
}

impl NodeOutput for ModuloNode {
    open spec fn op_rel(
        self,
        inputs: Seq<DynValue>,
        r: Result<DynValue, ()>,
        leftover: Seq<DynValue>,
        next: Self,
    ) -> bool {
        &&& next == self
        &&& arith_op_rel(ArithOp::Rem, inputs, r, leftover)
    }

    fn op(&mut self, inputs: &mut Vec<DynValue>) -> (r: Result<DynValue, ()>) {
        run_arith_node(ArithOp::Rem, inputs)
    }
}

impl Node for ModuloNode {
    open spec fn name_spec(&self) -> Seq<char> {
        "modulo"@
    }

    fn name(&self) -> (r: &'static str) {
        "modulo"
    }
}

/// The multiplication node.
#[derive(Debug, Clone, Copy, PartialEq, Eq, Structural)]
pub struct MultiplyNode;

impl NodeInput for MultiplyNode {
    open spec fn inputs_spec(&self) -> Seq<Seq<InfoModel>> {
        MultiplyNodeInput::groups_spec(seq!["lhs"@, "rhs"@])
    }

    open spec fn variadic_spec(&self) -> bool {
        false
    }

    open spec fn is_terminator_spec(&self) -> bool {
        false
    }

    fn inputs(&self) -> (r: PossibleInputs) {
        let mut names: Vec<&'static str> = Vec::new();
        names.push("lhs");
        names.push("rhs");
        let r = MultiplyNodeInput::possible_inputs(&names);
        proof {
            assert(str_views(names@) =~= seq!["lhs"@, "rhs"@]);
        }
        r
    }

    fn variadic(&self) -> bool {
        false
    }

    fn is_terminator(&self) -> bool {
        false
    }
}

impl NodeOutput for MultiplyNode {
    open spec fn op_rel(
        self,
        inputs: Seq<DynValue>,
        r: Result<DynValue, ()>,
        leftover: Seq<DynValue>,
        next: Self,
    ) -> bool {
        &&& next == self
        &&& match MultiplyNodeInput::accept_spec(inputs) {
            Option::None => r is Err && leftover == inputs,
            Option::Some((x, k)) => {
                &&& leftover == after_consumed(inputs, k)
                &&& r matches Ok(v) && multiply_rel(x, v)
            },
        }
    }

    fn op(&mut self, inputs: &mut Vec<DynValue>) -> (r: Result<DynValue, ()>) {
        let ghost run = old(inputs)@;
        let mut view = InputStack::whole(inputs);
        let got = MultiplyNodeInput::from_any(inputs, &mut view);
        proof {
            MultiplyNodeInput::lemma_accept_bounds(run);
            assert(InputStack { lo: 0, hi: run.len() as usize }.contents(run) =~= run);
        }
        match got {
            Ok(x) => {
                proof {
                    match MultiplyNodeInput::accept_spec(run) {
                        Option::Some((xx, k)) => {
                            assert(inputs@ =~= after_consumed(run, k));
                        },
                        Option::None => {},
                    }
                }
                Ok(x.op())
            },
            Err(()) => Err(()),
        }
    }
}

impl Node for MultiplyNode {
    open spec fn name_spec(&self) -> Seq<char> {
        "multiply"@
    }

    fn name(&self) -> (r: &'static str) {
        "multiply"
    }
}

/// The range node: count up to a length, or repeat a stream by its own
/// length.
#[derive(Debug, Clone, Copy, PartialEq, Eq, Structural)]
pub struct RangeNode;

impl NodeInput for RangeNode {
    open spec fn inputs_spec(&self) -> Seq<Seq<InfoModel>> {
        RangeNodeInput::groups_spec(seq!["length"@])
    }

    open spec fn variadic_spec(&self) -> bool {
        false
    }

    open spec fn is_terminator_spec(&self) -> bool {
        false
    }

    fn inputs(&self) -> (r: PossibleInputs) {
        let mut names: Vec<&'static str> = Vec::new();
        names.push("length");
        let r = RangeNodeInput::possible_inputs(&names);
        proof {
            assert(str_views(names@) =~= seq!["length"@]);
        }
        r
    }

    fn variadic(&self) -> bool {
        false
    }

    fn is_terminator(&self) -> bool {
        false
    }
}

impl NodeOutput for RangeNode {
    open spec fn op_rel(
        self,
        inputs: Seq<DynValue>,
        r: Result<DynValue, ()>,
        leftover: Seq<DynValue>,
        next: Self,
    ) -> bool {
        &&& next == self
        &&& match RangeNodeInput::accept_spec(inputs) {
            Option::None => r is Err && leftover == inputs,
            Option::Some((x, k)) => {
                &&& leftover == after_consumed(inputs, k)
                &&& r matches Ok(v) && range_rel(x.length, v)
            },
        }
    }

    fn op(&mut self, inputs: &mut Vec<DynValue>) -> (r: Result<DynValue, ()>) {
        let ghost run = old(inputs)@;
        let mut view = InputStack::whole(inputs);
        let got = RangeNodeInput::from_any(inputs, &mut view);
        proof {
            RangeNodeInput::lemma_accept_bounds(run);
            assert(InputStack { lo: 0, hi: run.len() as usize }.contents(run) =~= run);
        }
        match got {
            Ok(x) => {
                proof {
                    match RangeNodeInput::accept_spec(run) {
                        Option::Some((xx, k)) => {
                            assert(inputs@ =~= after_consumed(run, k));
                        },
                        Option::None => {},
                    }
                }
                Ok(x.op())
            },
            Err(()) => Err(()),
        }
    }
}

impl Node for RangeNode {
    open spec fn name_spec(&self) -> Seq<char> {
        "range"@
    }

    fn name(&self) -> (r: &'static str) {
        "range"
    }
}

/// The two-dimensional range node: the flattened row-major index grid.
#[derive(Debug, Clone, Copy, PartialEq, Eq, Structural)]
pub struct Range2DNode;

impl NodeInput for Range2DNode {
    open spec fn inputs_spec(&self) -> Seq<Seq<InfoModel>> {
        Range2DNodeInput::groups_spec(seq!["x"@, "y"@])
    }

    open spec fn variadic_spec(&self) -> bool {
        false
    }

    open spec fn is_terminator_spec(&self) -> bool {
        false
    }

    fn inputs(&self) -> (r: PossibleInputs) {
        let mut names: Vec<&'static str> = Vec::new();
        names.push("x");
        names.push("y");
        let r = Range2DNodeInput::possible_inputs(&names);
        proof {
            assert(str_views(names@) =~= seq!["x"@, "y"@]);
        }
        r
    }

    fn variadic(&self) -> bool {
        false
    }

    fn is_terminator(&self) -> bool {
        false
    }
}

impl NodeOutput for Range2DNode {
    open spec fn op_rel(
        self,
        inputs: Seq<DynValue>,
        r: Result<DynValue, ()>,
        leftover: Seq<DynValue>,
        next: Self,
    ) -> bool {
        &&& next == self
        &&& match Range2DNodeInput::accept_spec(inputs) {
            Option::None => r is Err && leftover == inputs,
            Option::Some((x, k)) => {
                &&& leftover == after_consumed(inputs, k)
                &&& r matches Ok(v) && range2d_rel(x.x.0, x.y.0, v)
            },
        }
    }

    fn op(&mut self, inputs: &mut Vec<DynValue>) -> (r: Result<DynValue, ()>) {
        let ghost run = old(inputs)@;
        let mut view = InputStack::whole(inputs);
        let got = Range2DNodeInput::from_any(inputs, &mut view);
        proof {
            Range2DNodeInput::lemma_accept_bounds(run);
            assert(InputStack { lo: 0, hi: run.len() as usize }.contents(run) =~= run);
        }
        match got {
            Ok(x) => {
                proof {
                    match Range2DNodeInput::accept_spec(run) {
                        Option::Some((xx, k)) => {
                            assert(inputs@ =~= after_consumed(run, k));
                        },
                        Option::None => {},
                    }
                }
                Ok(x.op())
            },
            Err(()) => Err(()),
        }
    }
}

impl Node for Range2DNode {
    open spec fn name_spec(&self) -> Seq<char> {
        "2d range"@
    }

    fn name(&self) -> (r: &'static str) {
        "2d range"
    }
}

/// The repeat node.
#[derive(Debug, Clone, Copy, PartialEq, Eq, Structural)]
pub struct RepeatNode;

impl NodeInput for RepeatNode {
    open spec fn inputs_spec(&self) -> Seq<Seq<InfoModel>> {
        RepeatNodeInput::groups_spec(seq!["count"@, "value"@])
    }

    open spec fn variadic_spec(&self) -> bool {
        false
    }

    open spec fn is_terminator_spec(&self) -> bool {
        false
    }

    fn inputs(&self) -> (r: PossibleInputs) {
        let mut names: Vec<&'static str> = Vec::new();
        names.push("count");
        names.push("value");
        let r = RepeatNodeInput::possible_inputs(&names);
        proof {
            assert(str_views(names@) =~= seq!["count"@, "value"@]);
        }
        r
    }

    fn variadic(&self) -> bool {
        false
    }

    fn is_terminator(&self) -> bool {
        false
    }
}

impl NodeOutput for RepeatNode {
    open spec fn op_rel(
        self,
        inputs: Seq<DynValue>,
        r: Result<DynValue, ()>,
        leftover: Seq<DynValue>,
        next: Self,
    ) -> bool {
        &&& next == self
        &&& match RepeatNodeInput::accept_spec(inputs) {
            Option::None => r is Err && leftover == inputs,
            Option::Some((x, k)) => {
                &&& leftover == after_consumed(inputs, k)
                &&& r matches Ok(v) && repeat_rel(x.count.0, x.value, v)
            },
        }
    }

    fn op(&mut self, inputs: &mut Vec<DynValue>) -> (r: Result<DynValue, ()>) {
        let ghost run = old(inputs)@;
        let mut view = InputStack::whole(inputs);
        let got = RepeatNodeInput::from_any(inputs, &mut view);
        proof {
            RepeatNodeInput::lemma_accept_bounds(run);
            assert(InputStack { lo: 0, hi: run.len() as usize }.contents(run) =~= run);
        }
        match got {
            Ok(x) => {
                proof {
                    match RepeatNodeInput::accept_spec(run) {
                        Option::Some((xx, k)) => {
                            assert(inputs@ =~= after_consumed(run, k));
                        },
                        Option::None => {},
                    }
                }
                Ok(x.op())
            },
            Err(()) => Err(()),
        }
    }
}

impl Node for RepeatNode {
    open spec fn name_spec(&self) -> Seq<char> {
        "repeat"@
    }

    fn name(&self) -> (r: &'static str) {
        "repeat"
    }
}

/// The closed dispatch union the graph arena stores: every node the
/// catalogue offers, one arm each.
#[derive(Debug, Clone)]
pub enum NodeKind {
    Constant(ConstantNode),
    Global(GlobalNode),
    Add(AddNode),
    Multiply(MultiplyNode),
    Division(DivisionNode),
    Modulo(ModuloNode),
    Range(RangeNode),
    Range2D(Range2DNode),
    Repeat(RepeatNode),
}

impl NodeInput for NodeKind {
    open spec fn inputs_spec(&self) -> Seq<Seq<InfoModel>> {
        match self {
            NodeKind::Constant(n) => n.inputs_spec(),
            NodeKind::Global(n) => n.inputs_spec(),
            NodeKind::Add(n) => n.inputs_spec(),
            NodeKind::Multiply(n) => n.inputs_spec(),
            NodeKind::Division(n) => n.inputs_spec(),
            NodeKind::Modulo(n) => n.inputs_spec(),
            NodeKind::Range(n) => n.inputs_spec(),
            NodeKind::Range2D(n) => n.inputs_spec(),
            NodeKind::Repeat(n) => n.inputs_spec(),
        }
    }

    open spec fn variadic_spec(&self) -> bool {
        false
    }

    open spec fn is_terminator_spec(&self) -> bool {
        self matches NodeKind::Constant(_) || self matches NodeKind::Global(_)
    }

    fn inputs(&self) -> (r: PossibleInputs) {
        match self {
            NodeKind::Constant(n) => n.inputs(),
            NodeKind::Global(n) => n.inputs(),
            NodeKind::Add(n) => n.inputs(),
            NodeKind::Multiply(n) => n.inputs(),
            NodeKind::Division(n) => n.inputs(),
            NodeKind::Modulo(n) => n.inputs(),
            NodeKind::Range(n) => n.inputs(),
            NodeKind::Range2D(n) => n.inputs(),
            NodeKind::Repeat(n) => n.inputs(),
        }
    }

    fn variadic(&self) -> bool {
        false
    }

    fn is_terminator(&self) -> bool {
        matches!(self, NodeKind::Constant(_) | NodeKind::Global(_))
    }
}

impl NodeOutput for NodeKind {
    open spec fn op_rel(
        self,
        inputs: Seq<DynValue>,
        r: Result<DynValue, ()>,
        leftover: Seq<DynValue>,
        next: Self,
    ) -> bool {
        match self {
            NodeKind::Constant(n) => next matches NodeKind::Constant(n2) && n.op_rel(
                inputs,
                r,
                leftover,
                n2,
            ),
            NodeKind::Global(n) => next matches NodeKind::Global(n2) && n.op_rel(
                inputs,
                r,
                leftover,
                n2,
            ),
            NodeKind::Add(n) => next matches NodeKind::Add(n2) && n.op_rel(inputs, r, leftover, n2),
            NodeKind::Multiply(n) => next matches NodeKind::Multiply(n2) && n.op_rel(
                inputs,
                r,
                leftover,
                n2,
            ),
            NodeKind::Division(n) => next matches NodeKind::Division(n2) && n.op_rel(
                inputs,
                r,
                leftover,
                n2,
            ),
            NodeKind::Modulo(n) => next matches NodeKind::Modulo(n2) && n.op_rel(
                inputs,
                r,
                leftover,
                n2,
            ),
            NodeKind::Range(n) => next matches NodeKind::Range(n2) && n.op_rel(
                inputs,
                r,
                leftover,
                n2,
            ),
            NodeKind::Range2D(n) => next matches NodeKind::Range2D(n2) && n.op_rel(
                inputs,
                r,
                leftover,
                n2,
            ),
            NodeKind::Repeat(n) => next matches NodeKind::Repeat(n2) && n.op_rel(
                inputs,
                r,
                leftover,
                n2,
            ),
        }
    }

    fn op(&mut self, inputs: &mut Vec<DynValue>) -> (r: Result<DynValue, ()>) {
        match self {
            NodeKind::Constant(n) => n.op(inputs),
            NodeKind::Global(n) => n.op(inputs),
            NodeKind::Add(n) => n.op(inputs),
            NodeKind::Multiply(n) => n.op(inputs),
            NodeKind::Division(n) => n.op(inputs),
            NodeKind::Modulo(n) => n.op(inputs),
            NodeKind::Range(n) => n.op(inputs),
            NodeKind::Range2D(n) => n.op(inputs),
            NodeKind::Repeat(n) => n.op(inputs),
        }
    }
}

impl Node for NodeKind {
    open spec fn name_spec(&self) -> Seq<char> {
        match self {
            NodeKind::Constant(n) => n.name_spec(),
            NodeKind::Global(n) => n.name_spec(),
            NodeKind::Add(n) => n.name_spec(),
            NodeKind::Multiply(n) => n.name_spec(),
            NodeKind::Division(n) => n.name_spec(),
            NodeKind::Modulo(n) => n.name_spec(),
            NodeKind::Range(n) => n.name_spec(),
            NodeKind::Range2D(n) => n.name_spec(),
            NodeKind::Repeat(n) => n.name_spec(),
        }
    }

    fn name(&self) -> (r: &'static str) {
        match self {
            NodeKind::Constant(n) => n.name(),
            NodeKind::Global(n) => n.name(),
            NodeKind::Add(n) => n.name(),
            NodeKind::Multiply(n) => n.name(),
            NodeKind::Division(n) => n.name(),
            NodeKind::Modulo(n) => n.name(),
            NodeKind::Range(n) => n.name(),
            NodeKind::Range2D(n) => n.name(),
            NodeKind::Repeat(n) => n.name(),
        }
    }
}

} // verus!
