//! Value duality: a scalar (`One`), a finite stream (`Many`), and the tagged
//! union of the two (`OneOrMany`), together with the arity-generic
//! broadcasting combinators `op1` .. `op4`.
//!
//! A stream is represented by the sequence of values its producer will
//! yield; cloning a stream duplicates that not-yet-consumed sequence.

use vstd::prelude::*;

verus! {

/// A single ("scalar") value.
#[derive(Debug, Clone, Copy, PartialEq, Eq)]
pub struct One<T>(pub T);

impl<T> One<T> {
    pub fn new(inner: T) -> (r: Self)
        ensures
            r.0 == inner,
    {
        One(inner)
    }

    pub fn inner(self) -> (r: T)
        ensures
            r == self.0,
    {
        self.0
    }
}

/// A finite stream of values: the sequence its producer will yield, in
/// order.  No element is observed until the stream is collected.
#[derive(Debug, Clone, PartialEq, Eq)]
pub struct Many<T>(pub Vec<T>);

impl<T> Many<T> {
    /// The remaining producer state, as a plain vector.
    pub fn inner(self) -> (r: Vec<T>)
        ensures
            r == self.0,
    {
        self.0
    }

    /// Materialise every value the stream will yield.
    pub fn collect(self) -> (r: Vec<T>)
        ensures
            r == self.0,
    {
        self.0
    }
}

/// The capability of a restartable sequence producer: what it will
/// yield, and yielding it.
pub trait ManyTrait<T>: Sized {
    /// The values the producer will yield, in order.
    spec fn produced(&self) -> Seq<T>;

    /// Yield every value.
    fn produce(self) -> (r: Vec<T>)
        ensures
            r@ == self.produced(),
    ;
}

impl<T> ManyTrait<T> for Many<T> {
    open spec fn produced(&self) -> Seq<T> {
        self.0@
    }

    fn produce(self) -> (r: Vec<T>) {
        self.0
    }
}

impl<T> From<Vec<T>> for Many<T> {
    fn from(items: Vec<T>) -> (r: Self) {
        Many(items)
    }
}

impl<T> vstd::std_specs::convert::FromSpecImpl<Vec<T>> for Many<T> {
    open spec fn obeys_from_spec() -> bool {
        true
    }

    open spec fn from_spec(items: Vec<T>) -> Self {
        Many(items)
    }
}

/// Either a scalar or a stream of the same element type.
#[derive(Debug, Clone, PartialEq)]
pub enum OneOrMany<T> {
    One(One<T>),
    Many(Many<T>),
}

/// The scalar held by a `OneOrMany::One`.
pub open spec fn scalar_of<T>(v: OneOrMany<T>) -> T
    recommends
        v is One,
{
    match v {
        OneOrMany::One(o) => o.0,
        OneOrMany::Many(m) => m.0@[0],
    }
}

/// The sequence held by a `OneOrMany::Many`.
pub open spec fn items_of<T>(v: OneOrMany<T>) -> Seq<T>
    recommends
        v is Many,
{
    match v {
        OneOrMany::One(o) => Seq::empty(),
        OneOrMany::Many(m) => m.0@,
    }
}

/// The value a broadcast reads at position `i`: a scalar supplies the same
/// value at every position, a stream supplies its `i`-th element.
pub open spec fn elem_at<T>(v: OneOrMany<T>, i: int) -> T {
    match v {
        OneOrMany::One(o) => o.0,
        OneOrMany::Many(m) => m.0@[i],
    }
}

/// Positions a broadcast over `v` contributes: a stream bounds the zip by
/// its length, a scalar poses no bound.
pub open spec fn pos_bound<T>(v: OneOrMany<T>, acc: Option<int>) -> Option<int> {
    match v {
        OneOrMany::One(_) => acc,
        OneOrMany::Many(m) => match acc {
            Option::None => Option::Some(m.0@.len() as int),
            Option::Some(n) => if m.0@.len() < n {
                Option::Some(m.0@.len() as int)
            } else {
                Option::Some(n)
            },
        },
    }
}

/// Number of element positions `op2(a, b, _)` evaluates: one when both
/// arguments are scalars, otherwise the length of the shortest stream.
pub open spec fn count2<A, B>(a: OneOrMany<A>, b: OneOrMany<B>) -> int {
    match pos_bound(b, pos_bound(a, Option::None)) {
        Option::Some(n) => n,
        Option::None => 1,
    }
}

/// Number of element positions `op3` evaluates.
pub open spec fn count3<A, B, C>(a: OneOrMany<A>, b: OneOrMany<B>, c: OneOrMany<C>) -> int {
    match pos_bound(c, pos_bound(b, pos_bound(a, Option::None))) {
        Option::Some(n) => n,
        Option::None => 1,
    }
}

/// Number of element positions `op4` evaluates.
pub open spec fn count4<A, B, C, D>(
    a: OneOrMany<A>,
    b: OneOrMany<B>,
    c: OneOrMany<C>,
    d: OneOrMany<D>,
) -> int {
    match pos_bound(d, pos_bound(c, pos_bound(b, pos_bound(a, Option::None)))) {
        Option::Some(n) => n,
        Option::None => 1,
    }
}

/// A `usize` bound accumulator, as its mathematical counterpart.
pub open spec fn bound_as_int(acc: Option<usize>) -> Option<int> {
    match acc {
        Option::None => Option::None,
        Option::Some(n) => Option::Some(n as int),
    }
}

/// Read the broadcast element of `v` at position `i`.
fn pick<T: Copy>(v: &OneOrMany<T>, i: usize) -> (r: T)
    requires
        v is Many ==> i < items_of(*v).len(),
    ensures
        r == elem_at(*v, i as int),
{
    match v {
        OneOrMany::One(o) => o.0,
        OneOrMany::Many(m) => m.0[i],
    }
}

/// Whether every argument of a broadcast is a scalar.
fn all_scalar2<A, B>(a: &OneOrMany<A>, b: &OneOrMany<B>) -> (r: bool)
    ensures
        r == (*a is One && *b is One),
{
    matches!(a, OneOrMany::One(_)) && matches!(b, OneOrMany::One(_))
}

/// The number of zip positions, given the bound so far.
fn bound_step<T>(v: &OneOrMany<T>, acc: Option<usize>) -> (r: Option<usize>)
    ensures
        bound_as_int(r) == pos_bound(*v, bound_as_int(acc)),
{
    match v {
        OneOrMany::One(_) => acc,
        OneOrMany::Many(m) => {
            let l = m.0.len();
            match acc {
                Option::None => Option::Some(l),
                Option::Some(n) => if l < n {
                    Option::Some(l)
                } else {
                    Option::Some(n)
                },
            }
        },
    }
}

/// Broadcast a unary operation: a scalar maps to a scalar, a stream maps
/// element-wise to a stream of the same length.
pub fn op1<A: Copy, O, F: Fn(A) -> O>(a: OneOrMany<A>, op: F) -> (r: OneOrMany<O>)
    requires
        forall|i: int|
            0 <= i < count2(a, a) ==> #[trigger] op.requires((elem_at(a, i),)),
    ensures
        a is One ==> r is One && op.ensures((elem_at(a, 0),), scalar_of(r)),
        a is Many ==> {
            &&& r is Many
            &&& items_of(r).len() == items_of(a).len()
            &&& forall|i: int|
                0 <= i < items_of(a).len() ==> op.ensures(
                    (elem_at(a, i),),
                    #[trigger] items_of(r)[i],
                )
        },
{
    let ghost ga = a;
    match a {
        OneOrMany::One(x) => {
            proof {
                assert(op.requires((elem_at(ga, 0),)));
            }
            OneOrMany::One(One(op(x.0)))
        },
        OneOrMany::Many(m) => {
            let n = m.0.len();
            let mut out: Vec<O> = Vec::new();
            let mut i: usize = 0;
            while i < n
                invariant
                    ga is Many,
                    n == items_of(ga).len(),
                    m.0@ == items_of(ga),
                    i <= n,
                    out@.len() == i,
                    forall|j: int|
                        0 <= j < i ==> op.ensures((elem_at(ga, j),), #[trigger] out@[j]),
                    forall|k: int| 0 <= k < n ==> #[trigger] op.requires((elem_at(ga, k),)),
                decreases n - i,
            {
                let x = m.0[i];
                proof {
                    assert(x == elem_at(ga, i as int));
                }
                out.push(op(x));
                i += 1;
            }
            OneOrMany::Many(Many(out))
        },
    }
}

/// Broadcast a binary operation.  When every argument is a scalar the
/// operation is evaluated once and the result is a scalar; otherwise the
/// result is a stream zipping the arguments position-wise, truncated to the
/// shortest stream, with scalar arguments re-read at every position.
pub fn op2<A: Copy, B: Copy, O, F: Fn(A, B) -> O>(
    a: OneOrMany<A>,
    b: OneOrMany<B>,
    op: F,
) -> (r: OneOrMany<O>)
    requires
        forall|i: int|
            0 <= i < count2(a, b) ==> #[trigger] op.requires((elem_at(a, i), elem_at(b, i))),
    ensures
        a is One && b is One ==> r is One && op.ensures(
            (elem_at(a, 0), elem_at(b, 0)),
            scalar_of(r),
        ),
        !(a is One && b is One) ==> {
            &&& r is Many
            &&& items_of(r).len() == count2(a, b)
            &&& forall|i: int|
                0 <= i < count2(a, b) ==> op.ensures(
                    (elem_at(a, i), elem_at(b, i)),
                    #[trigger] items_of(r)[i],
                )
        },
{
    if all_scalar2(&a, &b) {
        let x = pick(&a, 0);
        let y = pick(&b, 0);
        OneOrMany::One(One(op(x, y)))
    } else {
        let nb = bound_step(&b, bound_step(&a, Option::None));
        assert(bound_as_int(nb) is Some);
        let n: usize = match nb {
            Option::Some(v) => v,
            Option::None => 0,
        };
        assert(n == count2(a, b));
        let mut out: Vec<O> = Vec::new();
        let mut i: usize = 0;
        while i < n
            invariant
                !(a is One && b is One),
                n == count2(a, b),
                i <= n,
                out@.len() == i,
                forall|j: int|
                    0 <= j < i ==> op.ensures(
                        (elem_at(a, j), elem_at(b, j)),
                        #[trigger] out@[j],
                    ),
                forall|k: int|
                    0 <= k < n ==> #[trigger] op.requires((elem_at(a, k), elem_at(b, k))),
            decreases n - i,
        {
            let x = pick(&a, i);
            let y = pick(&b, i);
            out.push(op(x, y));
            i += 1;
        }
        OneOrMany::Many(Many(out))
    }
}

/// `op2`, with the two arguments supplied as a pair.
pub fn op2_tuple<A: Copy, B: Copy, O, F: Fn(A, B) -> O>(
    args: (OneOrMany<A>, OneOrMany<B>),
    op: F,
) -> (r: OneOrMany<O>)
    requires
        forall|i: int|
            0 <= i < count2(args.0, args.1) ==> #[trigger] op.requires(
                (elem_at(args.0, i), elem_at(args.1, i)),
            ),
    ensures
        args.0 is One && args.1 is One ==> r is One && op.ensures(
            (elem_at(args.0, 0), elem_at(args.1, 0)),
            scalar_of(r),
        ),
        !(args.0 is One && args.1 is One) ==> {
            &&& r is Many
            &&& items_of(r).len() == count2(args.0, args.1)
            &&& forall|i: int|
                0 <= i < count2(args.0, args.1) ==> op.ensures(
                    (elem_at(args.0, i), elem_at(args.1, i)),
                    #[trigger] items_of(r)[i],
                )
        },
{
    let (a, b) = args;
    op2(a, b, op)
}

/// Broadcast a ternary operation; see `op2`.
pub fn op3<A: Copy, B: Copy, C: Copy, O, F: Fn(A, B, C) -> O>(
    a: OneOrMany<A>,
    b: OneOrMany<B>,
    c: OneOrMany<C>,
    op: F,
) -> (r: OneOrMany<O>)
    requires
        forall|i: int|
            0 <= i < count3(a, b, c) ==> #[trigger] op.requires(
                (elem_at(a, i), elem_at(b, i), elem_at(c, i)),
            ),
    ensures
        a is One && b is One && c is One ==> r is One && op.ensures(
            (elem_at(a, 0), elem_at(b, 0), elem_at(c, 0)),
            scalar_of(r),
        ),
        !(a is One && b is One && c is One) ==> {
            &&& r is Many
            &&& items_of(r).len() == count3(a, b, c)
            &&& forall|i: int|
                0 <= i < count3(a, b, c) ==> op.ensures(
                    (elem_at(a, i), elem_at(b, i), elem_at(c, i)),
                    #[trigger] items_of(r)[i],
                )
        },
{
    if matches!(a, OneOrMany::One(_)) && matches!(b, OneOrMany::One(_)) && matches!(
        c,
        OneOrMany::One(_),
    ) {
        let x = pick(&a, 0);
        let y = pick(&b, 0);
        let z = pick(&c, 0);
        OneOrMany::One(One(op(x, y, z)))
    } else {
        let nb = bound_step(&c, bound_step(&b, bound_step(&a, Option::None)));
        assert(bound_as_int(nb) is Some);
        let n: usize = match nb {
            Option::Some(v) => v,
            Option::None => 0,
        };
        assert(n == count3(a, b, c));
        let mut out: Vec<O> = Vec::new();
        let mut i: usize = 0;
        while i < n
            invariant
                !(a is One && b is One && c is One),
                n == count3(a, b, c),
                i <= n,
                out@.len() == i,
                forall|j: int|
                    0 <= j < i ==> op.ensures(
                        (elem_at(a, j), elem_at(b, j), elem_at(c, j)),
                        #[trigger] out@[j],
                    ),
                forall|k: int|
                    0 <= k < n ==> #[trigger] op.requires(
                        (elem_at(a, k), elem_at(b, k), elem_at(c, k)),
                    ),
            decreases n - i,
        {
            let x = pick(&a, i);
            let y = pick(&b, i);
            let z = pick(&c, i);
            out.push(op(x, y, z));
            i += 1;
        }
        OneOrMany::Many(Many(out))
    }
}

/// Broadcast a four-argument operation; see `op2`.
pub fn op4<A: Copy, B: Copy, C: Copy, D: Copy, O, F: Fn(A, B, C, D) -> O>(
    a: OneOrMany<A>,
    b: OneOrMany<B>,
    c: OneOrMany<C>,
    d: OneOrMany<D>,
    op: F,
) -> (r: OneOrMany<O>)
    requires
        forall|i: int|
            0 <= i < count4(a, b, c, d) ==> #[trigger] op.requires(
                (elem_at(a, i), elem_at(b, i), elem_at(c, i), elem_at(d, i)),
            ),
    ensures
        a is One && b is One && c is One && d is One ==> r is One && op.ensures(
            (elem_at(a, 0), elem_at(b, 0), elem_at(c, 0), elem_at(d, 0)),
            scalar_of(r),
        ),
        !(a is One && b is One && c is One && d is One) ==> {
            &&& r is Many
            &&& items_of(r).len() == count4(a, b, c, d)
            &&& forall|i: int|
                0 <= i < count4(a, b, c, d) ==> op.ensures(
                    (elem_at(a, i), elem_at(b, i), elem_at(c, i), elem_at(d, i)),
                    #[trigger] items_of(r)[i],
                )
        },
{
    if matches!(a, OneOrMany::One(_)) && matches!(b, OneOrMany::One(_)) && matches!(
        c,
        OneOrMany::One(_),
    ) && matches!(d, OneOrMany::One(_)) {
        let x = pick(&a, 0);
        let y = pick(&b, 0);
        let z = pick(&c, 0);
        let w = pick(&d, 0);
        OneOrMany::One(One(op(x, y, z, w)))
    } else {
        let nb = bound_step(&d, bound_step(&c, bound_step(&b, bound_step(&a, Option::None))));
        assert(bound_as_int(nb) is Some);
        let n: usize = match nb {
            Option::Some(v) => v,
            Option::None => 0,
        };
        assert(n == count4(a, b, c, d));
        let mut out: Vec<O> = Vec::new();
        let mut i: usize = 0;
        while i < n
            invariant
                !(a is One && b is One && c is One && d is One),
                n == count4(a, b, c, d),
                i <= n,
                out@.len() == i,
                forall|j: int|
                    0 <= j < i ==> op.ensures(
                        (elem_at(a, j), elem_at(b, j), elem_at(c, j), elem_at(d, j)),
                        #[trigger] out@[j],
                    ),
                forall|k: int|
                    0 <= k < n ==> #[trigger] op.requires(
                        (elem_at(a, k), elem_at(b, k), elem_at(c, k), elem_at(d, k)),
                    ),
            decreases n - i,
        {
            let x = pick(&a, i);
            let y = pick(&b, i);
            let z = pick(&c, i);
            let w = pick(&d, i);
            out.push(op(x, y, z, w));
            i += 1;
        }
        OneOrMany::Many(Many(out))
    }
}

} // verus!
