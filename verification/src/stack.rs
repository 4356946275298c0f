//! The argument stack: a view over a contiguous range of a shared backing
//! buffer of pending values.
//!
//! A view never touches the buffer except through [`InputStack::consume`],
//! so trying a candidate shape against a narrowed view and abandoning it
//! leaves the backing buffer exactly as it was found.  When a child view
//! does consume, the enclosing view is told through
//! [`InputStack::note_consumed`] so that its range keeps spanning only the
//! values that remain.

use vstd::prelude::*;

verus! {

/// A view of the backing buffer's range `[lo, hi)`.
#[derive(Debug, Clone, Copy, PartialEq, Eq)]
pub struct InputStack {
    pub lo: usize,
    pub hi: usize,
}

impl InputStack {
    /// The view lies within a buffer holding `s`.
    pub open spec fn wf_for<T>(self, s: Seq<T>) -> bool {
        self.lo <= self.hi <= s.len()
    }

    /// The values the view currently spans.
    pub open spec fn contents<T>(self, s: Seq<T>) -> Seq<T> {
        s.subrange(self.lo as int, self.hi as int)
    }

    pub open spec fn spec_lo(self) -> int {
        self.lo as int
    }

    pub open spec fn spec_hi(self) -> int {
        self.hi as int
    }

    pub open spec fn spec_len(self) -> int {
        self.hi - self.lo
    }

    /// A view over `[lo, hi)` of `buf`.
    pub fn new<T>(buf: &Vec<T>, lo: usize, hi: usize) -> (r: Self)
        requires
            lo <= hi <= buf@.len(),
        ensures
            r.spec_lo() == lo,
            r.spec_hi() == hi,
            r.wf_for(buf@),
    {
        InputStack { lo, hi }
    }

    /// A view spanning all of `buf`.
    pub fn whole<T>(buf: &Vec<T>) -> (r: Self)
        ensures
            r.spec_lo() == 0,
            r.spec_hi() == buf@.len(),
            r.wf_for(buf@),
    {
        InputStack { lo: 0, hi: buf.len() }
    }

    /// How many values the view spans.
    pub fn len(&self) -> (r: usize)
        requires
            self.spec_lo() <= self.spec_hi(),
        ensures
            r == self.spec_len(),
    {
        self.hi - self.lo
    }

    /// Read-only access to the values the view spans.
    pub fn as_slice<'a, T>(&self, buf: &'a Vec<T>) -> (r: &'a [T])
        requires
            self.wf_for(buf@),
        ensures
            r@ == self.contents(buf@),
    {
        vstd::slice::slice_subrange(buf.as_slice(), self.lo, self.hi)
    }

    /// A child view over the sub-range `[at + lo, at + hi)` of this view.
    /// Producing it reads nothing and writes nothing: a child that is
    /// dropped without consuming leaves the buffer and every enclosing view
    /// exactly as they were.
    pub fn sub(&self, lo: usize, hi: usize) -> (r: Self)
        requires
            lo <= hi,
            self.spec_lo() + hi <= self.spec_hi(),
        ensures
            r.spec_lo() == self.spec_lo() + lo,
            r.spec_hi() == self.spec_lo() + hi,
    {
        InputStack { lo: self.lo + lo, hi: self.lo + hi }
    }

    /// Remove the spanned values from the backing buffer and hand them out.
    pub fn consume<T>(self, buf: &mut Vec<T>) -> (r: Vec<T>)
        requires
            self.wf_for(old(buf)@),
        ensures
            r@ == self.contents(old(buf)@),
            final(buf)@ == old(buf)@.subrange(0, self.spec_lo()) + old(buf)@.subrange(
                self.spec_hi(),
                old(buf)@.len() as int,
            ),
    {
        let ghost orig = buf@;
        let mut out: Vec<T> = Vec::new();
        let count = self.hi - self.lo;
        let mut j: usize = 0;
        while j < count
            invariant
                self.lo + count == self.hi <= orig.len(),
                j <= count,
                out@ == orig.subrange(self.lo as int, self.lo + j),
                buf@ == orig.subrange(0, self.lo as int) + orig.subrange(
                    self.lo + j,
                    orig.len() as int,
                ),
            decreases count - j,
        {
            let ghost prev = buf@;
            let v = buf.remove(self.lo);
            proof {
                assert(v == orig[self.lo + j]);
                assert(out@.push(v) =~= orig.subrange(self.lo as int, self.lo + j + 1));
                assert(prev.remove(self.lo as int) =~= orig.subrange(0, self.lo as int)
                    + orig.subrange(self.lo + j + 1, orig.len() as int));
            }
            out.push(v);
            j += 1;
        }
        proof {
            assert(out@ =~= self.contents(orig));
        }
        out
    }

    /// Record that a child view consumed `k` values from within this view:
    /// the range shrinks from the right, so it keeps spanning exactly the
    /// values that remain in the buffer.
    pub fn note_consumed(&mut self, k: usize)
        requires
            k <= old(self).spec_len(),
        ensures
            final(self).spec_lo() == old(self).spec_lo(),
            final(self).spec_hi() == old(self).spec_hi() - k,
    {
        self.hi = self.hi - k;
    }
}

/// Rollback accounting for a nested narrowing: when a child view over
/// `[child_lo, child_hi)` of a well-formed parent consumes its range and
/// the parent is told, the parent's narrowed range spans, in the new
/// buffer, exactly the values it spanned before with the consumed
/// segment cut out.  A child that consumes nothing reports nothing, and
/// the buffer and every enclosing view are left exactly as found.
pub proof fn lemma_child_consumption<T>(
    s: Seq<T>,
    parent: InputStack,
    child_lo: int,
    child_hi: int,
)
    requires
        parent.wf_for(s),
        parent.spec_lo() <= child_lo <= child_hi <= parent.spec_hi(),
    ensures
        (InputStack {
            lo: parent.lo,
            hi: (parent.spec_hi() - (child_hi - child_lo)) as usize,
        }).contents(s.subrange(0, child_lo) + s.subrange(child_hi, s.len() as int))
            =~= parent.contents(s).subrange(0, child_lo - parent.spec_lo()) + parent.contents(
            s,
        ).subrange(child_hi - parent.spec_lo(), parent.spec_len()),
{
}

} // verus!
