//! Node capabilities: declaring accepted shapes, and the pure transform
//! from an ordered run of type-erased values to one type-erased output.

use vstd::prelude::*;

use crate::erase::{kinds_of, DynValue, TypeKey};
use crate::reflect::{InfoModel, PossibleInputs};

verus! {

/// Whether some declared shape has the same length as the run and matches
/// its runtime type at every position.
pub open spec fn some_group_matches(gs: Seq<Seq<InfoModel>>, ks: Seq<TypeKey>) -> bool {
    exists|g: int|
        0 <= g < gs.len() && #[trigger] gs[g].len() == ks.len() && forall|j: int|
            0 <= j < ks.len() ==> gs[g][j].type_id == ks[j]
}

/// Whether one declared shape matches the run exactly, position by
/// position and with the same length.
fn one_group_matches(group: &crate::reflect::InputGroup, inputs: &Vec<DynValue>) -> (r: bool)
    ensures
        r == (group.models().len() == kinds_of(inputs@).len() && forall|j: int|
            0 <= j < kinds_of(inputs@).len() ==> group.models()[j].type_id == kinds_of(
                inputs@,
            )[j]),
{
    let ghost ms = group.models();
    let ghost ks = kinds_of(inputs@);
    if group.info.len() != inputs.len() {
        return false;
    }
    let mut j: usize = 0;
    while j < inputs.len()
        invariant
            ms == group.models(),
            ks == kinds_of(inputs@),
            ms.len() == group.info@.len(),
            ks.len() == inputs@.len(),
            ms.len() == ks.len(),
            j <= ks.len(),
            forall|y: int| 0 <= y < j ==> ms[y].type_id == ks[y],
        decreases ks.len() - j,
    {
        let k = inputs[j].kind();
        if !(group.info[j].type_id == k) {
            proof {
                assert(ms[j as int] == group.info@[j as int].model());
                assert(ks[j as int] == inputs@[j as int].kind_spec());
                assert(ms[j as int].type_id != ks[j as int]);
            }
            return false;
        }
        j += 1;
    }
    true
}

/// Check whether some declared shape matches the run exactly, without
/// materialising an assembled bundle.
pub fn catalogue_matches(pi: &PossibleInputs, inputs: &Vec<DynValue>) -> (r: bool)
    ensures
        r == some_group_matches(pi.models(), kinds_of(inputs@)),
{
    let ghost gs = pi.models();
    let ghost ks = kinds_of(inputs@);
    let mut g: usize = 0;
    while g < pi.groups.len()
        invariant
            gs == pi.models(),
            ks == kinds_of(inputs@),
            gs.len() == pi.groups@.len(),
            g <= gs.len(),
            forall|x: int|
                0 <= x < g ==> !(#[trigger] gs[x].len() == ks.len() && forall|j: int|
                    0 <= j < ks.len() ==> gs[x][j].type_id == ks[j]),
        decreases gs.len() - g,
    {
        let group = &pi.groups[g];
        if one_group_matches(group, inputs) {
            proof {
                assert(gs[g as int].len() == ks.len() && forall|j: int|
                    0 <= j < ks.len() ==> gs[g as int][j].type_id == ks[j]);
            }
            return true;
        }
        g += 1;
    }
    false
}

/// The input-declaration capability of a node.
pub trait NodeInput {
    /// The shapes the node accepts.
    spec fn inputs_spec(&self) -> Seq<Seq<InfoModel>>;

    /// Whether the node takes an unbounded homogeneous run of inputs.
    spec fn variadic_spec(&self) -> bool;

    /// Whether the node is a source that takes no graph-supplied inputs.
    spec fn is_terminator_spec(&self) -> bool;

    /// The full catalogue of accepted shapes.
    fn inputs(&self) -> (r: PossibleInputs)
        ensures
            r.models() == self.inputs_spec(),
    ;

    /// Whether the node takes an unbounded homogeneous run of inputs.
    fn variadic(&self) -> (r: bool)
        ensures
            r == self.variadic_spec(),
    ;

    /// Whether the node is a source that takes no graph-supplied inputs.
    fn is_terminator(&self) -> (r: bool)
        ensures
            r == self.is_terminator_spec(),
    ;

    /// Whether some declared shape matches the run exactly, position by
    /// position.
    fn inputs_match(&self, inputs: &Vec<DynValue>) -> (r: bool)
        ensures
            r == some_group_matches(self.inputs_spec(), kinds_of(inputs@)),
    {
        let pi = self.inputs();
        catalogue_matches(&pi, inputs)
    }
}

/// The output capability of a node: one pure transform from an ordered
/// run of type-erased values to one type-erased output, or failure.
pub trait NodeOutput: Sized {
    /// How one call of `op` relates the run it was handed, its result,
    /// the values it left behind, and the node state it left.
    spec fn op_rel(
        self,
        inputs: Seq<DynValue>,
        r: Result<DynValue, ()>,
        leftover: Seq<DynValue>,
        next: Self,
    ) -> bool;

    /// Transform the run into one output value, or fail without one.
    fn op(&mut self, inputs: &mut Vec<DynValue>) -> (r: Result<DynValue, ()>)
        ensures
            old(self).op_rel(old(inputs)@, r, final(inputs)@, *final(self)),
    ;
}

/// A node: declared shapes, the transform, and a stable display name.
pub trait Node: NodeInput + NodeOutput {
    /// The display name.
    spec fn name_spec(&self) -> Seq<char>;

    /// The display name.
    fn name(&self) -> (r: &'static str)
        ensures
            r@ == self.name_spec(),
    ;
}

} // verus!
