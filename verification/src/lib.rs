//! Runtime core of a node-graph computation engine.
//!
//! Heterogeneous computation units ("nodes") are wired into a directed graph
//! and evaluated.  Each node's parameters may be satisfied by several legal
//! combinations of argument shapes (scalar vs. stream, numeric kind,
//! optional parameters), so every edge carries a dynamically-typed value that
//! is matched, scored, and consumed against the set of shapes the downstream
//! node declares.

pub mod assemble;
pub mod catalogue;
pub mod component;
pub mod erase;
pub mod graph;
pub mod node;
pub mod reflect;
pub mod shader;
pub mod stack;
pub mod values;

pub use assemble::FromAnyProto;
pub use catalogue::{
    AddNode, ArithOp, ArithmeticNodeInput, ConstantNode, DivisionNode, GlobalNode, ModuloNode,
    MultiplyNode, MultiplyNodeInput, NodeKind, Range2DNode, Range2DNodeInput, RangeNode,
    RangeNodeInput, RepeatNode, RepeatNodeInput,
};
pub use component::InputComponent;
pub use erase::{DynValue, OptionalParams, PairParams, RatioParams, TypeKey, WideOrNarrow};
pub use graph::{Connection, ConnectionState, Error, Graph, NodeArena, NodeID};
pub use node::{Node, NodeInput, NodeOutput};
pub use reflect::{InputGroup, InputInfo, PossibleInputs};
pub use shader::{parse_uniforms, split_with_index, ShaderData, ShaderNode, Uniform, UniformType};
pub use stack::InputStack;
pub use values::{op1, op2, op2_tuple, op3, op4, Many, ManyTrait, One, OneOrMany};
