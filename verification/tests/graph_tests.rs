use nodes::{
    AddNode, ConnectionState, ConstantNode, DivisionNode, DynValue, GlobalNode, Graph, InputGroup,
    InputInfo, Many, ModuloNode, MultiplyNode, Node, NodeInput, NodeKind, NodeOutput, One,
    NodeID, PossibleInputs, Range2DNode, RangeNode, RepeatNode, TypeKey,
};

#[test]
fn multiply_inputs() {
    let inputs = MultiplyNode.inputs();
    assert_eq!(18, inputs.groups.len());
}

#[test]
fn add_inputs_cover_every_pair() {
    assert_eq!(36, AddNode.inputs().groups.len());
    assert_eq!(36, DivisionNode.inputs().groups.len());
    assert_eq!(36, ModuloNode.inputs().groups.len());
}

#[test]
fn best_match() {
    let mk = |id: TypeKey| InputInfo {
        name: String::from("arg"),
        ty_name: String::from("i64"),
        type_id: id,
        optional: false,
    };
    let group = InputGroup {
        info: vec![
            mk(TypeKey::OneSigned),
            mk(TypeKey::OneSigned),
            mk(TypeKey::OneSigned),
            mk(TypeKey::OneSigned),
        ],
    };
    let input_info = PossibleInputs::new(vec![group]);
    let inputs: Vec<DynValue> = vec![
        DynValue::OneS(One::new(1i64)),
        DynValue::OneS(One::new(2i64)),
        DynValue::OneS(One::new(3i64)),
        DynValue::OneU(One::new(4u32)),
    ];
    let group = input_info.best_match(&inputs).expect("expected error");
    assert_eq!(3, group.score(&inputs));
}

#[test]
fn connect_replaces_same_slot() {
    let mut graph = Graph::with_root(NodeKind::Multiply(MultiplyNode));
    let root = graph.root();
    let a = graph.add_node(NodeKind::Constant(ConstantNode::Unsigned(1)));
    let c = graph.add_node(NodeKind::Constant(ConstantNode::Unsigned(2)));
    graph.connect(a, root, 0);
    graph.connect(c, root, 0);
    let into_slot = graph
        .connections()
        .iter()
        .filter(|conn| conn.to == root && conn.input == 0)
        .collect::<Vec<_>>();
    assert_eq!(1, into_slot.len());
    assert_eq!(c, into_slot[0].from);
    assert_eq!(ConnectionState::Unevaluated, into_slot[0].state);
}

#[test]
fn range_from_constant() {
    let mut graph = Graph::with_root(NodeKind::Range(RangeNode));
    let root = graph.root();
    let constant = graph.add_node(NodeKind::Constant(ConstantNode::Unsigned(3)));
    graph.connect(constant, root, 0);
    let output = graph.execute().unwrap();
    match output {
        DynValue::ManyU(m) => assert_eq!(vec![0, 1, 2], m.collect()),
        _ => panic!(),
    }
}

#[test]
fn stream_broadcast_end_to_end() {
    let mut graph = Graph::with_root(NodeKind::Multiply(MultiplyNode));
    let root = graph.root();
    let count = graph.add_node(NodeKind::Constant(ConstantNode::Unsigned(3)));
    let stream = graph.add_node(NodeKind::Range(RangeNode));
    let scalar = graph.add_node(NodeKind::Constant(ConstantNode::Unsigned(3)));
    graph.connect(count, stream, 0);
    graph.connect(stream, root, 0);
    graph.connect(scalar, root, 1);
    let output = graph.execute().unwrap();
    match output {
        DynValue::ManyU(m) => assert_eq!(vec![0, 3, 6], m.collect()),
        _ => panic!(),
    }
    assert!(graph
        .connections()
        .iter()
        .all(|c| c.state == ConnectionState::Valid));
}

#[test]
fn failure_marks_connections_invalid() {
    let mut graph = Graph::with_root(NodeKind::Range(RangeNode));
    let root = graph.root();
    let signed = graph.add_node(NodeKind::Constant(ConstantNode::Signed(1)));
    graph.connect(signed, root, 0);
    let result = graph.execute();
    assert!(result.is_err());
    let err = result.err().unwrap();
    assert_eq!(root, err.executing_node);
    let incoming = graph
        .connections()
        .iter()
        .filter(|c| c.to == root)
        .collect::<Vec<_>>();
    assert_eq!(1, incoming.len());
    assert_eq!(ConnectionState::Invalid, incoming[0].state);
    assert!(!incoming.iter().any(|c| c.state == ConnectionState::Valid));
}

#[test]
fn cycle_fails_instead_of_diverging() {
    let mut graph = Graph::with_root(NodeKind::Add(AddNode));
    let root = graph.root();
    let other = graph.add_node(NodeKind::Add(AddNode));
    graph.connect(other, root, 0);
    graph.connect(root, other, 0);
    assert!(graph.execute().is_err());
}

#[test]
fn remove_node_prunes_edges() {
    let mut graph = Graph::with_root(NodeKind::Multiply(MultiplyNode));
    let root = graph.root();
    let a = graph.add_node(NodeKind::Constant(ConstantNode::Unsigned(1)));
    let b = graph.add_node(NodeKind::Constant(ConstantNode::Unsigned(2)));
    graph.connect(a, root, 0);
    graph.connect(b, root, 1);
    let removed = graph.remove_node(a);
    assert!(removed.is_some());
    assert!(graph.connections().iter().all(|c| c.from != a && c.to != a));
    assert_eq!(1, graph.connections().len());
    assert!(graph.remove_node(root).is_none());
    assert!(graph.nodes().contains(root));
    assert!(!graph.nodes().contains(a));
}

#[test]
fn disconnect_removes_one_edge() {
    let mut graph = Graph::with_root(NodeKind::Multiply(MultiplyNode));
    let root = graph.root();
    let a = graph.add_node(NodeKind::Constant(ConstantNode::Unsigned(1)));
    let b = graph.add_node(NodeKind::Constant(ConstantNode::Unsigned(2)));
    graph.connect(a, root, 0);
    graph.connect(b, root, 1);
    graph.disconnect(a, root, 0);
    assert_eq!(1, graph.connections().len());
    assert_eq!(b, graph.connections()[0].from);
}

#[test]
fn division_by_zero_yields_zero() {
    let mut buffer: Vec<DynValue> = vec![
        DynValue::OneU(One::new(7u32)),
        DynValue::OneU(One::new(0u32)),
    ];
    let mut node = DivisionNode;
    let out = node.op(&mut buffer).unwrap();
    assert_eq!(out, DynValue::OneU(One::new(0u32)));
    assert!(buffer.is_empty());
}

#[test]
fn modulo_and_add_values() {
    let mut buffer: Vec<DynValue> = vec![
        DynValue::OneU(One::new(7u32)),
        DynValue::OneU(One::new(4u32)),
    ];
    let mut node = ModuloNode;
    assert_eq!(
        node.op(&mut buffer).unwrap(),
        DynValue::OneU(One::new(3u32))
    );

    let mut buffer: Vec<DynValue> = vec![
        DynValue::OneS(One::new(-2i64)),
        DynValue::OneU(One::new(4u32)),
    ];
    let mut node = AddNode;
    assert_eq!(
        node.op(&mut buffer).unwrap(),
        DynValue::OneS(One::new(2i64))
    );
}

#[test]
fn multiply_streams_positionally() {
    let mut buffer: Vec<DynValue> = Vec::new();
    buffer.push(DynValue::OneU(One::new(2u32)));
    buffer.push(DynValue::ManyU(Many::from(vec![2u32, 3, 4])));
    assert!(MultiplyNode.inputs_match(&buffer));

    let mut node = MultiplyNode;
    let output = node.op(&mut buffer).unwrap();
    assert!(buffer.is_empty());
    buffer.push(output);
    buffer.push(DynValue::ManyU(Many::from(vec![3u32, 4, 5])));
    let output = node.op(&mut buffer).unwrap();
    match output {
        DynValue::ManyU(m) => assert_eq!(vec![12u32, 24, 40], m.collect()),
        _ => panic!(),
    }
}

#[test]
fn repeat_and_range2d_values() {
    let mut buffer: Vec<DynValue> = vec![
        DynValue::OneU(One::new(3u32)),
        DynValue::EitherU(nodes::OneOrMany::One(One::new(9u32))),
    ];
    let mut node = RepeatNode;
    match node.op(&mut buffer).unwrap() {
        DynValue::ManyU(m) => assert_eq!(vec![9, 9, 9], m.collect()),
        _ => panic!(),
    }

    let mut buffer: Vec<DynValue> = vec![
        DynValue::OneU(One::new(2u32)),
        DynValue::OneU(One::new(3u32)),
    ];
    let mut node = Range2DNode;
    match node.op(&mut buffer).unwrap() {
        DynValue::ManyU(m) => assert_eq!(vec![0, 1, 2, 3, 4, 5], m.collect()),
        _ => panic!(),
    }
}

#[test]
fn global_tick_is_explicit_state() {
    let mut g = GlobalNode { tick: 7 };
    assert_eq!(7, g.load());
    let before = g.incr();
    assert_eq!(7, before);
    assert_eq!(8, g.load());
    let mut buffer: Vec<DynValue> = Vec::new();
    assert_eq!(
        g.op(&mut buffer).unwrap(),
        DynValue::OneU(One::new(8u32))
    );
    assert!(g.is_terminator());
}

#[test]
fn node_names_are_stable() {
    assert_eq!("multiply", NodeKind::Multiply(MultiplyNode).name());
    assert_eq!("range", NodeKind::Range(RangeNode).name());
    assert_eq!("constant", NodeKind::Constant(ConstantNode::Unsigned(0)).name());
    assert_eq!("2d range", NodeKind::Range2D(Range2DNode).name());
}

#[test]
fn node_mut_updates_one_node() {
    let mut graph = Graph::with_root(NodeKind::Multiply(MultiplyNode));
    let tick = graph.add_node(NodeKind::Global(GlobalNode { tick: 1 }));
    match graph.node_mut(tick) {
        Some(NodeKind::Global(g)) => {
            g.incr();
        }
        _ => panic!(),
    }
    match graph.nodes().get(tick) {
        Some(NodeKind::Global(g)) => assert_eq!(2, g.load()),
        _ => panic!(),
    }
    assert!(graph.node_mut(NodeID { idx: 99 }).is_none());
}
