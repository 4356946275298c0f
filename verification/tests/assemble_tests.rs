use nodes::{
    DynValue, FromAnyProto, InputComponent, InputStack, One, OneOrMany, OptionalParams,
    PairParams, PossibleInputs, RatioParams, TypeKey, WideOrNarrow,
};

#[test]
fn struct_skip_optional_test() {
    let mut inputs: Vec<DynValue> = vec![];
    inputs.push(DynValue::OneU(One::new(2u32)));
    inputs.push(DynValue::Absent);
    inputs.push(DynValue::OneU(One::new(3u32)));
    let mut view = InputStack::whole(&inputs);
    let d = OptionalParams::from_any(&mut inputs, &mut view).unwrap();
    assert_eq!(
        d,
        OptionalParams {
            required: OneOrMany::One(One::new(2)),
            optional: None,
            optional2: Some(OneOrMany::One(One::new(3)))
        }
    );
}

#[test]
fn struct_optional_test() {
    let names = vec!["required", "optional", "optional2"];
    let possible_inputs: PossibleInputs = OptionalParams::possible_inputs(&names);
    let optional_count = possible_inputs.groups.iter().fold(0, |acc, group| {
        acc + group.info.iter().filter(|info| info.optional).count()
    });
    let required_count = possible_inputs.groups.iter().fold(0, |acc, group| {
        acc + group.info.iter().filter(|info| !info.optional).count()
    });
    assert_eq!(optional_count, required_count * 2);

    let mut inputs: Vec<DynValue> = vec![];
    inputs.push(DynValue::OneU(One::new(2u32)));
    let mut view = InputStack::whole(&inputs);
    let d = OptionalParams::from_any(&mut inputs, &mut view).unwrap();
    assert_eq!(
        d,
        OptionalParams {
            required: OneOrMany::One(One::new(2)),
            optional: None,
            optional2: None
        }
    );

    inputs.push(DynValue::OneU(One::new(2u32)));
    inputs.push(DynValue::OneU(One::new(3u32)));
    let mut view = InputStack::whole(&inputs);
    let d = OptionalParams::from_any(&mut inputs, &mut view).unwrap();
    assert_eq!(
        d,
        OptionalParams {
            required: OneOrMany::One(One::new(2)),
            optional: Some(OneOrMany::One(One::new(3))),
            optional2: None
        }
    );
}

#[test]
fn optional_rejects_short_run() {
    let mut inputs: Vec<DynValue> = vec![];
    let mut view = InputStack::whole(&inputs);
    assert!(OptionalParams::from_any(&mut inputs, &mut view).is_err());

    let mut inputs: Vec<DynValue> = vec![DynValue::OneText(One::new(String::from("w")))];
    let before = inputs.clone();
    let mut view = InputStack::whole(&inputs);
    assert!(OptionalParams::from_any(&mut inputs, &mut view).is_err());
    assert_eq!(before, inputs);
}

#[test]
fn input_list_struct_test() {
    let names = vec!["numerator", "denominator"];
    let inputs = RatioParams::possible_inputs(&names);
    assert_eq!(inputs.groups.len(), 9);
    assert!(inputs.groups.iter().all(|group| group.info.len() == 2));
}

#[test]
fn input_list_enum_test() {
    let names = vec!["lhs", "rhs"];
    let inputs = WideOrNarrow::possible_inputs(&names);
    assert_eq!(inputs.groups.len(), 6);
    assert_eq!(
        inputs
            .groups
            .iter()
            .filter(|group| group.info.len() == 2)
            .count(),
        3
    );
    assert_eq!(
        inputs
            .groups
            .iter()
            .filter(|group| group.info.len() == 1)
            .count(),
        3
    );
}

#[test]
fn from_any_struct_test() {
    let mut inputs: Vec<DynValue> = vec![];
    inputs.push(DynValue::OneU(One::new(1u32)));
    inputs.push(DynValue::OneU(One::new(2u32)));
    let mut view = InputStack::whole(&inputs);
    let result = PairParams::from_any(&mut inputs, &mut view);
    assert_eq!(
        result.ok(),
        Some(PairParams {
            lhs: OneOrMany::One(One::new(1)),
            rhs: One::new(2)
        })
    );
}

#[test]
fn from_any_enum_test() {
    let mut inputs: Vec<DynValue> = vec![];
    inputs.push(DynValue::OneU(One::new(1u32)));
    let mut view = InputStack::whole(&inputs);
    let result = WideOrNarrow::from_any(&mut inputs, &mut view);
    assert_eq!(
        result.ok(),
        Some(WideOrNarrow::Single(OneOrMany::One(One::new(1))))
    );
}

#[test]
fn input_component_struct_test() {
    let inner = PairParams {
        lhs: OneOrMany::One(One::new(1)),
        rhs: One::new(2),
    };
    let v = DynValue::Pair(inner.clone());
    assert!(PairParams::is(&v));
    assert_eq!(PairParams::downcast(v).ok(), Some(inner.clone()));
    assert_eq!(PairParams::type_ids(), vec![TypeKey::PairValue]);
}

#[test]
fn input_component_enum_test() {
    let inner = WideOrNarrow::Pair(PairParams {
        lhs: OneOrMany::One(One::new(1)),
        rhs: One::new(2),
    });
    let v = DynValue::Wide(inner.clone());
    assert!(WideOrNarrow::is(&v));
    assert_eq!(WideOrNarrow::downcast(v).ok(), Some(inner.clone()));
    let types_ids: Vec<TypeKey> = WideOrNarrow::type_ids();
    assert_eq!(types_ids.len(), 3);
    assert!(types_ids.contains(&TypeKey::WideValue));
    assert!(types_ids.contains(&TypeKey::PairValue));
    assert!(types_ids.contains(&TypeKey::EitherUnsigned));
}

#[test]
fn mismatching_downcast_returns_value() {
    let v = DynValue::OneU(One::new(9u32));
    match <One<i64> as InputComponent>::downcast(v) {
        Ok(_) => panic!(),
        Err(back) => assert_eq!(back, DynValue::OneU(One::new(9u32))),
    }
}

#[test]
fn cartesian_order_is_rightmost_fastest() {
    let names = vec!["numerator", "denominator"];
    let pi = RatioParams::possible_inputs(&names);
    let ids = pi
        .groups
        .iter()
        .map(|g| (g.info[0].type_id, g.info[1].type_id))
        .collect::<Vec<_>>();
    assert_eq!(ids[0], (TypeKey::ManySigned, TypeKey::ManyUnsigned));
    assert_eq!(ids[1], (TypeKey::ManySigned, TypeKey::OneUnsigned));
    assert_eq!(ids[2], (TypeKey::ManySigned, TypeKey::EitherUnsigned));
    assert_eq!(ids[3], (TypeKey::OneSigned, TypeKey::ManyUnsigned));
    assert_eq!(ids[8], (TypeKey::EitherSigned, TypeKey::EitherUnsigned));
    assert_eq!(pi.groups[0].info[0].name, "numerator");
    assert_eq!(pi.groups[0].info[1].name, "denominator");
}
