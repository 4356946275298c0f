use nodes::{DynValue, FromAnyProto, InputStack, One, TypeKey, WideOrNarrow};

#[test]
fn basic_test() {
    let mut stack = vec![0, 1, 2, 3];
    let substack = InputStack::new(&stack, 2, 4);

    assert_eq!(substack.as_slice(&stack).iter().sum::<i32>(), 5);
    let vals = substack.consume(&mut stack);
    assert_eq!(vals.get(0), Some(&2));
    assert_eq!(vals.get(1), Some(&3));
    assert_eq!(vals.get(2), None);
}

#[test]
fn sub_test() {
    let mut stack = vec![-1, 0, 1, 2, 3, 4];
    let mut substack1 = InputStack::new(&stack, 1, 5);
    assert_eq!(substack1.as_slice(&stack), &[0, 1, 2, 3]);

    let mut substack2 = substack1.sub(1, 3);
    assert_eq!(substack2.as_slice(&stack), &[1, 2]);

    let substack3 = substack2.sub(0, 1);
    assert_eq!(substack3.consume(&mut stack), vec![1]);
    substack2.note_consumed(1);
    substack1.note_consumed(1);

    assert_eq!(substack2.consume(&mut stack), vec![2]);
    substack1.note_consumed(1);

    assert_eq!(substack1.consume(&mut stack), vec![0, 3]);
    assert_eq!(stack, vec![-1, 4]);
}

#[test]
fn box_test() {
    let stack: Vec<DynValue> = vec![
        DynValue::OneU(One::new(5)),
        DynValue::OneText(One::new(String::from("x"))),
    ];
    let substack = InputStack::whole(&stack);

    let count = substack
        .deref_iter(&stack)
        .iter()
        .filter(|k| **k == TypeKey::OneText)
        .count();
    assert_eq!(count, 1);
}

#[test]
fn rollback_leaves_buffer_unchanged() {
    let mut buffer: Vec<DynValue> = vec![DynValue::OneText(One::new(String::from("nope")))];
    let before = buffer.clone();
    let mut view = InputStack::whole(&buffer);
    let r = WideOrNarrow::from_any(&mut buffer, &mut view);
    assert!(r.is_err());
    assert_eq!(before, buffer);
    assert_eq!(view.lo, 0);
    assert_eq!(view.hi, 1);
}
