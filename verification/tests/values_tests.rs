use nodes::{op1, op2, op3, op4, Many, One, OneOrMany};

#[test]
fn it_works() {
    assert_eq!(2, 1 + 1);
}

#[test]
fn chain_test() {
    let x = OneOrMany::Many(Many::from((0u32..3).collect::<Vec<_>>()));
    let y = OneOrMany::Many(Many::from((3u32..6).collect::<Vec<_>>()));

    fn repeat(count: u32, v: OneOrMany<u32>) -> Many<u32> {
        match v {
            OneOrMany::One(o) => {
                let v = o.inner();
                Many::from((0..count).map(move |_| v).collect::<Vec<_>>())
            }
            OneOrMany::Many(m) => {
                let items = m.inner();
                Many::from(
                    (0..count)
                        .flat_map(|r| items.iter().map(move |_| r))
                        .collect::<Vec<_>>(),
                )
            }
        }
    }

    fn range(count: OneOrMany<u32>) -> Many<u32> {
        match count {
            OneOrMany::One(o) => Many::from((0..o.inner()).collect::<Vec<_>>()),
            OneOrMany::Many(m) => {
                let items = m.inner();
                Many::from(
                    items
                        .iter()
                        .flat_map(|_| items.iter().copied())
                        .collect::<Vec<_>>(),
                )
            }
        }
    }

    let x = repeat(3, x);
    let y = range(y);
    let v = x
        .inner()
        .into_iter()
        .zip(y.inner().into_iter())
        .collect::<Vec<_>>();

    let control = (0u32..3)
        .flat_map(|x| (3u32..6).map(move |y| (x, y)))
        .collect::<Vec<_>>();
    assert_eq!(control, v);
}

#[test]
fn one_or_many() {
    {
        let a = OneOrMany::One(One::new(2u32));
        let b = OneOrMany::One(One::new(3u32));
        let c = op2(a, b, |x: u32, y: u32| x * y);
        match c {
            OneOrMany::One(c) => assert_eq!(6u32, c.inner()),
            OneOrMany::Many(_) => panic!(),
        }
    }

    {
        let a = OneOrMany::One(One::new(2u32));
        let b = OneOrMany::Many(Many::from((3u32..5u32).collect::<Vec<_>>()));
        let c = op2(a, b, |x: u32, y: u32| x * y);
        match c {
            OneOrMany::One(_) => panic!(),
            OneOrMany::Many(c) => assert_eq!(vec![6, 8], c.collect()),
        }
    }

    {
        let a = OneOrMany::One(One::new(2u32));
        let b = OneOrMany::Many(Many::from((3u32..5u32).collect::<Vec<_>>()));
        let c = op2(a, b, |x: u32, y: u32| x * y);
        match c {
            OneOrMany::One(_) => panic!(),
            OneOrMany::Many(c) => assert_eq!(vec![6, 8], c.collect()),
        }
    }

    {
        let a = OneOrMany::Many(Many::from((3u32..5u32).collect::<Vec<_>>()));
        let b = OneOrMany::Many(Many::from((3u32..5u32).collect::<Vec<_>>()));
        let c = op2(a, b, |x: u32, y: u32| x * y);
        match c {
            OneOrMany::One(_) => panic!(),
            OneOrMany::Many(c) => assert_eq!(vec![9, 16], c.collect()),
        }
    }

    {
        let a = OneOrMany::One(One::new(2u32));
        let b = OneOrMany::One(One::new(3u32));
        let c = OneOrMany::One(One::new(4u32));
        let out = op3(a, b, c, |a, b, c| a + b + c);
        match out {
            OneOrMany::One(out) => assert_eq!(2 + 3 + 4, out.inner()),
            OneOrMany::Many(_) => panic!(),
        }
    }

    {
        let a = OneOrMany::Many(Many::from((3u32..5u32).collect::<Vec<_>>()));
        let b = OneOrMany::One(One::new(0u32));
        let c = OneOrMany::Many(Many::from((3u32..5u32).collect::<Vec<_>>()));
        let out = op3(a, b, c, |a, b, c| a + b + c);
        match out {
            OneOrMany::One(_) => panic!(),
            OneOrMany::Many(out) => assert_eq!(vec![6, 8], out.collect()),
        }
    }

    {
        let a = OneOrMany::Many(Many::from((3u32..5u32).collect::<Vec<_>>()));
        let b = OneOrMany::Many(Many::from((3u32..5u32).collect::<Vec<_>>()));
        let c = OneOrMany::Many(Many::from((3u32..5u32).collect::<Vec<_>>()));
        let out = op3(a, b, c, |a, b, c| a + b + c);
        match out {
            OneOrMany::One(_) => panic!(),
            OneOrMany::Many(out) => assert_eq!(vec![9, 12], out.collect()),
        }
    }
}

#[test]
fn broadcast_unary_and_quaternary() {
    let a = OneOrMany::Many(Many::from(vec![1u32, 2, 3]));
    let out = op1(a, |x: u32| x + 10);
    match out {
        OneOrMany::One(_) => panic!(),
        OneOrMany::Many(m) => assert_eq!(vec![11, 12, 13], m.collect()),
    }

    let a = OneOrMany::One(One::new(1u32));
    let b = OneOrMany::Many(Many::from(vec![10u32, 20]));
    let c = OneOrMany::One(One::new(100u32));
    let d = OneOrMany::Many(Many::from(vec![1000u32, 2000, 3000]));
    let out = op4(a, b, c, d, |a, b, c, d| a + b + c + d);
    match out {
        OneOrMany::One(_) => panic!(),
        OneOrMany::Many(m) => assert_eq!(vec![1111, 2121], m.collect()),
    }
}

#[test]
fn broadcast_all_scalars_stays_scalar() {
    let a = OneOrMany::One(One::new(7u32));
    let b = OneOrMany::One(One::new(6u32));
    let c = OneOrMany::One(One::new(5u32));
    let d = OneOrMany::One(One::new(4u32));
    match op4(a, b, c, d, |a, b, c, d| a + b + c + d) {
        OneOrMany::One(o) => assert_eq!(22, o.inner()),
        OneOrMany::Many(_) => panic!(),
    }
}
