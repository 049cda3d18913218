use gemini::iterable::slice::Reversed;
use gemini::iterable::{collect, Iterable, Pass};

#[test]
fn a_slice_yields_its_items_in_order() {
    let v = vec![3u32, 1, 4, 1, 5];
    let s = v.as_slice();
    assert_eq!(Iterable::len(&s), 5);
    assert_eq!(collect(Iterable::iter(&s)), vec![3, 1, 4, 1, 5]);
    assert_eq!(collect(Iterable::iter(&s)), vec![3, 1, 4, 1, 5]);
}

#[test]
fn an_empty_slice_yields_nothing() {
    let v: Vec<u8> = Vec::new();
    let s = v.as_slice();
    assert_eq!(Iterable::len(&s), 0);
    let mut pass = Iterable::iter(&s);
    assert_eq!(pass.next(), None);
    assert_eq!(pass.next(), None);
    assert_eq!(pass.advance_by(0), Ok(()));
    assert_eq!(pass.advance_by(1), Err(0));
}

#[test]
fn a_range_yields_its_integers() {
    let r = 3usize..7;
    assert_eq!(Iterable::len(&r), 4);
    assert_eq!(collect(Iterable::iter(&r)), vec![3, 4, 5, 6]);
    assert_eq!(collect(Iterable::iter(&r)), vec![3, 4, 5, 6]);
}

#[test]
fn an_empty_or_inverted_range_yields_nothing() {
    let r = 5usize..5;
    assert_eq!(Iterable::len(&r), 0);
    assert_eq!(collect(Iterable::iter(&r)), Vec::<usize>::new());
    let r = 7usize..3;
    assert_eq!(Iterable::len(&r), 0);
    assert_eq!(Iterable::iter(&r).next(), None);
}

#[test]
fn a_range_can_be_skipped_through() {
    let r = 10usize..20;
    let mut pass = Iterable::iter(&r);
    assert_eq!(pass.advance_by(4), Ok(()));
    assert_eq!(pass.next(), Some(14));
    assert_eq!(pass.advance_by(5), Ok(()));
    assert_eq!(pass.next(), None);
    let mut pass = Iterable::iter(&r);
    assert_eq!(pass.advance_by(11), Err(10));
    assert_eq!(pass.next(), None);
}

#[test]
fn reversed_yields_the_slice_backwards() {
    let v = vec![1u64, 2, 3, 4];
    let r = Reversed::new(v.as_slice());
    assert_eq!(Iterable::len(&r), 4);
    assert_eq!(collect(Iterable::iter(&r)), vec![4, 3, 2, 1]);
    assert_eq!(collect(Iterable::iter(&r)), vec![4, 3, 2, 1]);
}

#[test]
fn reversing_twice_gives_the_items_back() {
    let v = vec![7u64, 0, 9, 2, 2, 5];
    let once = collect(Iterable::iter(&Reversed::new(v.as_slice())));
    assert_eq!(once, vec![5, 2, 2, 9, 0, 7]);
    let twice = collect(Iterable::iter(&Reversed::new(once.as_slice())));
    assert_eq!(twice, v);
    let empty: Vec<u64> = Vec::new();
    assert_eq!(collect(Iterable::iter(&Reversed::new(empty.as_slice()))), empty);
}

#[test]
fn skipping_at_once_is_skipping_step_by_step() {
    let v: Vec<u32> = (0..10).collect();
    for k in 0..13usize {
        let mut at_once = Iterable::iter(&v.as_slice());
        let mut by_steps = Iterable::iter(&v.as_slice());
        let outcome = at_once.advance_by(k);
        for _ in 0..k {
            by_steps.next();
        }
        assert_eq!(outcome, if k <= 10 { Ok(()) } else { Err(10) });
        assert_eq!(collect(at_once), collect(by_steps));

        let reversed = Reversed::new(v.as_slice());
        let mut at_once = Iterable::iter(&reversed);
        let mut by_steps = Iterable::iter(&reversed);
        let outcome = at_once.advance_by(k);
        for _ in 0..k {
            by_steps.next();
        }
        assert_eq!(outcome, if k <= 10 { Ok(()) } else { Err(10) });
        assert_eq!(collect(at_once), collect(by_steps));
    }
}

#[test]
fn skipping_leaves_the_items_from_there_on() {
    let v = vec![10u8, 20, 30, 40, 50];
    let mut pass = Iterable::iter(&v.as_slice());
    assert_eq!(pass.advance_by(2), Ok(()));
    assert_eq!(pass.next(), Some(30));
    assert_eq!(pass.advance_by(3), Err(2));
    assert_eq!(pass.next(), None);
    let reversed = Reversed::new(v.as_slice());
    let mut pass = Iterable::iter(&reversed);
    assert_eq!(pass.advance_by(1), Ok(()));
    assert_eq!(pass.next(), Some(40));
    assert_eq!(pass.advance_by(0), Ok(()));
    assert_eq!(collect(pass), vec![30, 20, 10]);
}
