use ark_bls12_381::Fr;
use ark_ff::{One, PrimeField};
use ark_std::UniformRand;
use gemini::field::Scalar;
use gemini::iterable::slice::Reversed;
use gemini::iterable::{collect, Pass};
use gemini::psnark::streams::hadamard_stream::HadamardStreamer;
use gemini::psnark::streams::plookup::set_stream::LookupSetStreamer;
use gemini::stream::Streamer;

fn scalar(x: Fr) -> Scalar {
    Scalar::from_limbs(x.into_bigint().0).unwrap()
}

fn scalars(xs: &[Fr]) -> Vec<Scalar> {
    xs.iter().map(|x| scalar(*x)).collect()
}

fn small(xs: &[u64]) -> Vec<Scalar> {
    xs.iter().map(|x| Scalar::from_u64(*x)).collect()
}

#[test]
fn test_hadamard_stream() {
    let rng = &mut ark_std::test_rng();
    let lhs = (0..100).map(|_| Fr::rand(rng)).collect::<Vec<_>>();
    let rhs = (0..100).map(|_| Fr::rand(rng)).collect::<Vec<_>>();
    let hadamard_product = lhs
        .iter()
        .zip(rhs.iter())
        .map(|(&x, y)| x * y)
        .collect::<Vec<_>>();
    let lhs = scalars(&lhs);
    let rhs = scalars(&rhs);
    let hadamard_stream = HadamardStreamer::new(lhs.as_slice(), rhs.as_slice());
    let hadamard_stream_collected = collect(hadamard_stream.stream());
    assert_eq!(hadamard_stream_collected, scalars(&hadamard_product));
}

#[test]
fn check_set_stream() {
    for _ in 0..100 {
        let rng = &mut ark_std::test_rng();
        let size = 1000;
        let mut a = Vec::new();
        for _ in 0..size {
            a.push(Fr::rand(rng));
        }

        let y = Fr::rand(rng);
        let z = Fr::rand(rng);

        let mut ans = Vec::new();
        for i in 0..size - 1 {
            ans.push(y * (Fr::one() + z) + a[size - 1 - i] + z * a[size - 1 - (i + 1)]);
        }
        ans.push(y * (Fr::one() + z) + a[0] + z * a[size - 1]);

        a.reverse();
        let a = scalars(&a);
        let st = LookupSetStreamer::new(a.as_slice(), scalar(y), scalar(z));
        let mut pass = st.stream();
        let mut i = 0;
        while let Some(res) = pass.next() {
            assert_eq!(res, scalar(ans[i]));
            i += 1;
        }
    }
}

#[test]
fn hadamard_of_small_vectors() {
    let a = small(&[1, 2, 3, 4]);
    let b = small(&[5, 6, 7, 8]);
    let h = HadamardStreamer::new(a.as_slice(), b.as_slice());
    assert_eq!(h.len(), 4);
    assert_eq!(collect(h.stream()), small(&[5, 12, 21, 32]));
    assert_eq!(collect(h.stream()), small(&[5, 12, 21, 32]));
}

#[test]
fn hadamard_of_empty_vectors() {
    let a: Vec<Scalar> = Vec::new();
    let h = HadamardStreamer::new(a.as_slice(), a.as_slice());
    assert_eq!(h.len(), 0);
    assert_eq!(h.stream().next(), None);
}

#[test]
fn hadamard_of_a_vector_and_its_reverse() {
    let a = small(&[1, 2, 3]);
    let h = HadamardStreamer::new(a.as_slice(), Reversed::new(a.as_slice()));
    assert_eq!(h.len(), 3);
    assert_eq!(collect(h.stream()), small(&[3, 4, 3]));
    let hh = HadamardStreamer::new(h, a.as_slice());
    assert_eq!(collect(hh.stream()), small(&[3, 8, 9]));
}

#[test]
fn hadamard_skips_both_factors() {
    let a = small(&[1, 2, 3, 4, 5]);
    let b = small(&[2, 2, 2, 3, 3]);
    let h = HadamardStreamer::new(a.as_slice(), b.as_slice());
    let mut pass = h.stream();
    assert_eq!(pass.advance_by(3), Ok(()));
    assert_eq!(pass.next(), Some(Scalar::from_u64(12)));
    assert_eq!(pass.next(), Some(Scalar::from_u64(15)));
    assert_eq!(pass.next(), None);
    let mut pass = h.stream();
    assert_eq!(pass.advance_by(6), Err(5));
    assert_eq!(pass.next(), None);
}

#[test]
fn hadamard_skipping_at_once_is_skipping_step_by_step() {
    let rng = &mut ark_std::test_rng();
    let a = scalars(&(0..20).map(|_| Fr::rand(rng)).collect::<Vec<_>>());
    let b = scalars(&(0..20).map(|_| Fr::rand(rng)).collect::<Vec<_>>());
    let h = HadamardStreamer::new(a.as_slice(), b.as_slice());
    for k in 0..25usize {
        let mut at_once = h.stream();
        let mut by_steps = h.stream();
        let outcome = at_once.advance_by(k);
        for _ in 0..k {
            by_steps.next();
        }
        assert_eq!(outcome, if k <= 20 { Ok(()) } else { Err(20) });
        assert_eq!(collect(at_once), collect(by_steps));
    }
}

#[test]
fn set_stream_of_four_items_by_hand() {
    // beta = 2 and gamma = 3 give the constant term 2 * (1 + 3) = 8.
    let a = small(&[1, 2, 3, 4]);
    let st = LookupSetStreamer::new(Reversed::new(a.as_slice()), Scalar::from_u64(2), Scalar::from_u64(3));
    assert_eq!(st.len(), 4);
    // 8 + 4 + 3 * 3, 8 + 3 + 3 * 2, 8 + 2 + 3 * 1, and the closing 8 + 1 + 3 * 4.
    assert_eq!(collect(st.stream()), small(&[21, 17, 13, 21]));
    assert_eq!(collect(st.stream()), small(&[21, 17, 13, 21]));
}

#[test]
fn set_stream_of_two_items() {
    let a = small(&[10, 20]);
    let st = LookupSetStreamer::new(a.as_slice(), Scalar::from_u64(1), Scalar::from_u64(0));
    assert_eq!(st.len(), 2);
    assert_eq!(collect(st.stream()), small(&[11, 21]));
    let st = LookupSetStreamer::new(a.as_slice(), Scalar::from_u64(0), Scalar::from_u64(2));
    assert_eq!(collect(st.stream()), small(&[50, 40]));
}

#[test]
fn set_stream_of_nothing() {
    let a: Vec<Scalar> = Vec::new();
    let st = LookupSetStreamer::new(a.as_slice(), Scalar::from_u64(2), Scalar::from_u64(3));
    assert_eq!(st.len(), 0);
    let mut pass = st.stream();
    assert_eq!(pass.next(), None);
    assert_eq!(pass.next(), None);
}

#[test]
fn set_stream_ends_after_the_closing_entry() {
    let a = small(&[1, 2, 3]);
    let st = LookupSetStreamer::new(a.as_slice(), Scalar::from_u64(0), Scalar::from_u64(1));
    let mut pass = st.stream();
    assert_eq!(pass.next(), Some(Scalar::from_u64(3)));
    assert_eq!(pass.next(), Some(Scalar::from_u64(5)));
    assert_eq!(pass.next(), Some(Scalar::from_u64(4)));
    assert_eq!(pass.next(), None);
    assert_eq!(pass.next(), None);
}

#[test]
fn set_stream_can_be_skipped_through() {
    let a = small(&[1, 2, 3, 4, 5]);
    let st = LookupSetStreamer::new(a.as_slice(), Scalar::from_u64(0), Scalar::from_u64(1));
    let mut pass = st.stream();
    assert_eq!(pass.advance_by(3), Ok(()));
    assert_eq!(collect(pass), small(&[9, 6]));
    let mut pass = st.stream();
    assert_eq!(pass.advance_by(7), Err(5));
    assert_eq!(pass.next(), None);
}

#[test]
fn set_stream_over_a_product_stream() {
    let a = small(&[1, 2, 3]);
    let b = small(&[2, 2, 2]);
    let h = HadamardStreamer::new(a.as_slice(), b.as_slice());
    let st = LookupSetStreamer::new(h, Scalar::from_u64(1), Scalar::from_u64(1));
    // the base is 2, 4, 6 and the constant term is 2.
    assert_eq!(collect(st.stream()), small(&[8, 12, 10]));
}
