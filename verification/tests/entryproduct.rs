use ark_bls12_381::Fr;
use ark_ff::{BigInt, Field, PrimeField};
use ark_std::UniformRand;
use gemini::field::Scalar;
use gemini::iterable::{collect, Pass};
use gemini::kzg::Commitment;
use gemini::stream::Streamer;
use gemini::iterable::slice::Reversed;
use gemini::subprotocols::entryproduct::streams::{
    ProductStreamer, ShiftedStreamer, TwistedStreamer,
};
use gemini::subprotocols::entryproduct::time_prover::{
    accumulated_product, claimed_sumcheck_of, evaluate_le, pow, shift, twist,
};
use gemini::subprotocols::entryproduct::{EntryProduct, ProverMsgs};
use gemini::subprotocols::sumcheck::elastic_prover::ElasticProver;
use gemini::subprotocols::sumcheck::prover::{Prover, RoundMsg};
use gemini::subprotocols::sumcheck::time_prover::TimeProver;
use gemini::subprotocols::sumcheck::Sumcheck;

fn scalar(x: Fr) -> Scalar {
    Scalar::from_limbs(x.into_bigint().0).unwrap()
}

fn fr(x: Scalar) -> Fr {
    Fr::from_bigint(BigInt::new(x.to_limbs())).unwrap()
}

fn small(xs: &[u64]) -> Vec<Scalar> {
    xs.iter().map(|x| Scalar::from_u64(*x)).collect()
}

fn random(n: usize, rng: &mut impl ark_std::rand::Rng) -> Vec<Scalar> {
    (0..n).map(|_| scalar(Fr::rand(rng))).collect()
}

fn commitment(tag: u64) -> Commitment {
    Commitment { x: [tag, 0, 0, 0, 0, 0], y: [0, tag, 0, 0, 0, 0], infinity: false }
}

fn round_polynomial_at(m: &RoundMsg, r: Fr) -> Fr {
    let (s0, s1, s2) = (fr(m.0), fr(m.1), fr(m.2));
    let two = Fr::from(2u64);
    let half = two.inverse().unwrap();
    s0 * (r - Fr::from(1u64)) * (r - two) * half - s1 * r * (r - two)
        + s2 * r * (r - Fr::from(1u64)) * half
}

fn accepts(run: &Sumcheck, claim: Fr) -> bool {
    let mut claim = claim;
    for (m, r) in run.messages.iter().zip(run.challenges.iter()) {
        if fr(m.0) + fr(m.1) != claim {
            return false;
        }
        claim = round_polynomial_at(m, fr(*r));
    }
    fr(run.terminal_evaluation()) == claim
}

#[test]
fn accumulated_product_by_hand() {
    assert_eq!(accumulated_product(&small(&[2, 3, 5, 7])), small(&[210, 105, 35, 7]));
    assert_eq!(accumulated_product(&small(&[9])), small(&[9]));
    assert_eq!(accumulated_product(&small(&[4, 0, 6])), small(&[0, 0, 6]));
    assert_eq!(accumulated_product(&[]), Vec::new());
}

#[test]
fn running_products_by_hand() {
    let v = small(&[2, 3, 5, 7]);
    let products = ProductStreamer::new(v.as_slice());
    assert_eq!(products.len(), 4);
    assert_eq!(collect(products.stream()), small(&[2, 6, 30, 210]));
    assert_eq!(collect(products.stream()), small(&[2, 6, 30, 210]));
    let backwards = ProductStreamer::new(Reversed::new(v.as_slice()));
    assert_eq!(collect(backwards.stream()), small(&[7, 35, 105, 210]));
    let empty: Vec<Scalar> = Vec::new();
    assert_eq!(collect(ProductStreamer::new(empty.as_slice()).stream()), empty);
    let mut pass = products.stream();
    assert_eq!(pass.advance_by(3), Ok(()));
    assert_eq!(pass.next(), Some(Scalar::from_u64(210)));
    assert_eq!(pass.next(), None);
}

#[test]
fn evaluation_by_hand() {
    // 1 + 2 * 3 + 3 * 9
    assert_eq!(evaluate_le(&small(&[1, 2, 3]), &Scalar::from_u64(3)), Scalar::from_u64(34));
    assert_eq!(evaluate_le(&small(&[5]), &Scalar::from_u64(3)), Scalar::from_u64(5));
    assert_eq!(evaluate_le(&[], &Scalar::from_u64(3)), Scalar::zero());
    assert_eq!(evaluate_le(&small(&[7, 8, 9]), &Scalar::zero()), Scalar::from_u64(7));
}

#[test]
fn powers_by_hand() {
    assert_eq!(pow(&Scalar::from_u64(3), 0), Scalar::one());
    assert_eq!(pow(&Scalar::from_u64(3), 1), Scalar::from_u64(3));
    assert_eq!(pow(&Scalar::from_u64(3), 4), Scalar::from_u64(81));
    assert_eq!(pow(&Scalar::zero(), 0), Scalar::one());
    assert_eq!(pow(&Scalar::zero(), 5), Scalar::zero());
    assert_eq!(fr(pow(&Scalar::from_u64(2), 300)), Fr::from(2u64).pow([300u64]));
}

#[test]
fn claim_and_sequences_by_hand() {
    let acc_v = small(&[210, 105, 35, 7]);
    let chal = Scalar::from_u64(2);
    // 2 * (210 + 105 * 2 + 35 * 4 + 7 * 8) + 210 - 16
    assert_eq!(
        claimed_sumcheck_of(&acc_v, &Scalar::from_u64(210), &chal),
        Scalar::from_u64(1426)
    );
    assert_eq!(twist(&acc_v, &chal), small(&[210, 210, 140, 56, 16]));
    assert_eq!(shift(&small(&[2, 3, 5, 7])), small(&[1, 2, 3, 5, 6]));
    assert_eq!(shift(&small(&[9])), small(&[1, 8]));
    assert_eq!(twist(&[], &chal), small(&[1]));
}

#[test]
fn size_of_the_messages() {
    let msgs = ProverMsgs {
        acc_v_commitments: vec![commitment(1), commitment(2)],
        claimed_sumchecks: small(&[1, 2, 3]),
    };
    assert_eq!(msgs.size_in_bytes(), 2 * 48 + 3 * 32);
    let msgs = ProverMsgs { acc_v_commitments: vec![commitment(1)], claimed_sumchecks: Vec::new() };
    assert_eq!(msgs.size_in_bytes(), 48);
    assert_eq!(commitment(3).size_in_bytes(), 48);
}

#[test]
fn one_commitment_and_one_claim_for_each_level() {
    let rng = &mut ark_std::test_rng();
    for levels in 1..5usize {
        let vs: Vec<Vec<Scalar>> = (0..levels).map(|i| random(3 + 2 * i, rng)).collect();
        let products: Vec<Scalar> = vs.iter().map(|v| accumulated_product(v)[0]).collect();
        let commitments: Vec<Commitment> = (0..levels).map(|i| commitment(i as u64)).collect();
        let chal = scalar(Fr::rand(rng));
        let ep = EntryProduct::new_time(&vs, &products, commitments.clone(), chal);
        assert_eq!(ep.msgs.acc_v_commitments.len(), ep.msgs.claimed_sumchecks.len());
        assert_eq!(ep.msgs.acc_v_commitments.len(), levels);
        assert_eq!(ep.provers.len(), levels);
        assert_eq!(ep.msgs.acc_v_commitments, commitments);
        assert_eq!(ep.chal, chal);
        assert_eq!(ep.msgs.size_in_bytes(), levels * (48 + 32));
    }
}

#[test]
fn end_to_end_for_two_three_five_seven() {
    let f = small(&[2, 3, 5, 7]);
    let t = Scalar::from_u64(210);
    let psi = Scalar::from_u64(5);
    let challenges = small(&[3, 7, 11]);

    let acc_v = accumulated_product(&f);
    assert_eq!(acc_v[0], t);
    let ep = EntryProduct::new_time(&[f.clone()], &[t], vec![commitment(1)], psi);
    assert_eq!(ep.msgs.acc_v_commitments.len(), ep.msgs.claimed_sumchecks.len());

    // psi * g(psi) + t - psi^4, term by term
    let p = Fr::from(5u64);
    let g = [210u64, 105, 35, 7];
    let mut g_at_psi = Fr::from(0u64);
    for (i, c) in g.iter().enumerate() {
        g_at_psi += Fr::from(*c) * p.pow([i as u64]);
    }
    let reference = p * g_at_psi + Fr::from(210u64) - p.pow([4u64]);
    assert_eq!(reference, Fr::from(12010u64));
    assert_eq!(ep.msgs.claimed_sumchecks, vec![Scalar::from_u64(12010)]);

    let mut provers = ep.provers;
    let run = Sumcheck::prove(provers.pop().unwrap(), &challenges);
    assert_eq!(run.rounds, 3);
    assert!(accepts(&run, reference));
    assert!(!accepts(&run, reference + Fr::from(1u64)));
    assert!(run.is_accepted_for(&Scalar::from_u64(12010)));
    assert!(!run.is_accepted_for(&Scalar::from_u64(12011)));

    let vs = [f.clone()];
    let acc_vs = [acc_v.clone()];
    let elastic = EntryProduct::new_elastic(&vs, &acc_vs, &[t], vec![commitment(1)], psi);
    assert_eq!(elastic.msgs, ep.msgs);
    assert_eq!(elastic.chal, psi);
    let mut provers = elastic.provers;
    assert_eq!(Sumcheck::prove(provers.pop().unwrap(), &challenges), run);
}

#[test]
fn the_reduction_holds_for_random_vectors() {
    let rng = &mut ark_std::test_rng();
    for n in [1usize, 2, 3, 4, 8, 15, 16, 17] {
        let v = random(n, rng);
        let acc_v = accumulated_product(&v);
        let t = acc_v[0];
        let expected: Fr = v.iter().map(|x| fr(*x)).product();
        assert_eq!(fr(t), expected);
        let chal = scalar(Fr::rand(rng));
        let ep = EntryProduct::new_time(&[v.clone()], &[t], vec![commitment(0)], chal);
        let claim = fr(ep.msgs.claimed_sumchecks[0]);
        let left = twist(&acc_v, &chal);
        let right = shift(&v);
        let product: Fr = left.iter().zip(right.iter()).map(|(x, y)| fr(*x) * fr(*y)).sum();
        assert_eq!(product, claim);
        let claimed = ep.msgs.claimed_sumchecks[0];
        let mut provers = ep.provers;
        let prover = provers.pop().unwrap();
        let challenges = random(prover.rounds(), rng);
        let run = Sumcheck::prove(prover, &challenges);
        assert!(accepts(&run, claim));
        assert!(run.is_accepted_for(&claimed));
        let elastic = Sumcheck::prove(ElasticProver::new(left.as_slice(), right.as_slice()), &challenges);
        assert_eq!(elastic, run);
        let again = Sumcheck::prove(TimeProver::new(left.clone(), right.clone()), &challenges);
        assert_eq!(again, run);
    }
}

#[test]
fn the_argument_runs_all_its_levels() {
    let rng = &mut ark_std::test_rng();
    let vs: Vec<Vec<Scalar>> = vec![random(4, rng), random(1, rng), random(6, rng)];
    let acc_vs: Vec<Vec<Scalar>> = vs.iter().map(|v| accumulated_product(v)).collect();
    let products: Vec<Scalar> = acc_vs.iter().map(|acc_v| acc_v[0]).collect();
    let commitments: Vec<Commitment> = (0..3).map(commitment).collect();
    let chal = scalar(Fr::rand(rng));
    // vectors of 5, 2 and 7 entries take 3, 1 and 3 rounds
    let challenges = vec![random(3, rng), random(1, rng), random(3, rng)];

    let time = EntryProduct::new_time(&vs, &products, commitments.clone(), chal);
    let claims = time.msgs.claimed_sumchecks.clone();
    let runs = time.prove(&challenges);
    assert_eq!(runs.len(), 3);
    for (i, run) in runs.iter().enumerate() {
        assert_eq!(run.challenges, challenges[i]);
        assert_eq!(run.rounds, challenges[i].len());
        assert!(run.is_accepted_for(&claims[i]));
        let expected = Sumcheck::prove(
            TimeProver::new(twist(&acc_vs[i], &chal), shift(&vs[i])),
            &challenges[i],
        );
        assert_eq!(*run, expected);
    }

    let elastic = EntryProduct::new_elastic(&vs, &acc_vs, &products, commitments, chal);
    assert_eq!(elastic.prove(&challenges), runs);
}

#[test]
fn a_wrong_product_is_not_accepted() {
    let f = small(&[2, 3, 5, 7]);
    let psi = Scalar::from_u64(5);
    let ep = EntryProduct::new_time(&[f], &[Scalar::from_u64(211)], vec![commitment(1)], psi);
    assert_eq!(ep.msgs.claimed_sumchecks, vec![Scalar::from_u64(12011)]);
    let mut provers = ep.provers;
    let run = Sumcheck::prove(provers.pop().unwrap(), &small(&[3, 7, 11]));
    assert!(!run.is_accepted_for(&Scalar::from_u64(12011)));
    assert!(run.is_accepted_for(&Scalar::from_u64(12010)));
}

#[test]
fn both_arguments_hold_the_same_messages_and_claims() {
    let rng = &mut ark_std::test_rng();
    let vs: Vec<Vec<Scalar>> = vec![random(5, rng), random(1, rng), random(8, rng)];
    let acc_vs: Vec<Vec<Scalar>> = vs.iter().map(|v| accumulated_product(v)).collect();
    let products: Vec<Scalar> = acc_vs.iter().map(|acc_v| acc_v[0]).collect();
    let commitments: Vec<Commitment> = (0..3).map(commitment).collect();
    let chal = scalar(Fr::rand(rng));
    let time = EntryProduct::new_time(&vs, &products, commitments.clone(), chal);
    let elastic = EntryProduct::new_elastic(&vs, &acc_vs, &products, commitments, chal);
    assert_eq!(time.msgs, elastic.msgs);
    assert_eq!(elastic.msgs.acc_v_commitments.len(), elastic.msgs.claimed_sumchecks.len());
    assert_eq!(elastic.provers.len(), 3);
    for (t, e) in time.provers.into_iter().zip(elastic.provers.into_iter()) {
        assert_eq!(t.rounds(), e.rounds());
        let challenges = random(t.rounds(), rng);
        assert_eq!(Sumcheck::prove(t, &challenges), Sumcheck::prove(e, &challenges));
    }
}

#[test]
fn the_sequences_of_the_claim_as_streams() {
    let acc_v = small(&[210, 105, 35, 7]);
    let v = small(&[2, 3, 5, 7]);
    let left = TwistedStreamer::new(acc_v.as_slice(), Scalar::from_u64(2));
    assert_eq!(left.len(), 5);
    assert_eq!(collect(left.stream()), small(&[210, 210, 140, 56, 16]));
    assert_eq!(collect(left.stream()), twist(&acc_v, &Scalar::from_u64(2)));
    let right = ShiftedStreamer::new(v.as_slice());
    assert_eq!(right.len(), 5);
    assert_eq!(collect(right.stream()), small(&[1, 2, 3, 5, 6]));
    assert_eq!(collect(right.stream()), shift(&v));
    let one = small(&[9]);
    assert_eq!(collect(ShiftedStreamer::new(one.as_slice()).stream()), small(&[1, 8]));
    let mut pass = right.stream();
    assert_eq!(pass.advance_by(4), Ok(()));
    assert_eq!(pass.next(), Some(Scalar::from_u64(6)));
    assert_eq!(pass.next(), None);
    assert_eq!(pass.next(), None);
    let mut pass = left.stream();
    assert_eq!(pass.advance_by(6), Err(5));
    assert_eq!(pass.next(), None);
    let empty: Vec<Scalar> = Vec::new();
    assert_eq!(collect(TwistedStreamer::new(empty.as_slice(), Scalar::from_u64(2)).stream()), small(&[1]));
}
