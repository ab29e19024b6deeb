use freivalds::Error;
use freivalds::codec::parse_matrix;
use freivalds::codec::parse_row;
use freivalds::codec::render_matrix;
use freivalds::codec::render_row;
use freivalds::field::FieldElement;
use freivalds::field::FqConfig;
use freivalds::freivalds::FreivaldsVerifier;
use freivalds::freivalds::power_vector;
use freivalds::matrix::Matrix;
use freivalds::matrix::vectors_equal;
use freivalds::sampler::RandomSampler;

fn mk_matrix(entries: &[&[u64]], cfg: &FqConfig) -> Result<Matrix, Error> {
    let mut rows: Vec<Vec<FieldElement>> = Vec::new();
    for row in entries {
        let mut r: Vec<FieldElement> = Vec::new();
        for &v in row.iter() {
            r.push(FieldElement::from_u64(v, cfg));
        }
        rows.push(r);
    }
    Matrix::new(rows, cfg)
}

fn grid(m: &Matrix) -> Vec<Vec<u64>> {
    let mut out: Vec<Vec<u64>> = Vec::new();
    for i in 0..m.num_rows() {
        let mut row: Vec<u64> = Vec::new();
        for j in 0..m.num_cols() {
            row.push(m.entry(i, j).value());
        }
        out.push(row);
    }
    out
}

#[test]
fn field_arithmetic_mod_17() {
    let cfg = FqConfig::new(17);
    assert_eq!(FieldElement::from_u64(20, &cfg).value(), 3);
    let a = FieldElement::from_u64(9, &cfg);
    let b = FieldElement::from_u64(12, &cfg);
    assert_eq!(a.add(&b).value(), 4);
    let c = FieldElement::from_u64(3, &cfg);
    let d = FieldElement::from_u64(5, &cfg);
    assert_eq!(c.sub(&d).value(), 15);
    assert_eq!(d.mul(&FieldElement::from_u64(7, &cfg)).value(), 1);
    assert!(a.equals(&FieldElement::from_u64(26, &cfg)));
    assert!(!a.equals(&b));
}

#[test]
fn field_arithmetic_near_word_size() {
    // A modulus close to 2^64: the double-width intermediates keep the
    // arithmetic exact.
    let p = 18446744073709551557u64; // largest prime below 2^64
    let cfg = FqConfig::new(p);
    let a = FieldElement::from_u64(p - 1, &cfg);
    let b = FieldElement::from_u64(p - 2, &cfg);
    // (p-1) + (p-2) = 2p - 3 = p - 3 (mod p)
    assert_eq!(a.add(&b).value(), p - 3);
    // (p-1) * (p-2) = 2 (mod p), since p-1 = -1 and p-2 = -2
    assert_eq!(a.mul(&b).value(), 2);
    // (p-2) - (p-1) = -1 = p - 1 (mod p)
    assert_eq!(b.sub(&a).value(), p - 1);
}

#[test]
fn power_vector_values() {
    let cfg = FqConfig::new(17);
    let r = FieldElement::from_u64(3, &cfg);
    let x = power_vector(&r, 4);
    let vals: Vec<u64> = x.iter().map(|e| e.value()).collect();
    assert_eq!(vals, vec![3, 9, 10, 13]);
}

#[test]
fn matrix_vector_multiplication() {
    let cfg = FqConfig::new(17);
    let a = mk_matrix(&[&[1, 2], &[3, 4]], &cfg).unwrap();
    let x = vec![
        FieldElement::from_u64(5, &cfg),
        FieldElement::from_u64(7, &cfg),
    ];
    let y = a.mul_vector(&x).unwrap();
    // (1*5 + 2*7, 3*5 + 4*7) = (19, 43) = (2, 9) mod 17
    assert_eq!(y[0].value(), 2);
    assert_eq!(y[1].value(), 9);
    let short = vec![FieldElement::from_u64(5, &cfg)];
    assert_eq!(
        a.mul_vector(&short).map(|_| ()),
        Err(Error::DimensionMismatch)
    );
}

#[test]
fn vector_equality_is_pointwise() {
    let cfg = FqConfig::new(17);
    let u = vec![
        FieldElement::from_u64(1, &cfg),
        FieldElement::from_u64(2, &cfg),
    ];
    let v = vec![
        FieldElement::from_u64(18, &cfg),
        FieldElement::from_u64(2, &cfg),
    ];
    let w = vec![FieldElement::from_u64(1, &cfg)];
    assert!(vectors_equal(&u, &v, &cfg));
    assert!(!vectors_equal(&u, &w, &cfg));
}

#[test]
fn product_verifies_for_every_r() {
    // p = 17: A·B = [[19,22],[43,50]] = [[2,5],[9,16]] mod 17; the exact
    // product must be accepted for every possible probe value.
    let cfg = FqConfig::new(17);
    let a = mk_matrix(&[&[1, 2], &[3, 4]], &cfg).unwrap();
    let b = mk_matrix(&[&[5, 6], &[7, 8]], &cfg).unwrap();
    let c = mk_matrix(&[&[2, 5], &[9, 16]], &cfg).unwrap();
    for r in 0..17u64 {
        let rfe = FieldElement::from_u64(r, &cfg);
        assert_eq!(FreivaldsVerifier::verify_with_r(&a, &b, &c, &rfe), Ok(true));
    }
}

#[test]
fn mismatch_rejected_for_most_r() {
    // Same A, B, but C = 0: at most one of the 17 probe values may
    // falsely accept (r = 0 does).
    let cfg = FqConfig::new(17);
    let a = mk_matrix(&[&[1, 2], &[3, 4]], &cfg).unwrap();
    let b = mk_matrix(&[&[5, 6], &[7, 8]], &cfg).unwrap();
    let c = mk_matrix(&[&[0, 0], &[0, 0]], &cfg).unwrap();
    let mut rejected = 0u64;
    for r in 0..17u64 {
        let rfe = FieldElement::from_u64(r, &cfg);
        if FreivaldsVerifier::verify_with_r(&a, &b, &c, &rfe) == Ok(false) {
            rejected += 1;
        }
    }
    assert!(rejected >= 16);
}

#[test]
fn identity_mismatch_mostly_rejected() {
    // p = 9739: A = B = I, C wrong in one entry; at least 9738 of the
    // 9739 probe values must reject.
    let cfg = FqConfig::new(9739);
    let a = mk_matrix(&[&[1, 0], &[0, 1]], &cfg).unwrap();
    let b = mk_matrix(&[&[1, 0], &[0, 1]], &cfg).unwrap();
    let c = mk_matrix(&[&[1, 0], &[0, 0]], &cfg).unwrap();
    let mut rejected = 0u64;
    for r in 0..9739u64 {
        let rfe = FieldElement::from_u64(r, &cfg);
        if FreivaldsVerifier::verify_with_r(&a, &b, &c, &rfe) == Ok(false) {
            rejected += 1;
        }
    }
    assert!(rejected >= 9738);
}

#[test]
fn scalar_matrices_verify() {
    // n = 1: the product of scalars is checked exactly for r != 0.
    let cfg = FqConfig::new(17);
    let a = mk_matrix(&[&[3]], &cfg).unwrap();
    let b = mk_matrix(&[&[4]], &cfg).unwrap();
    let good = mk_matrix(&[&[12]], &cfg).unwrap();
    let bad = mk_matrix(&[&[11]], &cfg).unwrap();
    let mut accepted_bad = 0u64;
    for r in 0..17u64 {
        let rfe = FieldElement::from_u64(r, &cfg);
        assert_eq!(
            FreivaldsVerifier::verify_with_r(&a, &b, &good, &rfe),
            Ok(true)
        );
        if FreivaldsVerifier::verify_with_r(&a, &b, &bad, &rfe) == Ok(true) {
            accepted_bad += 1;
        }
    }
    assert!(accepted_bad <= 1);
}

#[test]
fn non_square_input_is_rejected() {
    let cfg = FqConfig::new(17);
    let wide = mk_matrix(&[&[1, 2, 3], &[4, 5, 6]], &cfg).unwrap();
    let square = mk_matrix(&[&[1, 0], &[0, 1]], &cfg).unwrap();
    let r = FieldElement::from_u64(5, &cfg);
    assert_eq!(
        FreivaldsVerifier::verify_with_r(&wide, &square, &square, &r),
        Err(Error::DimensionMismatch)
    );
    assert_eq!(
        FreivaldsVerifier::verify_with_r(&square, &wide, &square, &r),
        Err(Error::DimensionMismatch)
    );
    let mut v = FreivaldsVerifier::with_seed(&cfg, 1);
    assert_eq!(
        v.verify(&square, &square, &wide),
        Err(Error::DimensionMismatch)
    );
}

#[test]
fn ragged_input_is_rejected() {
    let cfg = FqConfig::new(17);
    assert!(matches!(
        mk_matrix(&[&[1, 2], &[3]], &cfg),
        Err(Error::DimensionMismatch)
    ));
    let lines = vec![String::from("1,2"), String::from("3")];
    assert_eq!(
        parse_matrix(&lines, &cfg).map(|_| ()),
        Err(Error::DimensionMismatch)
    );
}

#[test]
fn malformed_literals_are_parse_errors() {
    let cfg = FqConfig::new(17);
    assert_eq!(parse_row("1,x", &cfg).map(|_| ()), Err(Error::Parse));
    assert_eq!(parse_row("", &cfg).map(|_| ()), Err(Error::Parse));
    assert_eq!(parse_row("1,,2", &cfg).map(|_| ()), Err(Error::Parse));
    assert_eq!(parse_row(",1", &cfg).map(|_| ()), Err(Error::Parse));
    assert_eq!(parse_row("1,2,", &cfg).map(|_| ()), Err(Error::Parse));
    assert_eq!(parse_row("-3", &cfg).map(|_| ()), Err(Error::Parse));
    let lines = vec![String::from("1,2"), String::from("3,?")];
    assert_eq!(parse_matrix(&lines, &cfg).map(|_| ()), Err(Error::Parse));
}

#[test]
fn parse_reduces_modulo_p() {
    let cfg = FqConfig::new(17);
    let row = parse_row("20,40", &cfg).unwrap();
    assert_eq!(row[0].value(), 3);
    assert_eq!(row[1].value(), 6);
    // 2^64 does not fit a machine word; digit-wise reduction handles it.
    // 2^4 = -1 mod 17, so 2^64 = 1 mod 17.
    let big = parse_row("18446744073709551616", &cfg).unwrap();
    assert_eq!(big[0].value(), 1);
}

#[test]
fn matrix_text_round_trip() {
    let cfg = FqConfig::new(9739);
    let lines = vec![String::from("1,2"), String::from("9738,40")];
    let m = parse_matrix(&lines, &cfg).unwrap();
    let rendered = render_matrix(&m);
    assert_eq!(rendered, lines);
    let again = parse_matrix(&rendered, &cfg).unwrap();
    assert_eq!(grid(&again), grid(&m));
    assert_eq!(grid(&m), vec![vec![1, 2], vec![9738, 40]]);
}

#[test]
fn render_writes_reduced_values() {
    let cfg = FqConfig::new(17);
    let m = parse_matrix(&vec![String::from("20,40")], &cfg).unwrap();
    assert_eq!(render_matrix(&m), vec![String::from("3,6")]);
    let row = parse_row("0", &cfg).unwrap();
    assert_eq!(render_row(&row), String::from("0"));
}

#[test]
fn deterministic_with_fixed_r() {
    let cfg = FqConfig::new(9739);
    let a = mk_matrix(&[&[1, 2], &[3, 4]], &cfg).unwrap();
    let b = mk_matrix(&[&[5, 6], &[7, 8]], &cfg).unwrap();
    let c = mk_matrix(&[&[19, 22], &[43, 50]], &cfg).unwrap();
    let r = FieldElement::from_u64(4321, &cfg);
    let first = FreivaldsVerifier::verify_with_r(&a, &b, &c, &r);
    for _ in 0..5 {
        assert_eq!(FreivaldsVerifier::verify_with_r(&a, &b, &c, &r), first);
    }
    assert_eq!(first, Ok(true));
}

#[test]
fn deterministic_with_seeded_sampler() {
    let cfg = FqConfig::new(9739);
    let mut s1 = RandomSampler::from_seed(42);
    let mut s2 = RandomSampler::from_seed(42);
    for _ in 0..20 {
        assert_eq!(s1.sample(&cfg).value(), s2.sample(&cfg).value());
    }
    let a = mk_matrix(&[&[1, 0], &[0, 1]], &cfg).unwrap();
    let c = mk_matrix(&[&[1, 0], &[0, 0]], &cfg).unwrap();
    let mut v1 = FreivaldsVerifier::with_seed(&cfg, 7);
    let mut v2 = FreivaldsVerifier::with_seed(&cfg, 7);
    assert_eq!(v1.verify(&a, &a, &c), v2.verify(&a, &a, &c));
}

#[test]
fn sampled_values_stay_in_field() {
    let cfg = FqConfig::new(2);
    let mut s = RandomSampler::new();
    let mut seen = [false, false];
    for _ in 0..50 {
        let v = s.sample(&cfg).value();
        assert!(v < 2);
        seen[v as usize] = true;
    }
    // Fifty fair coin flips land on both sides, overwhelmingly.
    assert!(seen[0] && seen[1]);
}

#[test]
fn full_protocol_accepts_correct_product() {
    let cfg = FqConfig::new(9739);
    let a = mk_matrix(&[&[12, 34], &[56, 78]], &cfg).unwrap();
    let b = mk_matrix(&[&[90, 11], &[22, 33]], &cfg).unwrap();
    // Exact product: [[12*90+34*22, 12*11+34*33], [56*90+78*22, 56*11+78*33]]
    //              = [[1828, 1254], [6756, 3190]], already below 9739.
    let c = mk_matrix(&[&[1828, 1254], &[6756, 3190]], &cfg).unwrap();
    let mut v = FreivaldsVerifier::new(&cfg);
    for _ in 0..10 {
        assert_eq!(v.verify(&a, &b, &c), Ok(true));
    }
}
