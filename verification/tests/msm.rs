use blst_msm::msm::{
    multi_scalar_mult, multi_scalar_mult_bc, multi_scalar_mult_init, multi_scalar_mult_init_bc,
    reference_msm, release, scalar_mul, MsmError,
};
use blst_msm::point::{
    affine_generator, affine_identity, affine_to_proj, proj_eq, proj_is_identity, proj_to_affine,
    AffinePoint, ProjPoint,
};
use blst_msm::scalar::Scalar;

fn generator_proj() -> ProjPoint {
    affine_to_proj(&affine_generator())
}

/// `k * G` as an affine point, built through the verified reference ladder.
fn multiple_of_g(k: u64) -> AffinePoint {
    let g = generator_proj();
    proj_to_affine(&scalar_mul(&g, &Scalar::from_u64(k)))
}

fn mult_of_g_proj(k: u64) -> ProjPoint {
    scalar_mul(&generator_proj(), &Scalar::from_u64(k))
}

#[test]
fn concrete_scenario_four_points() {
    // Points {G, 2G, 3G, 4G}.
    let points = vec![
        multiple_of_g(1),
        multiple_of_g(2),
        multiple_of_g(3),
        multiple_of_g(4),
    ];
    let context = multi_scalar_mult_init(&points).expect("msm should succeed");

    // Scalars {1,1,1,1} must yield 10G.
    let ones = vec![
        Scalar::from_u64(1),
        Scalar::from_u64(1),
        Scalar::from_u64(1),
        Scalar::from_u64(1),
    ];
    let out = multi_scalar_mult(&context, &points, &ones).expect("msm should succeed");
    assert_eq!(out.len(), 1);
    assert!(proj_eq(&out[0], &mult_of_g_proj(10)));

    // Scalars {0,0,0,0} must yield the identity.
    let zeros = vec![
        Scalar::from_u64(0),
        Scalar::from_u64(0),
        Scalar::from_u64(0),
        Scalar::from_u64(0),
    ];
    let out = multi_scalar_mult(&context, &points, &zeros).expect("msm should succeed");
    assert!(proj_is_identity(&out[0]));

    // Scalars {5,0,0,0} must yield 5G.
    let five = vec![
        Scalar::from_u64(5),
        Scalar::from_u64(0),
        Scalar::from_u64(0),
        Scalar::from_u64(0),
    ];
    let out = multi_scalar_mult(&context, &points, &five).expect("msm should succeed");
    assert!(proj_eq(&out[0], &mult_of_g_proj(5)));

    release(context);
}

#[test]
fn matches_reference_multi_limb() {
    let points = vec![multiple_of_g(7), multiple_of_g(11), multiple_of_g(13)];
    let context = multi_scalar_mult_init(&points).expect("msm should succeed");

    // Two batches of three multi-limb scalars each.
    let scalars = vec![
        Scalar { limbs: [0xdead_beef_0123_4567, 0x89ab_cdef, 3, 1] },
        Scalar { limbs: [42, 0, 0xffff_ffff_ffff_ffff, 0] },
        Scalar { limbs: [1, 1, 1, 1] },
        Scalar { limbs: [0x1234, 0, 0, 0x0fff_ffff] },
        Scalar { limbs: [0, 0, 0, 1] },
        Scalar { limbs: [9, 8, 7, 6] },
    ];
    let out = multi_scalar_mult(&context, &points, &scalars).expect("msm should succeed");
    assert_eq!(out.len(), 2);

    for b in 0..2 {
        let batch: Vec<Scalar> = scalars[b * 3..(b + 1) * 3].to_vec();
        let expected = reference_msm(&points, &batch);
        assert!(proj_eq(&out[b], &expected));
    }
}

#[test]
fn zero_scalars_yield_identity() {
    let points = vec![multiple_of_g(5), multiple_of_g(6)];
    let context = multi_scalar_mult_init(&points).expect("msm should succeed");
    let scalars = vec![Scalar::from_u64(0), Scalar::from_u64(0)];
    let out = multi_scalar_mult(&context, &points, &scalars).expect("msm should succeed");
    assert!(proj_is_identity(&out[0]));
}

#[test]
fn identity_points_yield_identity() {
    let points = vec![affine_identity(), affine_identity(), affine_identity()];
    let context = multi_scalar_mult_init(&points).expect("msm should succeed");
    let scalars = vec![
        Scalar { limbs: [123, 456, 789, 1] },
        Scalar::from_u64(2),
        Scalar::from_u64(99),
    ];
    let out = multi_scalar_mult(&context, &points, &scalars).expect("msm should succeed");
    assert!(proj_is_identity(&out[0]));
}

#[test]
fn single_point_single_scalar() {
    let points = vec![multiple_of_g(17)];
    let context = multi_scalar_mult_init(&points).expect("msm should succeed");
    let scalars = vec![Scalar::from_u64(9)];
    let out = multi_scalar_mult(&context, &points, &scalars).expect("msm should succeed");
    let direct = scalar_mul(&affine_to_proj(&points[0]), &scalars[0]);
    assert!(proj_eq(&out[0], &direct));
    // 9 * (17 G) == 153 G.
    assert!(proj_eq(&out[0], &mult_of_g_proj(153)));
}

#[test]
fn batch_permutation_permutes_results() {
    let points = vec![multiple_of_g(2), multiple_of_g(3)];
    let context = multi_scalar_mult_init(&points).expect("msm should succeed");
    let a = [Scalar::from_u64(4), Scalar::from_u64(5)];
    let b = [Scalar::from_u64(6), Scalar::from_u64(7)];

    let ab: Vec<Scalar> = vec![a[0], a[1], b[0], b[1]];
    let ba: Vec<Scalar> = vec![b[0], b[1], a[0], a[1]];
    let out_ab = multi_scalar_mult(&context, &points, &ab).expect("msm should succeed");
    let out_ba = multi_scalar_mult(&context, &points, &ba).expect("msm should succeed");
    assert_eq!(out_ab.len(), 2);
    assert_eq!(out_ba.len(), 2);
    assert!(proj_eq(&out_ab[0], &out_ba[1]));
    assert!(proj_eq(&out_ab[1], &out_ba[0]));
    // And the individual values are unchanged by the reordering:
    // batch a is 4*2G + 5*3G = 23G, batch b is 6*2G + 7*3G = 33G.
    assert!(proj_eq(&out_ab[0], &mult_of_g_proj(23)));
    assert!(proj_eq(&out_ba[0], &mult_of_g_proj(33)));
}

#[test]
fn length_mismatch_is_reported() {
    let points = vec![multiple_of_g(1), multiple_of_g(2)];
    let context = multi_scalar_mult_init(&points).expect("msm should succeed");
    let scalars = vec![Scalar::from_u64(1), Scalar::from_u64(2), Scalar::from_u64(3)];
    let err = match multi_scalar_mult(&context, &points, &scalars) {
        Ok(_) => panic!("expected an error"),
        Err(e) => e,
    };
    assert_eq!(err, MsmError::LengthMismatch);
    let err = match multi_scalar_mult_bc(&context, &points, &scalars) {
        Ok(_) => panic!("expected an error"),
        Err(e) => e,
    };
    assert_eq!(err, MsmError::LengthMismatch);
}

#[test]
fn empty_point_set_is_invalid() {
    let points: Vec<AffinePoint> = Vec::new();
    match multi_scalar_mult_init(&points) {
        Ok(_) => panic!("expected an error"),
        Err(e) => assert_eq!(e, MsmError::InvalidInput),
    }
    match multi_scalar_mult_init_bc(&points) {
        Ok(_) => panic!("expected an error"),
        Err(e) => assert_eq!(e, MsmError::InvalidInput),
    }
}

#[test]
fn point_count_mismatch_is_invalid() {
    let points = vec![multiple_of_g(1), multiple_of_g(2)];
    let context = multi_scalar_mult_init(&points).expect("msm should succeed");
    let fewer = vec![multiple_of_g(1)];
    let scalars = vec![Scalar::from_u64(1)];
    let err = match multi_scalar_mult(&context, &fewer, &scalars) {
        Ok(_) => panic!("expected an error"),
        Err(e) => e,
    };
    assert_eq!(err, MsmError::InvalidInput);
}

#[test]
fn infinity_aware_variant_agrees() {
    // A point set containing identity points.
    let points = vec![
        multiple_of_g(1),
        affine_identity(),
        multiple_of_g(3),
        affine_identity(),
    ];
    let ctx_std = multi_scalar_mult_init(&points).expect("msm should succeed");
    let ctx_inf = multi_scalar_mult_init_bc(&points).expect("msm should succeed");
    let scalars = vec![
        Scalar { limbs: [5, 1, 0, 2] },
        Scalar { limbs: [7, 0, 3, 0] },
        Scalar::from_u64(11),
        Scalar::from_u64(13),
    ];
    let out_std = multi_scalar_mult(&ctx_std, &points, &scalars).expect("msm should succeed");
    let out_inf = multi_scalar_mult_bc(&ctx_inf, &points, &scalars).expect("msm should succeed");
    assert_eq!(out_std.len(), 1);
    assert_eq!(out_inf.len(), 1);
    assert!(proj_eq(&out_std[0], &out_inf[0]));
    release(ctx_std);
    release(ctx_inf);
}

#[test]
fn context_reuse_across_calls() {
    let points = vec![multiple_of_g(2), multiple_of_g(5)];
    let context = multi_scalar_mult_init(&points).expect("msm should succeed");

    let first = vec![Scalar::from_u64(3), Scalar::from_u64(1)];
    let out1 = multi_scalar_mult(&context, &points, &first).expect("msm should succeed");
    // 3*2G + 1*5G = 11G.
    assert!(proj_eq(&out1[0], &mult_of_g_proj(11)));

    let second = vec![Scalar::from_u64(10), Scalar::from_u64(4)];
    let out2 = multi_scalar_mult(&context, &points, &second).expect("msm should succeed");
    // 10*2G + 4*5G = 40G.
    assert!(proj_eq(&out2[0], &mult_of_g_proj(40)));

    // The first result is still what the reference computes for its batch.
    assert!(proj_eq(&out1[0], &reference_msm(&points, &first)));
}

#[test]
fn group_wrappers_are_not_trivial() {
    let g = generator_proj();
    let two_g = mult_of_g_proj(2);
    assert!(!proj_eq(&g, &two_g));
    assert!(!proj_is_identity(&g));
    let ga = proj_to_affine(&g);
    assert!(proj_eq(&affine_to_proj(&ga), &g));
    // scalar_mul must actually scale: 2G equals G doubled, not G.
    assert!(proj_eq(&scalar_mul(&g, &Scalar::from_u64(2)), &two_g));
}
