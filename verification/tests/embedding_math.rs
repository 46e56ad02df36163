// The pooling and normalisation of embeddings work on floating point and
// stay outside the verified library; these checks exercise the arithmetic.

// --- L2 normalisation ---

/// A [3, 4] vector (norm = 5) should become [0.6, 0.8] after normalisation.
#[test]
fn test_l2_normalize_scales_to_unit_sphere() {
    let mut v = vec![0.0f32; 384];
    v[0] = 3.0;
    v[1] = 4.0;
    let norm: f32 = v.iter().map(|x| x * x).sum::<f32>().sqrt();
    if norm > 1e-12 {
        for x in &mut v {
            *x /= norm;
        }
    }
    assert!((v[0] - 0.6).abs() < 1e-6, "v[0] should be 0.6");
    assert!((v[1] - 0.8).abs() < 1e-6, "v[1] should be 0.8");
    // Remaining dimensions stay zero
    assert!(v[2..].iter().all(|&x| x == 0.0));
    // Resulting vector must have unit length
    let new_norm: f32 = v.iter().map(|x| x * x).sum::<f32>().sqrt();
    assert!((new_norm - 1.0).abs() < 1e-6, "norm should be 1.0 after normalisation");
}

/// A zero vector (norm = 0) must not be modified — division is skipped.
#[test]
fn test_l2_normalize_zero_vector_unchanged() {
    let mut v = vec![0.0f32; 384];
    let norm: f32 = v.iter().map(|x| x * x).sum::<f32>().sqrt();
    if norm > 1e-12 {
        for x in &mut v {
            *x /= norm;
        }
    }
    assert!(v.iter().all(|&x| x == 0.0));
}

// --- mean pooling ---

/// All mask values 1.0: each token contributes equally.
/// With 3 tokens each holding a one-hot vector, the mean is [1/3, 1/3, 1/3, 0].
#[test]
fn test_mean_pool_uniform_mask() {
    // 3 tokens, 4 dims — simulates a tiny hidden_state slice
    let hidden: &[f32] = &[
        1.0, 0.0, 0.0, 0.0, // token 0
        0.0, 1.0, 0.0, 0.0, // token 1
        0.0, 0.0, 1.0, 0.0, // token 2
    ];
    let mask_f = vec![1.0f32; 3];
    let dims = 4usize;
    let mask_sum: f32 = mask_f.iter().sum();

    let mut pooled = vec![0.0f32; dims];
    for (i, &w) in mask_f.iter().enumerate() {
        for d in 0..dims {
            pooled[d] += hidden[i * dims + d] * w;
        }
    }
    for x in &mut pooled {
        *x /= mask_sum;
    }

    let third = 1.0f32 / 3.0;
    assert!((pooled[0] - third).abs() < 1e-6);
    assert!((pooled[1] - third).abs() < 1e-6);
    assert!((pooled[2] - third).abs() < 1e-6);
    assert_eq!(pooled[3], 0.0);
}

/// Mask of [1, 0]: only the first token should contribute.
#[test]
fn test_mean_pool_masked_token_excluded() {
    // 2 tokens, 2 dims
    let hidden: &[f32] = &[
        3.0, 6.0, // token 0 (unmasked)
        9.0, 9.0, // token 1 (masked out)
    ];
    let mask_f = vec![1.0f32, 0.0];
    let dims = 2usize;
    let mask_sum: f32 = mask_f.iter().sum(); // 1.0

    let mut pooled = vec![0.0f32; dims];
    for (i, &w) in mask_f.iter().enumerate() {
        for d in 0..dims {
            pooled[d] += hidden[i * dims + d] * w;
        }
    }
    for x in &mut pooled {
        *x /= mask_sum;
    }

    // Only token 0 contributed, mask_sum = 1, so result == token 0
    assert!((pooled[0] - 3.0).abs() < 1e-6);
    assert!((pooled[1] - 6.0).abs() < 1e-6);
}
