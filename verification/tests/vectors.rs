use std::sync::Arc;

use mcp_native_core::paths::RepoPath;
use mcp_native_core::quantizer::{
    is_finite_number, order_key_of, quantize_coordinate, QuantizedVector, CODEBOOK_LEVELS,
};
use mcp_native_core::ranking::{top_k, Scored};
use mcp_native_core::vector_cache::{budget, EmbeddedChunk, VectorCache, DEFAULT_MAX_BYTES};
use rand::rngs::StdRng;
use rand::{RngExt, SeedableRng};
use statrs::distribution::{Beta, Continuous, ContinuousCDF};

const ROTATION_SEED: u64 = 0x5EED_5EED_5EED_5EED;

struct Rotation {
    rows: Vec<Vec<f64>>,
}

impl Rotation {
    fn new(dim: usize) -> Self {
        let mut rng = StdRng::seed_from_u64(ROTATION_SEED);
        let mut rows: Vec<Vec<f64>> = (0..dim).map(|_| (0..dim).map(|_| gaussian(&mut rng)).collect()).collect();
        for i in 0..dim {
            let (earlier, rest) = rows.split_at_mut(i);
            let row = &mut rest[0];
            for other in earlier.iter() {
                let dot: f64 = row.iter().zip(other).map(|(a, b)| a * b).sum();
                for (a, b) in row.iter_mut().zip(other) {
                    *a -= dot * b;
                }
            }
            let length: f64 = row.iter().map(|x| x * x).sum::<f64>().sqrt();
            for x in row.iter_mut() {
                *x /= length;
            }
        }
        Rotation { rows }
    }

    fn apply(&self, v: &[f32]) -> Vec<f32> {
        self.rows.iter().map(|row| row.iter().zip(v).map(|(a, b)| *a as f32 * b).sum()).collect()
    }
}

fn gaussian(rng: &mut StdRng) -> f64 {
    let u1: f64 = rng.random_range(f64::EPSILON..1.0);
    let u2: f64 = rng.random();
    (-2.0 * u1.ln()).sqrt() * (std::f64::consts::TAU * u2).cos()
}

/// Boundaries and centroids of the buckets for the coordinates of rotated unit vectors.
fn codebook(dim: usize) -> (Vec<f32>, Vec<f32>) {
    let a = ((dim.max(2) - 1) as f64 / 2.0).max(0.5);
    let beta = Beta::new(a, a).unwrap();
    let cdf = |x: f64| beta.cdf(((x + 1.0) / 2.0).clamp(0.0, 1.0));
    let pdf = |x: f64| {
        let p = beta.pdf(((x + 1.0) / 2.0).clamp(0.0, 1.0)) / 2.0;
        if p.is_finite() {
            p
        } else {
            0.0
        }
    };
    let mut centroids: Vec<f64> = (0..CODEBOOK_LEVELS)
        .map(|i| 2.0 * beta.inverse_cdf((i as f64 + 0.5) / CODEBOOK_LEVELS as f64) - 1.0)
        .collect();
    for _ in 0..100 {
        let mut edges = vec![-1.0];
        edges.extend(centroids.windows(2).map(|w| (w[0] + w[1]) / 2.0));
        edges.push(1.0);
        let mut max_change = 0.0f64;
        for i in 0..CODEBOOK_LEVELS {
            let (lo, hi) = (edges[i], edges[i + 1]);
            let prob = cdf(hi) - cdf(lo);
            let next = if prob > 1e-15 {
                (simpson(|x| x * pdf(x), lo, hi, 32) / prob).clamp(-1.0, 1.0)
            } else {
                centroids[i]
            };
            max_change = max_change.max((next - centroids[i]).abs());
            centroids[i] = next;
        }
        if max_change < 1e-9 {
            break;
        }
    }
    let boundaries = centroids.windows(2).map(|w| ((w[0] + w[1]) / 2.0) as f32).collect();
    (boundaries, centroids.iter().map(|&c| c as f32).collect())
}

fn simpson<F: Fn(f64) -> f64>(f: F, a: f64, b: f64, n: usize) -> f64 {
    let h = (b - a) / n as f64;
    let inner: f64 = (1..n).map(|i| if i % 2 == 0 { 2.0 } else { 4.0 } * f(a + i as f64 * h)).sum();
    (f(a) + f(b) + inner) * h / 3.0
}

fn bits(v: &[f32]) -> Vec<u64> {
    v.iter().map(|x| f64::from(*x).to_bits()).collect()
}

fn numbers(v: &[u64]) -> Vec<f32> {
    v.iter().map(|b| f64::from_bits(*b) as f32).collect()
}

fn dot(a: &[f32], b: &[f32]) -> f32 {
    a.iter().zip(b).map(|(x, y)| x * y).sum()
}

fn norm(v: &[f32]) -> f32 {
    dot(v, v).sqrt()
}

fn unit_vec(dim: usize, seed: u64) -> Vec<f32> {
    let mut rng = StdRng::seed_from_u64(seed);
    let raw: Vec<f32> = (0..dim).map(|_| rng.random_range(-1.0f32..1.0)).collect();
    let n = norm(&raw);
    raw.iter().map(|x| x / n).collect()
}

struct Quantizer {
    rotation: Rotation,
    boundaries: Vec<u64>,
    centroids: Vec<u64>,
}

impl Quantizer {
    fn new(dim: usize) -> Self {
        let (boundaries, centroids) = codebook(dim);
        Quantizer { rotation: Rotation::new(dim), boundaries: bits(&boundaries), centroids: bits(&centroids) }
    }

    fn encode(&self, v: &[f32]) -> QuantizedVector {
        let rotated = self.rotation.apply(v);
        let mut result = QuantizedVector::encode(&bits(&rotated), &self.boundaries);
        let self_dot = dot(&rotated, &self.decode(&result));
        result.renormalize(f64::from(self_dot).to_bits(), (1.0 / self_dot).to_bits());
        result
    }

    fn decode(&self, v: &QuantizedVector) -> Vec<f32> {
        numbers(&v.decode(&self.centroids))
    }

    fn score(&self, query_rotated: &[f32], doc: &QuantizedVector) -> f32 {
        dot(query_rotated, &self.decode(doc)) * f32::from_bits(doc.correction())
    }
}

#[test]
fn quantize_round_trip_error_is_bounded() {
    let quantizer = Quantizer::new(32);
    let v = unit_vec(32, 3);
    let quantized = quantizer.encode(&v);
    let rotated = quantizer.rotation.apply(&v);
    let decoded = quantizer.decode(&quantized);

    for (original, reconstructed) in rotated.iter().zip(decoded.iter()) {
        assert!(
            (original - reconstructed).abs() < 0.05,
            "per-coordinate error should be small at 256 Lloyd-Max levels: {original} vs {reconstructed}"
        );
    }
}

#[test]
fn degenerate_single_dimension_vector_quantizes_without_panicking() {
    let quantizer = Quantizer::new(1);
    let quantized = quantizer.encode(&[1.0]);
    assert!(quantizer.decode(&quantized).iter().all(|x| x.is_finite()));
    assert!(f32::from_bits(quantized.correction()).is_finite());
}

#[test]
fn quantization_preserves_ranking_order() {
    let dim = 64;
    let quantizer = Quantizer::new(dim);

    let query = unit_vec(dim, 10);
    let close = unit_vec(dim, 10);
    let far = unit_vec(dim, 999);

    let query_rotated = quantizer.rotation.apply(&query);
    let close_score = quantizer.score(&query_rotated, &quantizer.encode(&close));
    let far_score = quantizer.score(&query_rotated, &quantizer.encode(&far));

    assert!(
        close_score > far_score,
        "an identical vector should score higher than an unrelated one: {close_score} vs {far_score}"
    );
    assert!(
        close_score > 0.95,
        "quantizing a near-identical vector shouldn't destroy its similarity score: {close_score}"
    );
}

#[test]
fn length_renormalization_pulls_self_similarity_toward_one() {
    let dim = 128;
    let quantizer = Quantizer::new(dim);
    let v = unit_vec(dim, 7);
    let rotated = quantizer.rotation.apply(&v);
    let quantized = quantizer.encode(&v);

    let corrected = quantizer.score(&rotated, &quantized);
    assert!(
        (corrected - 1.0).abs() < 0.01,
        "length-renormalized self-similarity should be close to 1.0, got {corrected}"
    );
}

#[test]
fn byte_size_is_roughly_a_quarter_of_f32_storage() {
    let quantizer = Quantizer::new(384);
    let v = unit_vec(384, 42);
    let quantized = quantizer.encode(&v);
    assert!(
        quantized.byte_size() < 384 * 4 / 3,
        "quantized vector should be substantially smaller than raw f32 storage"
    );
    assert_eq!(quantized.byte_size(), 388);
    assert_eq!(quantized.dim(), 384);
}

#[test]
fn coordinates_fall_in_the_bucket_of_the_boundaries_at_or_below_them() {
    let boundaries = bits(&[-0.5, 0.0, 0.5]);
    let bucket = |x: f64| quantize_coordinate(x.to_bits(), &boundaries);
    assert_eq!(bucket(-1.0), 0);
    assert_eq!(bucket(-0.5), 1);
    assert_eq!(bucket(-0.25), 1);
    assert_eq!(bucket(0.0), 2);
    assert_eq!(bucket(-0.0), 2);
    assert_eq!(bucket(0.5), 3);
    assert_eq!(bucket(f64::INFINITY), 3);
    assert_eq!(bucket(f64::NEG_INFINITY), 0);
    assert_eq!(bucket(f64::NAN), 0);
    let many: Vec<u64> = (0..300).map(|i| f64::from(i).to_bits()).collect();
    assert_eq!(quantize_coordinate(1e9f64.to_bits(), &many), 255);
}

#[test]
fn boundaries_that_do_not_ascend_still_give_buckets() {
    let boundaries = bits(&[0.5, -0.5, 0.25]);
    for x in [-1.0f32, -0.5, 0.0, 0.3, 1.0, f32::NAN] {
        let v = QuantizedVector::encode(&bits(&[x]), &boundaries);
        assert_eq!(v.dim(), 1);
        let b = quantize_coordinate(f64::from(x).to_bits(), &boundaries) as usize;
        let limits = [0.5f32, -0.5, 0.25];
        assert!(b == 0 || limits[b - 1] <= x);
        assert!(b == 3 || !(limits[b] <= x));
    }
}

#[test]
fn bits_are_ordered_as_the_numbers() {
    let ascending = [f64::NEG_INFINITY, -2.0, -1.0, -1e-300, 0.0, 1e-300, 1.0, 2.0, f64::INFINITY];
    for pair in ascending.windows(2) {
        assert!(order_key_of(pair[0].to_bits()) < order_key_of(pair[1].to_bits()));
    }
    assert_eq!(order_key_of(0.0f64.to_bits()), order_key_of((-0.0f64).to_bits()));
    assert!(is_finite_number(f64::MAX.to_bits()));
    assert!(!is_finite_number(f64::INFINITY.to_bits()));
    assert!(!is_finite_number(f64::NAN.to_bits()));
}

#[test]
fn a_product_that_counts_as_zero_leaves_the_factor_at_one() {
    let mut v = QuantizedVector::encode(&bits(&[0.5]), &bits(&[0.0]));
    assert_eq!(f32::from_bits(v.correction()), 1.0);
    v.renormalize(0.5f64.to_bits(), 2.0f32.to_bits());
    assert_eq!(f32::from_bits(v.correction()), 2.0);
    v.renormalize((-0.5f64).to_bits(), (-2.0f32).to_bits());
    assert_eq!(f32::from_bits(v.correction()), -2.0);
    let floor = f64::from(1e-6f32);
    for small in [0.0, floor, -floor, 1e-9, f64::NAN] {
        v.renormalize(small.to_bits(), 9.0f32.to_bits());
        assert_eq!(f32::from_bits(v.correction()), 1.0);
    }
}

fn path(name: &str) -> RepoPath {
    RepoPath::new(false, vec![name.as_bytes().to_vec()])
}

/// One chunk of ten bytes.
fn chunks() -> Arc<Vec<EmbeddedChunk>> {
    let vector = QuantizedVector::encode(&bits(&[0.0; 6]), &bits(&[0.0]));
    assert_eq!(vector.byte_size(), 10);
    Arc::new(vec![EmbeddedChunk { start_line: 1, end_line: 2, vector }])
}

#[test]
fn the_least_recently_used_vectors_go_first() {
    let mut index = VectorCache::new(30);
    for name in ["a", "b", "c"] {
        index.store(&path(name), 1, 1, chunks());
    }
    assert!(index.get_if_fresh(&path("a"), 1, 1).is_some());
    index.store(&path("d"), 1, 1, chunks());
    assert!(index.get_if_fresh(&path("b"), 1, 1).is_none());
    for name in ["a", "c", "d"] {
        assert!(index.get_if_fresh(&path(name), 1, 1).is_some());
    }
}

#[test]
fn vectors_are_served_while_their_file_is_unchanged() {
    let mut index = VectorCache::new(100);
    index.store(&path("a"), 1, 1, chunks());
    assert!(index.get_if_fresh(&path("a"), 2, 1).is_none());
    assert!(index.get_if_fresh(&path("a"), 1, 2).is_none());
    assert!(index.get_if_fresh(&path("b"), 1, 1).is_none());
    assert_eq!(index.get_if_fresh(&path("a"), 1, 1).unwrap().len(), 1);
    index.store(&path("a"), 2, 1, chunks());
    assert!(index.get_if_fresh(&path("a"), 1, 1).is_none());
    assert!(index.get_if_fresh(&path("a"), 2, 1).is_some());
}

#[test]
fn vectors_beyond_the_budget_are_not_kept() {
    let mut index = VectorCache::new(9);
    index.store(&path("a"), 1, 1, chunks());
    assert!(index.get_if_fresh(&path("a"), 1, 1).is_none());
}

#[test]
fn the_budget_defaults_to_128_mib() {
    assert_eq!(budget(None), 128 * 1024 * 1024);
    assert_eq!(DEFAULT_MAX_BYTES, 128 * 1024 * 1024);
    assert_eq!(budget(Some(7)), 7);
}

fn scored(similarity: f64, line: usize) -> Scored {
    Scored { similarity: similarity.to_bits(), path: path("f"), start_line: line, end_line: line }
}

fn lines(items: &[Scored]) -> Vec<usize> {
    items.iter().map(|s| s.start_line).collect()
}

fn sample() -> Vec<Scored> {
    vec![
        scored(0.1, 1),
        scored(f64::NAN, 2),
        scored(0.9, 3),
        scored(0.5, 4),
        scored(0.9, 5),
        scored(-1.0, 6),
        scored(f64::NEG_INFINITY, 7),
    ]
}

#[test]
fn the_best_matches_come_first() {
    assert_eq!(lines(&top_k(sample(), 3)), vec![3, 5, 4]);
    assert_eq!(lines(&top_k(sample(), 10)), vec![3, 5, 4, 1, 6, 7, 2]);
    assert_eq!(lines(&top_k(sample(), usize::MAX)), vec![3, 5, 4, 1, 6, 7, 2]);
    assert!(top_k(sample(), 0).is_empty());
    assert!(top_k(Vec::new(), 5).is_empty());
}
