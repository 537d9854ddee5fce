use abkve::kernel::dot_product_unrolled;
use abkve::kernel::normalize_vec;
use abkve::Abkve;
use abkve::LoadError;

fn bits_of(v: &[f32]) -> Vec<u32> {
    v.iter().map(|x| x.to_bits()).collect()
}

fn make_store(dim: usize) -> Abkve {
    Abkve::new(dim, 16)
}

fn search_f32(db: &Abkve, query: &[f32], threshold: f32) -> Option<(u64, f32)> {
    db.search(&bits_of(query), threshold.to_bits())
        .map(|(id, sc)| (id, f32::from_bits(sc)))
}

fn search_parallel_f32(db: &Abkve, query: &[f32], threshold: f32) -> Option<(u64, f32)> {
    db.search_parallel(&bits_of(query), threshold.to_bits())
        .map(|(id, sc)| (id, f32::from_bits(sc)))
}

fn search_naive_f32(db: &Abkve, query: &[f32], threshold: f32) -> Option<(u64, f32)> {
    db.search_naive(&bits_of(query), threshold.to_bits())
        .map(|(id, sc)| (id, f32::from_bits(sc)))
}

fn add_f32(db: &mut Abkve, id: u64, vector: &[f32]) {
    db.add(id, &bits_of(vector));
}

#[test]
fn test_basic_insert_and_search() {
    let mut db = make_store(4);
    add_f32(&mut db, 1, &[1.0, 0.0, 0.0, 0.0]);
    add_f32(&mut db, 2, &[0.0, 1.0, 0.0, 0.0]);

    // Query closest to vector 1
    let result = search_f32(&db, &[0.99, 0.01, 0.0, 0.0], 0.5);
    assert!(result.is_some());
    let (id, score) = result.unwrap();
    assert_eq!(id, 1);
    assert!(score > 0.99, "expected score > 0.99, got {}", score);
}

#[test]
fn test_threshold_filtering() {
    let mut db = make_store(4);
    add_f32(&mut db, 1, &[1.0, 0.0, 0.0, 0.0]);

    // Orthogonal vector — dot product = 0, should be filtered out
    let result = search_f32(&db, &[0.0, 1.0, 0.0, 0.0], 0.5);
    assert!(result.is_none(), "orthogonal vectors should not match");
}

#[test]
fn test_dot_product_unrolled_correctness() {
    let a: Vec<f32> = (0..16).map(|i| i as f32).collect();
    let b: Vec<f32> = (0..16).map(|i| i as f32).collect();
    let expected: f32 = a.iter().zip(b.iter()).map(|(x, y)| x * y).sum();
    let got = f32::from_bits(dot_product_unrolled(&bits_of(&a), &bits_of(&b)));
    assert!(
        (got - expected).abs() < 1e-4,
        "unrolled dp mismatch: expected {}, got {}",
        expected,
        got
    );
}

#[test]
fn test_normalization_invariant() {
    let mut db = make_store(4);
    // After normalization, dot product with itself should be ≈ 1.0
    add_f32(&mut db, 42, &[3.0, 4.0, 0.0, 0.0]); // norm = 5.0
    let result = search_f32(&db, &[3.0, 4.0, 0.0, 0.0], 0.99);
    assert!(result.is_some());
    let (id, score) = result.unwrap();
    assert_eq!(id, 42);
    assert!(
        (score - 1.0).abs() < 1e-5,
        "self-similarity should be ≈ 1.0, got {}",
        score
    );
}

#[test]
fn test_empty_store() {
    let db = make_store(4);
    assert!(search_f32(&db, &[1.0, 0.0, 0.0, 0.0], 0.0).is_none());
}

#[test]
fn test_parallel_matches_sequential() {
    let mut db = Abkve::new(8, 100);
    for i in 0..50u64 {
        let v: Vec<f32> = (0..8).map(|j| (i + j) as f32).collect();
        add_f32(&mut db, i, &v);
    }
    let query: Vec<f32> = (0..8).map(|j| j as f32).collect();
    let seq = search_f32(&db, &query, 0.0);
    let par = search_parallel_f32(&db, &query, 0.0);
    match (seq, par) {
        (Some((sid, ss)), Some((pid, ps))) => {
            assert_eq!(sid, pid, "sequential and parallel should return same id");
            assert!(
                (ss - ps).abs() < 1e-5,
                "score mismatch: seq={}, par={}",
                ss,
                ps
            );
        }
        (None, None) => {}
        other => panic!("mismatch between sequential and parallel: {:?}", other),
    }
}

#[test]
fn test_save_and_load_roundtrip() {
    let mut db = Abkve::new(4, 8);
    add_f32(&mut db, 10, &[1.0, 0.0, 0.0, 0.0]);
    add_f32(&mut db, 20, &[0.0, 1.0, 0.0, 0.0]);

    let buf = db.save();

    let loaded = Abkve::load(buf.as_slice()).expect("load failed");
    assert_eq!(loaded.len(), 2);
    assert_eq!(loaded.dim(), 4);

    let result = search_f32(&loaded, &[0.99, 0.01, 0.0, 0.0], 0.5);
    assert_eq!(result.map(|(id, _)| id), Some(10));
}

#[test]
fn test_remainder_handling() {
    // dim=9 is not divisible by 8 — exercises the remainder path
    let mut db = make_store(9);
    add_f32(&mut db, 1, &[1.0, 0.0, 0.0, 0.0, 0.0, 0.0, 0.0, 0.0, 0.0]);
    let result = search_f32(&db, &[1.0, 0.0, 0.0, 0.0, 0.0, 0.0, 0.0, 0.0, 0.0], 0.99);
    assert!(result.is_some());
}

#[test]
fn test_remainder_score_close_to_one() {
    // Same shape as the dim=9 regression, checking the score as well.
    let mut db = make_store(9);
    add_f32(&mut db, 1, &[1.0, 0.0, 0.0, 0.0, 0.0, 0.0, 0.0, 0.0, 0.0]);
    let result = search_f32(&db, &[1.0, 0.0, 0.0, 0.0, 0.0, 0.0, 0.0, 0.0, 0.0], 0.99);
    let (id, score) = result.expect("self query above 0.99 should match");
    assert_eq!(id, 1);
    assert!(score >= 0.999, "expected score >= 0.999, got {}", score);
}

#[test]
fn test_naive_matches_unrolled_search() {
    let mut db = Abkve::new(8, 64);
    for i in 0..50u64 {
        let v: Vec<f32> = (0..8).map(|j| (i + j) as f32).collect();
        add_f32(&mut db, i, &v);
    }
    let query: Vec<f32> = (0..8).map(|j| j as f32).collect();
    let fast = search_f32(&db, &query, 0.0);
    let naive = search_naive_f32(&db, &query, 0.0);
    match (fast, naive) {
        (Some((fid, fs)), Some((nid, ns))) => {
            assert_eq!(fid, nid, "naive baseline should return the same id");
            assert!((fs - ns).abs() < 1e-5, "score mismatch: fast={}, naive={}", fs, ns);
        }
        (None, None) => {}
        other => panic!("mismatch between unrolled and naive search: {:?}", other),
    }
}

#[test]
fn test_threshold_saturation() {
    let mut db = make_store(4);
    add_f32(&mut db, 7, &[1.0, 2.0, 2.0, 0.0]);
    // A threshold of positive infinity suppresses every result.
    assert!(search_f32(&db, &[1.0, 0.0, 0.0, 0.0], f32::INFINITY).is_none());
    // A threshold of negative infinity returns the best row of a
    // non-empty store.
    let result = search_f32(&db, &[1.0, 0.0, 0.0, 0.0], f32::NEG_INFINITY);
    assert_eq!(result.map(|(id, _)| id), Some(7));
}

#[test]
fn test_duplicate_ids_both_retained() {
    let mut db = make_store(4);
    add_f32(&mut db, 5, &[1.0, 0.0, 0.0, 0.0]);
    add_f32(&mut db, 5, &[1.0, 0.0, 0.0, 0.0]);
    assert_eq!(db.len(), 2);
    // Ties break toward the earliest-inserted row, which carries the
    // same id here.
    let result = search_f32(&db, &[1.0, 0.0, 0.0, 0.0], 0.5);
    assert_eq!(result.map(|(id, _)| id), Some(5));
}

#[test]
fn test_tie_break_earliest_row_wins() {
    let mut db = make_store(4);
    add_f32(&mut db, 30, &[0.0, 0.0, 1.0, 0.0]);
    add_f32(&mut db, 10, &[1.0, 0.0, 0.0, 0.0]);
    add_f32(&mut db, 20, &[2.0, 0.0, 0.0, 0.0]); // same direction as id 10
    let result = search_f32(&db, &[1.0, 0.0, 0.0, 0.0], 0.5);
    assert_eq!(result.map(|(id, _)| id), Some(10));
    let par = search_parallel_f32(&db, &[1.0, 0.0, 0.0, 0.0], 0.5);
    assert_eq!(par.map(|(id, _)| id), Some(10));
}

#[test]
fn test_zero_vector_stored_unchanged() {
    let mut db = make_store(4);
    add_f32(&mut db, 1, &[0.0, 0.0, 0.0, 0.0]);
    assert_eq!(db.len(), 1);
    // A near-zero row scores near zero and never matches a real
    // threshold.
    assert!(search_f32(&db, &[1.0, 0.0, 0.0, 0.0], 0.5).is_none());
}

#[test]
fn test_roundtrip_many_queries() {
    let mut db = Abkve::new(8, 64);
    for i in 0..50u64 {
        let v: Vec<f32> = (0..8).map(|j| (i + j) as f32).collect();
        add_f32(&mut db, i, &v);
    }
    let buf = db.save();
    let loaded = Abkve::load(buf.as_slice()).expect("load failed");
    assert_eq!(loaded.len(), db.len());
    assert_eq!(loaded.dim(), db.dim());

    let mut total_delta = 0.0f64;
    for q in 0..100u64 {
        let query: Vec<f32> = (0..8).map(|j| ((q % 17) + j) as f32 * 0.25 + 0.5).collect();
        let before = search_f32(&db, &query, 0.1);
        let after = search_f32(&loaded, &query, 0.1);
        match (before, after) {
            (Some((id1, s1)), Some((id2, s2))) => {
                assert_eq!(id1, id2, "id mismatch after round trip");
                total_delta += ((s1 - s2).abs()) as f64;
            }
            (None, None) => {}
            other => panic!("presence mismatch after round trip: {:?}", other),
        }
    }
    assert!(total_delta / 100.0 <= 1e-6, "mean score delta too large");
}

#[test]
fn test_load_rejects_truncated_image() {
    assert_eq!(Abkve::load(&[]).err(), Some(LoadError::Truncated));
    let mut db = Abkve::new(4, 4);
    add_f32(&mut db, 1, &[1.0, 0.0, 0.0, 0.0]);
    let buf = db.save();
    let cut = &buf[..buf.len() - 1];
    assert_eq!(Abkve::load(cut).err(), Some(LoadError::Truncated));
}

#[test]
fn test_load_rejects_zero_dimension() {
    // dim = 0, no ids, no data.
    let mut image = Vec::new();
    image.extend_from_slice(&0u64.to_le_bytes());
    image.extend_from_slice(&0u64.to_le_bytes());
    image.extend_from_slice(&0u64.to_le_bytes());
    assert_eq!(Abkve::load(&image).err(), Some(LoadError::BadDimension));
}

#[test]
fn test_load_rejects_inconsistent_lengths() {
    // dim = 4, one id, but a data length of 3 instead of 4.
    let mut image = Vec::new();
    image.extend_from_slice(&4u64.to_le_bytes());
    image.extend_from_slice(&1u64.to_le_bytes());
    image.extend_from_slice(&9u64.to_le_bytes());
    image.extend_from_slice(&3u64.to_le_bytes());
    image.extend_from_slice(&[0u8; 12]);
    assert_eq!(Abkve::load(&image).err(), Some(LoadError::BadLength));
}

#[test]
fn test_load_rejects_trailing_bytes() {
    let mut db = Abkve::new(4, 4);
    add_f32(&mut db, 1, &[1.0, 0.0, 0.0, 0.0]);
    let mut buf = db.save();
    buf.push(0);
    assert_eq!(Abkve::load(&buf).err(), Some(LoadError::TrailingBytes));
}

#[test]
fn test_save_layout_is_little_endian() {
    let mut db = Abkve::new(1, 1);
    add_f32(&mut db, 0xAABB, &[0.0]);
    let buf = db.save();
    // dim, id count, the id, component count, one zero component.
    assert_eq!(buf.len(), 8 + 8 + 8 + 8 + 4);
    assert_eq!(&buf[0..8], &1u64.to_le_bytes());
    assert_eq!(&buf[8..16], &1u64.to_le_bytes());
    assert_eq!(&buf[16..24], &0xAABBu64.to_le_bytes());
    assert_eq!(&buf[24..32], &1u64.to_le_bytes());
    assert_eq!(&buf[32..36], &0.0f32.to_bits().to_le_bytes());
}

#[test]
fn test_len_counts_adds() {
    let mut db = Abkve::new(3, 2);
    assert!(db.is_empty());
    for i in 0..10u64 {
        add_f32(&mut db, i, &[i as f32, 1.0, 2.0]);
        assert_eq!(db.len(), (i + 1) as usize);
    }
    assert!(!db.is_empty());
    assert_eq!(db.dim(), 3);
}

#[test]
fn test_best_in_range_worker_scan() {
    let mut db = Abkve::new(4, 8);
    add_f32(&mut db, 1, &[1.0, 0.0, 0.0, 0.0]);
    add_f32(&mut db, 2, &[0.0, 1.0, 0.0, 0.0]);
    add_f32(&mut db, 3, &[0.9, 0.1, 0.0, 0.0]);
    let norm_query = normalize_vec(&bits_of(&[1.0, 0.0, 0.0, 0.0]));
    // Over all rows the first row wins; over the tail range the third
    // row wins.
    let all = db.best_in_range(&norm_query, 0, 3).expect("a best row exists");
    assert_eq!(all.0, 0);
    let tail = db.best_in_range(&norm_query, 1, 3).expect("a best row exists");
    assert_eq!(tail.0, 2);
    assert!(f32::from_bits(all.1) > f32::from_bits(tail.1));
}
