use mira::vector_store::{id_of_point, ids_of_points, point_id_of, similarity_score, MockVectorStore, VectorStore, SCORE_ONE};

#[test]
fn parallel_vectors_score_one() {
    assert_eq!(similarity_score(&vec![3, 4], &vec![3, 4]), SCORE_ONE);
    assert_eq!(similarity_score(&vec![3, 4], &vec![6, 8]), SCORE_ONE);
    assert_eq!(similarity_score(&vec![3, 4], &vec![-3, -4]), -SCORE_ONE);
    assert_eq!(similarity_score(&vec![1, 0], &vec![0, 1]), 0);
    // cosine 0.6, squared 0.36
    assert_eq!(similarity_score(&vec![1, 0], &vec![3, 4]), 360_000);
    assert_eq!(similarity_score(&vec![1, 0, 0], &vec![3, 4]), 0);
    assert_eq!(similarity_score(&vec![0, 0], &vec![3, 4]), 0);
}

#[test]
fn stored_vector_is_found_first_by_itself() {
    let mut index = MockVectorStore::new();
    index.store(1, vec![1, 0, 0]).unwrap();
    index.store(2, vec![0, 1, 0]).unwrap();
    index.store(3, vec![5, 5, 0]).unwrap();
    assert_eq!(index.search(&vec![0, 1, 0], 3, 800), vec![2]);
    assert_eq!(index.search(&vec![0, 1, 0], 3, 0), vec![2, 3, 1]);
    assert_eq!(index.search(&vec![1, 0, 0], 2, 0), vec![1, 3]);
    assert_eq!(index.search(&vec![1, 0, 0], 0, 0), Vec::<u128>::new());
}

#[test]
fn threshold_is_a_cosine_level() {
    let mut index = MockVectorStore::new();
    index.store(9, vec![3, 4]).unwrap();
    assert_eq!(index.search(&vec![1, 0], 5, 600), vec![9]);
    assert!(index.search(&vec![1, 0], 5, 601).is_empty());
}

#[test]
fn storing_again_replaces_and_mismatched_dimensions_are_refused() {
    let mut index = MockVectorStore::new();
    index.store(1, vec![1, 0]).unwrap();
    index.store(1, vec![0, 1]).unwrap();
    assert_eq!(index.search(&vec![0, 1], 5, 900), vec![1]);
    assert!(index.store(2, vec![1, 2, 3]).is_err());
    let stats = index.stats();
    assert_eq!(stats, vec![("total_vectors".to_string(), 1), ("total_dimensions".to_string(), 2)]);
}

#[test]
fn delete_removes_or_reports_not_found() {
    let mut index = MockVectorStore::new();
    index.store(1, vec![1, 0]).unwrap();
    assert!(index.delete_vector(1).is_ok());
    assert!(index.delete_vector(1).is_err());
    assert!(matches!(index.delete(4), Err(mira::vector_store::MockError::NotFound { id: 4 })));
    assert_eq!(index.get_stats().unwrap()[0].1, 0);
}

#[test]
fn point_ids_are_the_upper_half_of_entry_ids() {
    let id: u128 = 0x0123_4567_89ab_cdef_fedc_ba98_7654_3210;
    assert_eq!(point_id_of(id), 0x0123_4567_89ab_cdef);
    assert_eq!(id_of_point(0x0123_4567_89ab_cdef), 0x0123_4567_89ab_cdef_0000_0000_0000_0000);
    assert_eq!(ids_of_points(&vec![Some(1), None, Some(0), Some(2)]), vec![1u128 << 64, 2u128 << 64]);
}
