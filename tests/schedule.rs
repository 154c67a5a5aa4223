use raytracer_core::schedule::worker_rows;

#[test]
fn rows_are_dealt_out_in_turn() {
    assert_eq!(worker_rows(0, 3, 8), vec![0, 3, 6]);
    assert_eq!(worker_rows(1, 3, 8), vec![1, 4, 7]);
    assert_eq!(worker_rows(2, 3, 8), vec![2, 5]);
    assert_eq!(worker_rows(0, 1, 4), vec![0, 1, 2, 3]);
    assert_eq!(worker_rows(3, 5, 2), Vec::<usize>::new());
    assert_eq!(worker_rows(0, 2, 0), Vec::<usize>::new());
}

#[test]
fn every_row_is_rendered_once() {
    for workers in 1..6 {
        let mut seen = vec![0; 11];
        for w in 0..workers {
            for y in worker_rows(w, workers, 11) {
                seen[y] += 1;
            }
        }
        assert!(seen.iter().all(|n| *n == 1));
    }
}
