use concurrency::{
    parallel_multiply, place, sequential_multiply, task_for, Error, Matrix, Reply, Task, Vector,
    WORKERS,
};

#[test]
fn pool_path_gives_the_product() {
    let a = Matrix::new(2, 3, vec![1, 2, 3, 4, 5, 6]);
    let b = Matrix::new(3, 2, vec![1, 2, 3, 4, 5, 6]);
    let (workers, pending) = parallel_multiply(&a, &b).unwrap();
    assert_eq!(workers.len(), WORKERS);
    for worker in workers {
        assert_eq!(worker.run(), 0);
    }
    let c = pending.collect().unwrap();
    assert_eq!(c.to_string(), "{22 28, 49 64}");
    assert_eq!(c.to_string(), sequential_multiply(&a, &b).unwrap().to_string());
}

#[test]
fn pool_path_does_not_depend_on_the_order_of_the_workers() {
    let a = Matrix::new(3, 2, vec![1i64, -2, 3, -4, 5, -6]);
    let b = Matrix::new(2, 4, vec![7i64, 8, 9, 10, 11, 12, 13, 14]);
    let expected = sequential_multiply(&a, &b).unwrap().to_string();
    assert_eq!(expected, "{-15 -16 -17 -18, -23 -24 -25 -26, -31 -32 -33 -34}");

    let (workers, pending) = parallel_multiply(&a, &b).unwrap();
    for worker in workers {
        worker.run();
    }
    assert_eq!(pending.collect().unwrap().to_string(), expected);

    let (mut workers, pending) = parallel_multiply(&a, &b).unwrap();
    workers.reverse();
    for worker in workers {
        worker.run();
    }
    assert_eq!(pending.collect().unwrap().to_string(), expected);
}

#[test]
fn pool_path_repeats_its_result() {
    let a = Matrix::new(2, 2, vec![2, 3, 5, 7]);
    let b = Matrix::new(2, 2, vec![11, 13, 17, 19]);
    let mut texts = Vec::new();
    for _ in 0..3 {
        let (workers, pending) = parallel_multiply(&a, &b).unwrap();
        for worker in workers {
            worker.run();
        }
        texts.push(pending.collect().unwrap().to_string());
    }
    assert_eq!(texts[0], "{73 83, 174 198}");
    assert_eq!(texts[0], texts[1]);
    assert_eq!(texts[1], texts[2]);
}

#[test]
fn pool_path_with_no_cells() {
    let a: Matrix<i32> = Matrix::new(0, 2, vec![]);
    let b = Matrix::new(2, 3, vec![1, 2, 3, 4, 5, 6]);
    let (workers, pending) = parallel_multiply(&a, &b).unwrap();
    assert_eq!(workers.len(), WORKERS);
    for worker in workers {
        assert_eq!(worker.run(), 0);
    }
    let c = pending.collect().unwrap();
    assert_eq!((c.rows(), c.cols()), (0, 3));
    assert_eq!(c.to_string(), "{}");
}

#[test]
fn a_worker_that_never_runs_fails_the_collection() {
    let a = Matrix::new(2, 3, vec![1, 2, 3, 4, 5, 6]);
    let b = Matrix::new(3, 2, vec![1, 2, 3, 4, 5, 6]);
    let (workers, pending) = parallel_multiply(&a, &b).unwrap();
    drop(workers);
    assert!(matches!(pending.collect(), Err(Error::CollectionFailure)));
}

#[test]
fn one_missing_worker_fails_the_collection() {
    let a = Matrix::new(2, 3, vec![1, 2, 3, 4, 5, 6]);
    let b = Matrix::new(3, 2, vec![1, 2, 3, 4, 5, 6]);
    let (mut workers, pending) = parallel_multiply(&a, &b).unwrap();
    let last = workers.pop().unwrap();
    drop(last);
    for worker in workers {
        assert_eq!(worker.run(), 0);
    }
    assert!(matches!(pending.collect(), Err(Error::CollectionFailure)));
}

#[test]
fn replies_that_nobody_waits_for_are_counted_and_dropped() {
    let a = Matrix::new(2, 3, vec![1, 2, 3, 4, 5, 6]);
    let b = Matrix::new(3, 3, vec![1, 0, 0, 0, 1, 0, 0, 0, 1]);
    let (workers, pending) = parallel_multiply(&a, &b).unwrap();
    drop(pending);
    let undelivered: Vec<usize> = workers.into_iter().map(|worker| worker.run()).collect();
    assert_eq!(undelivered, vec![2, 2, 1, 1]);
}

#[test]
fn a_task_answers_with_its_dot_product_and_position() {
    let a = Matrix::new(2, 3, vec![1, 2, 3, 4, 5, 6]);
    let b = Matrix::new(3, 2, vec![1, 2, 3, 4, 5, 6]);
    let reply = task_for(&a, &b, 1, 0).answer();
    assert_eq!((reply.value, reply.index), (49, 2));
    let reply = task_for(&a, &b, 0, 1).answer();
    assert_eq!((reply.value, reply.index), (28, 1));
    let task = Task::new(Vector::new(vec![2, 3]), Vector::new(vec![4, 5]), 9);
    let reply = task.answer();
    assert_eq!((reply.value, reply.index), (23, 9));
}

#[test]
fn a_reply_is_placed_where_it_says() {
    let mut cells = vec![0, 0, 0];
    assert!(place(&mut cells, Reply { value: 5, index: 2 }));
    assert_eq!(cells, vec![0, 0, 5]);
    assert!(place(&mut cells, Reply { value: 7, index: 0 }));
    assert_eq!(cells, vec![7, 0, 5]);
    assert!(place(&mut cells, Reply { value: 9, index: 2 }));
    assert_eq!(cells, vec![7, 0, 9]);
    assert!(!place(&mut cells, Reply { value: 1, index: 3 }));
    assert_eq!(cells, vec![7, 0, 9]);
}

#[test]
fn tasks_go_round_the_workers() {
    assert_eq!(WORKERS, 4);
    let routed: Vec<usize> = (0..9).map(concurrency::worker_for).collect();
    assert_eq!(routed, vec![0, 1, 2, 3, 0, 1, 2, 3, 0]);
}
