use concurrency::{AmapMetrics, Error, Metrics};

#[test]
fn new_metrics_are_empty() {
    let metrics = Metrics::new();
    assert_eq!(metrics.to_string(), "");
    assert_eq!(metrics.get("anything"), None);
    assert_eq!(Metrics::default().to_string(), "");
}

#[test]
fn metrics_count_every_increment() {
    let mut metrics = Metrics::new();
    for _ in 0..1000 {
        metrics.inc("task.worker.0");
    }
    assert_eq!(metrics.get("task.worker.0"), Some(1000));
    assert_eq!(metrics.to_string(), "task.worker.0: 1000\n");
}

#[test]
fn metrics_count_interleaved_increments_per_key() {
    let mut metrics = Metrics::new();
    for round in 0..12 {
        metrics.inc("a");
        if round % 2 == 0 {
            metrics.inc("b");
        }
        if round % 3 == 0 {
            metrics.inc("c");
        }
    }
    assert_eq!(metrics.get("a"), Some(12));
    assert_eq!(metrics.get("b"), Some(6));
    assert_eq!(metrics.get("c"), Some(4));
    assert_eq!(metrics.get("d"), None);
}

#[test]
fn metrics_dump_lists_keys_in_order_of_first_use() {
    let mut metrics = Metrics::new();
    metrics.inc("request.worker.1");
    metrics.inc("task.worker.0");
    metrics.inc("request.worker.1");
    metrics.inc("");
    assert_eq!(metrics.to_string(), "request.worker.1: 2\ntask.worker.0: 1\n: 1\n");
}

#[test]
fn metrics_tell_keys_apart_exactly() {
    let mut metrics = Metrics::new();
    metrics.inc("key");
    metrics.inc("Key");
    metrics.inc("key ");
    metrics.inc("ke");
    metrics.inc("key");
    assert_eq!(metrics.to_string(), "key: 2\nKey: 1\nkey : 1\nke: 1\n");
}

#[test]
fn fixed_metrics_start_at_zero() {
    let metrics = AmapMetrics::new(&["task.worker.0", "task.worker.1", "request.worker.0"]);
    assert_eq!(metrics.get("task.worker.1"), Some(0));
    assert_eq!(metrics.get("task.worker.2"), None);
    assert_eq!(metrics.to_string(), "task.worker.0: 0\ntask.worker.1: 0\nrequest.worker.0: 0\n");
}

#[test]
fn fixed_metrics_count_every_increment() {
    let mut metrics = AmapMetrics::new(&["hits", "misses"]);
    for _ in 0..250 {
        assert_eq!(metrics.inc("hits"), Ok(()));
    }
    assert_eq!(metrics.inc("misses"), Ok(()));
    assert_eq!(metrics.get("hits"), Some(250));
    assert_eq!(metrics.get("misses"), Some(1));
    assert_eq!(metrics.to_string(), "hits: 250\nmisses: 1\n");
}

#[test]
fn fixed_metrics_refuse_an_unknown_key() {
    let mut metrics = AmapMetrics::new(&["hits"]);
    assert_eq!(metrics.inc("hit"), Err(Error::KeyNotFound));
    assert_eq!(metrics.inc(""), Err(Error::KeyNotFound));
    assert_eq!(metrics.inc("hits"), Ok(()));
    assert_eq!(metrics.to_string(), "hits: 1\n");
}

#[test]
fn fixed_metrics_keep_one_counter_for_a_repeated_name() {
    let mut metrics = AmapMetrics::new(&["a", "b", "a"]);
    assert_eq!(metrics.to_string(), "a: 0\nb: 0\n");
    assert_eq!(metrics.inc("a"), Ok(()));
    assert_eq!(metrics.to_string(), "a: 1\nb: 0\n");
}

#[test]
fn fixed_metrics_without_keys_refuse_everything() {
    let mut metrics = AmapMetrics::new(&[]);
    assert_eq!(metrics.to_string(), "");
    assert_eq!(metrics.inc("a"), Err(Error::KeyNotFound));
}
