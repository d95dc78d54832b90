use conduit::collector::{collect_cycle, flatten_results, ProducerResultsItem, SampleCache};
use conduit::render::{to_prometheus, DatumKind, Sample};

fn sample(name: &str, value: &str, ts: i64) -> Sample {
    Sample {
        timeseries_name: name.to_string(),
        fields: vec![],
        datum: DatumKind::CumulativeI64,
        value: value.to_string(),
        timestamp_ms: ts,
    }
}

fn names(samples: &[Sample]) -> Vec<String> {
    samples.iter().map(|s| s.timeseries_name.clone()).collect()
}

#[test]
fn flatten_skips_error_items() {
    let items = vec![
        ProducerResultsItem::Samples(vec![sample("a:x", "1", 1), sample("a:y", "2", 2)]),
        ProducerResultsItem::Error("no data".to_string()),
        ProducerResultsItem::Samples(vec![sample("b:z", "3", 3)]),
    ];
    let out = flatten_results(items);
    assert_eq!(names(&out), vec!["a:x", "a:y", "b:z"]);
    assert!(flatten_results(vec![]).is_empty());
    assert!(flatten_results(vec![ProducerResultsItem::Error("e".to_string())]).is_empty());
}

#[test]
fn new_cache_is_empty() {
    assert!(SampleCache::new().snapshot().is_empty());
}

#[test]
fn cycle_keeps_answering_producers_only() {
    let mut cache = SampleCache::new();
    collect_cycle(
        &mut cache,
        vec![
            Ok(vec![sample("p1:m", "1", 1)]),
            Err("connection refused".to_string()),
            Ok(vec![sample("p3:m", "3", 3), sample("p3:n", "4", 4)]),
        ],
    );
    assert_eq!(names(&cache.snapshot()), vec!["p1:m", "p3:m", "p3:n"]);
}

#[test]
fn cycle_replaces_previous_batch() {
    let mut cache = SampleCache::new();
    collect_cycle(&mut cache, vec![Ok(vec![sample("old:m", "1", 1)])]);
    collect_cycle(&mut cache, vec![Ok(vec![sample("new:m", "2", 2)])]);
    assert_eq!(names(&cache.snapshot()), vec!["new:m"]);
    collect_cycle(&mut cache, vec![Err("down".to_string())]);
    assert!(cache.snapshot().is_empty());
}

#[test]
fn snapshot_renders_like_the_stored_batch() {
    let mut cache = SampleCache::new();
    collect_cycle(&mut cache, vec![Ok(vec![sample("d:read", "5", 100)])]);
    let snap = cache.snapshot();
    assert_eq!(snap[0].value, "5");
    assert_eq!(snap[0].timestamp_ms, 100);
    assert_eq!(to_prometheus(&snap), "# TYPE d_read counter\nd_read 5 100\n");
}
