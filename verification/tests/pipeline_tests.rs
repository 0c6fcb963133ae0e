use iris::pipeline::{exposition, PipelineCounters};

#[test]
fn rebase_counter_increments_and_appears_in_exposition() {
    let mut counters = PipelineCounters::new();
    let before = counters.rebase_count();
    counters.force_increment_rebase_for_test();
    assert_eq!(counters.rebase_count(), before + 1);
    let text = counters.prometheus_text();
    assert!(text.contains("iris_rebase_total"));
    assert!(text.contains("iris_uptime_milliseconds"));
    assert!(text.contains(&format!("iris_rebase_total {}", before + 1)));
}

#[test]
fn the_exposition_is_prometheus_text() {
    assert_eq!(
        exposition(3, 1500),
        "# HELP iris_rebase_total Number of pipeline rebase events.\n\
         # TYPE iris_rebase_total counter\n\
         iris_rebase_total 3\n\
         # HELP iris_uptime_milliseconds Process uptime in milliseconds.\n\
         # TYPE iris_uptime_milliseconds gauge\n\
         iris_uptime_milliseconds 1500\n"
    );
}

#[test]
fn the_first_start_stamp_sticks() {
    let mut counters = PipelineCounters::new();
    assert_eq!(counters.start_at(1000), 1000);
    assert_eq!(counters.start_at(5000), 1000);
    let text = counters.prometheus_text_at(3500);
    assert!(text.ends_with("iris_uptime_milliseconds 2500\n"), "{text}");
    let text = counters.prometheus_text_at(10);
    assert!(text.ends_with("iris_uptime_milliseconds 0\n"), "uptime never goes negative: {text}");
}
