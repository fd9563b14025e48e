use tc_cache::stats::{Counter, Unit};
use tc_cache::Stats;

#[test]
fn counters_count() {
    let mut counter = Counter::new();
    assert!(counter.is_empty());
    counter.inc(5);
    counter.inc(7);
    counter.elapsed(100);
    counter.elapsed(23);
    assert_eq!(counter.counter(), 12);
    assert_eq!(counter.micros(), 123);
    assert!(!counter.is_empty());
}

#[test]
fn counters_wrap_around() {
    let mut counter = Counter { counter: u64::MAX, micros: u64::MAX - 1 };
    counter.inc(2);
    counter.elapsed(3);
    assert_eq!(counter.counter(), 1);
    assert_eq!(counter.micros(), 1);
}

#[test]
fn time_is_shared_among_threads() {
    let mut counter = Counter { counter: 9, micros: 1000 };
    counter.fit_to_threads(3);
    assert_eq!(counter.micros(), 333);
    assert_eq!(counter.counter(), 9);
    counter.fit_to_threads(0);
    assert_eq!(counter.micros(), 333);
    counter.fit_to_rayon_threads();
    assert!(counter.micros() <= 333);
    assert_eq!(counter.counter(), 9);
}

#[test]
fn timer_notes_bytes() {
    let mut counter = Counter::new();
    let mut timer = counter.timer();
    timer.bytes(10);
    timer.bytes(5);
    timer.stop(&mut counter);
    assert_eq!(counter.counter(), 15);
    let timer = counter.timer();
    timer.stop(&mut counter);
    assert_eq!(counter.counter(), 15);
}

#[test]
fn report_lists_what_was_counted() {
    let mut stats = Stats::new();
    assert!(stats.sections(4).is_empty());
    stats.walking.inc(3);
    stats.hashing.inc(100);
    stats.hashing.elapsed(4000);
    stats.upload.inc(7);
    let sections = stats.sections(4);
    let names: Vec<&str> = sections.iter().map(|it| it.name).collect();
    assert_eq!(names, vec!["hashing", "walking", "upload"]);
    assert_eq!(sections[0].unit, Unit::Bytes);
    assert_eq!(sections[0].counter, Counter { counter: 100, micros: 1000 });
    assert_eq!(sections[1].unit, Unit::Operations);
    assert_eq!(sections[1].counter, Counter { counter: 3, micros: 0 });
    assert_eq!(sections[2].unit, Unit::Bytes);
    assert_eq!(stats.hashing().micros(), 4000);
    assert_eq!(stats.walking().counter(), 3);
    assert_eq!(stats.upload().counter(), 7);
    assert!(stats.packing().is_empty());
    assert!(stats.unpacking().is_empty());
    assert!(stats.download().is_empty());

    stats.packing.inc(1);
    stats.unpacking.inc(1);
    stats.download.inc(1);
    let names: Vec<&str> = stats.sections(0).iter().map(|it| it.name).collect();
    assert_eq!(names, vec!["hashing", "packing", "unpacking", "walking", "download", "upload"]);
    assert_eq!(stats.sections(0)[0].counter.micros, 4000);
}
