use wombat::histogram::Histogram;

#[test]
fn every_value_once_gives_one_in_every_bucket() {
    let bytes: Vec<u8> = (0..=255u8).collect();
    let table = Histogram::calculate_histogram(&bytes);
    for b in 0..=255u8 {
        assert_eq!(table.count(b), 1);
    }
    assert_eq!(table.counts(), vec![1usize; 256]);
    assert_eq!(table.min_count(), 1);
    assert_eq!(table.max_count(), 1);
}

#[test]
fn an_empty_buffer_gives_zero_in_every_bucket() {
    let table = Histogram::calculate_histogram(&[]);
    assert_eq!(table.counts(), vec![0usize; 256]);
    assert_eq!(table.min_count(), 0);
    assert_eq!(table.max_count(), 0);
}

#[test]
fn counts_are_the_occurrences() {
    let table = Histogram::calculate_histogram(b"abracadabra");
    assert_eq!(table.count(b'a'), 5);
    assert_eq!(table.count(b'b'), 2);
    assert_eq!(table.count(b'r'), 2);
    assert_eq!(table.count(b'c'), 1);
    assert_eq!(table.count(b'd'), 1);
    assert_eq!(table.count(b'e'), 0);
    assert_eq!(table.count(0), 0);
    assert_eq!(table.count(255), 0);
    assert_eq!(table.counts().iter().sum::<usize>(), 11);
    assert_eq!(table.min_count(), 0);
    assert_eq!(table.max_count(), 5);
}

#[test]
fn the_window_computes_its_table_once_it_is_shown() {
    let mut histogram = Histogram::new();
    assert!(!histogram.is_open);
    assert!(!histogram.vertical);
    assert!(!histogram.prepare(b"aab"));
    assert!(histogram.data.is_none());
    histogram.is_open = true;
    assert!(!histogram.prepare(b"aab"));
    assert_eq!(histogram.data.as_ref().unwrap().count(b'a'), 2);
    assert!(histogram.prepare(b"aab"));
    histogram.reset();
    assert!(histogram.data.is_none());
    assert!(histogram.is_open);
}
