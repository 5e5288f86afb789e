use ulidgen::{decode, generate_ulids, join, render, split, Generator, UlidError, MAX_RANDOM};

#[test]
fn empty_run() {
    let mut generator = Generator::new();
    let batch = generate_ulids(&mut generator, Some(1000), 0, false);
    assert!(batch.values.is_empty());
    assert!(batch.lines.is_empty());
    assert_eq!(batch.failure, None);
    assert_eq!(generator.previous(), None);
}

#[test]
fn pinned_run_counts_up_from_the_first_value() {
    let mut generator = Generator::new();
    let batch = generate_ulids(&mut generator, Some(1000), 5, false);
    assert_eq!(batch.failure, None);
    assert_eq!(batch.values.len(), 5);
    assert_eq!(batch.lines.len(), 5);
    assert_eq!(split(batch.values[0]).0, 1000);
    for i in 1..5 {
        assert_eq!(batch.values[i], batch.values[i - 1] + 1);
    }
    for i in 0..5 {
        assert_eq!(batch.lines[i], render(batch.values[i], false));
        assert_eq!(decode(&batch.lines[i]), Ok(batch.values[i]));
    }
    assert_eq!(generator.previous(), Some(batch.values[4]));
}

#[test]
fn lines_sort_as_values_do() {
    let mut generator = Generator::new();
    let batch = generate_ulids(&mut generator, None, 500, false);
    assert_eq!(batch.failure, None);
    assert_eq!(batch.lines.len(), 500);
    for pair in batch.values.windows(2) {
        assert!(pair[0] < pair[1]);
    }
    for pair in batch.lines.windows(2) {
        assert!(pair[0] < pair[1]);
    }
}

#[test]
fn lowercase_run() {
    let mut generator = Generator::new();
    let batch = generate_ulids(&mut generator, Some(1469922850259), 3, true);
    assert_eq!(batch.failure, None);
    for i in 0..3 {
        assert_eq!(batch.lines[i], render(batch.values[i], true));
        assert_eq!(batch.lines[i], batch.lines[i].to_lowercase());
        assert_eq!(&batch.lines[i][..10], "01arz3ndek");
        assert_eq!(decode(&batch.lines[i]), Ok(batch.values[i]));
    }
}

#[test]
fn run_stops_when_the_payload_is_exhausted() {
    let start = join(1000, MAX_RANDOM - 2).unwrap();
    let mut generator = Generator::resume(start);
    let batch = generate_ulids(&mut generator, Some(1000), 5, false);
    assert_eq!(batch.values, vec![start + 1, start + 2]);
    assert_eq!(
        batch.lines,
        vec!["00000000Z8ZZZZZZZZZZZZZZZY".to_string(), "00000000Z8ZZZZZZZZZZZZZZZZ".to_string()]
    );
    assert_eq!(batch.failure, Some(UlidError::RandomOverflow));
    assert_eq!(generator.previous(), Some(start + 2));
}

#[test]
fn run_with_a_wide_timestamp_fails_at_once() {
    let mut generator = Generator::new();
    let batch = generate_ulids(&mut generator, Some(1 << 48), 3, false);
    assert!(batch.values.is_empty());
    assert!(batch.lines.is_empty());
    assert_eq!(batch.failure, Some(UlidError::TimestampOverflow));
    assert_eq!(generator.previous(), None);
}

#[test]
fn runs_of_one_generator_continue_each_other() {
    let mut generator = Generator::new();
    let first = generate_ulids(&mut generator, Some(1000), 3, false);
    let second = generate_ulids(&mut generator, Some(1000), 3, false);
    assert_eq!(second.values[0], first.values[2] + 1);
    let third = generate_ulids(&mut generator, Some(999), 1, false);
    assert_eq!(third.values[0], second.values[2] + 1);
}
