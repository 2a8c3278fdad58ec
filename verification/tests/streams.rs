use smoothie::binary64::Binary64;
use smoothie::stream_tracker::StreamTracker;
use smoothie::streams::{Median, Streams};

fn binary(x: f64) -> Binary64 {
    Binary64::from_bits(x.to_bits())
}

fn tracker(itl: f64) -> StreamTracker {
    let mut tracker = StreamTracker::new(binary(0.3), 0);
    tracker.apply_terminal_correction(binary(itl));
    tracker
}

fn streams_of(itls: &[f64]) -> Streams {
    let mut streams = Streams::new();
    let mut id = 0;
    for itl in itls {
        streams.insert(id, tracker(*itl));
        id += 1;
    }
    streams
}

#[test]
fn entries_are_kept_by_id() {
    let mut streams = Streams::new();
    assert!(streams.get(3).is_none());
    streams.insert(3, tracker(1.0));
    streams.insert(4, tracker(2.0));
    assert_eq!(streams.get(3), Some(tracker(1.0)));
    streams.set(3, tracker(5.0));
    assert_eq!(streams.get(3), Some(tracker(5.0)));
    assert_eq!(streams.get(4), Some(tracker(2.0)));
    // Writing to a stream that is not there adds none.
    streams.set(9, tracker(7.0));
    assert!(streams.get(9).is_none());
    streams.insert(4, tracker(6.0));
    assert_eq!(streams.get(4), Some(tracker(6.0)));
    assert!(streams.remove(3));
    assert!(!streams.remove(3));
    assert!(streams.get(3).is_none());
    assert_eq!(streams.get(4), Some(tracker(6.0)));
}

#[test]
fn median_of_none_is_unmeasured() {
    assert_eq!(streams_of(&[]).median_smoothed_itl(), Median::Unmeasured);
    assert_eq!(
        streams_of(&[0.0, -3.0, f64::NAN, -0.0]).median_smoothed_itl(),
        Median::Unmeasured
    );
}

#[test]
fn median_of_an_odd_number_is_the_middle() {
    assert_eq!(streams_of(&[7.0]).median_smoothed_itl(), Median::Middle(binary(7.0)));
    assert_eq!(
        streams_of(&[30.0, 10.0, 20.0]).median_smoothed_itl(),
        Median::Middle(binary(20.0))
    );
    assert_eq!(
        streams_of(&[0.0, 30.0, -1.0, 10.0, 20.0, f64::NAN]).median_smoothed_itl(),
        Median::Middle(binary(20.0))
    );
    assert_eq!(
        streams_of(&[5.0, 5.0, 1.0, 5.0, 9.0]).median_smoothed_itl(),
        Median::Middle(binary(5.0))
    );
}

#[test]
fn median_of_an_even_number_lies_between_two() {
    assert_eq!(
        streams_of(&[40.0, 10.0]).median_smoothed_itl(),
        Median::Between { lower: binary(10.0), upper: binary(40.0) }
    );
    assert_eq!(
        streams_of(&[40.0, 10.0, 0.5, 1e9]).median_smoothed_itl(),
        Median::Between { lower: binary(10.0), upper: binary(40.0) }
    );
}

#[test]
fn median_withstands_one_outlier() {
    assert_eq!(
        streams_of(&[50.0, f64::INFINITY, 48.0]).median_smoothed_itl(),
        Median::Middle(binary(50.0))
    );
    assert_eq!(
        streams_of(&[50.0, 1e-9, 48.0, 52.0]).median_smoothed_itl(),
        Median::Between { lower: binary(48.0), upper: binary(50.0) }
    );
}

#[test]
fn median_does_not_depend_on_the_ids() {
    let itls = [3.0, 99.0, 42.0, 7.0, 56.0, 23.0, 12.0];
    let mut streams = Streams::new();
    for itl in itls {
        streams.insert(itl as u64 * 7919, tracker(itl));
    }
    assert_eq!(streams.median_smoothed_itl(), streams_of(&itls).median_smoothed_itl());
    assert_eq!(streams.median_smoothed_itl(), Median::Middle(binary(23.0)));
}
