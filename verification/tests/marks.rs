use rstrf::layout::MarkAction;
use rstrf::marks::{signal_file, signals_to_save, Marks, SaveSignalsError};

type Point = (f32, f32);

fn pt(x: f32, y: f32) -> Point {
    (x, y)
}

/// The time key of a point: for the non-negative times of a plot the bit pattern of an `f32`
/// orders as the number does.
fn key(p: Point) -> u32 {
    p.0.to_bits()
}

fn insert(marks: &mut Marks<Point>, p: Point) {
    marks.insert_track_point(key(p), p);
}

fn points(marks: &Marks<Point>) -> Vec<Point> {
    marks.track_points().iter().map(|t| t.1).collect()
}

#[test]
fn insert_track_point_keeps_points_sorted_by_time() {
    let mut marks = Marks::default();
    for x in [3.0, 1.0, 2.0] {
        insert(&mut marks, pt(x, 0.0));
    }
    let times: Vec<f32> = marks.track_points().iter().map(|p| p.1 .0).collect();
    assert_eq!(times, vec![1.0, 2.0, 3.0]);
}

#[test]
fn insert_track_point_replaces_point_at_same_time() {
    let mut marks = Marks::default();
    insert(&mut marks, pt(1.0, 10.0));
    insert(&mut marks, pt(1.0, 20.0));
    assert_eq!(points(&marks), vec![pt(1.0, 20.0)]);
}

#[test]
fn insert_track_point_carries_its_key() {
    let mut marks = Marks::default();
    marks.insert_track_point(7, pt(0.5, 1.0));
    marks.insert_track_point(3, pt(0.25, 2.0));
    assert_eq!(marks.track_points().to_vec(), vec![(3, pt(0.25, 2.0)), (7, pt(0.5, 1.0))]);
}

#[test]
fn remove_drops_only_the_first_equal_mark_of_its_collection() {
    let mut marks = Marks::default();
    insert(&mut marks, pt(1.0, 5.0));
    insert(&mut marks, pt(2.0, 5.0));
    marks.signals_mut().push(pt(1.0, 5.0));
    marks.signals_mut().push(pt(4.0, 4.0));
    marks.signals_mut().push(pt(4.0, 4.0));

    marks.remove(MarkAction::Signal, pt(4.0, 4.0));
    assert_eq!(marks.signals().to_vec(), vec![pt(1.0, 5.0), pt(4.0, 4.0)]);
    assert_eq!(points(&marks), vec![pt(1.0, 5.0), pt(2.0, 5.0)]);

    marks.remove(MarkAction::Trackpoint, pt(1.0, 5.0));
    assert_eq!(points(&marks), vec![pt(2.0, 5.0)]);
    assert_eq!(marks.signals().to_vec(), vec![pt(1.0, 5.0), pt(4.0, 4.0)]);
}

#[test]
fn remove_of_an_absent_mark_changes_nothing() {
    let mut marks = Marks::default();
    insert(&mut marks, pt(1.0, 5.0));
    marks.signals_mut().push(pt(3.0, 3.0));
    marks.remove(MarkAction::Trackpoint, pt(3.0, 3.0));
    marks.remove(MarkAction::Signal, pt(1.0, 5.0));
    assert_eq!(points(&marks), vec![pt(1.0, 5.0)]);
    assert_eq!(marks.signals().to_vec(), vec![pt(3.0, 3.0)]);
}

#[test]
fn retain_filters_both_collections_in_order() {
    let mut marks = Marks::default();
    for x in [4.0, 1.0, 3.0, 2.0] {
        insert(&mut marks, pt(x, x * 10.0));
    }
    *marks.signals_mut() = vec![pt(5.0, 50.0), pt(0.5, 5.0), pt(2.5, 25.0)];
    marks.retain(|p: &Point| p.1 > 15.0);
    assert_eq!(points(&marks), vec![pt(2.0, 20.0), pt(3.0, 30.0), pt(4.0, 40.0)]);
    assert_eq!(marks.signals().to_vec(), vec![pt(5.0, 50.0), pt(2.5, 25.0)]);
}

#[test]
fn clear_removes_every_mark() {
    let mut marks = Marks::default();
    insert(&mut marks, pt(1.0, 1.0));
    marks.signals_mut().push(pt(1.0, 1.0));
    marks.clear();
    assert!(marks.track_points().is_empty());
    assert!(marks.signals().is_empty());
}

#[test]
fn signal_file_has_one_line_per_signal_with_sigma_five() {
    let rows = vec![
        ("60475.520833".to_string(), "145900000.000000".to_string()),
        ("60475.521528".to_string(), "145900200.000000".to_string()),
    ];
    assert_eq!(
        signal_file(&rows, 4801),
        "60475.520833 145900000.000000 5.000000 4801\n60475.521528 145900200.000000 5.000000 4801\n"
    );
    assert_eq!(signal_file(&rows[..1].to_vec(), -12), "60475.520833 145900000.000000 5.000000 -12\n");
    assert_eq!(signal_file(&Vec::new(), 1), "");
    let extreme = signal_file(&rows[..1].to_vec(), i32::MIN);
    assert!(extreme.ends_with(&format!(" {}\n", i32::MIN)));
}

#[test]
fn replacing_a_point_keeps_every_other_point() {
    let mut marks = Marks::default();
    marks.insert_track_point(1, pt(0.1, 1.0));
    marks.insert_track_point(5, pt(0.5, 1.0));
    marks.insert_track_point(9, pt(0.9, 1.0));
    marks.signals_mut().push(pt(7.0, 7.0));
    marks.insert_track_point(5, pt(0.5, 2.0));
    assert_eq!(
        marks.track_points().to_vec(),
        vec![(1, pt(0.1, 1.0)), (5, pt(0.5, 2.0)), (9, pt(0.9, 1.0))]
    );
    assert_eq!(marks.signals().to_vec(), vec![pt(7.0, 7.0)]);
}

#[test]
fn signals_are_saved_only_with_a_spectrogram_and_a_site() {
    let rows = vec![("60475.520833".to_string(), "145900000.000000".to_string())];
    assert_eq!(signals_to_save(false, Some(1), &rows), Err(SaveSignalsError::NoSpectrogram));
    assert_eq!(signals_to_save(false, None, &rows), Err(SaveSignalsError::NoSpectrogram));
    assert_eq!(signals_to_save(true, None, &rows), Err(SaveSignalsError::NoSite));
    assert_eq!(
        signals_to_save(true, Some(4801), &rows),
        Ok("60475.520833 145900000.000000 5.000000 4801\n".to_string())
    );
}
