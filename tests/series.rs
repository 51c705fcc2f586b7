use snapshot_chart::chart::{compute_scales, default_layout, raster_size, ChartError, ChartLayout, VALUE_PADDING};
use snapshot_chart::metric::{snapshot_metric, MetricRule};
use snapshot_chart::series::{
    build_series, chronological_entries, collapse_repeats, dedup_labels, label_points, SeriesPoint, Snapshot,
};
use snapshot_chart::timestamp::{date_from_filename, SnapshotDate};

const DAY: i64 = 86400;

fn snap(name: &str, metric: Option<u64>) -> Snapshot {
    Snapshot { name: name.to_string(), metric }
}

fn point(day: i64, label: &str, value: u64) -> SeriesPoint {
    SeriesPoint { date: SnapshotDate { day }, label: label.to_string(), value }
}

fn plain(series: &[SeriesPoint]) -> Vec<(i64, String, u64)> {
    series.iter().map(|p| (p.date.day, p.label.clone(), p.value)).collect()
}

#[test]
fn timestamp_from_last_segment() {
    assert_eq!(date_from_filename("state.json.86400"), Some(SnapshotDate { day: 1 }));
    assert_eq!(date_from_filename("backup.1600000000"), Some(SnapshotDate { day: 18518 }));
    assert_eq!(date_from_filename("1600000000"), Some(SnapshotDate { day: 18518 }));
    assert_eq!(date_from_filename("x.+172800"), Some(SnapshotDate { day: 2 }));
}

#[test]
fn timestamp_truncates_to_midnight() {
    let d = date_from_filename("state.1600000000").unwrap();
    assert_eq!(d.midnight(), 1599955200);
    assert_eq!(d.midnight() % 86400, 0);
    let before_epoch = date_from_filename("state.-1").unwrap();
    assert_eq!(before_epoch.day, -1);
    assert_eq!(before_epoch.midnight(), -86400);
    assert_eq!(date_from_filename("state.-86400").unwrap().day, -1);
    assert_eq!(date_from_filename("state.-86401").unwrap().day, -2);
    assert_eq!(date_from_filename("s.9223372036854775807").unwrap().day, 106751991167300);
}

#[test]
fn timestamp_rejects_non_integers() {
    assert_eq!(date_from_filename("state.json"), None);
    assert_eq!(date_from_filename("state."), None);
    assert_eq!(date_from_filename(""), None);
    assert_eq!(date_from_filename("1600000000.json"), None);
    assert_eq!(date_from_filename("state.12a"), None);
    assert_eq!(date_from_filename("state.-"), None);
    assert_eq!(date_from_filename("state. 12"), None);
    assert_eq!(date_from_filename("state.9223372036854775808"), None);
}

#[test]
fn scenario_adjacent_equal_counts_collapse() {
    let listing = vec![
        snap("s.86400", Some(5)),
        snap("s.172800", Some(5)),
        snap("s.259200", Some(7)),
    ];
    let series = build_series(&listing);
    assert_eq!(
        plain(&series),
        vec![(1, "02.01.1970".to_string(), 5), (3, "04.01.1970".to_string(), 7)]
    );
}

#[test]
fn scenario_same_day_first_survives() {
    let listing = vec![snap("s.90000", Some(3)), snap("s.100000", Some(9))];
    let series = build_series(&listing);
    assert_eq!(plain(&series), vec![(1, "02.01.1970".to_string(), 3)]);
    let swapped = vec![snap("s.100000", Some(9)), snap("s.90000", Some(3))];
    assert_eq!(plain(&build_series(&swapped)), vec![(1, "02.01.1970".to_string(), 9)]);
}

#[test]
fn scenario_empty_listing() {
    let series = build_series(&Vec::new());
    assert!(series.is_empty());
    let scales = compute_scales(&series, &default_layout(), VALUE_PADDING);
    assert!(matches!(scales, Err(ChartError::EmptySeries)));
}

#[test]
fn scenario_single_point_scales() {
    let series = build_series(&vec![snap("s.1600000000", Some(42)), snap("notes.txt", None)]);
    assert_eq!(series.len(), 1);
    let scales = compute_scales(&series, &default_layout(), VALUE_PADDING).unwrap();
    assert_eq!(scales.y_domain, (32, 52));
    assert_eq!(scales.labels, vec!["13.09.2020".to_string()]);
    assert_eq!(scales.x_range, (0, 1820));
    assert_eq!(scales.y_range, (895, 0));
}

#[test]
fn series_sorted_whatever_the_listing_order() {
    let listing = vec![
        snap("s.432000", Some(4)),
        snap("s.86400", Some(1)),
        snap("readme", Some(100)),
        snap("s.259200", Some(3)),
        snap("s.172800", Some(2)),
    ];
    let series = build_series(&listing);
    assert_eq!(
        plain(&series),
        vec![
            (1, "02.01.1970".to_string(), 1),
            (2, "03.01.1970".to_string(), 2),
            (3, "04.01.1970".to_string(), 3),
            (5, "06.01.1970".to_string(), 4),
        ]
    );
    for w in series.windows(2) {
        assert!(w[0].date.day < w[1].date.day);
        assert_ne!(w[0].value, w[1].value);
    }
}

#[test]
fn series_keeps_non_adjacent_repeats() {
    let listing = vec![snap("a.0", Some(5)), snap("a.86400", Some(6)), snap("a.172800", Some(5))];
    let values: Vec<u64> = build_series(&listing).iter().map(|p| p.value).collect();
    assert_eq!(values, vec![5, 6, 5]);
}

#[test]
fn series_first_zero_count_is_kept() {
    let listing = vec![snap("a.0", Some(0)), snap("a.86400", Some(0)), snap("a.172800", Some(2))];
    assert_eq!(
        plain(&build_series(&listing)),
        vec![(0, "01.01.1970".to_string(), 0), (2, "03.01.1970".to_string(), 2)]
    );
}

#[test]
fn series_skips_unread_snapshots() {
    let listing = vec![snap("a.0", None), snap("a.86400", Some(8)), snap("a.100", Some(4))];
    assert_eq!(
        plain(&build_series(&listing)),
        vec![(0, "01.01.1970".to_string(), 4), (1, "02.01.1970".to_string(), 8)]
    );
}

#[test]
fn series_skips_days_without_label() {
    let listing = vec![snap("a.-62135596801", Some(1)), snap("a.-62135596800", Some(2))];
    assert_eq!(plain(&build_series(&listing)), vec![(-719162, "01.01.0001".to_string(), 2)]);
}

#[test]
fn series_is_repeatable() {
    let listing = vec![snap("s.200000", Some(2)), snap("s.100", Some(1)), snap("s.90000", Some(7))];
    assert_eq!(plain(&build_series(&listing)), plain(&build_series(&listing)));
}

#[test]
fn chronological_entries_by_day_then_position() {
    let listing = vec![snap("b.172800", None), snap("x", None), snap("a.90000", None), snap("c.86400", None)];
    assert_eq!(chronological_entries(&listing), vec![(1, 2), (1, 3), (2, 0)]);
}

#[test]
fn label_points_formats_dates() {
    let listing = vec![snap("a.0", Some(3)), snap("b.1", None)];
    let points = label_points(&listing, &vec![(19000, 0), (0, 1), (0, 5)]);
    assert_eq!(plain(&points), vec![(19000, "08.01.2022".to_string(), 3)]);
}

#[test]
fn dedup_labels_keeps_first() {
    let points = vec![point(1, "x", 1), point(2, "y", 2), point(3, "x", 3), point(4, "y", 4), point(5, "z", 2)];
    assert_eq!(
        plain(&dedup_labels(&points)),
        vec![(1, "x".to_string(), 1), (2, "y".to_string(), 2), (5, "z".to_string(), 2)]
    );
}

#[test]
fn collapse_repeats_keeps_first_of_each_run() {
    let points = vec![point(1, "a", 4), point(2, "b", 4), point(3, "c", 4), point(4, "d", 1), point(5, "e", 4)];
    assert_eq!(
        plain(&collapse_repeats(&points)),
        vec![(1, "a".to_string(), 4), (4, "d".to_string(), 1), (5, "e".to_string(), 4)]
    );
    assert!(collapse_repeats(&Vec::new()).is_empty());
}

#[test]
fn metric_rules() {
    let titled = vec![true, false, true, true, false];
    assert_eq!(snapshot_metric(&titled, MetricRule::AllEntities), 5);
    assert_eq!(snapshot_metric(&titled, MetricRule::Titled), 3);
    assert_eq!(snapshot_metric(&Vec::new(), MetricRule::Titled), 0);
}

#[test]
fn scales_span_min_and_max() {
    let series = vec![point(1, "a", 30), point(2, "b", 5), point(3, "c", 12)];
    let scales = compute_scales(&series, &default_layout(), VALUE_PADDING).unwrap();
    assert_eq!(scales.y_domain, (-5, 40));
    assert_eq!(scales.labels, vec!["a".to_string(), "b".to_string(), "c".to_string()]);
}

#[test]
fn scales_reject_crowded_layout() {
    let series = vec![point(1, "a", 1)];
    let layout = ChartLayout { width: 100, height: 100, top: 50, right: 50, bottom: 10, left: 50 };
    assert!(matches!(compute_scales(&series, &layout, 0), Err(ChartError::LayoutTooSmall)));
    let tall = ChartLayout { width: 200, height: 100, top: 50, right: 50, bottom: 50, left: 50 };
    assert!(matches!(compute_scales(&series, &tall, 0), Err(ChartError::LayoutTooSmall)));
}

#[test]
fn raster_adds_label_rows() {
    assert_eq!(raster_size(&default_layout()), (1920, 1150));
}
