use daplot::model::{next_series_column, IdSource, SeriesConfig, SubplotConfig};

fn columns(names: &[&str]) -> Vec<String> {
    names.iter().map(|s| s.to_string()).collect()
}

#[test]
fn first_add_skips_the_x_column() {
    let mut ids = IdSource::new();
    let subplot = SubplotConfig::new(&mut ids, 0, Some("X".to_string()));
    let y_columns = columns(&["X", "Y", "Z"]);
    assert_eq!(
        next_series_column(&y_columns, &subplot),
        Some("Y".to_string())
    );
}

#[test]
fn subsequent_adds_step_through_remaining_columns() {
    let mut ids = IdSource::new();
    let mut subplot = SubplotConfig::new(&mut ids, 0, Some("X".to_string()));
    let y_columns = columns(&["X", "Y", "Z"]);

    let col = next_series_column(&y_columns, &subplot).unwrap();
    assert_eq!(col, "Y");
    subplot.series.push(SeriesConfig::new(&mut ids, col, 0));

    let col = next_series_column(&y_columns, &subplot).unwrap();
    assert_eq!(col, "Z");
    subplot.series.push(SeriesConfig::new(&mut ids, col, 1));
}

#[test]
fn wraps_around_and_reuses_columns_once_all_are_taken() {
    let mut ids = IdSource::new();
    let mut subplot = SubplotConfig::new(&mut ids, 0, Some("X".to_string()));
    let y_columns = columns(&["X", "Y", "Z"]);

    for _ in 0..2 {
        let col = next_series_column(&y_columns, &subplot).unwrap();
        let used = subplot.series.len();
        subplot.series.push(SeriesConfig::new(&mut ids, col, used));
    }
    // Y and Z are now used; the next pick wraps back to X.
    assert_eq!(
        next_series_column(&y_columns, &subplot),
        Some("X".to_string())
    );
}

#[test]
fn no_x_column_and_no_series_picks_the_first_column() {
    let mut ids = IdSource::new();
    let subplot = SubplotConfig::new(&mut ids, 0, None);
    let y_columns = columns(&["X", "Y", "Z"]);
    assert_eq!(
        next_series_column(&y_columns, &subplot),
        Some("X".to_string())
    );
}

#[test]
fn empty_column_list_yields_nothing() {
    let mut ids = IdSource::new();
    let subplot = SubplotConfig::new(&mut ids, 0, Some("X".to_string()));
    assert_eq!(next_series_column(&[], &subplot), None);
}

#[test]
fn works_when_x_axis_is_the_first_timestamp_column() {
    // Mirrors a real file where the X axis is a timestamp column, not
    // literally the first column, with junk columns around it.
    let y_columns = columns(&["Timestamp1", "Timestamp2", "Random Garbage", "X", "Y", "Z"]);
    let mut ids = IdSource::new();
    let mut subplot = SubplotConfig::new(&mut ids, 0, Some("Timestamp1".to_string()));

    let col = next_series_column(&y_columns, &subplot).unwrap();
    assert_eq!(col, "Timestamp2");
    subplot.series.push(SeriesConfig::new(&mut ids, col, 0));

    let col = next_series_column(&y_columns, &subplot).unwrap();
    assert_eq!(col, "Random Garbage");
    subplot.series.push(SeriesConfig::new(&mut ids, col, 1));

    let col = next_series_column(&y_columns, &subplot).unwrap();
    assert_eq!(col, "X");
}

#[test]
fn works_when_x_axis_is_the_second_timestamp_column() {
    let y_columns = columns(&["Timestamp1", "Timestamp2", "Random Garbage", "X", "Y", "Z"]);
    let mut ids = IdSource::new();
    let mut subplot = SubplotConfig::new(&mut ids, 0, Some("Timestamp2".to_string()));

    let col = next_series_column(&y_columns, &subplot).unwrap();
    assert_eq!(col, "Random Garbage");
    subplot.series.push(SeriesConfig::new(&mut ids, col, 0));

    let col = next_series_column(&y_columns, &subplot).unwrap();
    assert_eq!(col, "X");
    subplot.series.push(SeriesConfig::new(&mut ids, col, 1));

    let col = next_series_column(&y_columns, &subplot).unwrap();
    assert_eq!(col, "Y");
}

#[test]
fn advances_from_a_manually_reassigned_series_column() {
    // The auto-picked column for a series can be overridden by hand via
    // the series' own y-column dropdown. The *next* add should advance
    // from that manually-picked column, not the one it replaced.
    let y_columns = columns(&["Timestamp1", "Timestamp2", "Random Garbage", "X", "Y", "Z"]);
    let mut ids = IdSource::new();
    let mut subplot = SubplotConfig::new(&mut ids, 0, Some("Timestamp1".to_string()));

    let col = next_series_column(&y_columns, &subplot).unwrap();
    assert_eq!(col, "Timestamp2");
    subplot.series.push(SeriesConfig::new(&mut ids, col, 0));

    let col = next_series_column(&y_columns, &subplot).unwrap();
    assert_eq!(col, "Random Garbage");
    subplot.series.push(SeriesConfig::new(&mut ids, col, 1));

    // User manually reassigns that last series from "Random Garbage" to "X".
    subplot.series.last_mut().unwrap().y_column = "X".to_string();

    let col = next_series_column(&y_columns, &subplot).unwrap();
    assert_eq!(col, "Y");
}

#[test]
fn works_when_x_axis_timestamp_is_the_last_column() {
    // If the timestamp used for the X axis happens to be the last
    // plottable column, "next after X" wraps to the first column.
    let y_columns = columns(&["Random Garbage", "Y", "Z", "X", "Timestamp1"]);
    let mut ids = IdSource::new();
    let subplot = SubplotConfig::new(&mut ids, 0, Some("Timestamp1".to_string()));
    assert_eq!(
        next_series_column(&y_columns, &subplot),
        Some("Random Garbage".to_string())
    );
}

#[test]
fn every_column_used_falls_back_to_the_first() {
    let mut ids = IdSource::new();
    let mut subplot = SubplotConfig::new(&mut ids, 0, Some("B".to_string()));
    let y_columns = columns(&["A", "B"]);
    subplot.series.push(SeriesConfig::new(&mut ids, "B".to_string(), 0));
    subplot.series.push(SeriesConfig::new(&mut ids, "A".to_string(), 1));
    assert_eq!(next_series_column(&y_columns, &subplot), Some("A".to_string()));
}

#[test]
fn an_unknown_anchor_starts_from_the_first_column() {
    let mut ids = IdSource::new();
    let subplot = SubplotConfig::new(&mut ids, 0, Some("time".to_string()));
    let y_columns = columns(&["A", "B"]);
    assert_eq!(next_series_column(&y_columns, &subplot), Some("A".to_string()));
}

#[test]
fn repeated_adds_visit_every_column_once_then_the_first() {
    for (x, expected) in [
        (Some("B"), vec!["C", "D", "A", "B"]),
        (Some("D"), vec!["A", "B", "C", "D"]),
        (Some("missing"), vec!["A", "B", "C", "D"]),
        (None, vec!["A", "B", "C", "D"]),
    ] {
        let mut ids = IdSource::new();
        let mut subplot = SubplotConfig::new(&mut ids, 0, x.map(|s| s.to_string()));
        let y_columns = columns(&["A", "B", "C", "D"]);
        let mut picked = Vec::new();
        for k in 0..4 {
            let col = next_series_column(&y_columns, &subplot).unwrap();
            picked.push(col.clone());
            subplot.series.push(SeriesConfig::new(&mut ids, col, k));
        }
        assert_eq!(picked, columns(&expected));
        assert_eq!(next_series_column(&y_columns, &subplot), Some("A".to_string()));
    }
}
