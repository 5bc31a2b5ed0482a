use daplot::model::{
    next_id, palette_color, AxisSide, ChartType, Color, IdSource, SeriesConfig, SubplotConfig,
};

#[test]
fn ids_count_up_from_one() {
    let mut ids = IdSource::new();
    assert_eq!(next_id(&mut ids), 1);
    assert_eq!(next_id(&mut ids), 2);
    assert_eq!(ids.next, 3);
}

#[test]
fn ids_wrap_around_at_the_end() {
    let mut ids = IdSource { next: u64::MAX };
    assert_eq!(next_id(&mut ids), u64::MAX);
    assert_eq!(next_id(&mut ids), 0);
}

#[test]
fn chart_type_labels() {
    let labels: Vec<&str> = ChartType::ALL.iter().map(|c| c.label()).collect();
    assert_eq!(labels, vec!["Line", "Line + Marker", "Scatter", "Bar"]);
}

#[test]
fn palette_starts_with_red_green_blue() {
    assert_eq!(palette_color(0), Color { r: 0xe6, g: 0x1e, b: 0x25, a: 255 });
    assert_eq!(palette_color(1), Color { r: 0x3d, g: 0xa5, b: 0x35, a: 255 });
    assert_eq!(palette_color(2), Color { r: 0x25, g: 0x63, b: 0xeb, a: 255 });
    assert_eq!(palette_color(9), Color { r: 0x17, g: 0xbe, b: 0xcf, a: 255 });
}

#[test]
fn new_series_defaults() {
    let mut ids = IdSource::new();
    let s = SeriesConfig::new(&mut ids, "temp".to_string(), 12);
    assert_eq!(s.id, 1);
    assert_eq!(s.name, "temp");
    assert_eq!(s.y_column, "temp");
    assert_eq!(s.chart_type, ChartType::LineMarker);
    assert_eq!(s.axis, AxisSide::Primary);
    // the palette cycles: entry 12 is entry 2
    assert_eq!(s.color, palette_color(2));
    assert!(s.visible);
    assert_eq!(s.line_width_hundredths, 180);
    assert_eq!(s.marker_radius_hundredths, 250);
}

#[test]
fn new_subplot_defaults() {
    let mut ids = IdSource::new();
    let s = SubplotConfig::new(&mut ids, 0, Some("time".to_string()));
    assert_eq!(s.title, "Subplot 1");
    assert_eq!(s.x_axis_title, "time");
    assert_eq!(s.x_column, Some("time".to_string()));
    assert!(s.series.is_empty());
    assert!(s.show_legend);
    assert_eq!(s.height, 320);
    let t = SubplotConfig::new(&mut ids, 41, None);
    assert_eq!(t.title, "Subplot 42");
    assert_eq!(t.x_axis_title, "");
    assert_ne!(s.id, t.id);
}

#[test]
fn secondary_series_must_be_visible() {
    let mut ids = IdSource::new();
    let mut sub = SubplotConfig::new(&mut ids, 0, None);
    assert!(!sub.has_secondary_series());
    let mut s = SeriesConfig::new(&mut ids, "a".to_string(), 0);
    s.axis = AxisSide::Secondary;
    s.visible = false;
    sub.series.push(s.clone());
    assert!(!sub.has_secondary_series());
    s.visible = true;
    sub.series.push(s);
    assert!(sub.has_secondary_series());
}
