use popone::log_viewer::{LevelFilters, LogLevel, LogViewerConfig, LogViewerModel, LINE_LIMIT};
use popone::log_viewer::resume_index;

fn make_model() -> LogViewerModel<f32> {
    LogViewerModel::default()
}

#[test]
fn parser_basic() {
    let mut m = make_model();
    m.ingest("[12:34:56.789][INFO] hello\n");
    assert_eq!(m.lines.len(), 1);
    let line = &m.lines[0];
    assert_eq!(line.level, LogLevel::Info);
    assert_eq!(line.timestamp, "12:34:56.789");
    assert_eq!(line.message, "hello");
    assert!(!m.seeking_first_header);
}

#[test]
fn parser_all_levels() {
    let mut m = make_model();
    m.filters.show_debug = true;
    m.ingest("[00:00:00.000][ERROR] e\n");
    m.ingest("[00:00:00.000][WARN] w\n");
    m.ingest("[00:00:00.000][INFO] i\n");
    m.ingest("[00:00:00.000][DEBUG] d\n");
    m.ingest("[00:00:00.000][TRACE] t\n");
    assert_eq!(m.lines.len(), 5);
    assert_eq!(m.lines[0].level, LogLevel::Error);
    assert_eq!(m.lines[1].level, LogLevel::Warn);
    assert_eq!(m.lines[2].level, LogLevel::Info);
    assert_eq!(m.lines[3].level, LogLevel::Debug);
    assert_eq!(m.lines[4].level, LogLevel::Trace);
}

#[test]
fn parser_multiline_concat() {
    let mut m = make_model();
    m.ingest("[12:34:56.789][ERROR] panic\n  at src/foo.rs:42\n  at src/bar.rs:88\n");
    assert_eq!(
        m.lines.len(),
        1,
        "multi-line (backtrace) should be concatenated into a single LogLine"
    );
    assert_eq!(m.lines[0].level, LogLevel::Error);
    assert_eq!(
        m.lines[0].message,
        "panic\n  at src/foo.rs:42\n  at src/bar.rs:88"
    );
}

#[test]
fn parser_leading_fragment_discarded() {
    let mut m = make_model();
    m.ingest("garbage fragment\nanother garbage line\n[12:34:56.789][INFO] real\n");
    assert_eq!(
        m.lines.len(),
        1,
        "non-header lines before the first [HEADER] should be discarded"
    );
    assert_eq!(m.lines[0].message, "real");
    assert!(
        !m.seeking_first_header,
        "seeking_first_header should be false after canonical header detection"
    );
}

#[test]
fn parser_unknown_level() {
    let mut m = make_model();
    m.ingest("[12:34:56.789][FATAL] boom\n");
    assert_eq!(m.lines.len(), 1);
    assert_eq!(m.lines[0].level, LogLevel::Unknown);
    assert_eq!(m.lines[0].timestamp, "12:34:56.789");
    assert_eq!(m.lines[0].message, "boom");
}

#[test]
fn parser_incomplete_trailing_fragment() {
    let mut m = make_model();
    m.ingest("[12:34:56.789][INFO] part");
    assert_eq!(m.lines.len(), 0);
    assert_eq!(m.tail_buffer, "[12:34:56.789][INFO] part");

    m.ingest("ial\n");
    assert_eq!(m.lines.len(), 1);
    assert_eq!(m.lines[0].message, "partial");
    assert!(m.tail_buffer.is_empty());
}

#[test]
fn parser_crlf_stripped() {
    let mut m = make_model();
    m.ingest("[12:34:56.789][INFO] crlf line\r\n");
    assert_eq!(m.lines.len(), 1);
    assert_eq!(m.lines[0].message, "crlf line");
}

#[test]
fn parser_drain_and_filter_indices_consistency() {
    let mut m = make_model();
    m.filters.show_debug = true;

    for i in 0..(LINE_LIMIT + 100) {
        m.ingest(&format!("[00:00:00.000][INFO] line {i}\n"));
    }

    assert_eq!(
        m.lines.len(),
        LINE_LIMIT,
        "lines は LINE_LIMIT で cap される"
    );

    for &idx in &m.filter_indices {
        assert!(
            idx < m.lines.len(),
            "stale filter index {} >= lines.len() {}",
            idx,
            m.lines.len()
        );
    }
    assert_eq!(m.filter_indices.len(), m.lines.len());
}

#[test]
fn parser_line_limit_cut() {
    let mut m = make_model();
    m.filters.show_debug = true;
    for i in 0..25_000 {
        m.ingest(&format!("[00:00:00.000][INFO] line {i}\n"));
    }
    assert_eq!(m.lines.len(), LINE_LIMIT);
    assert_eq!(m.lines[0].message, "line 5000");
    assert_eq!(m.lines.back().unwrap().message, "line 24999");
}

/// The log buffer's side of a poll: the text past `offset` and the total written.
fn read_from_offset(data: &str, offset: usize) -> (Option<String>, usize) {
    if offset >= data.len() {
        (None, data.len())
    } else {
        (Some(data[offset..].to_string()), data.len())
    }
}

#[test]
fn poll_incremental_read() {
    let mut buf = String::new();
    let mut m = make_model();

    buf.push_str("[12:34:56.789][INFO] first\n");
    let (text, total) = read_from_offset(&buf, m.last_offset);
    m.poll(text.as_deref(), total);
    assert_eq!(m.lines.len(), 1);
    assert_eq!(m.lines[0].message, "first");
    let offset_after_first = m.last_offset;
    assert!(offset_after_first > 0);

    buf.push_str("[12:34:57.123][WARN] second\n");
    let (text, total) = read_from_offset(&buf, m.last_offset);
    m.poll(text.as_deref(), total);
    assert_eq!(m.lines.len(), 2);
    assert_eq!(m.lines[1].message, "second");
    assert!(
        m.last_offset > offset_after_first,
        "last_offset should be monotonically increasing"
    );
}

#[test]
fn filter_toggles_rebuild_indices() {
    let mut m = make_model();
    m.filters.show_debug = false;
    m.ingest("[00:00:00.000][INFO] shown\n");
    m.ingest("[00:00:00.000][DEBUG] hidden\n");
    m.ingest("[00:00:00.000][INFO] shown2\n");

    assert_eq!(m.lines.len(), 3);
    assert_eq!(m.filter_indices.len(), 2);
    assert_eq!(m.filter_indices, vec![0, 2]);

    let mut f = m.filters;
    f.show_debug = true;
    m.set_filters(f);
    assert_eq!(m.filter_indices, vec![0, 1, 2]);

    let mut f = m.filters;
    f.show_info = false;
    m.set_filters(f);
    assert_eq!(m.filter_indices, vec![1]);
}

fn make_cfg(visible: bool) -> LogViewerConfig<f32> {
    LogViewerConfig {
        visible,
        x: Some(100.0),
        y: Some(200.0),
        width: Some(800.0),
        height: Some(600.0),
        show_error: true,
        show_warn: true,
        show_info: true,
        show_debug: false,
        follow_tail: true,
    }
}

#[test]
fn from_config_initializes_last_geometry() {
    let cfg = make_cfg(false);
    let m = LogViewerModel::from_config(&cfg);
    assert_eq!(m.apply_geometry, Some(([100.0, 200.0], [800.0, 600.0])));
    assert_eq!(m.last_geometry, Some(([100.0, 200.0], [800.0, 600.0])));
}

#[test]
fn export_config_preserves_geometry_when_never_opened() {
    let cfg = make_cfg(false);
    let m = LogViewerModel::from_config(&cfg);
    let exported = m.export_config();
    assert_eq!(exported.x, Some(100.0));
    assert_eq!(exported.y, Some(200.0));
    assert_eq!(exported.width, Some(800.0));
    assert_eq!(exported.height, Some(600.0));
    assert!(!exported.visible);
}

#[test]
fn hidden_startup_then_show_keeps_apply_geometry() {
    let cfg = make_cfg(false);
    let mut m = LogViewerModel::from_config(&cfg);
    assert!(!m.visible);
    assert!(m.apply_geometry.is_some());

    m.show();
    assert!(m.visible);
    assert_eq!(m.apply_geometry, Some(([100.0, 200.0], [800.0, 600.0])));
}

#[test]
fn hide_then_show_round_trip_preserves_geometry() {
    let cfg = make_cfg(true);
    let mut m = LogViewerModel::from_config(&cfg);
    let _ = m.apply_geometry.take();
    assert!(m.apply_geometry.is_none());
    m.last_geometry = Some(([300.0, 400.0], [900.0, 700.0]));
    m.hide_window();
    assert!(!m.visible);
    assert_eq!(m.apply_geometry, Some(([300.0, 400.0], [900.0, 700.0])));
    m.show();
    assert!(m.visible);
    assert_eq!(m.apply_geometry, Some(([300.0, 400.0], [900.0, 700.0])));
}

#[test]
fn toggle_close_then_toggle_open_preserves_geometry() {
    let cfg = make_cfg(true);
    let mut m = LogViewerModel::from_config(&cfg);
    let _ = m.apply_geometry.take();
    m.last_geometry = Some(([500.0, 600.0], [1000.0, 800.0]));

    m.toggle_visible();
    assert!(!m.visible);
    assert_eq!(m.apply_geometry, Some(([500.0, 600.0], [1000.0, 800.0])));

    m.toggle_visible();
    assert!(m.visible);
    assert_eq!(m.apply_geometry, Some(([500.0, 600.0], [1000.0, 800.0])));
}

#[test]
fn export_after_session_uses_latest_geometry() {
    let cfg = make_cfg(true);
    let mut m = LogViewerModel::from_config(&cfg);
    let _ = m.apply_geometry.take();
    m.last_geometry = Some(([700.0, 800.0], [1100.0, 900.0]));
    m.hide_window();
    let exported = m.export_config();
    assert_eq!(exported.x, Some(700.0));
    assert_eq!(exported.y, Some(800.0));
    assert_eq!(exported.width, Some(1100.0));
    assert_eq!(exported.height, Some(900.0));
}

// ---------------------------------------------------------------------------
// Further cases
// ---------------------------------------------------------------------------

#[test]
fn level_filters_default_hides_debug_and_trace_only() {
    let f = LevelFilters::default();
    assert!(f.matches(LogLevel::Error));
    assert!(f.matches(LogLevel::Warn));
    assert!(f.matches(LogLevel::Info));
    assert!(!f.matches(LogLevel::Debug));
    assert!(!f.matches(LogLevel::Trace));
    assert!(f.matches(LogLevel::Unknown));
}

#[test]
fn chunked_text_parses_like_whole_text() {
    let text = "[00:00:00.001][WARN] alpha\n  more\n[00:00:00.002][ERROR] beta\r\n";
    let mut whole = make_model();
    whole.ingest(text);
    for split in 0..text.len() {
        if !text.is_char_boundary(split) {
            continue;
        }
        let mut m = make_model();
        m.ingest(&text[..split]);
        m.ingest(&text[split..]);
        assert_eq!(m.lines.len(), whole.lines.len());
        for i in 0..m.lines.len() {
            assert_eq!(m.lines[i].message, whole.lines[i].message);
            assert_eq!(m.lines[i].timestamp, whole.lines[i].timestamp);
            assert_eq!(m.lines[i].level, whole.lines[i].level);
        }
        assert_eq!(m.filter_indices, whole.filter_indices);
    }
}

#[test]
fn header_without_space_and_missing_second_bracket() {
    let mut m = make_model();
    m.ingest("[t][INFO]x\n");
    assert_eq!(m.lines[0].message, "x");
    // "[t] no level" is not a header: a continuation of the previous line.
    m.ingest("[t] no level\n");
    assert_eq!(m.lines.len(), 1);
    assert_eq!(m.lines[0].message, "x\n[t] no level");
}

#[test]
fn empty_ingest_changes_nothing() {
    let mut m = make_model();
    m.ingest("[t][INFO] a\npending");
    m.ingest("");
    assert_eq!(m.lines.len(), 1);
    assert_eq!(m.tail_buffer, "pending");
}

#[test]
fn show_twice_keeps_pending_geometry() {
    let mut m = LogViewerModel::from_config(&make_cfg(false));
    m.last_geometry = Some(([1.0, 2.0], [3.0, 4.0]));
    m.show();
    m.show();
    assert_eq!(m.apply_geometry, Some(([100.0, 200.0], [800.0, 600.0])));
}

#[test]
fn partial_config_geometry_is_dropped() {
    let mut cfg = make_cfg(true);
    cfg.height = None;
    let m = LogViewerModel::from_config(&cfg);
    assert_eq!(m.apply_geometry, None);
    let e = m.export_config();
    assert_eq!((e.x, e.y, e.width, e.height), (None, None, None, None));
}

#[test]
fn reading_resumes_after_the_last_offset() {
    // nothing new
    assert_eq!(resume_index(10, 10, 10), None);
    assert_eq!(resume_index(12, 10, 10), None);
    // all of it kept
    assert_eq!(resume_index(4, 10, 10), Some(4));
    // the first 6 bytes were dropped: resume within what is kept, or at its start
    assert_eq!(resume_index(8, 10, 4), Some(2));
    assert_eq!(resume_index(3, 10, 4), Some(0));
}
