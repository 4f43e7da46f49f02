use wombat::app::{File, WindowsData, WombatApp};
use wombat::detection::DetectionCache;
use wombat::importer::{DecodeError, ImportType, ImporterEvent};
use wombat::viewport::{LineRange, ViewportGeometry};

fn document(data: Vec<u8>) -> WombatApp {
    WombatApp::new(File { data, path: "sample.bin".to_string() })
}

fn no_event() -> ImporterEvent {
    ImporterEvent {
        still_open: true,
        selected: ImportType::String,
        import_clicked: false,
        edited: None,
    }
}

#[test]
fn a_new_document_has_defaults() {
    let app = document(vec![1, 2, 3]);
    assert_eq!(app.binary_file, vec![1, 2, 3]);
    assert_eq!(app.filename, "sample.bin");
    assert_eq!(app.display_settings.bytes_per_line, 32);
    assert_eq!(app.selection.range, None);
    assert!(app.file_format.is_none());
    assert!(app.windows_data.histogram.data.is_none());
    assert!(app.windows_data.detection.cache.is_empty());
}

#[test]
fn windows_start_closed_and_open_on_demand() {
    let mut windows = WindowsData::new();
    assert!(!windows.histogram.is_open);
    assert!(!windows.importer.is_open);
    assert!(!windows.detection.is_open);
    windows.open_histogram();
    assert!(windows.histogram.is_open && !windows.importer.is_open && !windows.detection.is_open);
    windows.open_importer();
    windows.open_detection();
    assert!(windows.importer.is_open && windows.detection.is_open);
    windows.importer.value = "41".to_string();
    windows.reset();
    assert_eq!(windows.importer.value, "");
    assert!(windows.histogram.is_open && windows.importer.is_open && windows.detection.is_open);
}

#[test]
fn clicks_on_the_document_move_the_selection() {
    let mut app = document(vec![0; 64]);
    assert_eq!(app.handle_selection_click(32, 5, false), Some((37, 37)));
    assert_eq!(app.selection.range, None);
    assert_eq!(app.click(5, false), Some((5, 5)));
    assert_eq!(app.click(5, false), None);
    assert_eq!(app.click(5, false), Some((5, 5)));
    assert_eq!(app.click(10, true), Some((5, 10)));
    assert_eq!(app.handle_selection_click(0, 5, true), Some((5, 5)));
    assert_eq!(app.handle_selection_click(0, 10, true), Some((5, 10)));
    assert_eq!(app.handle_selection_click(0, 3, true), Some((3, 10)));
    assert_eq!(app.selection.range, Some((5, 10)));
}

#[test]
fn a_new_buffer_clamps_the_selection_and_drops_what_was_computed() {
    let mut app = document(vec![7; 64]);
    app.select_range(40, 50);
    app.windows_data.open_histogram();
    app.windows_data.open_detection();
    app.update_windows(no_event());
    assert!(app.windows_data.histogram.data.is_some());
    assert!(app.file_format.is_some());
    app.handle_file(File { data: vec![1; 45], path: "other.bin".to_string() });
    assert_eq!(app.binary_file, vec![1; 45]);
    assert_eq!(app.filename, "other.bin");
    assert_eq!(app.selection.range, Some((40, 44)));
    assert!(app.file_format.is_none());
    assert!(app.windows_data.histogram.data.is_none());
    assert!(app.windows_data.detection.cache.is_empty());
    app.handle_file(File { data: vec![1; 10], path: "small.bin".to_string() });
    assert_eq!(app.selection.range, Some((9, 9)));
    app.handle_file(File { data: vec![], path: "empty.bin".to_string() });
    assert_eq!(app.selection.range, None);
}

#[test]
fn select_range_is_limited_to_the_buffer() {
    let mut app = document(vec![0; 20]);
    app.select_range(8, 19);
    assert_eq!(app.selection.range, Some((8, 19)));
    app.select_range(8, 20);
    assert_eq!(app.selection.range, Some((8, 19)));
    app.select_range(30, 40);
    assert_eq!(app.selection.range, Some((19, 19)));
    let mut empty = document(vec![]);
    empty.select_range(0, 0);
    assert_eq!(empty.selection.range, None);
}

#[test]
fn visible_lines_of_the_document() {
    let mut app = document(vec![0; 100]);
    app.display_settings.set_bytes_per_line(16);
    assert_eq!(app.total_lines(), 7);
    let range =
        app.compute_visible_lines(ViewportGeometry { top: 15, bottom: 50, row_height: 14 });
    assert_eq!(range, LineRange { first_line: 1, last_line: 4 });
    let row = app.row(6);
    assert_eq!(row.offset, 96);
    assert_eq!(row.label, "00000060:");
    assert_eq!(row.hex.len(), 4);
}

#[test]
fn deleting_the_selection_removes_its_bytes() {
    let mut app = document((0..10u8).collect());
    assert!(!app.delete_selection());
    app.select_range(3, 5);
    app.windows_data.open_histogram();
    app.update_windows(no_event());
    assert!(app.delete_selection());
    assert_eq!(app.binary_file, vec![0, 1, 2, 6, 7, 8, 9]);
    assert_eq!(app.selection.range, Some((2, 2)));
    assert!(app.windows_data.histogram.data.is_none());
    app.select_range(0, 1);
    assert!(app.delete_selection());
    assert_eq!(app.binary_file, vec![2, 6, 7, 8, 9]);
    assert_eq!(app.selection.range, Some((0, 0)));
    app.select_range(0, 4);
    assert!(app.delete_selection());
    assert!(app.binary_file.is_empty());
    assert_eq!(app.selection.range, None);
}

#[test]
fn the_selection_is_exported_as_bytes_and_as_hex() {
    let mut app = document(vec![0xde, 0xad, 0xbe, 0xef, 0x00]);
    assert_eq!(app.selected_bytes(), None);
    assert_eq!(app.selected_hex(), None);
    app.select_range(1, 3);
    assert_eq!(app.selected_bytes(), Some(vec![0xad, 0xbe, 0xef]));
    assert_eq!(app.selected_hex(), Some("ADBEEF".to_string()));
    app.select_range(4, 4);
    assert_eq!(app.selected_hex(), Some("00".to_string()));
}

#[test]
fn imported_bytes_replace_the_buffer() {
    let mut app = document(vec![9; 30]);
    app.select_range(20, 25);
    app.windows_data.open_importer();
    app.windows_data.importer.value = "0x41 0x42 0x43".to_string();
    let imported = app.update_windows(ImporterEvent {
        still_open: true,
        selected: ImportType::Hex,
        import_clicked: true,
        edited: None,
    });
    assert!(imported);
    assert_eq!(app.binary_file, vec![0x41, 0x42, 0x43]);
    assert_eq!(app.filename, "imported.bin");
    assert_eq!(app.selection.range, Some((2, 2)));
    assert!(app.file_format.is_some());
}

#[test]
fn a_failed_import_leaves_the_buffer_and_sets_the_error() {
    let mut app = document(vec![9; 30]);
    app.windows_data.open_importer();
    app.windows_data.importer.value = "0x4".to_string();
    let imported = app.update_windows(ImporterEvent {
        still_open: true,
        selected: ImportType::Hex,
        import_clicked: true,
        edited: None,
    });
    assert!(!imported);
    assert_eq!(app.binary_file, vec![9; 30]);
    assert_eq!(app.filename, "sample.bin");
    assert_eq!(app.windows_data.importer.import_error, Some(DecodeError::OddLength));
}

#[test]
fn the_histogram_is_computed_for_the_present_buffer() {
    let mut app = document(b"aab".to_vec());
    app.windows_data.open_histogram();
    app.update_windows(no_event());
    assert_eq!(app.windows_data.histogram.data.as_ref().unwrap().count(b'a'), 2);
    app.handle_file(File { data: b"bbb".to_vec(), path: "b".to_string() });
    app.update_windows(no_event());
    assert_eq!(app.windows_data.histogram.data.as_ref().unwrap().count(b'a'), 0);
    assert_eq!(app.windows_data.histogram.data.as_ref().unwrap().count(b'b'), 3);
}

#[test]
fn the_detection_window_follows_the_buffer() {
    let png = vec![
        0x89, 0x50, 0x4e, 0x47, 0x0d, 0x0a, 0x1a, 0x0a, 0, 0, 0, 0, 0x49, 0x45, 0x4e, 0x44, 0xae,
        0x42, 0x60, 0x82,
    ];
    let mut app = document(png);
    app.windows_data.open_detection();
    app.update_windows(no_event());
    let range = match &app.windows_data.detection.cache {
        DetectionCache::Png(Some(data)) => data.chunks[0].range(),
        _ => panic!("no chunk table"),
    };
    app.select_range(range.0, range.1);
    assert_eq!(app.selection.range, Some((8, 19)));
    app.handle_file(File { data: b"<?xml version=\"1.0\"?><a/>".to_vec(), path: "a".to_string() });
    app.update_windows(no_event());
    assert_eq!(app.file_format.as_ref().unwrap().extension, "xml");
    assert!(matches!(app.windows_data.detection.cache, DetectionCache::Xml(Some(_))));
    app.stale();
    assert!(app.file_format.is_none());
    assert!(app.windows_data.detection.cache.is_empty());
}

#[test]
fn the_rows_in_view_are_built_in_order() {
    let mut app = document((0..100u8).collect());
    app.display_settings.set_bytes_per_line(16);
    app.select_range(17, 18);
    let rows = app.visible_rows(ViewportGeometry { top: 15, bottom: 50, row_height: 14 });
    assert_eq!(rows.len(), 3);
    assert_eq!(rows[0].offset, 16);
    assert_eq!(rows[1].offset, 32);
    assert_eq!(rows[2].offset, 48);
    assert_eq!(rows[0].label, "00000010:");
    assert_eq!(rows[0].hex[1], "11 ");
    assert_eq!(rows[0].selected[..3], [false, true, true]);
    let all = app.visible_rows(ViewportGeometry { top: -5, bottom: 10_000, row_height: 14 });
    assert_eq!(all.len(), 7);
    assert_eq!(all[6].hex.len(), 4);
    let none = app.visible_rows(ViewportGeometry { top: 28, bottom: 0, row_height: 14 });
    assert!(none.is_empty());
    let below = app.visible_rows(ViewportGeometry { top: 9_000, bottom: 9_100, row_height: 14 });
    assert!(below.is_empty());
}

#[test]
fn the_selection_as_hex_has_no_separators() {
    let mut app = document((0..=255u8).collect());
    app.select_range(10, 17);
    let text = app.selected_hex().unwrap();
    assert_eq!(text, "0A0B0C0D0E0F1011");
    assert_eq!(text.len(), 2 * 8);
    assert_eq!(wombat::importer::parse_hex_string(&text), Ok((10..=17u8).collect::<Vec<u8>>()));
    assert_eq!(app.selection.range, Some((10, 17)));
    assert_eq!(app.binary_file.len(), 256);
}
