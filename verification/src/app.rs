//! The state of one open document: its bytes, how they are shown, what is
//! selected, and what was computed from the bytes so far.

use vstd::prelude::*;
use vstd::string::StringExecFns;
use crate::detection::{detect_format, detected_format, Detection, FileInfoData};
use crate::hex::{encode_hex, encode_hex_spec};
use crate::histogram::Histogram;
use crate::importer::{decode_spec, DecodeErrorView, ImportType, Importer, ImporterEvent};
use crate::selection::{
    after_delete_spec,
    clamp_range,
    clamp_spec,
    click_range,
    click_spec,
    range_after_delete,
    range_within,
    remove_range,
    remove_range_spec,
    selected_bytes,
    selected_bytes_spec,
    SelectionRange,
    Selection,
};
use crate::viewport::{
    build_row,
    compute_visible_lines,
    first_line_spec,
    last_line_spec,
    total_lines,
    total_lines_spec,
    DisplaySettings,
    DEFAULT_START_PRINTABLE,
    LineRange,
    Row,
    ViewportGeometry,
};

verus! {

/// A file as it was loaded: its bytes and where they came from.
#[derive(Debug)]
pub struct File {
    /// The bytes of the file.
    pub data: Vec<u8>,
    /// The name that the file goes by.
    pub path: String,
}

/// The windows beside the rows of bytes.
#[derive(Debug)]
pub struct WindowsData {
    /// Histogram info
    pub histogram: Histogram,
    /// importer
    pub importer: Importer,
    /// detection
    pub detection: Detection,
}

impl WindowsData {
    /// Every window is closed and holds nothing.
    pub open spec fn is_initial(self) -> bool {
        &&& !self.histogram.is_open
        &&& self.histogram.data is None
        &&& !self.histogram.vertical
        &&& !self.importer.is_open
        &&& self.importer.value@ == Seq::<char>::empty()
        &&& self.importer.value_type == ImportType::String
        &&& self.importer.import_error is None
        &&& !self.detection.is_open
        &&& self.detection.cache is Empty
    }

    /// The windows are `before` without what they computed from the buffer
    /// or hold for it; which of them are shown is as before.
    pub open spec fn is_reset_of(self, before: WindowsData) -> bool {
        &&& self.histogram.data is None
        &&& self.histogram.is_open == before.histogram.is_open
        &&& self.histogram.vertical == before.histogram.vertical
        &&& self.importer.is_reset_of(before.importer)
        &&& self.detection.cache is Empty
        &&& self.detection.is_open == before.detection.is_open
    }

    /// Create a new empty window data
    pub fn new() -> (windows: Self)
        ensures
            windows.is_initial(),
    {
        WindowsData {
            histogram: Histogram::new(),
            importer: Importer::new(),
            detection: Detection::new(),
        }
    }

    /// reset data
    ///
    /// Drops what the windows computed from the buffer or hold for it; which
    /// of them are shown stays as it is.
    pub fn reset(&mut self)
        ensures
            final(self).is_reset_of(*old(self)),
    {
        self.histogram.reset();
        self.importer.reset();
        self.detection.reset();
    }

    /// Shows the histogram window.
    pub fn open_histogram(&mut self)
        ensures
            final(self).histogram.is_open,
            final(self).histogram.data == old(self).histogram.data,
            final(self).histogram.vertical == old(self).histogram.vertical,
            final(self).importer == old(self).importer,
            final(self).detection == old(self).detection,
    {
        self.histogram.is_open = true;
    }

    /// Shows the import dialog.
    pub fn open_importer(&mut self)
        ensures
            final(self).importer.is_open,
            final(self).importer.value == old(self).importer.value,
            final(self).importer.value_type == old(self).importer.value_type,
            final(self).importer.import_error == old(self).importer.import_error,
            final(self).histogram == old(self).histogram,
            final(self).detection == old(self).detection,
    {
        self.importer.is_open = true;
    }

    /// Shows the detection window.
    pub fn open_detection(&mut self)
        ensures
            final(self).detection.is_open,
            final(self).detection.cache == old(self).detection.cache,
            final(self).histogram == old(self).histogram,
            final(self).importer == old(self).importer,
    {
        self.detection.is_open = true;
    }
}

/// The document and everything the viewer knows about it.
#[derive(Debug)]
pub struct WombatApp {
    /// Binary file data
    pub binary_file: Vec<u8>,
    /// Filename of the file
    pub filename: String,
    /// How the rows are drawn.
    pub display_settings: DisplaySettings,
    /// Selection
    pub selection: Selection,
    /// What was detected about the buffer, once it was asked for.
    pub file_format: Option<FileInfoData>,
    /// The windows and what they computed from the buffer.
    pub windows_data: WindowsData,
}

impl WombatApp {
    /// The state is consistent: the row width lies within its bounds, the
    /// selection lies inside the buffer, and whatever was computed from a
    /// buffer was computed from the present one.
    pub open spec fn wf(self) -> bool {
        &&& self.display_settings.wf()
        &&& range_within(self.selection.range, self.binary_file@.len())
        &&& self.windows_data.histogram.fresh_for(self.binary_file@)
        &&& match self.file_format {
            Some(info) => info@ == detected_format(self.binary_file@)
                && self.windows_data.detection.fresh_for(self.binary_file@, info.extension@),
            None => self.windows_data.detection.cache is Empty,
        }
    }

    /// Nothing is kept of what was computed from an earlier buffer.
    pub open spec fn is_stale(self) -> bool {
        &&& self.file_format is None
        &&& self.windows_data.histogram.data is None
        &&& self.windows_data.detection.cache is Empty
    }

    /// Opens a document on `file` with the default display settings, no
    /// selection and all windows closed.
    pub fn new(file: File) -> (app: Self)
        ensures
            app.wf(),
            app.is_stale(),
            app.binary_file@ == file.data@,
            app.filename@ == file.path@,
            app.selection.range is None,
            app.display_settings.bytes_per_line == 32,
            !app.display_settings.display_lsb,
            app.display_settings.start_ascii_printable == DEFAULT_START_PRINTABLE,
            app.windows_data.is_initial(),
    {
        WombatApp {
            binary_file: file.data,
            filename: file.path,
            display_settings: DisplaySettings::new(),
            selection: Selection::new(),
            file_format: None,
            windows_data: WindowsData::new(),
        }
    }

    /// Marks everything that was computed from the buffer as outdated.
    pub fn stale(&mut self)
        ensures
            final(self).is_stale(),
            final(self).windows_data.is_reset_of(old(self).windows_data),
            final(self).binary_file == old(self).binary_file,
            final(self).filename == old(self).filename,
            final(self).display_settings == old(self).display_settings,
            final(self).selection == old(self).selection,
            old(self).wf() ==> final(self).wf(),
    {
        self.file_format = None;
        self.windows_data.reset();
    }

    /// Replaces the buffer. The selection is cleared if the new buffer is
    /// empty and else limited to its last offset; whatever was computed
    /// from the old buffer is dropped.
    pub fn handle_file(&mut self, file: File)
        requires
            old(self).wf(),
        ensures
            final(self).wf(),
            final(self).is_stale(),
            final(self).binary_file@ == file.data@,
            final(self).filename@ == file.path@,
            final(self).display_settings == old(self).display_settings,
            final(self).selection.range == clamp_spec(old(self).selection.range, file.data@.len()),
            final(self).windows_data.is_reset_of(old(self).windows_data),
    {
        self.binary_file = file.data;
        self.filename = file.path;
        self.selection.range = clamp_range(self.selection.range, self.binary_file.len());
        self.stale();
    }

    /// Handle selection click
    ///
    /// Gives the range after a click on byte `idx` of the row that starts at
    /// `offset`; `is_alt` tells whether the click extends the selection.
    pub fn handle_selection_click(&self, offset: usize, idx: usize, is_alt: bool) -> (next:
        SelectionRange)
        requires
            offset + idx <= usize::MAX,
        ensures
            next == click_spec(self.selection.range, (offset + idx) as usize, is_alt),
            self.wf() && offset + idx < self.binary_file@.len() ==> range_within(
                next,
                self.binary_file@.len(),
            ),
    {
        click_range(self.selection.range, offset + idx, is_alt)
    }

    /// Applies a click on the byte at `current_offset` to the selection.
    pub fn click(&mut self, current_offset: usize, extend: bool) -> (next: SelectionRange)
        requires
            old(self).wf(),
            current_offset < old(self).binary_file@.len(),
        ensures
            final(self).wf(),
            next == click_spec(old(self).selection.range, current_offset, extend),
            final(self).selection.range == next,
            final(self).binary_file == old(self).binary_file,
            final(self).filename == old(self).filename,
            final(self).display_settings == old(self).display_settings,
            final(self).file_format == old(self).file_format,
            final(self).windows_data == old(self).windows_data,
    {
        let next = click_range(self.selection.range, current_offset, extend);
        self.selection.range = next;
        next
    }

    /// Selects the offsets `start..=end`, limited to the buffer.
    pub fn select_range(&mut self, start: usize, end: usize)
        requires
            old(self).wf(),
            start <= end,
        ensures
            final(self).wf(),
            final(self).selection.range == clamp_spec(
                Some((start, end)),
                old(self).binary_file@.len(),
            ),
            final(self).binary_file == old(self).binary_file,
            final(self).filename == old(self).filename,
            final(self).display_settings == old(self).display_settings,
            final(self).file_format == old(self).file_format,
            final(self).windows_data == old(self).windows_data,
    {
        self.selection.range = clamp_range(Some((start, end)), self.binary_file.len());
    }

    /// Number of rows of the document.
    pub fn total_lines(&self) -> (lines: usize)
        requires
            self.wf(),
        ensures
            lines == total_lines_spec(
                self.binary_file@.len(),
                self.display_settings.bytes_per_line as nat,
            ),
    {
        total_lines(self.binary_file.len(), self.display_settings.bytes_per_line)
    }

    /// The rows that fall into the visible interval.
    pub fn compute_visible_lines(&self, geometry: ViewportGeometry) -> (range: LineRange)
        requires
            self.wf(),
            geometry.row_height > 0,
        ensures
            range.first_line == first_line_spec(
                geometry,
                total_lines_spec(
                    self.binary_file@.len(),
                    self.display_settings.bytes_per_line as nat,
                ),
            ),
            range.last_line == last_line_spec(
                geometry,
                total_lines_spec(
                    self.binary_file@.len(),
                    self.display_settings.bytes_per_line as nat,
                ),
            ),
            range.last_line <= total_lines_spec(
                self.binary_file@.len(),
                self.display_settings.bytes_per_line as nat,
            ),
            geometry.top <= geometry.bottom ==> range.first_line <= range.last_line,
    {
        compute_visible_lines(
            self.binary_file.len(),
            self.display_settings.bytes_per_line,
            geometry,
        )
    }

    /// What row `line` shows.
    pub fn row(&self, line: usize) -> (row: Row)
        requires
            self.wf(),
            line < total_lines_spec(
                self.binary_file@.len(),
                self.display_settings.bytes_per_line as nat,
            ),
        ensures
            row.shows(self.binary_file@, self.display_settings, self.selection.range, line as nat),
    {
        build_row(self.binary_file.as_slice(), self.display_settings, self.selection.range, line)
    }

    /// What the rows in view show: one entry for each row from the first to
    /// render up to the one before the row behind the last, in their order.
    pub fn visible_rows(&self, geometry: ViewportGeometry) -> (rows: Vec<Row>)
        requires
            self.wf(),
            geometry.row_height > 0,
        ensures
            ({
                let total = total_lines_spec(
                    self.binary_file@.len(),
                    self.display_settings.bytes_per_line as nat,
                );
                let first = first_line_spec(geometry, total);
                let last = last_line_spec(geometry, total);
                &&& rows.len() == if first <= last {
                    last - first
                } else {
                    0
                }
                &&& forall|i: int|
                    0 <= i < rows.len() ==> (#[trigger] rows[i]).shows(
                        self.binary_file@,
                        self.display_settings,
                        self.selection.range,
                        (first + i) as nat,
                    )
            }),
    {
        let range = self.compute_visible_lines(geometry);
        let mut rows: Vec<Row> = Vec::new();
        let mut line: usize = range.first_line;
        while line < range.last_line
            invariant
                self.wf(),
                range.last_line <= total_lines_spec(
                    self.binary_file@.len(),
                    self.display_settings.bytes_per_line as nat,
                ),
                range.first_line <= line,
                line <= range.last_line || rows.len() == 0,
                rows.len() == if range.first_line <= range.last_line {
                    line - range.first_line
                } else {
                    0
                },
                forall|i: int|
                    0 <= i < rows.len() ==> (#[trigger] rows[i]).shows(
                        self.binary_file@,
                        self.display_settings,
                        self.selection.range,
                        (range.first_line + i) as nat,
                    ),
            decreases range.last_line - line,
        {
            rows.push(self.row(line));
            line += 1;
        }
        rows
    }

    /// The selected bytes.
    pub fn selected_bytes(&self) -> (chosen: Option<Vec<u8>>)
        ensures
            match chosen {
                Some(v) => selected_bytes_spec(self.binary_file@, self.selection.range) == Some(
                    v@,
                ),
                None => selected_bytes_spec(self.binary_file@, self.selection.range) is None,
            },
    {
        selected_bytes(self.binary_file.as_slice(), self.selection.range)
    }

    /// The selected bytes as uppercase hexadecimal pairs with nothing
    /// between them.
    pub fn selected_hex(&self) -> (text: Option<String>)
        ensures
            match text {
                Some(t) => selected_bytes_spec(self.binary_file@, self.selection.range) is Some
                    && t@ == encode_hex_spec(
                    selected_bytes_spec(self.binary_file@, self.selection.range)->Some_0,
                ),
                None => selected_bytes_spec(self.binary_file@, self.selection.range) is None,
            },
    {
        match selected_bytes(self.binary_file.as_slice(), self.selection.range) {
            Some(bytes) => Some(encode_hex(bytes.as_slice())),
            None => None,
        }
    }

    /// Deletes the selected bytes from the buffer. The selection then rests
    /// on the byte before them, or on the first byte, or is cleared if
    /// nothing is left. Whatever was computed from the buffer is dropped.
    /// Says whether there was a selection to delete.
    pub fn delete_selection(&mut self) -> (deleted: bool)
        requires
            old(self).wf(),
        ensures
            final(self).wf(),
            deleted == (old(self).selection.range is Some),
            final(self).filename == old(self).filename,
            final(self).display_settings == old(self).display_settings,
            match old(self).selection.range {
                Some((start, end)) => {
                    &&& final(self).binary_file@ == remove_range_spec(
                        old(self).binary_file@,
                        start as int,
                        end as int,
                    )
                    &&& final(self).selection.range == after_delete_spec(
                        old(self).selection.range,
                        final(self).binary_file@.len(),
                    )
                    &&& final(self).is_stale()
                    &&& final(self).windows_data.is_reset_of(old(self).windows_data)
                },
                None => *final(self) == *old(self),
            },
    {
        match self.selection.range {
            Some((start, end)) => {
                let rest = remove_range(self.binary_file.as_slice(), start, end);
                self.binary_file = rest;
                self.selection.range = range_after_delete(
                    Some((start, end)),
                    self.binary_file.len(),
                );
                self.stale();
                true
            },
            None => false,
        }
    }

    /// Detects the format of the buffer, unless that was done already.
    pub fn detect(&mut self)
        requires
            old(self).wf(),
        ensures
            final(self).wf(),
            final(self).file_format is Some,
            final(self).file_format->Some_0@ == detected_format(old(self).binary_file@),
            final(self).binary_file == old(self).binary_file,
            final(self).filename == old(self).filename,
            final(self).display_settings == old(self).display_settings,
            final(self).selection == old(self).selection,
            final(self).windows_data == old(self).windows_data,
    {
        if self.file_format.is_none() {
            self.file_format = Some(detect_format(self.binary_file.as_slice()));
        }
    }

    /// Whether `event` makes the import dialog hand out bytes.
    pub open spec fn imports(self, event: ImporterEvent) -> bool {
        &&& self.windows_data.importer.is_open
        &&& event.import_clicked
        &&& decode_spec(self.windows_data.importer.value@, event.selected) is Ok
    }

    /// The document is `before` after a frame of the windows in which bytes
    /// were imported: the bytes are the buffer, named `imported.bin`; the
    /// selection is limited to it; the dialog has taken the event and lost
    /// its text; the histogram is dropped.
    pub open spec fn follows_import(self, before: WombatApp, event: ImporterEvent) -> bool {
        &&& decode_spec(before.windows_data.importer.value@, event.selected) == Ok::<
            Seq<u8>,
            DecodeErrorView,
        >(self.binary_file@)
        &&& self.filename@ == "imported.bin"@
        &&& self.selection.range == clamp_spec(before.selection.range, self.binary_file@.len())
        &&& self.windows_data.histogram.data is None
        &&& self.windows_data.importer.is_open == event.still_open
        &&& self.windows_data.importer.value_type == event.selected
        &&& self.windows_data.importer.value@ == Seq::<char>::empty()
        &&& self.windows_data.importer.import_error is None
        &&& (!self.windows_data.detection.is_open ==> self.windows_data.detection.cache is Empty)
    }

    /// The document is `before` after a frame of the windows in which
    /// nothing was imported: buffer, name and selection are as before; the
    /// dialog has taken the event; the histogram is there if it was, or if
    /// its window is shown.
    pub open spec fn follows_idle(self, before: WombatApp, event: ImporterEvent) -> bool {
        &&& self.binary_file == before.binary_file
        &&& self.filename == before.filename
        &&& self.selection == before.selection
        &&& (self.windows_data.histogram.data is Some <==> before.windows_data.histogram.is_open
            || before.windows_data.histogram.data is Some)
        &&& self.windows_data.importer.follows(before.windows_data.importer, event, None)
        &&& (!self.windows_data.detection.is_open ==> self.windows_data.detection.cache
            == before.windows_data.detection.cache)
    }

    /// One frame of the windows: the histogram is computed if it is shown
    /// and missing, the import dialog takes `event`, imported bytes replace
    /// the buffer under the name `imported.bin`, and the buffer's format is
    /// detected and its structure parsed if the detection window is shown.
    /// Says whether bytes were imported.
    pub fn update_windows(&mut self, event: ImporterEvent) -> (imported: bool)
        requires
            old(self).wf(),
        ensures
            final(self).wf(),
            imported == old(self).imports(event),
            if imported {
                final(self).follows_import(*old(self), event)
            } else {
                final(self).follows_idle(*old(self), event)
            },
            final(self).display_settings == old(self).display_settings,
            final(self).windows_data.histogram.is_open == old(self).windows_data.histogram.is_open,
            final(self).windows_data.histogram.vertical
                == old(self).windows_data.histogram.vertical,
            final(self).windows_data.detection.is_open == old(self).windows_data.detection.is_open,
            final(self).file_format is Some,
            final(self).windows_data.detection.is_open
                ==> final(self).windows_data.detection.cache.holds(
                final(self).binary_file@,
                final(self).file_format->Some_0.extension@,
            ),
    {
        self.windows_data.histogram.prepare(self.binary_file.as_slice());
        let imported = match self.windows_data.importer.handle(event) {
            Some(data) => {
                self.handle_file(File { data, path: String::from_str("imported.bin") });
                true
            },
            None => false,
        };
        self.detect();
        match &self.file_format {
            Some(info) => {
                self.windows_data.detection.prepare(self.binary_file.as_slice(), info);
            },
            None => {},
        }
        imported
    }
}

} // verus!
