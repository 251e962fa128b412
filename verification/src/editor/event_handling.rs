//! What the editor does with an event: how its state changes, and what is
//! to be done on the screen.

use vstd::prelude::*;
use crate::compiling::types::{Library, NameIndex};
use crate::editor::graphics::{FileGraphics, MenuGraphics, MenuLine};
use crate::editor::types::{FileLine, IndentInfo};

verus! {

/// The keys that the editor tells apart from the arrows.
#[derive(Debug, Clone, Copy, PartialEq, Eq, Structural)]
pub enum Key {
    Enter,
    Escape,
    OtherKey,
}

/// The modifiers that the editor tells apart.
#[derive(Debug, Clone, Copy, PartialEq, Eq, Structural)]
pub enum Modifier {
    Plain,
    Shift,
    OtherModifier,
}

/// What happened at the terminal: an arrow was pressed, with the step down
/// and the step to the right that it asks for; another key was pressed; the
/// window has a new number of columns and of rows; the mouse was moved; or
/// the user asked to leave.
#[derive(Debug, Clone, Copy, PartialEq, Eq, Structural)]
pub enum Event {
    KeyPressedArrow(isize, isize, Modifier),
    KeyPressedOther(Key, Modifier),
    MouseMoved,
    WindowResize(usize, usize),
    KeyboardInterrupt,
}

/// Which screen the editor shows, or that it is to end.
#[derive(Debug, Clone, Copy, PartialEq, Eq, Structural)]
pub enum EditorState {
    InMenu,
    EditingFile,
    ShouldExit,
}

/// What is to be done after an event: nothing, show the menu again, show
/// the file again, or read the file at a path and open it.
#[derive(Debug, PartialEq)]
pub enum Action {
    Nothing,
    ShowMenu,
    ShowFile,
    OpenFile(String),
}

/// All that the editor holds.
#[derive(Debug)]
pub struct EditorData {
    pub state: EditorState,
    pub menu: MenuGraphics,
    pub file: FileGraphics,
    pub dimensions: (usize, usize),
    pub indent: usize,
    pub lib_data: Library,
    pub references: NameIndex,
}

impl EditorData {
    /// The editor at its start, in the menu, with no file open and an empty
    /// library, in a window of 80 columns and 24 rows.
    pub fn new(menu: MenuGraphics) -> (r: EditorData)
        ensures
            r.state == EditorState::InMenu,
            r.menu == menu,
            r.dimensions == (80usize, 24usize),
            r.indent == 4,
            r.lib_data.syntaxes@.len() == 0,
            r.lib_data.definitions@.len() == 0,
            r.lib_data.axioms@.len() == 0,
            r.lib_data.theorems@.len() == 0,
            r.references@.len() == 0,
            r.file.cursor == (0usize, 0usize),
            r.file.camera == 0,
            r.file.lines@.len() == 0,
            r.file.indent_info == (IndentInfo {
                line_number_indent: 0,
                used_hypotheses_indent: 0,
                theorem_reference_indent: 0,
            }),
            !r.file.read_only,
    {
        EditorData {
            state: EditorState::InMenu,
            menu,
            file: FileGraphics::default(),
            dimensions: (80, 24),
            indent: 4,
            lib_data: Library {
                syntaxes: Vec::new(),
                definitions: Vec::new(),
                axioms: Vec::new(),
                theorems: Vec::new(),
            },
            references: NameIndex::new(),
        }
    }
}

/// A place moved by a step, but not below zero nor above what the machine
/// holds.
pub open spec fn moved(place: usize, step: isize) -> usize {
    if place + step < 0 {
        0
    } else if place + step > usize::MAX {
        usize::MAX
    } else {
        (place + step) as usize
    }
}

/// Moves a place by a step.
pub fn move_by(place: usize, step: isize) -> (r: usize)
    ensures
        r == moved(place, step),
{
    if step >= 0 {
        place.saturating_add(step as usize)
    } else {
        let back: usize = (-(step + 1)) as usize;
        place.saturating_sub(back).saturating_sub(1)
    }
}

/// A place kept between two bounds; where the upper bound is below the
/// lower, the lower bound.
pub open spec fn kept_within(place: usize, low: usize, high: usize) -> usize {
    if place < low || high < low {
        low
    } else if place > high {
        high
    } else {
        place
    }
}

/// Keeps a place between two bounds.
pub fn keep_within(place: usize, low: usize, high: usize) -> (r: usize)
    ensures
        r == kept_within(place, low, high),
{
    if place < low || high < low {
        low
    } else if place > high {
        high
    } else {
        place
    }
}

/// The path of the file on the line that the cursor is on, if that line is a
/// file.
pub open spec fn file_under_cursor(menu: MenuGraphics) -> Option<Seq<char>> {
    if 1 <= menu.cursor <= menu.lines@.len() {
        match menu.lines@[menu.cursor - 1] {
            MenuLine::File(_, path, _, _) => Some(path@),
            _ => None,
        }
    } else {
        None
    }
}

/// Handles an event in the menu. An arrow up or down moves the cursor, which
/// stays between the second line and the last; with shift it moves the first
/// line shown instead, which stays between the first line and the last.
/// Enter on a file asks for that file to be opened. A new size of the window
/// is taken. The request to leave ends the editor. Nothing else changes
/// anything.
pub fn handle_event_in_menu(event: Event, editor_data: &mut EditorData) -> (r: Action)
    ensures
        final(editor_data).menu.lines == old(editor_data).menu.lines,
        final(editor_data).file == old(editor_data).file,
        final(editor_data).indent == old(editor_data).indent,
        final(editor_data).lib_data == old(editor_data).lib_data,
        final(editor_data).references == old(editor_data).references,
        match event {
            Event::KeyboardInterrupt => {
                &&& r == Action::Nothing
                &&& final(editor_data).state == EditorState::ShouldExit
                &&& final(editor_data).menu == old(editor_data).menu
                &&& final(editor_data).dimensions == old(editor_data).dimensions
            },
            Event::KeyPressedArrow(dy, 0, Modifier::Plain) => {
                &&& r == Action::ShowMenu
                &&& final(editor_data).state == old(editor_data).state
                &&& final(editor_data).menu.cursor == kept_within(
                    moved(old(editor_data).menu.cursor, dy),
                    2,
                    old(editor_data).menu.lines@.len() as usize,
                )
                &&& final(editor_data).menu.camera == old(editor_data).menu.camera
                &&& final(editor_data).dimensions == old(editor_data).dimensions
            },
            Event::KeyPressedArrow(dy, 0, Modifier::Shift) => {
                &&& r == Action::ShowMenu
                &&& final(editor_data).state == old(editor_data).state
                &&& final(editor_data).menu.camera == kept_within(
                    moved(old(editor_data).menu.camera, dy),
                    1,
                    old(editor_data).menu.lines@.len() as usize,
                )
                &&& final(editor_data).menu.cursor == old(editor_data).menu.cursor
                &&& final(editor_data).dimensions == old(editor_data).dimensions
            },
            Event::KeyPressedOther(Key::Enter, Modifier::Plain) => {
                &&& final(editor_data).state == old(editor_data).state
                &&& final(editor_data).menu == old(editor_data).menu
                &&& final(editor_data).dimensions == old(editor_data).dimensions
                &&& match file_under_cursor(old(editor_data).menu) {
                    Some(path) => r matches Action::OpenFile(p) && p@ == path,
                    None => r == Action::Nothing,
                }
            },
            Event::WindowResize(cols, rows) => {
                &&& r == Action::ShowMenu
                &&& final(editor_data).state == old(editor_data).state
                &&& final(editor_data).menu == old(editor_data).menu
                &&& final(editor_data).dimensions == (cols, rows)
            },
            _ => {
                &&& r == Action::Nothing
                &&& final(editor_data).state == old(editor_data).state
                &&& final(editor_data).menu == old(editor_data).menu
                &&& final(editor_data).dimensions == old(editor_data).dimensions
            },
        },
{
    match event {
        Event::KeyboardInterrupt => {
            editor_data.state = EditorState::ShouldExit;
            Action::Nothing
        },
        Event::KeyPressedArrow(dy, 0, Modifier::Plain) => {
            editor_data.menu.cursor = keep_within(
                move_by(editor_data.menu.cursor, dy),
                2,
                editor_data.menu.lines.len(),
            );
            Action::ShowMenu
        },
        Event::KeyPressedArrow(dy, 0, Modifier::Shift) => {
            editor_data.menu.camera = keep_within(
                move_by(editor_data.menu.camera, dy),
                1,
                editor_data.menu.lines.len(),
            );
            Action::ShowMenu
        },
        Event::KeyPressedOther(Key::Enter, Modifier::Plain) => {
            let cursor = editor_data.menu.cursor;
            if 1 <= cursor && cursor <= editor_data.menu.lines.len() {
                match &editor_data.menu.lines[cursor - 1] {
                    MenuLine::File(_, path, _, _) => Action::OpenFile(path.clone()),
                    _ => Action::Nothing,
                }
            } else {
                Action::Nothing
            }
        },
        Event::WindowResize(cols, rows) => {
            editor_data.dimensions = (cols, rows);
            Action::ShowMenu
        },
        _ => Action::Nothing,
    }
}

/// Opens a file that was read: the editor shows it from now on.
pub fn open_file(editor_data: &mut EditorData, file: FileGraphics) -> (r: Action)
    ensures
        r == Action::ShowFile,
        final(editor_data).state == EditorState::EditingFile,
        final(editor_data).file == file,
        final(editor_data).menu == old(editor_data).menu,
        final(editor_data).dimensions == old(editor_data).dimensions,
        final(editor_data).indent == old(editor_data).indent,
        final(editor_data).lib_data == old(editor_data).lib_data,
        final(editor_data).references == old(editor_data).references,
{
    editor_data.file = file;
    editor_data.state = EditorState::EditingFile;
    Action::ShowFile
}

/// How many characters a line of the open file shows.
pub open spec fn shown_length(line: FileLine) -> nat {
    match line {
        FileLine::Raw(text) => text@.len(),
        FileLine::Title { title, name, .. } => title@.len() + 1 + name@.len(),
        FileLine::Section { name, .. } => name@.len(),
        FileLine::Hypothesis { name, hypot } => name@.len() + 2 + hypot.characters@.len(),
        FileLine::Assertion { assertion, .. } => assertion.characters@.len(),
        FileLine::ProofLine { formula, .. } => formula.characters@.len(),
        FileLine::UnexpectedLine(text) => text@.len(),
    }
}

/// The places that the cursor can take on line `index` of the open file,
/// counted from 0: one more than the line shows characters, and one on a
/// line that the file does not have.
pub open spec fn line_length(file: FileGraphics, index: int) -> usize {
    if 0 <= index < file.lines@.len() {
        if shown_length(file.lines@[index]) + 1 > usize::MAX {
            usize::MAX
        } else {
            (shown_length(file.lines@[index]) + 1) as usize
        }
    } else {
        1
    }
}

/// How many characters a line of the open file shows, as the machine holds
/// it.
pub fn length_of_line(line: &FileLine) -> (n: usize)
    ensures
        n == if shown_length(*line) > usize::MAX {
            usize::MAX
        } else {
            shown_length(*line) as usize
        },
{
    match line {
        FileLine::Raw(text) => text.as_str().unicode_len(),
        FileLine::Title { title, name, .. } => title.as_str().unicode_len().saturating_add(
            1,
        ).saturating_add(name.as_str().unicode_len()),
        FileLine::Section { name, .. } => name.as_str().unicode_len(),
        FileLine::Hypothesis { name, hypot } => name.as_str().unicode_len().saturating_add(
            2,
        ).saturating_add(hypot.characters.len()),
        FileLine::Assertion { assertion, .. } => assertion.characters.len(),
        FileLine::ProofLine { formula, .. } => formula.characters.len(),
        FileLine::UnexpectedLine(text) => text.as_str().unicode_len(),
    }
}

/// The places that the cursor can take on line `index` of the open file.
pub fn get_len_of_file_line(editor_data: &EditorData, index: usize) -> (n: usize)
    ensures
        n == line_length(editor_data.file, index as int),
{
    if index < editor_data.file.lines.len() {
        length_of_line(&editor_data.file.lines[index]).saturating_add(1)
    } else {
        1
    }
}

/// The place of the cursor after a step to the left or to the right. At the
/// start of the first line it does not go left, and at the end of the last
/// line it does not go right. From the start of a line it goes to the end of
/// the line above, and from the end of a line to the start of the line below.
pub open spec fn stepped_sideways(file: FileGraphics, dx: isize) -> Option<(usize, usize)> {
    let cy = file.cursor.0;
    let cx = file.cursor.1;
    let len = line_length(file, cy - 1);
    let x = moved(cx, dx);
    if cy == 1 && cx == 1 && dx < 0 {
        None
    } else if cy == file.lines@.len() && cx == len && dx > 0 {
        None
    } else if x == 0 {
        Some((moved(cy, -1isize), line_length(file, cy - 2)))
    } else if x > len {
        Some((moved(cy, 1isize), 1usize))
    } else {
        Some((cy, x))
    }
}

/// The smaller of two numbers.
pub open spec fn least(a: usize, b: usize) -> usize {
    if a <= b {
        a
    } else {
        b
    }
}

/// The smaller of two numbers.
pub fn least_of(a: usize, b: usize) -> (r: usize)
    ensures
        r == least(a, b),
{
    if a <= b {
        a
    } else {
        b
    }
}

/// The product of two numbers, or the largest number that the machine
/// holds where the product is larger.
pub open spec fn product(a: usize, b: usize) -> usize {
    if a * b > usize::MAX {
        usize::MAX
    } else {
        (a * b) as usize
    }
}

/// The product of two numbers as the machine holds it.
pub fn times(a: usize, b: usize) -> (r: usize)
    ensures
        r == product(a, b),
{
    match a.checked_mul(b) {
        Some(p) => p,
        None => usize::MAX,
    }
}

/// On which of its rows on the screen a place of a line lies, the first
/// being row 0, when a row shows `period` characters after the first row and
/// continued rows are indented by `indent`.
pub open spec fn row_of(place: usize, indent: usize, period: usize) -> usize {
    if period == 0 {
        0
    } else {
        place.saturating_sub(indent.saturating_add(1)) / period
    }
}

/// On which of its rows on the screen a place of a line lies.
pub fn row_at(place: usize, indent: usize, period: usize) -> (r: usize)
    ensures
        r == row_of(place, indent, period),
{
    if period == 0 {
        0
    } else {
        place.saturating_sub(indent.saturating_add(1)) / period
    }
}

/// The place of the cursor after a step up or down, in a window of `cols`
/// columns. Where a line takes several rows on the screen the cursor moves by
/// rows within the line first. On the first line a step up leads to the
/// start of the line, and on the last line a step down leads to its end. A
/// step that is neither one up nor one down leads nowhere, and neither does
/// any step in a window too narrow to show a character after the indent.
pub open spec fn stepped_vertically(file: FileGraphics, cols: usize, indent: usize, dy: isize) -> Option<
    (usize, usize),
> {
    let cy = file.cursor.0;
    let cx = file.cursor.1;
    let len = line_length(file, cy - 1);
    let period = cols.saturating_sub(indent).saturating_sub(1);
    let height = row_of(len, indent, period);
    let row = row_of(cx, indent, period);
    if cy == 1 && dy == -1 {
        if cx == 1 {
            None
        } else {
            Some((1usize, 1usize))
        }
    } else if cy == file.lines@.len() && dy == 1 {
        if cx == len {
            None
        } else {
            Some((cy, len))
        }
    } else if period == 0 {
        None
    } else if dy == -1 {
        if row == 0 {
            let above = line_length(file, cy - 2);
            let above_height = row_of(above, indent, period);
            let x = if above_height == 0 {
                cx
            } else {
                (if cx >= indent.saturating_add(1) {
                    cx
                } else {
                    indent.saturating_add(1)
                }).saturating_add(product(above_height, period))
            };
            Some((moved(cy, -1isize), least(x, above)))
        } else {
            Some((cy, cx.saturating_sub(period)))
        }
    } else if dy == 1 {
        let below = line_length(file, cy as int);
        if height == 0 {
            Some((moved(cy, 1isize), least(cx, below)))
        } else if row == height {
            Some((moved(cy, 1isize), least(cx.saturating_sub(product(row, period)), below)))
        } else if cx <= indent {
            Some((cy, period.saturating_add(indent).saturating_add(1)))
        } else {
            Some((cy, least(cx.saturating_add(period), len)))
        }
    } else {
        None
    }
}

/// The indent of continued lines for a window of the given number of
/// columns: a tenth of the columns, but at least one and at most four.
pub open spec fn indent_for(cols: usize) -> usize {
    kept_within(cols / 10, 1, 4)
}

/// Handles an event while a file is open. Escape goes back to the menu. An
/// arrow to the left or to the right moves the cursor along the text, and an
/// arrow up or down moves it by rows. An arrow up or down with shift moves the
/// first line shown, which stays
/// between the first line and the last line of the menu. A new size of the
/// window is taken, and the indent of continued lines follows it. Nothing
/// else changes anything.
pub fn handle_event_in_file_edition(event: Event, editor_data: &mut EditorData) -> (r: Action)
    ensures
        final(editor_data).menu == old(editor_data).menu,
        final(editor_data).file.lines == old(editor_data).file.lines,
        final(editor_data).file.indent_info == old(editor_data).file.indent_info,
        final(editor_data).file.read_only == old(editor_data).file.read_only,
        final(editor_data).lib_data == old(editor_data).lib_data,
        final(editor_data).references == old(editor_data).references,
        match event {
            Event::KeyPressedOther(Key::Escape, Modifier::Plain) => {
                &&& r == Action::ShowMenu
                &&& final(editor_data).state == EditorState::InMenu
                &&& final(editor_data).file == old(editor_data).file
                &&& final(editor_data).dimensions == old(editor_data).dimensions
                &&& final(editor_data).indent == old(editor_data).indent
            },
            Event::KeyPressedArrow(0, dx, Modifier::Plain) => {
                &&& final(editor_data).state == old(editor_data).state
                &&& final(editor_data).file.camera == old(editor_data).file.camera
                &&& final(editor_data).dimensions == old(editor_data).dimensions
                &&& final(editor_data).indent == old(editor_data).indent
                &&& match stepped_sideways(old(editor_data).file, dx) {
                    Some(cursor) => r == Action::ShowFile && final(editor_data).file.cursor
                        == cursor,
                    None => r == Action::Nothing && final(editor_data).file.cursor == old(
                        editor_data,
                    ).file.cursor,
                }
            },
            Event::KeyPressedArrow(dy, 0, Modifier::Plain) => {
                &&& final(editor_data).state == old(editor_data).state
                &&& final(editor_data).file.camera == old(editor_data).file.camera
                &&& final(editor_data).dimensions == old(editor_data).dimensions
                &&& final(editor_data).indent == old(editor_data).indent
                &&& match stepped_vertically(
                    old(editor_data).file,
                    old(editor_data).dimensions.0,
                    old(editor_data).indent,
                    dy,
                ) {
                    Some(cursor) => r == Action::ShowFile && final(editor_data).file.cursor
                        == cursor,
                    None => r == Action::Nothing && final(editor_data).file.cursor == old(
                        editor_data,
                    ).file.cursor,
                }
            },
            Event::KeyPressedArrow(dy, 0, Modifier::Shift) => {
                &&& r == Action::ShowFile
                &&& final(editor_data).state == old(editor_data).state
                &&& final(editor_data).file.cursor == old(editor_data).file.cursor
                &&& final(editor_data).file.camera == kept_within(
                    moved(old(editor_data).file.camera, dy),
                    1,
                    old(editor_data).menu.lines@.len() as usize,
                )
                &&& final(editor_data).dimensions == old(editor_data).dimensions
                &&& final(editor_data).indent == old(editor_data).indent
            },
            Event::WindowResize(cols, rows) => {
                &&& r == Action::ShowFile
                &&& final(editor_data).state == old(editor_data).state
                &&& final(editor_data).file == old(editor_data).file
                &&& final(editor_data).dimensions == (cols, rows)
                &&& final(editor_data).indent == indent_for(cols)
            },
            _ => {
                &&& r == Action::Nothing
                &&& final(editor_data).state == old(editor_data).state
                &&& final(editor_data).file == old(editor_data).file
                &&& final(editor_data).dimensions == old(editor_data).dimensions
                &&& final(editor_data).indent == old(editor_data).indent
            },
        },
{
    match event {
        Event::KeyPressedOther(Key::Escape, Modifier::Plain) => {
            editor_data.state = EditorState::InMenu;
            Action::ShowMenu
        },
        Event::KeyPressedArrow(0, dx, Modifier::Plain) => {
            let (cy, cx) = editor_data.file.cursor;
            let len = if cy >= 1 {
                get_len_of_file_line(editor_data, cy - 1)
            } else {
                1
            };
            if cy == 1 && cx == 1 && dx < 0 {
                return Action::Nothing;
            }
            if cy == editor_data.file.lines.len() && cx == len && dx > 0 {
                return Action::Nothing;
            }
            let x = move_by(cx, dx);
            editor_data.file.cursor = if x == 0 {
                (
                    move_by(cy, -1),
                    if cy >= 2 {
                        get_len_of_file_line(editor_data, cy - 2)
                    } else {
                        1
                    },
                )
            } else if x > len {
                (move_by(cy, 1), 1)
            } else {
                (cy, x)
            };
            Action::ShowFile
        },
        Event::KeyPressedArrow(dy, 0, Modifier::Plain) => {
            let (cy, cx) = editor_data.file.cursor;
            let indent = editor_data.indent;
            let len = if cy >= 1 {
                get_len_of_file_line(editor_data, cy - 1)
            } else {
                1
            };
            let period = editor_data.dimensions.0.saturating_sub(indent).saturating_sub(1);
            let height = row_at(len, indent, period);
            let row = row_at(cx, indent, period);
            if cy == 1 && dy == -1 {
                if cx == 1 {
                    return Action::Nothing;
                }
                editor_data.file.cursor = (1, 1);
                return Action::ShowFile;
            }
            if cy == editor_data.file.lines.len() && dy == 1 {
                if cx == len {
                    return Action::Nothing;
                }
                editor_data.file.cursor = (cy, len);
                return Action::ShowFile;
            }
            if period == 0 {
                return Action::Nothing;
            }
            if dy == -1 {
                if row == 0 {
                    let above = if cy >= 2 {
                        get_len_of_file_line(editor_data, cy - 2)
                    } else {
                        1
                    };
                    let above_height = row_at(above, indent, period);
                    let x = if above_height == 0 {
                        cx
                    } else {
                        (if cx >= indent.saturating_add(1) {
                            cx
                        } else {
                            indent.saturating_add(1)
                        }).saturating_add(times(above_height, period))
                    };
                    editor_data.file.cursor = (move_by(cy, -1), least_of(x, above));
                } else {
                    editor_data.file.cursor = (cy, cx.saturating_sub(period));
                }
                Action::ShowFile
            } else if dy == 1 {
                let below = get_len_of_file_line(editor_data, cy);
                if height == 0 {
                    editor_data.file.cursor = (move_by(cy, 1), least_of(cx, below));
                } else if row == height {
                    editor_data.file.cursor = (
                        move_by(cy, 1),
                        least_of(cx.saturating_sub(times(row, period)), below),
                    );
                } else if cx <= indent {
                    editor_data.file.cursor = (
                        cy,
                        period.saturating_add(indent).saturating_add(1),
                    );
                } else {
                    editor_data.file.cursor = (cy, least_of(cx.saturating_add(period), len));
                }
                Action::ShowFile
            } else {
                Action::Nothing
            }
        },
        Event::KeyPressedArrow(dy, 0, Modifier::Shift) => {
            editor_data.file.camera = keep_within(
                move_by(editor_data.file.camera, dy),
                1,
                editor_data.menu.lines.len(),
            );
            Action::ShowFile
        },
        Event::WindowResize(cols, rows) => {
            editor_data.dimensions = (cols, rows);
            editor_data.indent = keep_within(cols / 10, 1, 4);
            Action::ShowFile
        },
        _ => Action::Nothing,
    }
}

} // verus!
