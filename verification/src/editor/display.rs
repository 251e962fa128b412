//! The text that the editor sends to the terminal for its two screens.

use vstd::prelude::*;
use crate::editor::formula::byte_length;
use crate::editor::graphics::{FileGraphics, MenuGraphics, MenuLine};
use crate::editor::sections::{byte_count, clip, used_length};
use crate::editor::types::{Color, ColoredModel, ColoredString, FileLine, IndentInfo};
use crate::settings::push_text;
use crate::text::{chars_of, decimal, decimal_of, string_of, texts};

verus! {

/// What ends every line on the screen: colours off, then a new line.
pub open spec fn line_end() -> Seq<char> {
    "\x1b[m\n\r"@
}

/// What clears the screen and moves to its start.
pub open spec fn clear_screen() -> Seq<char> {
    "\x1b[2J\x1b[H"@
}

/// The escape sequence that selects a colour.
pub open spec fn color_escape(color: Color) -> Seq<char> {
    "\x1b["@ + decimal(color.code() as nat) + "m"@
}

/// The first `n` characters of a coloured text as sent to the terminal, and
/// the colour that is selected after them. The colour is selected anew
/// wherever it changes; at the start no colour is selected.
pub open spec fn painted(text: ColoredModel, n: nat) -> (Seq<char>, Color)
    decreases n,
{
    if n == 0 {
        (Seq::empty(), Color::Normal)
    } else {
        let before = painted(text, (n - 1) as nat);
        let c = text.characters[n - 1];
        let color = text.colors[n - 1];
        if color != before.1 {
            (before.0 + color_escape(color) + seq![c], color)
        } else {
            (before.0.push(c), color)
        }
    }
}

/// A coloured text as sent to the terminal: as many of its characters as
/// have a colour.
pub open spec fn colored_text(text: ColoredModel) -> Seq<char> {
    painted(
        text,
        if text.characters.len() <= text.colors.len() {
            text.characters.len()
        } else {
            text.colors.len()
        },
    ).0
}

/// Appends a coloured text as sent to the terminal.
pub fn push_colored(r: &mut Vec<char>, string: &ColoredString)
    ensures
        final(r)@ == old(r)@ + colored_text(string@),
{
    let n = if string.characters.len() <= string.colors.len() {
        string.characters.len()
    } else {
        string.colors.len()
    };
    let mut current = Color::Normal;
    let mut i: usize = 0;
    assert(r@ =~= old(r)@ + painted(string@, 0).0);
    while i < n
        invariant
            i <= n,
            n <= string.characters@.len(),
            n <= string.colors@.len(),
            r@ == old(r)@ + painted(string@, i as nat).0,
            current == painted(string@, i as nat).1,
        decreases n - i,
    {
        let ghost before = painted(string@, i as nat);
        let c = string.characters[i];
        let color = string.colors[i];
        assert(painted(string@, (i + 1) as nat) == if color != before.1 {
            (before.0 + color_escape(color) + seq![c], color)
        } else {
            (before.0.push(c), color)
        });
        if color != current {
            push_text(r, "\x1b[");
            let mut digits = decimal_of(color.number() as usize);
            r.append(&mut digits);
            push_text(r, "m");
            current = color;
        }
        r.push(c);
        assert(r@ =~= old(r)@ + painted(string@, (i + 1) as nat).0);
        i += 1;
    }
}

/// Writes a coloured text as it is sent to the terminal.
pub fn colored_string_display(string: &ColoredString) -> (r: String)
    ensures
        r@ == colored_text(string@),
{
    let mut r: Vec<char> = Vec::new();
    push_colored(&mut r, string);
    assert(r@ =~= colored_text(string@));
    string_of(&r)
}

/// What stands before the name on a line of the menu: the branches of the
/// tree, and the colours of the name. The line under the cursor is shown
/// reversed.
pub open spec fn menu_prefix(line: MenuLine, under_cursor: bool) -> Seq<char> {
    match line {
        MenuLine::RootDirectory(_) => "\x1b[1;4;33m"@,
        MenuLine::SubDirectory(_, is_last) => (if is_last {
            "\x1b[1;33m\u{2516}\u{2500}\u{2500}\x1b[m "@
        } else {
            "\x1b[1;33m\u{2520}\u{2500}\u{2500}\x1b[m "@
        }) + if under_cursor {
            "\x1b[1;7;34m"@
        } else {
            "\x1b[1;34m"@
        },
        MenuLine::File(_, _, in_last, is_last) => (if in_last {
            if is_last {
                "    \x1b[1;34m\u{2516}\u{2500}\u{2500}\x1b[m "@
            } else {
                "    \x1b[1;34m\u{2520}\u{2500}\u{2500}\x1b[m "@
            }
        } else {
            if is_last {
                "\x1b[1;33m\u{2503}\x1b[m   \x1b[1;34m\u{2516}\u{2500}\u{2500}\x1b[m "@
            } else {
                "\x1b[1;33m\u{2503}\x1b[m   \x1b[1;34m\u{2520}\u{2500}\u{2500}\x1b[m "@
            }
        }) + if under_cursor {
            "\x1b[7m"@
        } else {
            "\x1b[m"@
        },
    }
}

/// The name that a line of the menu shows.
pub open spec fn menu_name(line: MenuLine) -> Seq<char> {
    match line {
        MenuLine::RootDirectory(name) => name@,
        MenuLine::SubDirectory(name, _) => name@,
        MenuLine::File(name, _, _, _) => name@,
    }
}

/// A line of the menu as sent to the terminal.
pub open spec fn menu_line_text(line: MenuLine, under_cursor: bool) -> Seq<char> {
    menu_prefix(line, under_cursor) + menu_name(line) + line_end()
}

/// The first `n` lines of the menu as sent to the terminal.
pub open spec fn menu_lines_text(menu: MenuGraphics, n: nat) -> Seq<char>
    decreases n,
{
    if n == 0 {
        Seq::empty()
    } else {
        menu_lines_text(menu, (n - 1) as nat) + menu_line_text(
            menu.lines@[n - 1],
            n == menu.cursor,
        )
    }
}

/// The menu as sent to the terminal: the screen is cleared, and every line
/// is shown.
pub open spec fn menu_text(menu: MenuGraphics) -> Seq<char> {
    clear_screen() + menu_lines_text(menu, menu.lines@.len())
}

/// Appends a line of the menu as sent to the terminal.
pub fn push_menu_line(r: &mut Vec<char>, line: &MenuLine, under_cursor: bool)
    ensures
        final(r)@ == old(r)@ + menu_line_text(*line, under_cursor),
{
    match line {
        MenuLine::RootDirectory(name) => {
            push_text(r, "\x1b[1;4;33m");
            push_text(r, name.as_str());
        },
        MenuLine::SubDirectory(name, is_last) => {
            if *is_last {
                push_text(r, "\x1b[1;33m\u{2516}\u{2500}\u{2500}\x1b[m ");
            } else {
                push_text(r, "\x1b[1;33m\u{2520}\u{2500}\u{2500}\x1b[m ");
            }
            if under_cursor {
                push_text(r, "\x1b[1;7;34m");
            } else {
                push_text(r, "\x1b[1;34m");
            }
            push_text(r, name.as_str());
        },
        MenuLine::File(name, _, in_last, is_last) => {
            if *in_last {
                if *is_last {
                    push_text(r, "    \x1b[1;34m\u{2516}\u{2500}\u{2500}\x1b[m ");
                } else {
                    push_text(r, "    \x1b[1;34m\u{2520}\u{2500}\u{2500}\x1b[m ");
                }
            } else {
                if *is_last {
                    push_text(
                        r,
                        "\x1b[1;33m\u{2503}\x1b[m   \x1b[1;34m\u{2516}\u{2500}\u{2500}\x1b[m ",
                    );
                } else {
                    push_text(
                        r,
                        "\x1b[1;33m\u{2503}\x1b[m   \x1b[1;34m\u{2520}\u{2500}\u{2500}\x1b[m ",
                    );
                }
            }
            if under_cursor {
                push_text(r, "\x1b[7m");
            } else {
                push_text(r, "\x1b[m");
            }
            push_text(r, name.as_str());
        },
    }
    push_text(r, "\x1b[m\n\r");
    assert(r@ =~= old(r)@ + menu_line_text(*line, under_cursor));
}

/// Writes the menu as it is sent to the terminal.
pub fn display_menu(menu: &MenuGraphics) -> (r: String)
    ensures
        r@ == menu_text(*menu),
{
    let mut r: Vec<char> = Vec::new();
    push_text(&mut r, "\x1b[2J\x1b[H");
    let mut i: usize = 0;
    assert(r@ =~= clear_screen() + menu_lines_text(*menu, 0));
    while i < menu.lines.len()
        invariant
            i <= menu.lines.len(),
            r@ == clear_screen() + menu_lines_text(*menu, i as nat),
        decreases menu.lines.len() - i,
    {
        assert(menu_lines_text(*menu, (i + 1) as nat) == menu_lines_text(*menu, i as nat)
            + menu_line_text(menu.lines@[i as int], i + 1 == menu.cursor));
        push_menu_line(&mut r, &menu.lines[i], i + 1 == menu.cursor);
        assert(r@ =~= clear_screen() + menu_lines_text(*menu, (i + 1) as nat));
        i += 1;
    }
    string_of(&r)
}

/// As many spaces as are needed to fill a column of the given width after
/// `taken` bytes; none if the column is full.
pub open spec fn filling(width: usize, taken: usize) -> Seq<char> {
    Seq::new(
        if width >= taken {
            (width - taken) as nat
        } else {
            0
        },
        |i: int| ' ',
    )
}

/// Appends the spaces that fill a column.
pub fn push_filling(r: &mut Vec<char>, width: usize, taken: usize)
    ensures
        final(r)@ == old(r)@ + filling(width, taken),
{
    let n = width.saturating_sub(taken);
    let mut i: usize = 0;
    assert(r@ =~= old(r)@ + Seq::new(0, |j: int| ' '));
    while i < n
        invariant
            i <= n,
            r@ == old(r)@ + Seq::new(i as nat, |j: int| ' '),
        decreases n - i,
    {
        r.push(' ');
        assert(r@ =~= old(r)@ + Seq::new((i + 1) as nat, |j: int| ' '));
        i += 1;
    }
    assert(Seq::new(n as nat, |j: int| ' ') =~= filling(width, taken));
}

/// The used steps joined by a comma and a space.
pub open spec fn joined(used: Seq<Seq<char>>) -> Seq<char>
    decreases used.len(),
{
    if used.len() == 0 {
        Seq::empty()
    } else if used.len() == 1 {
        used[0]
    } else {
        joined(used.drop_last()) + ", "@ + used.last()
    }
}

/// Appends the used steps joined by a comma and a space, and gives the
/// number of bytes that they take.
pub fn push_joined(r: &mut Vec<char>, used: &Vec<String>) -> (bytes: usize)
    ensures
        final(r)@ == old(r)@ + joined(texts(used@)),
        bytes == clip(used_length(texts(used@))),
{
    let ghost all = texts(used@);
    let mut bytes: usize = 0;
    let mut i: usize = 0;
    assert(joined(all.take(0)) == Seq::<char>::empty());
    assert(used_length(all.take(0)) == 0);
    assert(r@ =~= old(r)@ + Seq::<char>::empty());
    while i < used.len()
        invariant
            i <= used.len(),
            all == texts(used@),
            r@ == old(r)@ + joined(all.take(i as int)),
            bytes == clip(used_length(all.take(i as int))),
        decreases used.len() - i,
    {
        proof {
            let next = all.take(i + 1);
            assert(next.drop_last() == all.take(i as int));
            assert(next.last() == used@[i as int]@);
            if i > 0 {
                assert(joined(next) == joined(next.drop_last()) + ", "@ + next.last());
                assert(used_length(next) == used_length(next.drop_last()) + 2 + byte_length(
                    next.last(),
                ));
            } else {
                assert(next[0] == used@[0]@);
                assert(joined(next) == next[0]);
                assert(used_length(next) == byte_length(next[0]));
            }
        }
        if i > 0 {
            push_text(r, ", ");
            bytes = bytes.saturating_add(2);
        }
        push_text(r, used[i].as_str());
        bytes = bytes.saturating_add(byte_count(&chars_of(used[i].as_str())));
        assert(r@ =~= old(r)@ + joined(all.take(i + 1)));
        i += 1;
    }
    assert(all.take(i as int) == all);
    bytes
}

/// A line of the open file as sent to the terminal. The columns of a proof
/// line are filled to the widths given.
pub open spec fn file_line_text(line: FileLine, info: IndentInfo) -> Seq<char> {
    match line {
        FileLine::Raw(text) => text@ + line_end(),
        FileLine::Title { title, name, title_good, name_good } => (if title_good {
            "\x1b[30;44m"@
        } else {
            "\x1b[30;41m"@
        }) + title@ + " "@ + (if name_good {
            "\x1b[30;46m"@
        } else {
            "\x1b[30;41m"@
        }) + name@ + line_end(),
        FileLine::Section { name, .. } => name@ + line_end(),
        FileLine::Hypothesis { name, hypot } => name@ + ": "@ + colored_text(hypot@) + line_end(),
        FileLine::Assertion { assertion, .. } => colored_text(assertion@) + line_end(),
        FileLine::ProofLine { line_no, used_hypots, theo_ref, formula, .. } => line_no@ + filling(
            info.line_number_indent,
            clip(byte_length(line_no@)),
        ) + "; "@ + joined(texts(used_hypots@)) + filling(
            info.used_hypotheses_indent,
            clip(used_length(texts(used_hypots@))),
        ) + "; "@ + theo_ref@ + filling(info.theorem_reference_indent, clip(byte_length(theo_ref@)))
            + "; "@ + colored_text(formula@) + line_end(),
        FileLine::UnexpectedLine(text) => "\x1b[31m"@ + text@ + line_end(),
    }
}

/// Appends a line of the open file as sent to the terminal.
pub fn push_file_line(r: &mut Vec<char>, line: &FileLine, info: &IndentInfo)
    ensures
        final(r)@ == old(r)@ + file_line_text(*line, *info),
{
    match line {
        FileLine::Raw(text) => {
            push_text(r, text.as_str());
        },
        FileLine::Title { title, name, title_good, name_good } => {
            if *title_good {
                push_text(r, "\x1b[30;44m");
            } else {
                push_text(r, "\x1b[30;41m");
            }
            push_text(r, title.as_str());
            push_text(r, " ");
            if *name_good {
                push_text(r, "\x1b[30;46m");
            } else {
                push_text(r, "\x1b[30;41m");
            }
            push_text(r, name.as_str());
        },
        FileLine::Section { name, .. } => {
            push_text(r, name.as_str());
        },
        FileLine::Hypothesis { name, hypot } => {
            push_text(r, name.as_str());
            push_text(r, ": ");
            push_colored(r, hypot);
        },
        FileLine::Assertion { assertion, .. } => {
            push_colored(r, assertion);
        },
        FileLine::ProofLine { line_no, used_hypots, theo_ref, formula, .. } => {
            push_text(r, line_no.as_str());
            push_filling(r, info.line_number_indent, byte_count(&chars_of(line_no.as_str())));
            push_text(r, "; ");
            let bytes = push_joined(r, used_hypots);
            push_filling(r, info.used_hypotheses_indent, bytes);
            push_text(r, "; ");
            push_text(r, theo_ref.as_str());
            push_filling(r, info.theorem_reference_indent, byte_count(&chars_of(theo_ref.as_str())));
            push_text(r, "; ");
            push_colored(r, formula);
        },
        FileLine::UnexpectedLine(text) => {
            push_text(r, "\x1b[31m");
            push_text(r, text.as_str());
        },
    }
    push_text(r, "\x1b[m\n\r");
    assert(r@ =~= old(r)@ + file_line_text(*line, *info));
}

/// The first `n` lines of the open file as sent to the terminal.
pub open spec fn file_lines_text(file: FileGraphics, n: nat) -> Seq<char>
    decreases n,
{
    if n == 0 {
        Seq::empty()
    } else {
        file_lines_text(file, (n - 1) as nat) + file_line_text(file.lines@[n - 1], file.indent_info)
    }
}

/// The open file as sent to the terminal: the screen is cleared, and every
/// line is shown.
pub open spec fn file_text(file: FileGraphics) -> Seq<char> {
    clear_screen() + file_lines_text(file, file.lines@.len())
}

/// Writes the open file as it is sent to the terminal.
pub fn display_file(file: &FileGraphics) -> (r: String)
    ensures
        r@ == file_text(*file),
{
    let mut r: Vec<char> = Vec::new();
    push_text(&mut r, "\x1b[2J\x1b[H");
    let mut i: usize = 0;
    assert(r@ =~= clear_screen() + file_lines_text(*file, 0));
    while i < file.lines.len()
        invariant
            i <= file.lines.len(),
            r@ == clear_screen() + file_lines_text(*file, i as nat),
        decreases file.lines.len() - i,
    {
        assert(file_lines_text(*file, (i + 1) as nat) == file_lines_text(*file, i as nat)
            + file_line_text(file.lines@[i as int], file.indent_info));
        push_file_line(&mut r, &file.lines[i], &file.indent_info);
        assert(r@ =~= clear_screen() + file_lines_text(*file, (i + 1) as nat));
        i += 1;
    }
    string_of(&r)
}

} // verus!
