//! What the editor holds of its two screens: the menu of the files of the
//! library, and the file that is open.

use vstd::prelude::*;
use crate::compiling::types::{rules, Library, NameIndex};
use crate::editor::parser::{file_shown, parse_file};
use crate::editor::types::{line_models, FileLine, IndentInfo};
use crate::settings::push_text;
use crate::text::{chars_of, is_text, slice_of, string_of, texts};

verus! {

/// A line of the menu: the directory of the library, one of its
/// subdirectories with whether it is the last one, or a file with its name,
/// its path, whether it is in the last subdirectory and whether it is the
/// last in its subdirectory.
#[derive(Debug, PartialEq)]
pub enum MenuLine {
    RootDirectory(String),
    SubDirectory(String, bool),
    File(String, String, bool, bool),
}

/// The model of a line of the menu.
pub enum MenuLineModel {
    RootDirectory(Seq<char>),
    SubDirectory(Seq<char>, bool),
    File(Seq<char>, Seq<char>, bool, bool),
}

impl View for MenuLine {
    type V = MenuLineModel;

    open spec fn view(&self) -> MenuLineModel {
        match self {
            MenuLine::RootDirectory(name) => MenuLineModel::RootDirectory(name@),
            MenuLine::SubDirectory(name, last) => MenuLineModel::SubDirectory(name@, *last),
            MenuLine::File(name, path, in_last, is_last) => MenuLineModel::File(
                name@,
                path@,
                *in_last,
                *is_last,
            ),
        }
    }
}

/// The models of the lines of a menu.
pub open spec fn menu_models(v: Seq<MenuLine>) -> Seq<MenuLineModel> {
    v.map_values(|l: MenuLine| l@)
}

/// The menu: its lines, the line that the cursor is on, and the first line
/// shown, both counted from 1.
#[derive(Debug, PartialEq)]
pub struct MenuGraphics {
    pub cursor: usize,
    pub camera: usize,
    pub lines: Vec<MenuLine>,
}

/// A line with the mark that it is the last of its subdirectory, if it is a
/// file; any other line as it is.
pub open spec fn marked_last(line: MenuLineModel, in_last: bool) -> MenuLineModel {
    match line {
        MenuLineModel::File(name, path, _, _) => MenuLineModel::File(name, path, in_last, true),
        other => other,
    }
}

/// The lines with the last of them marked as the last of its subdirectory.
pub open spec fn close_directory(lines: Seq<MenuLineModel>, in_last: bool) -> Seq<MenuLineModel> {
    if lines.len() == 0 {
        lines
    } else {
        lines.drop_last().push(marked_last(lines.last(), in_last))
    }
}

/// One line of the order file with the name of the file that it names, as
/// the machine takes it from the path.
pub type OrderEntry = (String, Option<String>);

/// The model of a line of the order file.
pub open spec fn entry_view(e: OrderEntry) -> (Seq<char>, Option<Seq<char>>) {
    (
        e.0@,
        match e.1 {
            Some(name) => Some(name@),
            None => None,
        },
    )
}

/// The models of the lines of the order file.
pub open spec fn entry_views(v: Seq<OrderEntry>) -> Seq<(Seq<char>, Option<Seq<char>>)> {
    v.map_values(|e: OrderEntry| entry_view(e))
}

/// The menu so far, or the failure to make it.
pub struct MenuSoFar {
    pub lines: Seq<MenuLineModel>,
    pub failed: bool,
}

/// What one line of the order file adds to the menu. An empty line adds
/// nothing. A heading adds a subdirectory, and the second and the third
/// heading mark the file before them as the last of its subdirectory. Any
/// other line names a file, which is shown under its name with its path, the
/// line without its first character; a line that names no file fails.
pub open spec fn menu_line(st: MenuSoFar, entry: (Seq<char>, Option<Seq<char>>)) -> MenuSoFar {
    let line = entry.0;
    if st.failed || line.len() == 0 {
        st
    } else if line == "# Syntax Definitions"@ {
        MenuSoFar {
            lines: st.lines.push(MenuLineModel::SubDirectory("syntax_defintions"@, false)),
            ..st
        }
    } else if line == "# Axioms"@ {
        MenuSoFar {
            lines: close_directory(st.lines, false).push(
                MenuLineModel::SubDirectory("axioms"@, false),
            ),
            ..st
        }
    } else if line == "# Theorems"@ {
        MenuSoFar {
            lines: close_directory(st.lines, false).push(
                MenuLineModel::SubDirectory("theorems"@, false),
            ),
            ..st
        }
    } else {
        match entry.1 {
            Some(name) => MenuSoFar {
                lines: st.lines.push(MenuLineModel::File(name, line.skip(1), false, false)),
                ..st
            },
            None => MenuSoFar { failed: true, ..st },
        }
    }
}

/// The menu after the lines of the order file.
pub open spec fn menu_lines(cwd: Seq<char>, order: Seq<(Seq<char>, Option<Seq<char>>)>) -> MenuSoFar
    decreases order.len(),
{
    if order.len() == 0 {
        MenuSoFar { lines: seq![MenuLineModel::RootDirectory(cwd)], failed: false }
    } else {
        menu_line(menu_lines(cwd, order.drop_last()), order.last())
    }
}

/// The files that wait to be admitted, as lines of the menu.
pub open spec fn pending_lines(pending: Seq<Seq<char>>) -> Seq<MenuLineModel> {
    pending.map_values(|name: Seq<char>| MenuLineModel::File(name, "pending\\"@ + name, true, false))
}

/// The lines of the whole menu: the directory of the library, the files of
/// the order file under their subdirectories, and the files that wait to be
/// admitted under a last subdirectory; nothing if a line of the order file
/// names no file.
pub open spec fn menu_of(
    cwd: Seq<char>,
    order: Seq<(Seq<char>, Option<Seq<char>>)>,
    pending: Seq<Seq<char>>,
) -> Option<Seq<MenuLineModel>> {
    let st = menu_lines(cwd, order);
    if st.failed {
        None
    } else {
        Some(
            close_directory(
                close_directory(st.lines, false).push(MenuLineModel::SubDirectory("pending"@, true))
                    + pending_lines(pending),
                true,
            ),
        )
    }
}

/// Once a line fails, the menu has failed.
pub proof fn lemma_menu_fails(cwd: Seq<char>, order: Seq<(Seq<char>, Option<Seq<char>>)>, n: int)
    requires
        0 <= n <= order.len(),
        menu_lines(cwd, order.take(n)).failed,
    ensures
        menu_lines(cwd, order).failed,
    decreases order.len(),
{
    if n < order.len() {
        assert(order.drop_last().take(n) == order.take(n));
        lemma_menu_fails(cwd, order.drop_last(), n);
    } else {
        assert(order.take(n) == order);
    }
}

/// Marks the last line as the last of its subdirectory, if it is a file.
pub fn mark_last(lines: &mut Vec<MenuLine>, in_last: bool)
    ensures
        menu_models(final(lines)@) == close_directory(menu_models(old(lines)@), in_last),
{
    let ghost before = menu_models(lines@);
    match lines.pop() {
        None => {
            assert(menu_models(lines@) =~= before);
        },
        Some(MenuLine::File(name, path, _, _)) => {
            let ghost rest = menu_models(lines@);
            assert(rest =~= before.drop_last());
            lines.push(MenuLine::File(name, path, in_last, true));
            assert(menu_models(lines@) =~= rest.push(marked_last(before.last(), in_last)));
        },
        Some(other) => {
            let ghost rest = menu_models(lines@);
            assert(rest =~= before.drop_last());
            let ghost model = other@;
            lines.push(other);
            assert(menu_models(lines@) =~= rest.push(model));
        },
    }
}

/// Makes the menu from the directory of the library, the lines of the order
/// file, and the names of the files that wait to be admitted. The cursor
/// starts on the second line.
#[verifier::loop_isolation(false)]
pub fn get_menu(cwd: String, order: &Vec<OrderEntry>, pending: &Vec<String>) -> (r: Result<
    MenuGraphics,
    (),
>)
    ensures
        match r {
            Ok(menu) => menu_of(cwd@, entry_views(order@), texts(pending@))
                == Some(menu_models(menu.lines@)) && menu.cursor == 2 && menu.camera == 1,
            Err(_) => menu_of(cwd@, entry_views(order@), texts(pending@))
                is None,
        },
{
    let ghost all = entry_views(order@);
    let ghost root = cwd@;
    let mut lines: Vec<MenuLine> = Vec::new();
    lines.push(MenuLine::RootDirectory(cwd));
    assert(menu_models(lines@) =~= seq![MenuLineModel::RootDirectory(root)]);
    assert(all.take(0) =~= Seq::empty());
    let mut i: usize = 0;
    while i < order.len()
        invariant
            i <= order.len(),
            all == entry_views(order@),
            menu_lines(root, all.take(i as int)) == (MenuSoFar {
                lines: menu_models(lines@),
                failed: false,
            }),
        decreases order.len() - i,
    {
        let ghost before = menu_models(lines@);
        proof {
            let next = all.take(i + 1);
            assert(next.drop_last() == all.take(i as int));
            assert(next.last() == entry_view(order@[i as int]));
            assert(menu_lines(root, next) == menu_line(
                menu_lines(root, next.drop_last()),
                next.last(),
            ));
        }
        let line = chars_of(order[i].0.as_str());
        if line.len() == 0 {
        } else if is_text(&line, "# Syntax Definitions") {
            lines.push(MenuLine::SubDirectory(string_of(&chars_of("syntax_defintions")), false));
            assert(menu_models(lines@) =~= before.push(
                MenuLineModel::SubDirectory("syntax_defintions"@, false),
            ));
        } else if is_text(&line, "# Axioms") {
            mark_last(&mut lines, false);
            let ghost closed = menu_models(lines@);
            lines.push(MenuLine::SubDirectory(string_of(&chars_of("axioms")), false));
            assert(menu_models(lines@) =~= closed.push(MenuLineModel::SubDirectory("axioms"@, false)));
        } else if is_text(&line, "# Theorems") {
            mark_last(&mut lines, false);
            let ghost closed = menu_models(lines@);
            lines.push(MenuLine::SubDirectory(string_of(&chars_of("theorems")), false));
            assert(menu_models(lines@) =~= closed.push(
                MenuLineModel::SubDirectory("theorems"@, false),
            ));
        } else {
            match &order[i].1 {
                Some(name) => {
                    let path = string_of(&slice_of(&line, 1, line.len()));
                    assert(line@.subrange(1, line@.len() as int) == line@.skip(1));
                    lines.push(MenuLine::File(name.clone(), path, false, false));
                    assert(menu_models(lines@) =~= before.push(
                        MenuLineModel::File(name@, line@.skip(1), false, false),
                    ));
                },
                None => {
                    proof {
                        lemma_menu_fails(root, all, i + 1);
                    }
                    return Err(());
                },
            }
        }
        i += 1;
    }
    assert(all.take(i as int) == all);
    mark_last(&mut lines, false);
    let ghost closed = menu_models(lines@);
    lines.push(MenuLine::SubDirectory(string_of(&chars_of("pending")), true));
    let ghost with_pending = menu_models(lines@);
    assert(with_pending =~= closed.push(MenuLineModel::SubDirectory("pending"@, true)));
    let ghost waiting = pending_lines(texts(pending@));
    let mut k: usize = 0;
    assert(menu_models(lines@) =~= with_pending + waiting.take(0));
    while k < pending.len()
        invariant
            k <= pending.len(),
            waiting == pending_lines(texts(pending@)),
            menu_models(lines@) == with_pending + waiting.take(k as int),
        decreases pending.len() - k,
    {
        let ghost before = menu_models(lines@);
        let mut path: Vec<char> = Vec::new();
        push_text(&mut path, "pending\\");
        push_text(&mut path, pending[k].as_str());
        assert(path@ =~= "pending\\"@ + pending@[k as int]@);
        lines.push(MenuLine::File(pending[k].clone(), string_of(&path), true, false));
        assert(menu_models(lines@) =~= before.push(waiting[k as int]));
        assert(waiting.take(k + 1) =~= waiting.take(k as int).push(waiting[k as int]));
        assert(menu_models(lines@) =~= with_pending + waiting.take(k + 1));
        k += 1;
    }
    assert(waiting.take(k as int) =~= waiting);
    mark_last(&mut lines, true);
    Ok(MenuGraphics { cursor: 2, camera: 1, lines })
}

/// The file that is open: its lines as shown, the place of the cursor as
/// line and column, the first line shown, all counted from 1, the widths of
/// the columns of its proof, and whether it may be changed.
#[derive(Debug, PartialEq)]
pub struct FileGraphics {
    pub cursor: (usize, usize),
    pub camera: usize,
    pub lines: Vec<FileLine>,
    pub indent_info: IndentInfo,
    pub read_only: bool,
}

impl Default for FileGraphics {
    fn default() -> (r: FileGraphics)
        ensures
            r.cursor == (0usize, 0usize),
            r.camera == 0,
            r.lines@.len() == 0,
            r.indent_info == (IndentInfo {
                line_number_indent: 0,
                used_hypotheses_indent: 0,
                theorem_reference_indent: 0,
            }),
            !r.read_only,
    {
        FileGraphics {
            cursor: (0, 0),
            camera: 0,
            lines: Vec::new(),
            indent_info: IndentInfo {
                line_number_indent: 0,
                used_hypotheses_indent: 0,
                theorem_reference_indent: 0,
            },
            read_only: false,
        }
    }
}

/// Opens a file from what reading it gave: its text, or nothing if it could
/// not be read. The file is shown from its first line, with the cursor at
/// its start, and may not be changed.
pub fn get_file(contents: Option<&str>, lib_data: &Library, references: &NameIndex) -> (r: Result<
    FileGraphics,
    (),
>)
    ensures
        match r {
            Ok(file) => contents matches Some(text) && (line_models(file.lines@), file.indent_info)
                == file_shown(text@, rules(lib_data.syntaxes@), references@) && file.cursor == (
                1usize,
                1usize,
            ) && file.camera == 1 && file.read_only,
            Err(_) => contents is None,
        },
{
    match contents {
        None => Err(()),
        Some(text) => {
            let (lines, indent_info) = parse_file(text, lib_data, references);
            Ok(FileGraphics { cursor: (1, 1), camera: 1, lines, indent_info, read_only: true })
        },
    }
}

} // verus!
