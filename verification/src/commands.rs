//! What the commands compute apart from reading and writing files: the
//! archive after a directory is compiled or a file joins the library, the
//! verdict on a theorem, and the new text of the order file.

use vstd::prelude::*;
use crate::compiling::compiler::{
    add_axiom_to_lib, add_syndef_to_lib, add_theo_to_lib, axiom_added, compile_directory,
    directory_compiled, source_views, syndef_added, theorem_added, theorem_checked, verify_theo,
    Sources,
};
use crate::compiling::error::{CompileError, CompileErrorModel};
use crate::compiling::types::{LibraryModel, Reference};
use crate::parsing::read_file::{file_of, parse_file, ParseError, ParseErrorModel};
use crate::parsing::types::MathFileModel;
use crate::serializing::read_write::{archive, read_archive, read_file, write_lib, Reading};
use crate::settings::push_text;
use crate::text::{chars_of, is_text, lines, rows, split_lines, string_of, texts};

verus! {

/// The three directories of a library, one for each section of the order
/// file.
#[derive(Debug, Clone, Copy, PartialEq, Eq, Structural)]
pub enum LibrarySection {
    SyntaxDefinitions,
    Axioms,
    Theorems,
}

/// The directory of a section, as it is written before a file name.
pub open spec fn directory_text(section: LibrarySection) -> Seq<char> {
    match section {
        LibrarySection::SyntaxDefinitions => "\\syntax_definitions\\"@,
        LibrarySection::Axioms => "\\axioms\\"@,
        LibrarySection::Theorems => "\\theorems\\"@,
    }
}

/// The directory of a section.
pub fn directory_of(section: LibrarySection) -> (r: &'static str)
    ensures
        r@ == directory_text(section),
{
    match section {
        LibrarySection::SyntaxDefinitions => "\\syntax_definitions\\",
        LibrarySection::Axioms => "\\axioms\\",
        LibrarySection::Theorems => "\\theorems\\",
    }
}

/// How many of the lines, from the first on, are `heading`.
pub open spec fn run_length(ls: Seq<Seq<char>>, heading: Seq<char>) -> nat
    decreases ls.len(),
{
    if ls.len() > 0 && ls[0] == heading {
        1 + run_length(ls.drop_first(), heading)
    } else {
        0
    }
}

/// The lines that follow the run of lines that are `heading` and the one
/// line that ends the run.
pub open spec fn after_run(ls: Seq<Seq<char>>, heading: Seq<char>) -> Seq<Seq<char>> {
    let n = run_length(ls, heading) as int;
    if n < ls.len() {
        ls.skip(n + 1)
    } else {
        Seq::empty()
    }
}

/// `n` copies of a line, each ended by a line feed.
pub open spec fn repeated(line: Seq<char>, n: nat) -> Seq<char>
    decreases n,
{
    if n == 0 {
        Seq::empty()
    } else {
        repeated(line, (n - 1) as nat) + line + seq!['\n']
    }
}

/// The lines that are not empty, each ended by a line feed.
pub open spec fn kept_lines(ls: Seq<Seq<char>>) -> Seq<char>
    decreases ls.len(),
{
    if ls.len() == 0 {
        Seq::empty()
    } else if ls.last().len() == 0 {
        kept_lines(ls.drop_last())
    } else {
        kept_lines(ls.drop_last()) + ls.last() + seq!['\n']
    }
}

/// The line for the new entry where `section` is the section that gains it,
/// and nothing elsewhere.
pub open spec fn entry_in(
    section: LibrarySection,
    target: LibrarySection,
    file_name: Seq<char>,
) -> Seq<char> {
    if section == target {
        directory_text(target) + file_name + seq!['\n']
    } else {
        Seq::empty()
    }
}

/// The new text of the order file when a file joins a section. The old text
/// is read in four parts: the lines that repeat the first heading and the
/// line after them, which are dropped; the lines that then repeat the second
/// heading, which are kept as the first section, and the line after them,
/// which is dropped; the lines that then repeat the third heading, which are
/// kept as the second section, and the line after them, which is dropped;
/// and the rest, of which the lines that are not empty are kept as the third
/// section. The new text has the three headings, each followed by its
/// section and by the new entry where it is due.
pub open spec fn order_text(
    old_text: Seq<char>,
    file_name: Seq<char>,
    target: LibrarySection,
) -> Seq<char> {
    let all = lines(old_text);
    let rest0 = after_run(all, "# Syntax Definitions"@);
    let rest1 = after_run(rest0, "# Axioms"@);
    let rest2 = after_run(rest1, "# Theorems"@);
    "# Syntax Definition\n"@ + repeated("# Axioms"@, run_length(rest0, "# Axioms"@)) + entry_in(
        LibrarySection::SyntaxDefinitions,
        target,
        file_name,
    ) + "\n# Axioms\n"@ + repeated("# Theorems"@, run_length(rest1, "# Theorems"@)) + entry_in(
        LibrarySection::Axioms,
        target,
        file_name,
    ) + "\n# Theorems\n"@ + kept_lines(rest2) + entry_in(LibrarySection::Theorems, target, file_name)
}

/// Counts the lines from `from` on that are `heading`.
pub fn count_run(all: &Vec<Vec<char>>, from: usize, heading: &str) -> (n: usize)
    requires
        from <= all@.len(),
    ensures
        n == run_length(rows(all@).skip(from as int), heading@),
        from + n <= all@.len(),
{
    let ghost ls = rows(all@);
    let total = all.len();
    let mut n: usize = 0;
    while from + n < total && is_text(&all[from + n], heading)
        invariant
            total == all@.len(),
            from + n <= total,
            ls == rows(all@),
            run_length(ls.skip(from as int), heading@) == n + run_length(
                ls.skip(from + n),
                heading@,
            ),
        decreases all@.len() - n,
    {
        proof {
            let rest = ls.skip(from + n);
            assert(rest[0] == all@[from + n]@);
            assert(rest.drop_first() == ls.skip(from + n + 1));
            assert(run_length(rest, heading@) == 1 + run_length(rest.drop_first(), heading@));
        }
        n += 1;
    }
    proof {
        let rest = ls.skip(from + n);
        if from + n < all@.len() {
            assert(rest[0] == all@[from + n]@);
        }
        assert(run_length(rest, heading@) == 0);
    }
    n
}

/// Appends `n` copies of a line, each ended by a line feed.
pub fn push_repeated(r: &mut Vec<char>, line: &str, n: usize)
    ensures
        final(r)@ == old(r)@ + repeated(line@, n as nat),
{
    let mut i: usize = 0;
    assert(repeated(line@, 0) == Seq::<char>::empty());
    assert(r@ =~= old(r)@ + Seq::<char>::empty());
    while i < n
        invariant
            i <= n,
            r@ == old(r)@ + repeated(line@, i as nat),
        decreases n - i,
    {
        let ghost before = r@;
        push_text(r, line);
        r.push('\n');
        assert(repeated(line@, (i + 1) as nat) == repeated(line@, i as nat) + line@ + seq!['\n']);
        assert(r@ =~= old(r)@ + repeated(line@, (i + 1) as nat));
        i += 1;
    }
}

/// Appends the line for the new entry where it is due.
pub fn push_entry(r: &mut Vec<char>, section: LibrarySection, target: LibrarySection, file_name: &str)
    ensures
        final(r)@ == old(r)@ + entry_in(section, target, file_name@),
{
    if section == target {
        push_text(r, directory_of(target));
        push_text(r, file_name);
        r.push('\n');
        assert(r@ =~= old(r)@ + entry_in(section, target, file_name@));
    } else {
        assert(r@ =~= old(r)@ + Seq::<char>::empty());
    }
}

/// Appends the lines from `from` on that are not empty.
pub fn push_kept(r: &mut Vec<char>, all: &Vec<Vec<char>>, from: usize)
    requires
        from <= all@.len(),
    ensures
        final(r)@ == old(r)@ + kept_lines(rows(all@).skip(from as int)),
{
    let ghost ls = rows(all@).skip(from as int);
    let mut i: usize = from;
    assert(kept_lines(ls.take(0)) == Seq::<char>::empty());
    assert(r@ =~= old(r)@ + Seq::<char>::empty());
    while i < all.len()
        invariant
            from <= i <= all@.len(),
            ls == rows(all@).skip(from as int),
            r@ == old(r)@ + kept_lines(ls.take(i - from)),
        decreases all@.len() - i,
    {
        proof {
            let next = ls.take(i - from + 1);
            assert(next.drop_last() == ls.take(i - from));
            assert(next.last() == all@[i as int]@);
            assert(kept_lines(next) == if next.last().len() == 0 {
                kept_lines(next.drop_last())
            } else {
                kept_lines(next.drop_last()) + next.last() + seq!['\n']
            });
        }
        if all[i].len() > 0 {
            let mut line = crate::text::slice_of(&all[i], 0, all[i].len());
            assert(line@ == all@[i as int]@) by {
                assert(all@[i as int]@.subrange(0, all@[i as int]@.len() as int) == all@[i as int]@);
            }
            let ghost before = r@;
            r.append(&mut line);
            r.push('\n');
            assert(r@ =~= old(r)@ + kept_lines(ls.take(i - from + 1)));
        }
        i += 1;
    }
    assert(ls.take(i - from) == ls);
}

/// The place after the run of lines that are `heading` and the line that
/// ends it, and the length of the run.
pub fn skip_run(all: &Vec<Vec<char>>, from: usize, heading: &str) -> (r: (usize, usize))
    requires
        from <= all@.len(),
    ensures
        r.0 <= all@.len(),
        r.1 == run_length(rows(all@).skip(from as int), heading@),
        rows(all@).skip(r.0 as int) == after_run(rows(all@).skip(from as int), heading@),
{
    let n = count_run(all, from, heading);
    let ghost ls = rows(all@).skip(from as int);
    let total = all.len();
    if from + n < total {
        assert(ls.skip(n + 1) =~= rows(all@).skip(from + n + 1));
        (from + n + 1, n)
    } else {
        assert(rows(all@).skip(all@.len() as int) =~= Seq::<Seq<char>>::empty());
        (all.len(), n)
    }
}

/// Writes the new text of the order file when a file joins a section.
pub fn move_entry_to_order_file(old_text: &str, file_name: &str, target: LibrarySection) -> (r: String)
    ensures
        r@ == order_text(old_text@, file_name@, target),
{
    let all = split_lines(&chars_of(old_text));
    assert(rows(all@).skip(0) == rows(all@));
    let (at0, _) = skip_run(&all, 0, "# Syntax Definitions");
    let (at1, syndefs) = skip_run(&all, at0, "# Axioms");
    let (at2, axioms) = skip_run(&all, at1, "# Theorems");
    let mut r: Vec<char> = Vec::new();
    push_text(&mut r, "# Syntax Definition\n");
    push_repeated(&mut r, "# Axioms", syndefs);
    push_entry(&mut r, LibrarySection::SyntaxDefinitions, target, file_name);
    push_text(&mut r, "\n# Axioms\n");
    push_repeated(&mut r, "# Theorems", axioms);
    push_entry(&mut r, LibrarySection::Axioms, target, file_name);
    push_text(&mut r, "\n# Theorems\n");
    push_kept(&mut r, &all, at2);
    push_entry(&mut r, LibrarySection::Theorems, target, file_name);
    assert(r@ =~= order_text(old_text@, file_name@, target));
    string_of(&r)
}

/// Why a command on one file stops: its text is no source file, or the
/// library refuses the file.
#[derive(Debug, PartialEq)]
pub enum CommandError {
    Parse(ParseError),
    Compile(CompileError),
}

/// The model of a `CommandError`.
pub enum CommandErrorModel {
    Parse(ParseErrorModel),
    Compile(CompileErrorModel),
}

impl View for CommandError {
    type V = CommandErrorModel;

    open spec fn view(&self) -> CommandErrorModel {
        match self {
            CommandError::Parse(e) => CommandErrorModel::Parse(e@),
            CommandError::Compile(e) => CommandErrorModel::Compile(e@),
        }
    }
}

/// Whether a line of the order file names a file: it is not empty and is
/// no heading.
pub open spec fn names_file(line: Seq<char>) -> bool {
    line.len() > 0 && line[0] != '#'
}

/// The lines among `order` that name a file, in their order.
pub open spec fn paths_in(order: Seq<Seq<char>>) -> Seq<Seq<char>>
    decreases order.len(),
{
    if order.len() == 0 {
        Seq::empty()
    } else if names_file(order.last()) {
        paths_in(order.drop_last()).push(order.last())
    } else {
        paths_in(order.drop_last())
    }
}

/// The paths that an order file names, in their order: the files that
/// compiling the directory reads.
pub fn order_paths(order: &str) -> (paths: Vec<String>)
    ensures
        texts(paths@) == paths_in(lines(order@)),
{
    let all = split_lines(&chars_of(order));
    let mut paths: Vec<String> = Vec::new();
    let mut i: usize = 0;
    assert(texts(paths@) =~= paths_in(rows(all@).take(0)));
    while i < all.len()
        invariant
            i <= all.len(),
            rows(all@) == lines(order@),
            texts(paths@) == paths_in(rows(all@).take(i as int)),
        decreases all.len() - i,
    {
        let ghost before = rows(all@).take(i as int);
        let ghost now = rows(all@).take(i + 1);
        assert(now.drop_last() == before);
        assert(now.last() == all@[i as int]@);
        assert(paths_in(now) == if names_file(now.last()) {
            paths_in(before).push(now.last())
        } else {
            paths_in(before)
        });
        if all[i].len() > 0 && all[i][0] != '#' {
            let ghost held = paths@;
            paths.push(string_of(&all[i]));
            assert(texts(paths@) =~= texts(held).push(all@[i as int]@));
        }
        i += 1;
    }
    assert(rows(all@).take(all.len() as int) == rows(all@));
    paths
}

/// The view of an order text that may be missing.
pub open spec fn order_view(order: Option<String>) -> Option<Seq<char>> {
    match order {
        Some(text) => Some(text@),
        None => None,
    }
}

/// The archive of a directory: that of the library that compiling it gives.
pub open spec fn directory_archive(
    order: Option<Seq<char>>,
    files: Seq<(Seq<char>, Result<Seq<char>, Seq<char>>)>,
) -> Result<Seq<u8>, CompileErrorModel> {
    match directory_compiled(order, files) {
        Ok(lib) => Ok(archive(lib)),
        Err(e) => Err(e),
    }
}

/// Compiles a directory, from the text of its order file and what reading
/// each of its files gave, into the bytes of its archive.
pub fn compile(order: Option<String>, files: &Sources) -> (r: Result<Vec<u8>, CompileError>)
    ensures
        match r {
            Ok(data) => directory_archive(order_view(order), source_views(files@)) == Ok::<
                _,
                CompileErrorModel,
            >(data@),
            Err(e) => directory_archive(order_view(order), source_views(files@)) == Err::<Seq<u8>, _>(
                e@,
            ),
        },
{
    match compile_directory(order, files) {
        Ok(lib) => Ok(write_lib(lib)),
        Err(e) => Err(e),
    }
}

/// What an archive holds, read from its first byte.
pub open spec fn library_in(source: Seq<u8>) -> Reading {
    read_archive(source, 0, Reading::start())
}

/// The archive after one step on the library that `source` holds: the text
/// is read as a file, the step is taken on the file, and the library that
/// it gives is written.
pub open spec fn archive_after(
    content: Seq<char>,
    source: Seq<u8>,
    step: spec_fn(MathFileModel, LibraryModel, Seq<(Seq<char>, Reference)>) -> Result<
        (LibraryModel, Seq<(Seq<char>, Reference)>),
        CompileErrorModel,
    >,
) -> Result<Seq<u8>, CommandErrorModel> {
    match file_of(content) {
        Err(e) => Err(CommandErrorModel::Parse(e)),
        Ok(file) => match step(file, library_in(source).lib, library_in(source).index) {
            Err(e) => Err(CommandErrorModel::Compile(e)),
            Ok(grown) => Ok(archive(grown.0)),
        },
    }
}

/// Whether `r` is what `expected` says, an archive by its bytes and an
/// error by its model.
pub open spec fn gives(r: Result<Vec<u8>, CommandError>, expected: Result<Seq<u8>, CommandErrorModel>) -> bool {
    match r {
        Ok(data) => expected == Ok::<_, CommandErrorModel>(data@),
        Err(e) => expected == Err::<Seq<u8>, _>(e@),
    }
}

/// Admits the syntax definition that `content` holds into the library of the
/// archive `source`, and gives the archive of the library with it.
pub fn add_syndef(content: String, source: &Vec<u8>) -> (r: Result<Vec<u8>, CommandError>)
    ensures
        gives(
            r,
            archive_after(
                content@,
                source@,
                |f: MathFileModel, l: LibraryModel, i: Seq<(Seq<char>, Reference)>| syndef_added(f, l, i),
            ),
        ),
{
    let math_file = match parse_file(content) {
        Ok(math_file) => math_file,
        Err(e) => {
            return Err(CommandError::Parse(e));
        },
    };
    let (mut lib, mut references) = read_file(source);
    match add_syndef_to_lib(math_file, &mut lib, &mut references) {
        Ok(()) => Ok(write_lib(lib)),
        Err(e) => Err(CommandError::Compile(e)),
    }
}

/// Admits the axiom that `content` holds into the library of the archive
/// `source`, and gives the archive of the library with it.
pub fn add_axiom(content: String, source: &Vec<u8>) -> (r: Result<Vec<u8>, CommandError>)
    ensures
        gives(
            r,
            archive_after(
                content@,
                source@,
                |f: MathFileModel, l: LibraryModel, i: Seq<(Seq<char>, Reference)>| axiom_added(f, l, i),
            ),
        ),
{
    let math_file = match parse_file(content) {
        Ok(math_file) => math_file,
        Err(e) => {
            return Err(CommandError::Parse(e));
        },
    };
    let (mut lib, mut references) = read_file(source);
    match add_axiom_to_lib(math_file, &mut lib, &mut references) {
        Ok(()) => Ok(write_lib(lib)),
        Err(e) => Err(CommandError::Compile(e)),
    }
}

/// Verifies the theorem that `content` holds against the library of the
/// archive `source`, admits it, and gives the archive of the library with
/// it.
pub fn add_theo(content: String, source: &Vec<u8>) -> (r: Result<Vec<u8>, CommandError>)
    ensures
        gives(
            r,
            archive_after(
                content@,
                source@,
                |f: MathFileModel, l: LibraryModel, i: Seq<(Seq<char>, Reference)>| theorem_added(f, l, i),
            ),
        ),
{
    let math_file = match parse_file(content) {
        Ok(math_file) => math_file,
        Err(e) => {
            return Err(CommandError::Parse(e));
        },
    };
    let (mut lib, mut references) = read_file(source);
    match add_theo_to_lib(math_file, &mut lib, &mut references) {
        Ok(()) => Ok(write_lib(lib)),
        Err(e) => Err(CommandError::Compile(e)),
    }
}

/// What verifying a theorem says when it holds.
pub open spec fn valid_text() -> Seq<char> {
    "Theorem is valid"@
}

/// The verdict on the theorem that `content` holds, against the library that
/// `source` holds: nothing where it holds, else why it does not.
pub open spec fn verdict(content: Seq<char>, source: Seq<u8>) -> Option<CommandErrorModel> {
    match file_of(content) {
        Err(e) => Some(CommandErrorModel::Parse(e)),
        Ok(file) => match theorem_checked(file, library_in(source).lib, library_in(source).index) {
            Err(e) => Some(CommandErrorModel::Compile(e)),
            Ok(_) => None,
        },
    }
}

/// Verifies the theorem that `content` holds against the library of the
/// archive `source`, and admits nothing.
pub fn verify(content: String, source: &Vec<u8>) -> (r: Result<String, CommandError>)
    ensures
        match r {
            Ok(said) => verdict(content@, source@) is None && said@ == valid_text(),
            Err(e) => verdict(content@, source@) == Some(e@),
        },
{
    let math_file = match parse_file(content) {
        Ok(math_file) => math_file,
        Err(e) => {
            return Err(CommandError::Parse(e));
        },
    };
    let (mut lib, mut references) = read_file(source);
    match verify_theo(math_file, &mut lib, &mut references) {
        Ok(()) => Ok(string_of(&chars_of("Theorem is valid"))),
        Err(e) => Err(CommandError::Compile(e)),
    }
}

} // verus!
