//! A whole source file as the editor shows it.

use vstd::prelude::*;
use crate::compiling::types::{rules, Library, NameIndex, Reference, Syntax, SyntaxModel, SyntaxType};
use crate::editor::sections::{
    assertion_section_shown, definition_section_shown, hypothesis_section_shown, line_texts,
    parse_assertion_section, parse_definition_section, parse_hypotesis_section,
    parse_proof_section, parse_syntax_section, proof_indents, proof_section_shown,
    syntax_section_rule, syntax_section_shown,
};
use crate::editor::types::{line_models, FileLine, FileLineModel, FileType, IndentInfo};
use crate::parsing::read_file::is_name_char;
use crate::text::{chars_of, is_text, lines, rows, slice_of, split_lines, string_of};

verus! {

/// The place of the last `c` in `s`, or -1 if it holds none.
pub open spec fn last_index(s: Seq<char>, c: char) -> int
    decreases s.len(),
{
    if s.len() == 0 {
        -1
    } else if s.last() == c {
        s.len() - 1
    } else {
        last_index(s.drop_last(), c)
    }
}

/// The place of the last `c`, if there is one.
pub fn find_last_char(v: &Vec<char>, c: char) -> (r: Option<usize>)
    ensures
        match r {
            Some(n) => n == last_index(v@, c) && n < v@.len(),
            None => last_index(v@, c) == -1,
        },
{
    let mut i: usize = v.len();
    assert(v@.take(i as int) == v@);
    while i > 0
        invariant
            i <= v.len(),
            last_index(v@, c) == last_index(v@.take(i as int), c),
        decreases i,
    {
        let ghost part = v@.take(i as int);
        assert(part.last() == v@[i - 1]);
        assert(part.drop_last() == v@.take(i - 1));
        assert(last_index(part, c) == if part.last() == c {
            part.len() - 1
        } else {
            last_index(part.drop_last(), c)
        });
        if v[i - 1] == c {
            return Some(i - 1);
        }
        i -= 1;
    }
    assert(last_index(v@.take(0), c) == -1);
    None
}

/// The kind of file that a title announces.
pub open spec fn title_kind(title: Seq<char>) -> FileType {
    if title == "## Syntax Definition (formula)"@ {
        FileType::SyntaxDefinitionFormula
    } else if title == "## Syntax Definition (object)"@ {
        FileType::SyntaxDefinitionObject
    } else if title == "## Axiom"@ {
        FileType::Axiom
    } else if title == "## Theorem"@ {
        FileType::Theorem
    } else {
        FileType::Unknown
    }
}

/// Every character of the name is an ASCII letter or digit.
pub open spec fn name_is_good(name: Seq<char>) -> bool {
    forall|i: int| 0 <= i < name.len() ==> is_name_char(#[trigger] name[i])
}

/// The first line of a file as shown, and the kind of file that it
/// announces. A line that starts with `##` and holds a space is a title: what
/// stands before its last space says what the file is, and what follows it
/// names the file. Any other line is shown as it is, and a file without a
/// first line as an empty line.
pub open spec fn title_shown(first_line: Option<Seq<char>>) -> (FileLineModel, FileType) {
    match first_line {
        None => (FileLineModel::Raw(Seq::empty()), FileType::Unknown),
        Some(line) => {
            let n = last_index(line, ' ');
            if line.len() >= 2 && line[0] == '#' && line[1] == '#' && n >= 0 {
                (
                    FileLineModel::Title {
                        title: line.take(n),
                        name: line.skip(n + 1),
                        title_good: title_kind(line.take(n)) != FileType::Unknown,
                        name_good: name_is_good(line.skip(n + 1)),
                    },
                    title_kind(line.take(n)),
                )
            } else {
                (FileLineModel::Raw(line), FileType::Unknown)
            }
        },
    }
}

/// Whether every character is an ASCII letter or digit.
pub fn check_name_chars(v: &Vec<char>) -> (r: bool)
    ensures
        r == name_is_good(v@),
{
    let mut i: usize = 0;
    while i < v.len()
        invariant
            i <= v.len(),
            forall|j: int| 0 <= j < i ==> is_name_char(#[trigger] v@[j]),
        decreases v.len() - i,
    {
        let c = v[i];
        if !(('a' <= c && c <= 'z') || ('A' <= c && c <= 'Z') || ('0' <= c && c <= '9')) {
            assert(!is_name_char(v@[i as int]));
            return false;
        }
        i += 1;
    }
    true
}

/// Reads the kind of file that a title announces.
pub fn read_title_kind(title: &Vec<char>) -> (r: FileType)
    ensures
        r == title_kind(title@),
{
    if is_text(title, "## Syntax Definition (formula)") {
        FileType::SyntaxDefinitionFormula
    } else if is_text(title, "## Syntax Definition (object)") {
        FileType::SyntaxDefinitionObject
    } else if is_text(title, "## Axiom") {
        FileType::Axiom
    } else if is_text(title, "## Theorem") {
        FileType::Theorem
    } else {
        FileType::Unknown
    }
}

/// The text that an optional line holds.
pub open spec fn optional_line(line: Option<&str>) -> Option<Seq<char>> {
    match line {
        Some(l) => Some(l@),
        None => None,
    }
}

/// Reads the first line of a file for showing it.
pub fn parse_title(first_line: Option<&str>) -> (r: (FileLine, FileType))
    ensures
        (r.0@, r.1) == title_shown(optional_line(first_line)),
{
    let line = match first_line {
        None => {
            return (FileLine::Raw(String::new()), FileType::Unknown);
        },
        Some(line) => chars_of(line),
    };
    if !(line.len() >= 2 && line[0] == '#' && line[1] == '#') {
        return (FileLine::Raw(string_of(&line)), FileType::Unknown);
    }
    let n = match find_last_char(&line, ' ') {
        None => {
            return (FileLine::Raw(string_of(&line)), FileType::Unknown);
        },
        Some(n) => n,
    };
    let title = slice_of(&line, 0, n);
    let name = slice_of(&line, n + 1, line.len());
    assert(line@.subrange(0, n as int) == line@.take(n as int));
    assert(line@.subrange(n + 1, line@.len() as int) == line@.skip(n + 1));
    let file_type = read_title_kind(&title);
    let title_good = match file_type {
        FileType::Unknown => false,
        _ => true,
    };
    let name_good = check_name_chars(&name);
    (
        FileLine::Title { title: string_of(&title), name: string_of(&name), title_good, name_good },
        file_type,
    )
}

/// The lines in groups: a line that starts with `#` opens a group, and the
/// lines before the first such line are a group of their own, which may be
/// empty.
pub open spec fn groups(body: Seq<Seq<char>>) -> Seq<Seq<Seq<char>>>
    decreases body.len(),
{
    if body.len() == 0 {
        seq![Seq::empty()]
    } else {
        let before = groups(body.drop_last());
        if body.last().len() > 0 && body.last()[0] == '#' {
            before.push(seq![body.last()])
        } else {
            before.drop_last().push(before.last().push(body.last()))
        }
    }
}

/// The lines as they are.
pub open spec fn raw_lines(group: Seq<Seq<char>>) -> Seq<FileLineModel> {
    group.map_values(|l: Seq<char>| FileLineModel::Raw(l))
}

/// The lines as lines that were not expected.
pub open spec fn unexpected_lines(group: Seq<Seq<char>>) -> Seq<FileLineModel> {
    group.map_values(|l: Seq<char>| FileLineModel::UnexpectedLine(l))
}

/// The lines of the groups from `from` on, one group after the other, each
/// line shown as it is, or as a line that was not expected.
pub open spec fn rest_shown(all: Seq<Seq<Seq<char>>>, from: int, expected: bool) -> Seq<FileLineModel>
    decreases all.len() - from,
{
    if from < 0 || from >= all.len() {
        Seq::empty()
    } else {
        (if expected {
            raw_lines(all[from])
        } else {
            unexpected_lines(all[from])
        }) + rest_shown(all, from + 1, expected)
    }
}

/// Group `k`, or no lines if there is no such group.
pub open spec fn group_at(all: Seq<Seq<Seq<char>>>, k: int) -> Seq<Seq<char>> {
    if 0 <= k < all.len() {
        all[k]
    } else {
        Seq::empty()
    }
}

/// The sections of a file as shown, for a file of the given kind: the groups
/// from the second on, each read as the section that is due at its place, and
/// the groups beyond those as lines that were not expected. In a file of no
/// known kind every line is shown as it is.
pub open spec fn sections_shown(
    kind: FileType,
    all: Seq<Seq<Seq<char>>>,
    table: Seq<SyntaxModel>,
    index: Seq<(Seq<char>, Reference)>,
) -> Seq<FileLineModel> {
    match kind {
        FileType::SyntaxDefinitionFormula => syntax_file_shown(SyntaxType::Formula, all, table),
        FileType::SyntaxDefinitionObject => syntax_file_shown(SyntaxType::Object, all, table),
        FileType::Axiom => assertion_section_shown(group_at(all, 1), table) + assertion_section_shown(
            group_at(all, 2),
            table,
        ) + rest_shown(all, 3, false),
        FileType::Theorem => hypothesis_section_shown(group_at(all, 1), table)
            + assertion_section_shown(group_at(all, 2), table) + proof_section_shown(
            group_at(all, 3),
            table,
            index,
        ) + rest_shown(all, 4, false),
        FileType::Unknown => rest_shown(all, 1, true),
    }
}

/// The sections of a syntax definition as shown. The definition is coloured
/// under the rules of the library preceded by the rule that the syntax
/// section declares, if it declares one.
pub open spec fn syntax_file_shown(
    kind: SyntaxType,
    all: Seq<Seq<Seq<char>>>,
    table: Seq<SyntaxModel>,
) -> Seq<FileLineModel> {
    let declared = syntax_section_rule(group_at(all, 1), kind);
    syntax_section_shown(group_at(all, 1)) + definition_section_shown(
        group_at(all, 2),
        match declared {
            Some(rule) => seq![rule] + table,
            None => table,
        },
        declared is Some,
    ) + rest_shown(all, 3, false)
}

/// The widths of the columns of the proof of a file: those of the proof
/// section of a theorem, and zero for any other file and for a theorem
/// without a proof section.
pub open spec fn file_indents(kind: FileType, all: Seq<Seq<Seq<char>>>) -> IndentInfo {
    if kind == FileType::Theorem && all.len() > 3 {
        proof_indents(all[3])
    } else {
        IndentInfo { line_number_indent: 0, used_hypotheses_indent: 0, theorem_reference_indent: 0 }
    }
}

/// A file as shown: its first line, the lines before its first heading as
/// they are, and its sections.
pub open spec fn file_shown(
    contents: Seq<char>,
    table: Seq<SyntaxModel>,
    index: Seq<(Seq<char>, Reference)>,
) -> (Seq<FileLineModel>, IndentInfo) {
    let all = lines(contents);
    let first = if all.len() > 0 {
        Some(all[0])
    } else {
        None
    };
    let body = if all.len() > 0 {
        all.skip(1)
    } else {
        all
    };
    let title = title_shown(first);
    (
        seq![title.0] + raw_lines(groups(body)[0]) + sections_shown(
            title.1,
            groups(body),
            table,
            index,
        ),
        file_indents(title.1, groups(body)),
    )
}

/// What each of the groups holds.
pub open spec fn group_views(v: Seq<Vec<&str>>) -> Seq<Seq<Seq<char>>> {
    v.map_values(|g: Vec<&str>| line_texts(g@))
}

/// What each of the strings holds.
pub open spec fn string_views(v: Seq<String>) -> Seq<Seq<char>> {
    v.map_values(|s: String| s@)
}

/// Puts the lines in groups.
pub fn group_lines<'a>(body: &'a Vec<String>) -> (r: Vec<Vec<&'a str>>)
    ensures
        group_views(r@) == groups(string_views(body@)),
        r@.len() >= 1,
{
    let ghost all = string_views(body@);
    let mut closed: Vec<Vec<&'a str>> = Vec::new();
    let mut open: Vec<&'a str> = Vec::new();
    let mut i: usize = 0;
    assert(all.take(0) =~= Seq::empty());
    assert(line_texts(open@) =~= Seq::<Seq<char>>::empty());
    assert(group_views(closed@).push(line_texts(open@)) =~= seq![Seq::<Seq<char>>::empty()]);
    while i < body.len()
        invariant
            i <= body.len(),
            all == string_views(body@),
            groups(all.take(i as int)) == group_views(closed@).push(line_texts(open@)),
        decreases body.len() - i,
    {
        let line = body[i].as_str();
        let text = chars_of(line);
        let ghost before = groups(all.take(i as int));
        proof {
            let next = all.take(i + 1);
            assert(next.drop_last() == all.take(i as int));
            assert(next.last() == body@[i as int]@);
            assert(groups(next) == if next.last().len() > 0 && next.last()[0] == '#' {
                before.push(seq![next.last()])
            } else {
                before.drop_last().push(before.last().push(next.last()))
            });
            assert(before.last() == line_texts(open@));
            assert(before.drop_last() =~= group_views(closed@));
        }
        if text.len() > 0 && text[0] == '#' {
            let ghost old_closed = group_views(closed@);
            closed.push(open);
            assert(group_views(closed@) =~= before);
            open = Vec::new();
            open.push(line);
            assert(line_texts(open@) =~= seq![line@]);
        } else {
            let ghost old_open = line_texts(open@);
            open.push(line);
            assert(line_texts(open@) =~= old_open.push(line@));
        }
        i += 1;
    }
    assert(all.take(i as int) == all);
    let ghost last = line_texts(open@);
    let ghost old_closed = group_views(closed@);
    closed.push(open);
    assert(group_views(closed@) =~= old_closed.push(last));
    closed
}

/// A copy of a group of lines.
pub fn copy_group<'a>(group: &Vec<&'a str>) -> (r: Vec<&'a str>)
    ensures
        r@ == group@,
{
    let mut r: Vec<&'a str> = Vec::new();
    let mut i: usize = 0;
    while i < group.len()
        invariant
            i <= group.len(),
            r@ == group@.take(i as int),
        decreases group.len() - i,
    {
        r.push(group[i]);
        assert(group@.take(i as int).push(group@[i as int]) == group@.take(i + 1));
        i += 1;
    }
    assert(group@.take(i as int) == group@);
    r
}

/// Group `k`, or no lines if there is no such group.
pub fn take_group<'a>(all: &Vec<Vec<&'a str>>, k: usize) -> (r: Vec<&'a str>)
    ensures
        line_texts(r@) == group_at(group_views(all@), k as int),
{
    if k < all.len() {
        copy_group(&all[k])
    } else {
        let r: Vec<&'a str> = Vec::new();
        assert(line_texts(r@) =~= Seq::empty());
        r
    }
}

/// Appends the lines of a group, each as it is or as a line that was not
/// expected.
pub fn push_group(r: &mut Vec<FileLine>, group: &Vec<&str>, expected: bool)
    ensures
        line_models(final(r)@) == line_models(old(r)@) + if expected {
            raw_lines(line_texts(group@))
        } else {
            unexpected_lines(line_texts(group@))
        },
{
    let ghost all = line_texts(group@);
    let ghost shown = if expected {
        raw_lines(all)
    } else {
        unexpected_lines(all)
    };
    let mut i: usize = 0;
    assert(line_models(r@) =~= line_models(old(r)@) + shown.take(0));
    while i < group.len()
        invariant
            i <= group.len(),
            all == line_texts(group@),
            shown == if expected {
                raw_lines(all)
            } else {
                unexpected_lines(all)
            },
            line_models(r@) == line_models(old(r)@) + shown.take(i as int),
        decreases group.len() - i,
    {
        let ghost before = line_models(r@);
        let text = string_of(&chars_of(group[i]));
        let line = if expected {
            FileLine::Raw(text)
        } else {
            FileLine::UnexpectedLine(text)
        };
        let ghost model = line@;
        r.push(line);
        assert(line_models(r@) =~= before.push(model));
        assert(shown.take(i + 1) =~= shown.take(i as int).push(model));
        assert(line_models(r@) =~= line_models(old(r)@) + shown.take(i + 1));
        i += 1;
    }
    assert(shown.take(i as int) =~= shown);
}

/// Appends the lines of the groups from `from` on.
pub fn push_rest(r: &mut Vec<FileLine>, all: &Vec<Vec<&str>>, from: usize, expected: bool)
    ensures
        line_models(final(r)@) == line_models(old(r)@) + rest_shown(
            group_views(all@),
            from as int,
            expected,
        ),
    decreases all@.len() - from,
{
    if from >= all.len() {
        assert(line_models(r@) =~= line_models(old(r)@) + Seq::<FileLineModel>::empty());
        return ;
    }
    assert(group_views(all@)[from as int] == line_texts(all@[from as int]@));
    push_group(r, &all[from], expected);
    let ghost middle = line_models(r@);
    push_rest(r, all, from + 1, expected);
    assert(line_models(r@) =~= line_models(old(r)@) + rest_shown(
        group_views(all@),
        from as int,
        expected,
    ));
}

/// Appends lines to lines.
pub fn push_lines(r: &mut Vec<FileLine>, more: Vec<FileLine>)
    ensures
        line_models(final(r)@) == line_models(old(r)@) + line_models(more@),
{
    let mut more = more;
    let ghost added = more@;
    r.append(&mut more);
    assert(line_models(r@) =~= line_models(old(r)@) + line_models(added));
}

/// Reads the sections of a file of the given kind for showing them.
pub fn parse_sections(
    kind: FileType,
    all: &Vec<Vec<&str>>,
    lib_data: &Library,
    references: &NameIndex,
) -> (r: (Vec<FileLine>, IndentInfo))
    ensures
        line_models(r.0@) == sections_shown(
            kind,
            group_views(all@),
            rules(lib_data.syntaxes@),
            references@,
        ),
        r.1 == file_indents(kind, group_views(all@)),
{
    let mut lines: Vec<FileLine> = Vec::new();
    let mut info = IndentInfo {
        line_number_indent: 0,
        used_hypotheses_indent: 0,
        theorem_reference_indent: 0,
    };
    let ghost groups = group_views(all@);
    let ghost table = rules(lib_data.syntaxes@);
    assert(line_models(lines@) =~= Seq::empty());
    match kind {
        FileType::SyntaxDefinitionFormula => {
            let (shown, declared) = parse_syntax_section(take_group(all, 1), SyntaxType::Formula);
            push_lines(&mut lines, shown);
            push_lines(&mut lines, parse_definition_section(take_group(all, 2), lib_data, declared));
            push_rest(&mut lines, all, 3, false);
        },
        FileType::SyntaxDefinitionObject => {
            let (shown, declared) = parse_syntax_section(take_group(all, 1), SyntaxType::Object);
            push_lines(&mut lines, shown);
            push_lines(&mut lines, parse_definition_section(take_group(all, 2), lib_data, declared));
            push_rest(&mut lines, all, 3, false);
        },
        FileType::Axiom => {
            push_lines(&mut lines, parse_assertion_section(take_group(all, 1), lib_data));
            push_lines(&mut lines, parse_assertion_section(take_group(all, 2), lib_data));
            push_rest(&mut lines, all, 3, false);
        },
        FileType::Theorem => {
            push_lines(&mut lines, parse_hypotesis_section(take_group(all, 1), lib_data));
            push_lines(&mut lines, parse_assertion_section(take_group(all, 2), lib_data));
            if all.len() > 3 {
                let (shown, indents) = parse_proof_section(take_group(all, 3), lib_data, references);
                assert(groups[3] == line_texts(all@[3]@));
                push_lines(&mut lines, shown);
                info = indents;
            } else {
                assert(proof_section_shown(group_at(groups, 3), table, references@)
                    =~= Seq::empty());
                assert(line_models(lines@) =~= line_models(lines@) + Seq::<FileLineModel>::empty());
            }
            push_rest(&mut lines, all, 4, false);
        },
        FileType::Unknown => {
            push_rest(&mut lines, all, 1, true);
        },
    }
    (lines, info)
}

/// The lines as strings.
pub fn strings_of(all: &Vec<Vec<char>>, from: usize) -> (r: Vec<String>)
    requires
        from <= all@.len(),
    ensures
        string_views(r@) == rows(all@).skip(from as int),
{
    let mut r: Vec<String> = Vec::new();
    let mut i: usize = from;
    while i < all.len()
        invariant
            from <= i <= all@.len(),
            r@.len() == i - from,
            forall|j: int| 0 <= j < i - from ==> (#[trigger] r@[j])@ == all@[from + j]@,
        decreases all@.len() - i,
    {
        r.push(string_of(&all[i]));
        i += 1;
    }
    assert(string_views(r@) =~= rows(all@).skip(from as int));
    r
}

/// Reads a source file for showing it, from its text: the lines as shown,
/// and the widths of the columns of its proof.
pub fn parse_file(contents: &str, lib_data: &Library, references: &NameIndex) -> (r: (
    Vec<FileLine>,
    IndentInfo,
))
    ensures
        (line_models(r.0@), r.1) == file_shown(contents@, rules(lib_data.syntaxes@), references@),
{
    let all = split_lines(&chars_of(contents));
    let first = if all.len() > 0 {
        Some(string_of(&all[0]))
    } else {
        None
    };
    let (title, kind) = parse_title(
        match &first {
            Some(line) => Some(line.as_str()),
            None => None,
        },
    );
    let body = strings_of(
        &all,
        if all.len() > 0 {
            1
        } else {
            0
        },
    );
    assert(rows(all@).skip(0) == rows(all@));
    let grouped = group_lines(&body);
    let mut lines: Vec<FileLine> = Vec::new();
    let ghost shown_title = title@;
    lines.push(title);
    assert(line_models(lines@) =~= seq![shown_title]);
    assert(group_views(grouped@)[0] == line_texts(grouped@[0]@));
    push_group(&mut lines, &grouped[0], true);
    let (sections, info) = parse_sections(kind, &grouped, lib_data, references);
    push_lines(&mut lines, sections);
    (lines, info)
}

} // verus!
