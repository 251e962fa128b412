//! The sections of a source file as the editor shows them.

use vstd::prelude::*;
use crate::compiling::math_file::declared_rule;
use crate::compiling::types::{lookup, rules, Library, NameIndex, Reference, Syntax, SyntaxModel, SyntaxType};
use crate::editor::formula::{
    byte_length, formula_shown, parse_formula, parse_new_syntax, syntax_line_shown, width_of,
};
use crate::editor::types::{
    line_models, FileLine, FileLineModel, IndentInfo,
    ProvenState,
};
use crate::parsing::formula::atoms_of;
use crate::text::{
    chars_of, find_char, first_index, is_text, rows, slice_of, split, split_at_char, string_of,
    texts, trim, trimmed,
};

verus! {

/// What each of the lines holds.
pub open spec fn line_texts(section: Seq<&str>) -> Seq<Seq<char>> {
    section.map_values(|l: &str| l@)
}

/// The heading of a section as shown: it is valid if it is one of the two
/// given spellings.
pub open spec fn heading_shown(name: Seq<char>, first: Seq<char>, second: Seq<char>) -> FileLineModel {
    FileLineModel::Section { name, is_valid: name == first || name == second }
}

/// Reads the heading of a section.
pub fn read_heading_line(name: &str, first: &str, second: &str) -> (r: FileLine)
    ensures
        r@ == heading_shown(name@, first@, second@),
{
    let text = chars_of(name);
    let is_valid = is_text(&text, first) || is_text(&text, second);
    FileLine::Section { name: string_of(&text), is_valid }
}

/// The lines from `from` on as lines that were not expected.
pub open spec fn unexpected_from(section: Seq<Seq<char>>, from: int) -> Seq<FileLineModel> {
    section.skip(from).map_values(|l: Seq<char>| FileLineModel::UnexpectedLine(l))
}

/// Appends the lines from `from` on as lines that were not expected.
pub fn push_unexpected(r: &mut Vec<FileLine>, section: &Vec<&str>, from: usize)
    requires
        from <= section@.len(),
    ensures
        line_models(final(r)@) == line_models(old(r)@) + unexpected_from(
            line_texts(section@),
            from as int,
        ),
{
    let ghost all = line_texts(section@);
    let mut i: usize = from;
    assert(line_models(r@) =~= line_models(old(r)@) + unexpected_from(all, from as int).take(0));
    while i < section.len()
        invariant
            from <= i <= section@.len(),
            all == line_texts(section@),
            line_models(r@) == line_models(old(r)@) + unexpected_from(all, from as int).take(
                i - from,
            ),
        decreases section@.len() - i,
    {
        let ghost before = line_models(r@);
        r.push(FileLine::UnexpectedLine(string_of(&chars_of(section[i]))));
        assert(line_models(r@) =~= before.push(FileLineModel::UnexpectedLine(section@[i as int]@)));
        assert(unexpected_from(all, from as int).take(i - from + 1) =~= unexpected_from(
            all,
            from as int,
        ).take(i - from).push(FileLineModel::UnexpectedLine(section@[i as int]@)));
        assert(line_models(r@) =~= line_models(old(r)@) + unexpected_from(all, from as int).take(
            i - from + 1,
        ));
        i += 1;
    }
    assert(unexpected_from(all, from as int).take(i - from) =~= unexpected_from(all, from as int));
}

/// The syntax section as shown: its heading, its syntax line with its
/// colours, and every further line as not expected.
pub open spec fn syntax_section_shown(section: Seq<Seq<char>>) -> Seq<FileLineModel> {
    if section.len() == 0 {
        Seq::empty()
    } else if section.len() == 1 {
        seq![heading_shown(section[0], "# Syntax"@, "# Syntax"@)]
    } else {
        seq![
            heading_shown(section[0], "# Syntax"@, "# Syntax"@),
            FileLineModel::Assertion {
                assertion: syntax_line_shown(section[1]),
                is_proven: ProvenState::NoState,
            },
        ] + unexpected_from(section, 2)
    }
}

/// The rule that the syntax section declares: the rule of its syntax line,
/// if it has one and the line is not empty.
pub open spec fn syntax_section_rule(section: Seq<Seq<char>>, kind: SyntaxType) -> Option<
    SyntaxModel,
> {
    if section.len() >= 2 && section[1].len() > 0 {
        Some(declared_rule(kind, atoms_of(section[1])))
    } else {
        None
    }
}

/// Reads the syntax section of a syntax definition for showing it.
pub fn parse_syntax_section(section: Vec<&str>, syntax_type: SyntaxType) -> (r: (
    Vec<FileLine>,
    Option<Syntax>,
))
    ensures
        line_models(r.0@) == syntax_section_shown(line_texts(section@)),
        match r.1 {
            Some(rule) => syntax_section_rule(line_texts(section@), syntax_type) == Some(rule@),
            None => syntax_section_rule(line_texts(section@), syntax_type) is None,
        },
{
    let mut lines: Vec<FileLine> = Vec::new();
    if section.len() == 0 {
        assert(line_models(lines@) =~= Seq::empty());
        return (lines, None);
    }
    let heading = read_heading_line(section[0], "# Syntax", "# Syntax");
    let ghost first = heading@;
    lines.push(heading);
    if section.len() == 1 {
        assert(line_models(lines@) =~= seq![first]);
        return (lines, None);
    }
    let (assertion, syntax) = parse_new_syntax(section[1], syntax_type);
    let shown = FileLine::Assertion { assertion, is_proven: ProvenState::NoState };
    let ghost second = shown@;
    lines.push(shown);
    assert(line_models(lines@) =~= seq![first, second]);
    push_unexpected(&mut lines, &section, 2);
    (lines, syntax)
}

/// The definition section as shown: its heading, its definition line with
/// its colours, and every further line as not expected.
pub open spec fn definition_section_shown(
    section: Seq<Seq<char>>,
    table: Seq<SyntaxModel>,
    has_new: bool,
) -> Seq<FileLineModel> {
    if section.len() == 0 {
        Seq::empty()
    } else if section.len() == 1 {
        seq![heading_shown(section[0], "# Definition"@, "# Definition"@)]
    } else {
        seq![
            heading_shown(section[0], "# Definition"@, "# Definition"@),
            FileLineModel::Assertion {
                assertion: formula_shown(section[1], table, has_new),
                is_proven: ProvenState::NoState,
            },
        ] + unexpected_from(section, 2)
    }
}

/// The rules under which the lines of a file are coloured: those of the
/// library, preceded by the rule that the file itself declares, if it
/// declares one.
pub open spec fn table_with(new_syntax: Option<Syntax>, lib_data: Library) -> Seq<SyntaxModel> {
    match new_syntax {
        Some(rule) => seq![rule@] + rules(lib_data.syntaxes@),
        None => rules(lib_data.syntaxes@),
    }
}

/// Reads the definition section of a syntax definition for showing it.
pub fn parse_definition_section(section: Vec<&str>, lib_data: &Library, new_syntax: Option<Syntax>) -> (r:
    Vec<FileLine>)
    ensures
        line_models(r@) == definition_section_shown(
            line_texts(section@),
            table_with(new_syntax, *lib_data),
            new_syntax is Some,
        ),
{
    let mut lines: Vec<FileLine> = Vec::new();
    if section.len() == 0 {
        assert(line_models(lines@) =~= Seq::empty());
        return lines;
    }
    let heading = read_heading_line(section[0], "# Definition", "# Definition");
    let ghost first = heading@;
    lines.push(heading);
    if section.len() == 1 {
        assert(line_models(lines@) =~= seq![first]);
        return lines;
    }
    let assertion = parse_formula(section[1], lib_data, new_syntax);
    let shown = FileLine::Assertion { assertion, is_proven: ProvenState::NoState };
    let ghost second = shown@;
    lines.push(shown);
    assert(line_models(lines@) =~= seq![first, second]);
    push_unexpected(&mut lines, &section, 2);
    lines
}

/// A line of the hypotheses as shown: what stands before the first colon
/// names the hypothesis, and what follows it is its formula; a line without a
/// colon was not expected.
pub open spec fn hypothesis_shown(line: Seq<char>, table: Seq<SyntaxModel>) -> FileLineModel {
    let n = first_index(line, ':');
    if 0 <= n < line.len() {
        FileLineModel::Hypothesis {
            name: line.take(n),
            hypot: formula_shown(line.skip(n + 1), table, false),
        }
    } else {
        FileLineModel::UnexpectedLine(line)
    }
}

/// The hypotheses as shown: the heading, then each line.
pub open spec fn hypothesis_section_shown(section: Seq<Seq<char>>, table: Seq<SyntaxModel>) -> Seq<
    FileLineModel,
> {
    if section.len() == 0 {
        Seq::empty()
    } else {
        seq![heading_shown(section[0], "# Hypothesis"@, "# Hypotheses"@)] + section.skip(
            1,
        ).map_values(|l: Seq<char>| hypothesis_shown(l, table))
    }
}

/// Reads one line of the hypotheses for showing it.
pub fn read_hypothesis(line: &str, lib_data: &Library) -> (r: FileLine)
    ensures
        r@ == hypothesis_shown(line@, rules(lib_data.syntaxes@)),
{
    let text = chars_of(line);
    let n = find_char(&text, 0, ':');
    assert(text@.skip(0) == text@);
    if n == text.len() {
        return FileLine::UnexpectedLine(string_of(&text));
    }
    let name = string_of(&slice_of(&text, 0, n));
    let rest = string_of(&slice_of(&text, n + 1, text.len()));
    assert(text@.subrange(0, n as int) == text@.take(n as int));
    assert(text@.subrange(n + 1, text@.len() as int) == text@.skip(n + 1));
    FileLine::Hypothesis { name, hypot: parse_formula(rest.as_str(), lib_data, None) }
}

/// Reads the hypotheses of a theorem for showing them.
pub fn parse_hypotesis_section(section: Vec<&str>, lib_data: &Library) -> (r: Vec<FileLine>)
    ensures
        line_models(r@) == hypothesis_section_shown(line_texts(section@), rules(lib_data.syntaxes@)),
{
    let mut lines: Vec<FileLine> = Vec::new();
    if section.len() == 0 {
        assert(line_models(lines@) =~= Seq::empty());
        return lines;
    }
    let ghost all = line_texts(section@);
    let ghost table = rules(lib_data.syntaxes@);
    lines.push(read_heading_line(section[0], "# Hypothesis", "# Hypotheses"));
    let mut i: usize = 1;
    while i < section.len()
        invariant
            1 <= i <= section@.len(),
            all == line_texts(section@),
            table == rules(lib_data.syntaxes@),
            lines@.len() == i,
            lines@[0]@ == heading_shown(all[0], "# Hypothesis"@, "# Hypotheses"@),
            forall|j: int| 1 <= j < i ==> (#[trigger] lines@[j])@ == hypothesis_shown(all[j], table),
        decreases section@.len() - i,
    {
        lines.push(read_hypothesis(section[i], lib_data));
        i += 1;
    }
    assert(line_models(lines@) =~= hypothesis_section_shown(all, table));
    lines
}

/// The assertions as shown: the heading, then each line with its colours, as
/// not proven.
pub open spec fn assertion_section_shown(section: Seq<Seq<char>>, table: Seq<SyntaxModel>) -> Seq<
    FileLineModel,
> {
    if section.len() == 0 {
        Seq::empty()
    } else {
        seq![heading_shown(section[0], "# Assertion"@, "# Assertions"@)] + section.skip(1).map_values(
            |l: Seq<char>|
                FileLineModel::Assertion {
                    assertion: formula_shown(l, table, false),
                    is_proven: ProvenState::NotProven,
                },
        )
    }
}

/// Reads the assertions of an axiom or of a theorem for showing them.
pub fn parse_assertion_section(section: Vec<&str>, lib_data: &Library) -> (r: Vec<FileLine>)
    ensures
        line_models(r@) == assertion_section_shown(line_texts(section@), rules(lib_data.syntaxes@)),
{
    let mut lines: Vec<FileLine> = Vec::new();
    if section.len() == 0 {
        assert(line_models(lines@) =~= Seq::empty());
        return lines;
    }
    let ghost all = line_texts(section@);
    let ghost table = rules(lib_data.syntaxes@);
    lines.push(read_heading_line(section[0], "# Assertion", "# Assertions"));
    let mut i: usize = 1;
    while i < section.len()
        invariant
            1 <= i <= section@.len(),
            all == line_texts(section@),
            table == rules(lib_data.syntaxes@),
            lines@.len() == i,
            lines@[0]@ == heading_shown(all[0], "# Assertion"@, "# Assertions"@),
            forall|j: int|
                1 <= j < i ==> (#[trigger] lines@[j])@ == (FileLineModel::Assertion {
                    assertion: formula_shown(all[j], table, false),
                    is_proven: ProvenState::NotProven,
                }),
        decreases section@.len() - i,
    {
        lines.push(
            FileLine::Assertion {
                assertion: parse_formula(section[i], lib_data, None),
                is_proven: ProvenState::NotProven,
            },
        );
        i += 1;
    }
    assert(line_models(lines@) =~= assertion_section_shown(all, table));
    lines
}

/// The four parts of a proof line as shown: what the first three semicolons
/// part, each trimmed; a part that the line lacks is empty.
pub open spec fn shown_parts(line: Seq<char>) -> (Seq<char>, Seq<char>, Seq<char>, Seq<char>) {
    let a = first_index(line, ';');
    let s1 = line.skip(a + 1);
    let b = first_index(s1, ';');
    let s2 = s1.skip(b + 1);
    let c = first_index(s2, ';');
    if !(0 <= a < line.len()) {
        (trim(line), Seq::empty(), Seq::empty(), Seq::empty())
    } else if !(0 <= b < s1.len()) {
        (trim(line.take(a)), trim(s1), Seq::empty(), Seq::empty())
    } else if !(0 <= c < s2.len()) {
        (trim(line.take(a)), trim(s1.take(b)), trim(s2), Seq::empty())
    } else {
        (trim(line.take(a)), trim(s1.take(b)), trim(s2.take(c)), trim(s2.skip(c + 1)))
    }
}

/// The part of a line from `from` up to the next semicolon or the end,
/// trimmed, and the place where it ends.
pub fn trimmed_part(line: &Vec<char>, from: usize) -> (r: (Vec<char>, usize))
    requires
        from <= line@.len(),
    ensures
        from <= r.1 <= line@.len(),
        r.1 - from == first_index(line@.skip(from as int), ';'),
        r.0@ == trim(line@.skip(from as int).take(r.1 - from)),
{
    let end = find_char(line, from, ';');
    assert(line@.subrange(from as int, end as int) =~= line@.skip(from as int).take(end - from));
    (trimmed(&slice_of(line, from, end)), end)
}

/// Splits a proof line into its four parts.
pub fn split_proof_line(line: &Vec<char>) -> (r: (Vec<char>, Vec<char>, Vec<char>, Vec<char>))
    ensures
        (r.0@, r.1@, r.2@, r.3@) == shown_parts(line@),
{
    let total = line.len();
    assert(line@.skip(0) =~= line@);
    let (first, a) = trimmed_part(line, 0);
    if a == total {
        assert(line@.take(total as int) =~= line@);
        return (first, Vec::new(), Vec::new(), Vec::new());
    }
    let ghost s1 = line@.skip(a + 1);
    let (second, b) = trimmed_part(line, a + 1);
    if b == total {
        assert(s1.take(b - (a + 1)) =~= s1);
        return (first, second, Vec::new(), Vec::new());
    }
    let ghost s2 = s1.skip(b - (a + 1) + 1);
    assert(s2 =~= line@.skip(b + 1));
    let (third, c) = trimmed_part(line, b + 1);
    if c == total {
        assert(s2.take(c - (b + 1)) =~= s2);
        return (first, second, third, Vec::new());
    }
    assert(line@.subrange(c + 1, total as int) =~= s2.skip(c - (b + 1) + 1));
    (first, second, third, trimmed(&slice_of(line, c + 1, total)))
}

/// A number of any size as the machine holds it: itself, or the largest
/// number that the machine holds.
pub open spec fn clip(n: nat) -> usize {
    if n <= usize::MAX {
        n as usize
    } else {
        usize::MAX
    }
}

/// How many bytes a text takes in UTF-8, as the machine holds it.
pub fn byte_count(v: &Vec<char>) -> (n: usize)
    ensures
        n == clip(byte_length(v@)),
{
    let mut n: usize = 0;
    let mut i: usize = 0;
    assert(byte_length(v@.take(0)) == 0);
    while i < v.len()
        invariant
            i <= v.len(),
            n == clip(byte_length(v@.take(i as int))),
        decreases v.len() - i,
    {
        let ghost next = v@.take(i + 1);
        assert(next.drop_last() == v@.take(i as int));
        assert(next.last() == v@[i as int]);
        assert(byte_length(next) == byte_length(next.drop_last()) + crate::editor::formula::byte_width(
            next.last(),
        ));
        n = n.saturating_add(width_of(v[i]));
        i += 1;
    }
    assert(v@.take(i as int) == v@);
    n
}

/// The width of a column that must hold `len` bytes, `current` being its
/// width so far: the column is widened only if it must be, and then to the
/// next width that is `offset` more than a multiple of four.
pub open spec fn widened(current: usize, len: usize, offset: usize) -> usize {
    if len > current && len >= offset {
        let r = (len - offset) % 4;
        if r == 0 {
            len
        } else {
            clip((len + (4 - r)) as nat)
        }
    } else {
        current
    }
}

/// Widens a column if it must be.
pub fn widen(current: usize, len: usize, offset: usize) -> (r: usize)
    ensures
        r == widened(current, len, offset),
{
    if len > current && len >= offset {
        let r = (len - offset) % 4;
        if r == 0 {
            len
        } else {
            len.saturating_add(4 - r)
        }
    } else {
        current
    }
}

/// The used steps of a proof line as shown: what the commas part, each
/// trimmed.
pub open spec fn used_shown(part: Seq<char>) -> Seq<Seq<char>> {
    split(part, ',').map_values(|u: Seq<char>| trim(u))
}

/// How many bytes the used steps take when shown with a comma and a space
/// between them.
pub open spec fn used_length(used: Seq<Seq<char>>) -> nat
    decreases used.len(),
{
    if used.len() == 0 {
        0
    } else if used.len() == 1 {
        byte_length(used[0])
    } else {
        used_length(used.drop_last()) + 2 + byte_length(used.last())
    }
}

/// Reads the used steps of a proof line, and counts the bytes they take when
/// shown.
pub fn read_used(part: &Vec<char>) -> (r: (Vec<String>, usize))
    ensures
        texts(r.0@) == used_shown(part@),
        r.1 == clip(used_length(used_shown(part@))),
{
    let pieces = split_at_char(part, ',');
    let ghost all = used_shown(part@);
    let mut used: Vec<String> = Vec::new();
    let mut length: usize = 0;
    let mut i: usize = 0;
    assert(used_length(all.take(0)) == 0);
    while i < pieces.len()
        invariant
            i <= pieces.len(),
            rows(pieces@) == split(part@, ','),
            all == used_shown(part@),
            used@.len() == i,
            forall|j: int| 0 <= j < i ==> (#[trigger] used@[j])@ == all[j],
            length == clip(used_length(all.take(i as int))),
        decreases pieces.len() - i,
    {
        let piece = trimmed(&pieces[i]);
        assert(piece@ == all[i as int]) by {
            assert(rows(pieces@)[i as int] == pieces@[i as int]@);
        }
        let bytes = byte_count(&piece);
        proof {
            let next = all.take(i + 1);
            assert(next.drop_last() == all.take(i as int));
            assert(next.last() == all[i as int]);
            if i > 0 {
                assert(used_length(next) == used_length(next.drop_last()) + 2 + byte_length(
                    next.last(),
                ));
            } else {
                assert(next[0] == all[0]);
                assert(used_length(next) == byte_length(next[0]));
            }
        }
        if i > 0 {
            length = length.saturating_add(2);
        }
        length = length.saturating_add(bytes);
        used.push(string_of(&piece));
        i += 1;
    }
    assert(all.take(i as int) == all);
    assert(texts(used@) =~= all);
    (used, length)
}

/// A proof line as shown.
pub open spec fn proof_line_shown(
    line: Seq<char>,
    line_index: usize,
    table: Seq<SyntaxModel>,
    index: Seq<(Seq<char>, Reference)>,
) -> FileLineModel {
    let parts = shown_parts(line);
    FileLineModel::ProofLine {
        line_no: parts.0,
        line_index,
        used_hypots: used_shown(parts.1),
        theo_ref: parts.2,
        theo_ref_exists: lookup(index, parts.2) is Some,
        formula: formula_shown(parts.3, table, false),
    }
}

/// The widths of the columns after one more proof line.
pub open spec fn indent_after(info: IndentInfo, line: Seq<char>) -> IndentInfo {
    let parts = shown_parts(line);
    IndentInfo {
        line_number_indent: widened(info.line_number_indent, clip(byte_length(parts.0)), 0),
        used_hypotheses_indent: widened(
            info.used_hypotheses_indent,
            clip(used_length(used_shown(parts.1))),
            2,
        ),
        theorem_reference_indent: widened(
            info.theorem_reference_indent,
            clip(byte_length(parts.2)),
            2,
        ),
    }
}

/// The widths of the columns of a proof: at least four for the line numbers
/// and two for each of the other two columns, and otherwise what the lines
/// ask for, one after the other.
pub open spec fn indents_of(lines: Seq<Seq<char>>) -> IndentInfo
    decreases lines.len(),
{
    if lines.len() == 0 {
        IndentInfo { line_number_indent: 4, used_hypotheses_indent: 2, theorem_reference_indent: 2 }
    } else {
        indent_after(indents_of(lines.drop_last()), lines.last())
    }
}

/// The proof as shown: the heading, then each line, numbered from 1.
pub open spec fn proof_section_shown(
    section: Seq<Seq<char>>,
    table: Seq<SyntaxModel>,
    index: Seq<(Seq<char>, Reference)>,
) -> Seq<FileLineModel> {
    if section.len() == 0 {
        Seq::empty()
    } else {
        seq![heading_shown(section[0], "# Proof"@, "# Proof"@)] + Seq::new(
            (section.len() - 1) as nat,
            |j: int| proof_line_shown(section[j + 1], (j + 1) as usize, table, index),
        )
    }
}

/// The widths of the columns of the proof section: what the lines below the
/// heading ask for.
pub open spec fn proof_indents(section: Seq<Seq<char>>) -> IndentInfo {
    if section.len() == 0 {
        indents_of(Seq::empty())
    } else {
        indents_of(section.skip(1))
    }
}

/// Reads one line of a proof for showing it, and widens the columns for it.
pub fn read_shown_proof_line(
    line: &str,
    line_index: usize,
    lib_data: &Library,
    references: &NameIndex,
    info: IndentInfo,
) -> (r: (FileLine, IndentInfo))
    ensures
        r.0@ == proof_line_shown(line@, line_index, rules(lib_data.syntaxes@), references@),
        r.1 == indent_after(info, line@),
{
    let (line_no, used_part, theo_ref, formula) = split_proof_line(&chars_of(line));
    let (used_hypots, used_bytes) = read_used(&used_part);
    let new_info = IndentInfo {
        line_number_indent: widen(info.line_number_indent, byte_count(&line_no), 0),
        used_hypotheses_indent: widen(info.used_hypotheses_indent, used_bytes, 2),
        theorem_reference_indent: widen(info.theorem_reference_indent, byte_count(&theo_ref), 2),
    };
    let theo_ref_exists = references.find(&theo_ref).is_some();
    let shown = FileLine::ProofLine {
        line_no: string_of(&line_no),
        line_index,
        used_hypots,
        theo_ref: string_of(&theo_ref),
        theo_ref_exists,
        formula: parse_formula(string_of(&formula).as_str(), lib_data, None),
    };
    (shown, new_info)
}

/// Reads the proof of a theorem for showing it, and finds the widths of its
/// columns.
pub fn parse_proof_section(section: Vec<&str>, lib_data: &Library, references: &NameIndex) -> (r: (
    Vec<FileLine>,
    IndentInfo,
))
    ensures
        line_models(r.0@) == proof_section_shown(
            line_texts(section@),
            rules(lib_data.syntaxes@),
            references@,
        ),
        r.1 == proof_indents(line_texts(section@)),
{
    let mut info = IndentInfo {
        line_number_indent: 4,
        used_hypotheses_indent: 2,
        theorem_reference_indent: 2,
    };
    let mut lines: Vec<FileLine> = Vec::new();
    let ghost all = line_texts(section@);
    if section.len() == 0 {
        assert(line_models(lines@) =~= Seq::empty());
        return (lines, info);
    }
    let ghost body = all.skip(1);
    let ghost table = rules(lib_data.syntaxes@);
    lines.push(read_heading_line(section[0], "# Proof", "# Proof"));
    let mut i: usize = 1;
    assert(body.take(0) =~= Seq::empty());
    while i < section.len()
        invariant
            1 <= i <= section@.len(),
            all == line_texts(section@),
            body == all.skip(1),
            table == rules(lib_data.syntaxes@),
            lines@.len() == i,
            lines@[0]@ == heading_shown(all[0], "# Proof"@, "# Proof"@),
            forall|j: int|
                1 <= j < i ==> (#[trigger] lines@[j])@ == proof_line_shown(
                    all[j],
                    j as usize,
                    table,
                    references@,
                ),
            info == indents_of(body.take(i - 1)),
        decreases section@.len() - i,
    {
        proof {
            let next = body.take(i as int);
            assert(next.drop_last() == body.take(i - 1));
            assert(next.last() == all[i as int]);
            assert(indents_of(next) == indent_after(indents_of(next.drop_last()), next.last()));
        }
        let (shown, new_info) = read_shown_proof_line(section[i], i, lib_data, references, info);
        lines.push(shown);
        info = new_info;
        i += 1;
    }
    assert(body.take(i - 1) == body);
    assert(line_models(lines@) =~= proof_section_shown(all, table, references@));
    (lines, info)
}

} // verus!
