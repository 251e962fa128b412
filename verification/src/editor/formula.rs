//! Formulas as the editor shows them: each character with the colour of what
//! it was found to belong to.

use vstd::prelude::*;
use crate::compiling::math_file::{declared_rule, rule_of_line};
use crate::compiling::types::{rules, Library, Placeholder, Syntax, SyntaxModel, SyntaxType};
use crate::editor::types::{Color, ColoredModel, ColoredString};
use crate::parsing::formula::{
    atoms_of, lex, OBJECT_FIRST, OBJECT_LAST, REPETITION, WFF_FIRST, WFF_LAST,
};
use crate::text::{
    chars_of, is_space, is_whitespace, leading_spaces, same_chars, slice_of, trailing_spaces, trim,
    trimmed,
};

verus! {

/// The colour in which a character of a syntax line is shown: a space in no
/// colour, the repetition marker in black, a letter that stands for an object
/// in red, a letter that stands for a formula in blue, and any other
/// character in white.
pub open spec fn syntax_color(c: char) -> Color {
    let n = c as u32;
    if c == ' ' {
        Color::Normal
    } else if n == REPETITION {
        Color::Black
    } else if OBJECT_FIRST <= n <= OBJECT_LAST {
        Color::Red
    } else if WFF_FIRST <= n <= WFF_LAST {
        Color::Blue
    } else {
        Color::White
    }
}

/// The colour in which a character of a syntax line is shown.
pub fn color_of_syntax_char(c: char) -> (r: Color)
    ensures
        r == syntax_color(c),
{
    let n: u32 = c as u32;
    if c == ' ' {
        Color::Normal
    } else if n == REPETITION {
        Color::Black
    } else if OBJECT_FIRST <= n && n <= OBJECT_LAST {
        Color::Red
    } else if WFF_FIRST <= n && n <= WFF_LAST {
        Color::Blue
    } else {
        Color::White
    }
}

/// A syntax line as shown: each character in the colour of what it is.
pub open spec fn syntax_line_shown(line: Seq<char>) -> ColoredModel {
    ColoredModel { characters: line, colors: line.map_values(|c: char| syntax_color(c)) }
}

/// Reads the syntax line of a syntax definition for showing it: the line with
/// its colours, and the rule that it declares. An empty line declares no
/// rule.
pub fn parse_new_syntax(line: &str, syntax_type: SyntaxType) -> (r: (ColoredString, Option<Syntax>))
    ensures
        r.0@ == syntax_line_shown(line@),
        match r.1 {
            Some(rule) => line@.len() > 0 && rule@ == declared_rule(syntax_type, atoms_of(line@))
                && rule.well_formed(),
            None => line@.len() == 0,
        },
{
    let characters = chars_of(line);
    let mut colors: Vec<Color> = Vec::new();
    let mut i: usize = 0;
    while i < characters.len()
        invariant
            i <= characters.len(),
            colors@.len() == i,
            forall|j: int| 0 <= j < i ==> colors@[j] == syntax_color(characters@[j]),
        decreases characters.len() - i,
    {
        colors.push(color_of_syntax_char(characters[i]));
        i += 1;
    }
    assert(colors@ =~= line@.map_values(|c: char| syntax_color(c)));
    if characters.len() == 0 {
        return (ColoredString { characters, colors }, None);
    }
    let rule = rule_of_line(syntax_type, &lex(&characters));
    (ColoredString { characters, colors }, Some(rule))
}

/// A text in one colour.
pub fn monochromatic(characters: Vec<char>, color: Color) -> (r: ColoredString)
    ensures
        r@ == ColoredModel::plain(characters@, color),
{
    let mut colors: Vec<Color> = Vec::new();
    let mut i: usize = 0;
    while i < characters.len()
        invariant
            i <= characters.len(),
            colors@.len() == i,
            forall|j: int| 0 <= j < i ==> colors@[j] == color,
        decreases characters.len() - i,
    {
        colors.push(color);
        i += 1;
    }
    assert(colors@ =~= Seq::new(characters@.len(), |i: int| color));
    ColoredString { characters, colors }
}

/// A line in one colour.
pub fn monochromatic_formula(line: &str, color: Color) -> (r: ColoredString)
    ensures
        r@ == ColoredModel::plain(line@, color),
{
    monochromatic(chars_of(line), color)
}

/// A part of a formula that is being coloured: a character that belongs to
/// nothing yet, a space, or a formula or an object that has been recognised,
/// with its characters and their colours.
pub enum Part {
    Raw(char),
    Space,
    Formula(ColoredModel),
    Object(ColoredModel),
}

/// A part of a formula that is being coloured.
#[derive(Debug, PartialEq)]
#[allow(inconsistent_fields)]
pub enum ColoredPart {
    NotCompiled(char),
    Space,
    CompiledFormula { characters: Vec<char>, colors: Vec<Color> },
    CompiledObject { characters: Vec<char>, colors: Vec<Color> },
}

impl View for ColoredPart {
    type V = Part;

    open spec fn view(&self) -> Part {
        match self {
            ColoredPart::NotCompiled(c) => Part::Raw(*c),
            ColoredPart::Space => Part::Space,
            ColoredPart::CompiledFormula { characters, colors } => Part::Formula(
                ColoredModel { characters: characters@, colors: colors@ },
            ),
            ColoredPart::CompiledObject { characters, colors } => Part::Object(
                ColoredModel { characters: characters@, colors: colors@ },
            ),
        }
    }
}

/// The models of the parts.
pub open spec fn part_views(v: Seq<ColoredPart>) -> Seq<Part> {
    v.map_values(|p: ColoredPart| p@)
}

/// The part that a character is at first: a space, an object in red for a
/// letter that stands for an object, a formula in blue for a letter that
/// stands for a formula, and the character itself otherwise. The repetition
/// marker is no part.
pub open spec fn part_of(c: char) -> Option<Part> {
    let n = c as u32;
    if n == REPETITION {
        None
    } else if c == ' ' {
        Some(Part::Space)
    } else if OBJECT_FIRST <= n <= OBJECT_LAST {
        Some(Part::Object(ColoredModel::plain(seq![c], Color::Red)))
    } else if WFF_FIRST <= n <= WFF_LAST {
        Some(Part::Formula(ColoredModel::plain(seq![c], Color::Blue)))
    } else {
        Some(Part::Raw(c))
    }
}

/// The parts that a text is at first, one for each character; nothing if the
/// repetition marker stands in it.
pub open spec fn parts_of(text: Seq<char>) -> Option<Seq<Part>> {
    if forall|i: int| 0 <= i < text.len() ==> part_of(#[trigger] text[i]) is Some {
        Some(text.map_values(|c: char| part_of(c)->0))
    } else {
        None
    }
}

/// One character with its colour, as a text of its own.
pub fn single(c: char, color: Color) -> (r: (Vec<char>, Vec<Color>))
    ensures
        (ColoredModel { characters: r.0@, colors: r.1@ }) == ColoredModel::plain(seq![c], color),
{
    let mut characters: Vec<char> = Vec::new();
    characters.push(c);
    let mut colors: Vec<Color> = Vec::new();
    colors.push(color);
    assert(colors@ =~= Seq::new(1, |k: int| color));
    assert(characters@ =~= seq![c]);
    (characters, colors)
}

/// The part that a character is at first.
pub fn first_part(c: char) -> (r: Option<ColoredPart>)
    ensures
        match r {
            Some(part) => part_of(c) == Some(part@),
            None => part_of(c) is None,
        },
{
    let n: u32 = c as u32;
    if n == REPETITION {
        None
    } else if c == ' ' {
        Some(ColoredPart::Space)
    } else if OBJECT_FIRST <= n && n <= OBJECT_LAST {
        let (characters, colors) = single(c, Color::Red);
        Some(ColoredPart::CompiledObject { characters, colors })
    } else if WFF_FIRST <= n && n <= WFF_LAST {
        let (characters, colors) = single(c, Color::Blue);
        Some(ColoredPart::CompiledFormula { characters, colors })
    } else {
        Some(ColoredPart::NotCompiled(c))
    }
}

/// Splits a text into its first parts.
pub fn first_parts(text: &Vec<char>) -> (r: Option<Vec<ColoredPart>>)
    ensures
        match r {
            Some(parts) => parts_of(text@) == Some(part_views(parts@)),
            None => parts_of(text@) is None,
        },
{
    let mut parts: Vec<ColoredPart> = Vec::new();
    let mut i: usize = 0;
    while i < text.len()
        invariant
            i <= text.len(),
            parts@.len() == i,
            forall|j: int| 0 <= j < i ==> part_of(text@[j]) == Some((#[trigger] parts@[j])@),
        decreases text.len() - i,
    {
        match first_part(text[i]) {
            Some(part) => {
                parts.push(part);
            },
            None => {
                assert(part_of(text@[i as int]) is None);
                return None;
            },
        }
        i += 1;
    }
    assert forall|j: int| 0 <= j < text@.len() implies part_of(#[trigger] text@[j]) is Some by {
        assert(part_of(text@[j]) == Some(parts@[j]@));
    }
    assert(text@.map_values(|c: char| part_of(c)->0) =~= part_views(parts@));
    Some(parts)
}

/// The colour in which the characters of a rule's own are shown: white for
/// the rule that the file itself declares; otherwise green for a formula rule
/// without slots and cyan for one with slots, yellow for an object rule
/// without slots and magenta for one with slots.
pub open spec fn rule_color(rule: SyntaxModel, is_new: bool) -> Color {
    if is_new {
        Color::White
    } else if rule.syntax_type == SyntaxType::Formula {
        if rule.distinct_wff_count == 0 && rule.distinct_object_count == 0 {
            Color::Green
        } else {
            Color::Cyan
        }
    } else {
        if rule.distinct_wff_count == 0 && rule.distinct_object_count == 0 {
            Color::Yellow
        } else {
            Color::Magenta
        }
    }
}

/// The colour in which the characters of a rule's own are shown.
pub fn color_of_rule(rule: &Syntax, is_new: bool) -> (r: Color)
    ensures
        r == rule_color(rule@, is_new),
{
    let plain = rule.distinct_wff_count == 0 && rule.distinct_object_count == 0;
    if is_new {
        Color::White
    } else {
        match rule.syntax_type {
            SyntaxType::Formula => if plain {
                Color::Green
            } else {
                Color::Cyan
            },
            SyntaxType::Object => if plain {
                Color::Yellow
            } else {
                Color::Magenta
            },
        }
    }
}

/// A match in progress: the characters taken so far with their colours, the
/// characters bound to each slot, and the number of parts taken.
pub struct Matching {
    pub text: ColoredModel,
    pub formulas: Seq<Option<Seq<char>>>,
    pub objects: Seq<Option<Seq<char>>>,
    pub taken: nat,
}

impl Matching {
    /// The match before anything is taken.
    pub open spec fn start(rule: SyntaxModel) -> Matching {
        Matching {
            text: ColoredModel::empty(),
            formulas: Seq::new(rule.distinct_wff_count as nat, |i: int| None),
            objects: Seq::new(rule.distinct_object_count as nat, |i: int| None),
            taken: 0,
        }
    }

    /// The match with one more part taken, whose characters are `more`.
    pub open spec fn take(self, more: ColoredModel) -> Matching {
        Matching { text: self.text.join(more), taken: self.taken + 1, ..self }
    }
}

/// What taking a part for a pattern element makes of a match; nothing if the
/// part cannot stand for the element. A character stands for itself and is
/// shown in the colour of the rule. A formula stands in a formula slot and an
/// object in an object slot; a slot met again must be met with the same
/// characters.
pub open spec fn pair(m: Matching, part: Part, p: Placeholder, color: Color) -> Option<Matching> {
    match (part, p) {
        (Part::Raw(c1), Placeholder::LiteralChar(c2)) => if c1 == c2 {
            Some(m.take(ColoredModel::plain(seq![c1], color)))
        } else {
            None
        },
        (Part::Formula(t), Placeholder::WellFormedFormula(n)) => if n < m.formulas.len() {
            match m.formulas[n as int] {
                None => Some(
                    Matching { formulas: m.formulas.update(n as int, Some(t.characters)), ..m.take(t) },
                ),
                Some(bound) => if bound == t.characters {
                    Some(m.take(t))
                } else {
                    None
                },
            }
        } else {
            None
        },
        (Part::Object(t), Placeholder::Object(n)) => if n < m.objects.len() {
            match m.objects[n as int] {
                None => Some(
                    Matching { objects: m.objects.update(n as int, Some(t.characters)), ..m.take(t) },
                ),
                Some(bound) => if bound == t.characters {
                    Some(m.take(t))
                } else {
                    None
                },
            }
        } else {
            None
        },
        _ => None,
    }
}

/// How matching a rule at a place ends.
pub enum Outcome {
    Matched(Matching),
    Mismatch,
    OutOfParts,
}

/// Matching the pattern from its element `k` on, the parts from `at` on
/// having been taken as far as the match says. Spaces before an element are
/// taken with it, in no colour.
pub open spec fn match_from(
    parts: Seq<Part>,
    at: int,
    rule: SyntaxModel,
    color: Color,
    k: int,
    m: Matching,
) -> Outcome
    decreases rule.formula.len() - k, parts.len() - (at + m.taken),
{
    let i = at + m.taken;
    if k < 0 || k >= rule.formula.len() {
        Outcome::Matched(m)
    } else if i < 0 || i >= parts.len() {
        Outcome::OutOfParts
    } else if parts[i] is Space {
        match_from(parts, at, rule, color, k, m.take(ColoredModel::plain(seq![' '], Color::Normal)))
    } else {
        match pair(m, parts[i], rule.formula[k], color) {
            None => Outcome::Mismatch,
            Some(next) => match_from(parts, at, rule, color, k + 1, next),
        }
    }
}

/// The first place at or after `index` from which the rule matches, with the
/// match. A place that holds a space is passed over. The search ends where
/// the pattern is longer than what is left, and where a match runs out of
/// parts.
pub open spec fn find_from(parts: Seq<Part>, rule: SyntaxModel, color: Color, index: int) -> Option<
    (int, Matching),
>
    decreases parts.len() - index,
{
    if index < 0 || index >= parts.len() || parts.len() - index < rule.formula.len() {
        None
    } else if parts[index] is Space {
        find_from(parts, rule, color, index + 1)
    } else {
        match match_from(parts, index, rule, color, 0, Matching::start(rule)) {
            Outcome::Matched(m) => Some((index, m)),
            Outcome::Mismatch => find_from(parts, rule, color, index + 1),
            Outcome::OutOfParts => None,
        }
    }
}

/// The first rule from `r` on that matches somewhere, with its first place
/// and the match. The first rule of the table is shown as new if `has_new`.
pub open spec fn find_rule_from(parts: Seq<Part>, table: Seq<SyntaxModel>, has_new: bool, r: int) -> Option<
    (int, int, Matching),
>
    decreases table.len() - r,
{
    if r < 0 || r >= table.len() {
        None
    } else {
        match find_from(parts, table[r], rule_color(table[r], has_new && r == 0), 0) {
            Some((at, m)) => Some((r, at, m)),
            None => find_rule_from(parts, table, has_new, r + 1),
        }
    }
}

/// The part that a rule makes of a match.
pub open spec fn made(kind: SyntaxType, m: Matching) -> Part {
    match kind {
        SyntaxType::Formula => Part::Formula(m.text),
        SyntaxType::Object => Part::Object(m.text),
    }
}

/// The parts after a rule has replaced its match at `at` by the part it
/// makes.
pub open spec fn replaced(parts: Seq<Part>, at: int, kind: SyntaxType, m: Matching) -> Seq<Part> {
    parts.take(at).push(made(kind, m)) + parts.skip(at + m.taken)
}

/// A measure that every step lowers: a character that belongs to nothing
/// counts two, any other part one.
pub open spec fn part_weight(parts: Seq<Part>) -> nat
    decreases parts.len(),
{
    if parts.len() == 0 {
        0
    } else {
        part_weight(parts.drop_last()) + if parts.last() is Raw {
            2nat
        } else {
            1nat
        }
    }
}

/// The step makes progress: it takes two parts or more, or it takes a
/// character that belonged to nothing.
pub open spec fn advances(parts: Seq<Part>, at: int, m: Matching) -> bool {
    0 <= at && at + m.taken <= parts.len() && (m.taken >= 2 || (m.taken == 1 && parts[at] is Raw))
}

/// The parts when no step applies any more, or nothing if a rule matches
/// without making progress. While more than one part is left, the first rule
/// that matches somewhere replaces its first match.
pub open spec fn colored_parts(parts: Seq<Part>, table: Seq<SyntaxModel>, has_new: bool) -> Option<
    Seq<Part>,
>
    decreases part_weight(parts),
{
    if parts.len() <= 1 {
        Some(parts)
    } else {
        match find_rule_from(parts, table, has_new, 0) {
            None => Some(parts),
            Some((r, at, m)) => {
                if 0 <= r < table.len() && advances(parts, at, m) {
                    proof {
                        lemma_replaced_weighs_less(parts, at, table[r].syntax_type, m);
                    }
                    colored_parts(replaced(parts, at, table[r].syntax_type, m), table, has_new)
                } else {
                    None
                }
            },
        }
    }
}

/// The weight of two runs of parts joined is the sum of their weights.
pub proof fn lemma_part_weight_joined(a: Seq<Part>, b: Seq<Part>)
    ensures
        part_weight(a + b) == part_weight(a) + part_weight(b),
    decreases b.len(),
{
    if b.len() == 0 {
        assert(a + b == a);
        assert(part_weight(b) == 0);
    } else {
        assert((a + b).drop_last() == a + b.drop_last());
        assert((a + b).last() == b.last());
        lemma_part_weight_joined(a, b.drop_last());
        assert(part_weight(a + b) == part_weight((a + b).drop_last()) + if (a + b).last() is Raw {
            2nat
        } else {
            1nat
        });
        assert(part_weight(b) == part_weight(b.drop_last()) + if b.last() is Raw {
            2nat
        } else {
            1nat
        });
    }
}

/// Every part weighs at least one, and a run that starts with a character
/// that belongs to nothing weighs more than its length.
pub proof fn lemma_part_weight_bounds(w: Seq<Part>)
    ensures
        part_weight(w) >= w.len(),
        w.len() > 0 && w[0] is Raw ==> part_weight(w) > w.len(),
    decreases w.len(),
{
    if w.len() == 0 {
        assert(part_weight(w) == 0);
    } else {
        lemma_part_weight_bounds(w.drop_last());
        assert(part_weight(w) == part_weight(w.drop_last()) + if w.last() is Raw {
            2nat
        } else {
            1nat
        });
        if w.len() > 1 {
            assert(w.drop_last()[0] == w[0]);
        }
    }
}

/// A step that makes progress lowers the weight.
pub proof fn lemma_replaced_weighs_less(parts: Seq<Part>, at: int, kind: SyntaxType, m: Matching)
    requires
        advances(parts, at, m),
    ensures
        part_weight(replaced(parts, at, kind, m)) < part_weight(parts),
{
    let n = m.taken as int;
    let head = parts.take(at);
    let mid = parts.subrange(at, at + n);
    let tail = parts.skip(at + n);
    let node = seq![made(kind, m)];
    assert(parts =~= head + mid + tail);
    assert(replaced(parts, at, kind, m) =~= head + node + tail);
    lemma_part_weight_joined(head, mid);
    lemma_part_weight_joined(head + mid, tail);
    lemma_part_weight_joined(head, node);
    lemma_part_weight_joined(head + node, tail);
    assert(node.drop_last() =~= Seq::<Part>::empty());
    assert(part_weight(node.drop_last()) == 0);
    assert(part_weight(node) == part_weight(node.drop_last()) + if node.last() is Raw {
        2nat
    } else {
        1nat
    });
    lemma_part_weight_bounds(mid);
    if n == 1 {
        assert(mid[0] == parts[at]);
    }
}

/// How many bytes a character takes in UTF-8.
pub open spec fn byte_width(c: char) -> nat {
    let n = c as u32;
    if n < 0x80 {
        1
    } else if n < 0x800 {
        2
    } else if n < 0x10000 {
        3
    } else {
        4
    }
}

/// How many bytes a text takes in UTF-8.
pub open spec fn byte_length(s: Seq<char>) -> nat
    decreases s.len(),
{
    if s.len() == 0 {
        0
    } else {
        byte_length(s.drop_last()) + byte_width(s.last())
    }
}

/// As many spaces as there are bytes in the text, in no colour.
pub open spec fn padding(s: Seq<char>) -> ColoredModel {
    ColoredModel::plain(Seq::new(byte_length(s), |i: int| ' '), Color::Normal)
}

/// A formula as shown. The white space at the two ends of the line is set
/// aside, and what is between is split into parts and coloured rule by rule.
/// If one formula is left, the line is shown as that formula with its
/// colours, between as many spaces in no colour as the white space at either
/// end took bytes. Otherwise the whole line is shown in red: when the
/// repetition marker stands in it, when a rule matches without making
/// progress, and when what is left is not one formula.
pub open spec fn formula_shown(line: Seq<char>, table: Seq<SyntaxModel>, has_new: bool) -> ColoredModel {
    let lead = line.take(leading_spaces(line) as int);
    let trail = line.skip(line.len() - trailing_spaces(line));
    match parts_of(trim(line)) {
        None => ColoredModel::plain(line, Color::Red),
        Some(parts) => match colored_parts(parts, table, has_new) {
            Some(left) => if left.len() == 1 && left[0] is Formula {
                padding(lead).join(left[0]->Formula_0).join(padding(trail))
            } else {
                ColoredModel::plain(line, Color::Red)
            },
            None => ColoredModel::plain(line, Color::Red),
        },
    }
}

/// What a slot is bound to, as the matcher holds it.
pub open spec fn bound_view(b: Option<Vec<char>>) -> Option<Seq<char>> {
    match b {
        Some(v) => Some(v@),
        None => None,
    }
}

/// What the slots are bound to, as the matcher holds it.
pub open spec fn bound_views(v: Seq<Option<Vec<char>>>) -> Seq<Option<Seq<char>>> {
    v.map_values(|b: Option<Vec<char>>| bound_view(b))
}

/// A match in progress, as the matcher holds it.
pub struct MatchState {
    pub characters: Vec<char>,
    pub colors: Vec<Color>,
    pub formulas: Vec<Option<Vec<char>>>,
    pub objects: Vec<Option<Vec<char>>>,
    pub taken: usize,
}

impl View for MatchState {
    type V = Matching;

    open spec fn view(&self) -> Matching {
        Matching {
            text: ColoredModel { characters: self.characters@, colors: self.colors@ },
            formulas: bound_views(self.formulas@),
            objects: bound_views(self.objects@),
            taken: self.taken as nat,
        }
    }
}

/// How matching a rule at a place ends, as the matcher holds it.
pub enum MatchOutcome {
    Matched(MatchState),
    Mismatch,
    OutOfParts,
}

impl View for MatchOutcome {
    type V = Outcome;

    open spec fn view(&self) -> Outcome {
        match self {
            MatchOutcome::Matched(m) => Outcome::Matched(m@),
            MatchOutcome::Mismatch => Outcome::Mismatch,
            MatchOutcome::OutOfParts => Outcome::OutOfParts,
        }
    }
}

/// A run of slots of which none is bound.
pub fn unbound_slots(n: usize) -> (r: Vec<Option<Vec<char>>>)
    ensures
        bound_views(r@) == Seq::new(n as nat, |i: int| None::<Seq<char>>),
{
    let mut r: Vec<Option<Vec<char>>> = Vec::new();
    let mut i: usize = 0;
    while i < n
        invariant
            i <= n,
            r@.len() == i,
            forall|j: int| 0 <= j < i ==> (#[trigger] r@[j]) is None,
        decreases n - i,
    {
        r.push(None);
        i += 1;
    }
    assert(bound_views(r@) =~= Seq::new(n as nat, |i: int| None::<Seq<char>>));
    r
}

/// The match before anything is taken.
pub fn start_match(rule: &Syntax) -> (m: MatchState)
    ensures
        m@ == Matching::start(rule@),
{
    MatchState {
        characters: Vec::new(),
        colors: Vec::new(),
        formulas: unbound_slots(rule.distinct_wff_count),
        objects: unbound_slots(rule.distinct_object_count),
        taken: 0,
    }
}

/// Takes one more part into the match, with the given characters and
/// colours.
pub fn take_part(m: &mut MatchState, characters: &Vec<char>, colors: &Vec<Color>)
    requires
        old(m).taken < usize::MAX,
    ensures
        final(m)@ == old(m)@.take(ColoredModel { characters: characters@, colors: colors@ }),
        final(m).formulas == old(m).formulas,
        final(m).objects == old(m).objects,
{
    let mut i: usize = 0;
    while i < characters.len()
        invariant
            i <= characters.len(),
            m.characters@ == old(m).characters@ + characters@.take(i as int),
            m.colors == old(m).colors,
            m.formulas == old(m).formulas,
            m.objects == old(m).objects,
            m.taken == old(m).taken,
        decreases characters.len() - i,
    {
        m.characters.push(characters[i]);
        assert(characters@.take(i as int).push(characters@[i as int]) == characters@.take(i + 1));
        i += 1;
    }
    assert(characters@.take(i as int) == characters@);
    let mut i: usize = 0;
    while i < colors.len()
        invariant
            i <= colors.len(),
            m.characters@ == old(m).characters@ + characters@,
            m.colors@ == old(m).colors@ + colors@.take(i as int),
            m.formulas == old(m).formulas,
            m.objects == old(m).objects,
            m.taken == old(m).taken,
        decreases colors.len() - i,
    {
        m.colors.push(colors[i]);
        assert(colors@.take(i as int).push(colors@[i as int]) == colors@.take(i + 1));
        i += 1;
    }
    assert(colors@.take(i as int) == colors@);
    m.taken = m.taken + 1;
}

/// A copy of a run of characters.
pub fn copy_chars(v: &Vec<char>) -> (r: Vec<char>)
    ensures
        r@ == v@,
{
    let r = slice_of(v, 0, v.len());
    assert(v@.subrange(0, v@.len() as int) == v@);
    r
}

/// Takes a part for a slot: binds the slot if it is not bound, and checks
/// the characters against those bound to it if it is. Where the part does
/// not fit, the slots stay as they are.
pub fn take_for_slot(
    slots: &mut Vec<Option<Vec<char>>>,
    n: usize,
    characters: &Vec<char>,
) -> (fits: bool)
    ensures
        final(slots)@.len() == old(slots)@.len(),
        fits == (n < old(slots)@.len() && (bound_views(old(slots)@)[n as int] matches Some(bound)
            ==> bound == characters@)),
        bound_views(final(slots)@) == if fits && bound_views(old(slots)@)[n as int] is None {
            bound_views(old(slots)@).update(n as int, Some(characters@))
        } else {
            bound_views(old(slots)@)
        },
{
    if n >= slots.len() {
        return false;
    }
    let known = match &slots[n] {
        Some(bound) => Some(same_chars(bound, characters)),
        None => None,
    };
    match known {
        Some(same) => same,
        None => {
            slots.set(n, Some(copy_chars(characters)));
            assert(bound_views(slots@) =~= bound_views(old(slots)@).update(
                n as int,
                Some(characters@),
            ));
            true
        },
    }
}

/// Takes a part for a pattern element, if the part can stand for it.
pub fn pair_part(m: MatchState, part: &ColoredPart, p: Placeholder, color: Color) -> (r: Option<
    MatchState,
>)
    requires
        m.taken < usize::MAX,
    ensures
        match r {
            Some(next) => pair(m@, part@, p, color) == Some(next@) && next.taken == m.taken + 1,
            None => pair(m@, part@, p, color) is None,
        },
{
    let mut m = m;
    let ghost before = m@;
    match (part, p) {
        (ColoredPart::NotCompiled(c1), Placeholder::LiteralChar(c2)) => {
            if *c1 == c2 {
                let (characters, colors) = single(*c1, color);
                take_part(&mut m, &characters, &colors);
                Some(m)
            } else {
                None
            }
        },
        (ColoredPart::CompiledFormula { characters, colors }, Placeholder::WellFormedFormula(n)) => {
            if take_for_slot(&mut m.formulas, n, characters) {
                take_part(&mut m, characters, colors);
                assert(m@.formulas == if before.formulas[n as int] is None {
                    before.formulas.update(n as int, Some(characters@))
                } else {
                    before.formulas
                });
                Some(m)
            } else {
                None
            }
        },
        (ColoredPart::CompiledObject { characters, colors }, Placeholder::Object(n)) => {
            if take_for_slot(&mut m.objects, n, characters) {
                take_part(&mut m, characters, colors);
                assert(m@.objects == if before.objects[n as int] is None {
                    before.objects.update(n as int, Some(characters@))
                } else {
                    before.objects
                });
                Some(m)
            } else {
                None
            }
        },
        _ => None,
    }
}

/// Matches the pattern from its element `k` on.
pub fn match_parts(
    parts: &Vec<ColoredPart>,
    at: usize,
    rule: &Syntax,
    color: Color,
    k: usize,
    m: MatchState,
) -> (r: MatchOutcome)
    requires
        at + m.taken <= parts@.len(),
    ensures
        r@ == match_from(part_views(parts@), at as int, rule@, color, k as int, m@),
        r matches MatchOutcome::Matched(done) ==> at + done.taken <= parts@.len(),
    decreases rule.formula@.len() - k, parts@.len() - (at + m.taken),
{
    let total = parts.len();
    let i = at + m.taken;
    if k >= rule.formula.len() {
        MatchOutcome::Matched(m)
    } else if i >= total {
        MatchOutcome::OutOfParts
    } else {
        assert(part_views(parts@)[i as int] == parts@[i as int]@);
        match &parts[i] {
            ColoredPart::Space => {
                let mut m = m;
                let (characters, colors) = single(' ', Color::Normal);
                take_part(&mut m, &characters, &colors);
                match_parts(parts, at, rule, color, k, m)
            },
            part => {
                match pair_part(m, part, rule.formula[k], color) {
                    None => MatchOutcome::Mismatch,
                    Some(next) => match_parts(parts, at, rule, color, k + 1, next),
                }
            },
        }
    }
}

/// Finds the first place at or after `index` from which the rule matches.
pub fn find_match(parts: &Vec<ColoredPart>, rule: &Syntax, color: Color, index: usize) -> (r: Option<
    (usize, MatchState),
>)
    ensures
        match r {
            Some((at, m)) => find_from(part_views(parts@), rule@, color, index as int) == Some(
                (at as int, m@),
            ) && at + m.taken <= parts@.len() && at < parts@.len(),
            None => find_from(part_views(parts@), rule@, color, index as int) is None,
        },
    decreases parts@.len() - index,
{
    let total = parts.len();
    if index >= total || total - index < rule.formula.len() {
        return None;
    }
    assert(part_views(parts@)[index as int] == parts@[index as int]@);
    let is_space = match &parts[index] {
        ColoredPart::Space => true,
        _ => false,
    };
    if is_space {
        return find_match(parts, rule, color, index + 1);
    }
    match match_parts(parts, index, rule, color, 0, start_match(rule)) {
        MatchOutcome::Matched(m) => Some((index, m)),
        MatchOutcome::Mismatch => find_match(parts, rule, color, index + 1),
        MatchOutcome::OutOfParts => None,
    }
}

/// Finds the first rule from `r` on that matches somewhere.
pub fn find_colored_rule(parts: &Vec<ColoredPart>, table: &Vec<&Syntax>, has_new: bool, r: usize) -> (
found: Option<(usize, usize, MatchState)>)
    ensures
        match found {
            Some((rule, at, m)) => find_rule_from(
                part_views(parts@),
                table_views(table@),
                has_new,
                r as int,
            ) == Some((rule as int, at as int, m@)) && rule < table@.len() && at + m.taken
                <= parts@.len() && at < parts@.len(),
            None => find_rule_from(part_views(parts@), table_views(table@), has_new, r as int)
                is None,
        },
    decreases table@.len() - r,
{
    if r >= table.len() {
        return None;
    }
    assert(table_views(table@)[r as int] == table@[r as int]@);
    let color = color_of_rule(table[r], has_new && r == 0);
    match find_match(parts, table[r], color, 0) {
        Some((at, m)) => Some((r, at, m)),
        None => find_colored_rule(parts, table, has_new, r + 1),
    }
}

/// The models of the rules of a table held by reference.
pub open spec fn table_views(table: Seq<&Syntax>) -> Seq<SyntaxModel> {
    table.map_values(|s: &Syntax| s@)
}

/// Colours the parts rule by rule until no step applies; nothing if a rule
/// matches without making progress.
pub fn color_parts(parts: Vec<ColoredPart>, table: &Vec<&Syntax>, has_new: bool) -> (r: Option<
    Vec<ColoredPart>,
>)
    ensures
        match r {
            Some(left) => colored_parts(part_views(parts@), table_views(table@), has_new) == Some(
                part_views(left@),
            ),
            None => colored_parts(part_views(parts@), table_views(table@), has_new) is None,
        },
{
    let mut w = parts;
    while w.len() > 1
        invariant
            colored_parts(part_views(w@), table_views(table@), has_new) == colored_parts(
                part_views(parts@),
                table_views(table@),
                has_new,
            ),
        decreases part_weight(part_views(w@)),
    {
        let ghost ws = part_views(w@);
        match find_colored_rule(&w, table, has_new, 0) {
            None => {
                return Some(w);
            },
            Some((r, at, m)) => {
                assert(ws[at as int] == w@[at as int]@);
                let first_is_raw = match &w[at] {
                    ColoredPart::NotCompiled(_) => true,
                    _ => false,
                };
                if !(m.taken >= 2 || (m.taken == 1 && first_is_raw)) {
                    return None;
                }
                let ghost model = m@;
                let ghost kind = table_views(table@)[r as int].syntax_type;
                assert(kind == table@[r as int].syntax_type);
                proof {
                    lemma_replaced_weighs_less(ws, at as int, kind, model);
                }
                let taken = m.taken;
                let part = match table[r].syntax_type {
                    SyntaxType::Formula => ColoredPart::CompiledFormula {
                        characters: m.characters,
                        colors: m.colors,
                    },
                    SyntaxType::Object => ColoredPart::CompiledObject {
                        characters: m.characters,
                        colors: m.colors,
                    },
                };
                assert(part@ == made(kind, model));
                let mut tail = w.split_off(at + taken);
                w.truncate(at);
                let ghost head = w@;
                w.push(part);
                let ghost with_part = w@;
                w.append(&mut tail);
                assert(part_views(w@) =~= replaced(ws, at as int, kind, model)) by {
                    assert(part_views(head) =~= ws.take(at as int));
                    assert(part_views(with_part) =~= ws.take(at as int).push(part@));
                }
            },
        }
    }
    Some(w)
}

/// How many bytes a character takes in UTF-8.
pub fn width_of(c: char) -> (n: usize)
    ensures
        n == byte_width(c),
{
    let code: u32 = c as u32;
    if code < 0x80 {
        1
    } else if code < 0x800 {
        2
    } else if code < 0x10000 {
        3
    } else {
        4
    }
}

/// Appends to the text as many spaces in no colour as the characters from
/// `from` up to `to` take bytes.
pub fn push_padding(r: &mut ColoredString, v: &Vec<char>, from: usize, to: usize)
    requires
        from <= to <= v@.len(),
    ensures
        final(r)@ == old(r)@.join(padding(v@.subrange(from as int, to as int))),
{
    let ghost s = v@.subrange(from as int, to as int);
    let mut i: usize = from;
    assert(byte_length(s.take(0)) == 0);
    assert(r@.characters =~= old(r)@.join(padding(s.take(0))).characters);
    assert(r@.colors =~= old(r)@.join(padding(s.take(0))).colors);
    while i < to
        invariant
            from <= i <= to <= v@.len(),
            s == v@.subrange(from as int, to as int),
            r@ == old(r)@.join(padding(s.take(i - from))),
        decreases to - i,
    {
        let n = width_of(v[i]);
        let ghost before = r@;
        let ghost next = s.take(i - from + 1);
        proof {
            assert(next.drop_last() == s.take(i - from));
            assert(next.last() == v@[i as int]);
            assert(byte_length(next) == byte_length(next.drop_last()) + byte_width(next.last()));
        }
        let mut k: usize = 0;
        while k < n
            invariant
                k <= n,
                r@.characters == before.characters + Seq::new(k as nat, |j: int| ' '),
                r@.colors == before.colors + Seq::new(k as nat, |j: int| Color::Normal),
            decreases n - k,
        {
            r.characters.push(' ');
            r.colors.push(Color::Normal);
            assert(r@.characters =~= before.characters + Seq::new((k + 1) as nat, |j: int| ' '));
            assert(r@.colors =~= before.colors + Seq::new((k + 1) as nat, |j: int| Color::Normal));
            k += 1;
        }
        assert(r@.characters =~= old(r)@.join(padding(next)).characters);
        assert(r@.colors =~= old(r)@.join(padding(next)).colors);
        i += 1;
    }
    assert(s.take(to - from) == s);
}

/// Colours a formula for showing it. The rules are those of the library,
/// preceded by the rule that the file itself declares, if it declares one.
pub fn parse_formula(line: &str, lib_data: &Library, additional_syntax: Option<Syntax>) -> (r:
    ColoredString)
    ensures
        r@ == formula_shown(
            line@,
            match additional_syntax {
                Some(rule) => seq![rule@] + rules(lib_data.syntaxes@),
                None => rules(lib_data.syntaxes@),
            },
            additional_syntax is Some,
        ),
{
    let all = chars_of(line);
    let inner = trimmed(&all);
    let parts = match first_parts(&inner) {
        Some(parts) => parts,
        None => {
            return monochromatic(all, Color::Red);
        },
    };
    let has_new = additional_syntax.is_some();
    let mut table: Vec<&Syntax> = Vec::new();
    match &additional_syntax {
        Some(rule) => {
            table.push(rule);
        },
        None => {},
    }
    let ghost first = table_views(table@);
    let mut i: usize = 0;
    assert(table_views(table@) =~= first + rules(lib_data.syntaxes@).take(0));
    while i < lib_data.syntaxes.len()
        invariant
            i <= lib_data.syntaxes.len(),
            table_views(table@) == first + rules(lib_data.syntaxes@).take(i as int),
        decreases lib_data.syntaxes.len() - i,
    {
        let ghost before = table_views(table@);
        table.push(&lib_data.syntaxes[i]);
        assert(table_views(table@) =~= before.push(lib_data.syntaxes@[i as int]@));
        assert(rules(lib_data.syntaxes@).take(i + 1) =~= rules(lib_data.syntaxes@).take(i as int).push(
            lib_data.syntaxes@[i as int]@,
        ));
        assert(table_views(table@) =~= first + rules(lib_data.syntaxes@).take(i + 1));
        i += 1;
    }
    assert(rules(lib_data.syntaxes@).take(i as int) == rules(lib_data.syntaxes@));
    assert(first =~= match additional_syntax {
        Some(rule) => seq![rule@],
        None => Seq::empty(),
    });
    assert(table_views(table@) =~= match additional_syntax {
        Some(rule) => seq![rule@] + rules(lib_data.syntaxes@),
        None => rules(lib_data.syntaxes@),
    });
    let mut left = match color_parts(parts, &table, has_new) {
        Some(left) => left,
        None => {
            return monochromatic(all, Color::Red);
        },
    };
    if left.len() != 1 {
        return monochromatic(all, Color::Red);
    }
    let ghost only = left@[0]@;
    assert(part_views(left@)[0] == only);
    match left.pop() {
        Some(ColoredPart::CompiledFormula { characters, colors }) => {
            let lead = leading_count(&all);
            let trail = trailing_count(&all);
            let mut r = ColoredString { characters: Vec::new(), colors: Vec::new() };
            push_padding(&mut r, &all, 0, lead);
            let ghost padded = r@;
            let mut characters = characters;
            let mut colors = colors;
            r.characters.append(&mut characters);
            r.colors.append(&mut colors);
            assert(r@.characters =~= padded.join(only->Formula_0).characters);
            assert(r@.colors =~= padded.join(only->Formula_0).colors);
            push_padding(&mut r, &all, all.len() - trail, all.len());
            proof {
                assert(all@.subrange(0, lead as int) == all@.take(lead as int));
                assert(all@.subrange(all@.len() - trail, all@.len() as int) == all@.skip(
                    all@.len() - trail,
                ));
                assert(padded.characters =~= padding(all@.take(lead as int)).characters);
                assert(padded.colors =~= padding(all@.take(lead as int)).colors);
            }
            r
        },
        _ => monochromatic(all, Color::Red),
    }
}

/// How many white-space characters the text starts with.
pub fn leading_count(v: &Vec<char>) -> (n: usize)
    ensures
        n == leading_spaces(v@),
        n <= v@.len(),
{
    let mut a: usize = 0;
    while a < v.len() && is_whitespace(v[a])
        invariant
            a <= v.len(),
            forall|j: int| 0 <= j < a ==> is_space(#[trigger] v@[j]),
        decreases v.len() - a,
    {
        a += 1;
    }
    proof {
        crate::text::lemma_leading_spaces(v@, a as int);
    }
    a
}

/// How many white-space characters the text ends with.
pub fn trailing_count(v: &Vec<char>) -> (n: usize)
    ensures
        n == trailing_spaces(v@),
        n <= v@.len(),
{
    let total = v.len();
    let mut n: usize = 0;
    while n < total && is_whitespace(v[total - n - 1])
        invariant
            total == v@.len(),
            n <= total,
            forall|j: int| total - n <= j < total ==> is_space(#[trigger] v@[j]),
        decreases total - n,
    {
        n += 1;
    }
    proof {
        crate::text::lemma_trailing_spaces(v@, n as int);
    }
    n
}

} // verus!
