use math_lib::compiling::types::{Library, NameIndex, Placeholder, Reference, Syntax, SyntaxType};
use math_lib::editor::display::{colored_string_display, display_file, display_menu};
use math_lib::editor::event_handling::{
    get_len_of_file_line, handle_event_in_file_edition, handle_event_in_menu, open_file, Action,
    EditorData, EditorState, Event, Key, Modifier,
};
use math_lib::editor::formula::{monochromatic_formula, parse_formula, parse_new_syntax};
use math_lib::editor::graphics::{get_file, get_menu, FileGraphics, MenuGraphics, MenuLine};
use math_lib::editor::parser::{parse_file, parse_title};
use math_lib::editor::sections::{
    parse_assertion_section, parse_definition_section, parse_hypotesis_section,
    parse_proof_section, parse_syntax_section,
};
use math_lib::editor::types::{Color, ColoredString, FileLine, FileType, IndentInfo, ProvenState};

fn colored(text: &str, colors: Vec<Color>) -> ColoredString {
    ColoredString { characters: text.chars().collect(), colors }
}

fn rule(kind: SyntaxType, text: &str) -> Syntax {
    parse_new_syntax(text, kind).1.unwrap()
}

fn library() -> Library {
    Library {
        syntaxes: vec![
            rule(SyntaxType::Formula, "T"),
            rule(SyntaxType::Formula, "(\u{1D6FC}>\u{1D6FD})"),
            rule(SyntaxType::Object, "0"),
            rule(SyntaxType::Object, "s\u{1D44E}"),
            rule(SyntaxType::Formula, "\u{1D44E}=\u{1D44E}"),
        ],
        definitions: vec![],
        axioms: vec![],
        theorems: vec![],
    }
}

#[test]
fn syntax_line_with_colours() {
    let (shown, syntax) = parse_new_syntax("\u{1D6FC} +\u{1D44E}\u{2026}", SyntaxType::Object);
    assert_eq!(
        shown,
        colored(
            "\u{1D6FC} +\u{1D44E}\u{2026}",
            vec![Color::Blue, Color::Normal, Color::White, Color::Red, Color::Black]
        )
    );
    assert_eq!(
        syntax,
        Some(Syntax {
            syntax_type: SyntaxType::Object,
            formula: vec![
                Placeholder::WellFormedFormula(0),
                Placeholder::LiteralChar('+'),
                Placeholder::Object(0),
                Placeholder::Repetition,
            ],
            distinct_wff_count: 1,
            distinct_object_count: 1,
        })
    );
    assert_eq!(parse_new_syntax("", SyntaxType::Formula), (colored("", vec![]), None));
}

#[test]
fn one_colour() {
    assert_eq!(
        monochromatic_formula("ab", Color::Green),
        colored("ab", vec![Color::Green, Color::Green])
    );
}

#[test]
fn formula_with_colours() {
    let lib = library();
    assert_eq!(
        parse_formula(" (\u{1D6FC} > T) ", &lib, None),
        colored(
            " (\u{1D6FC} > T) ",
            vec![
                Color::Normal,
                Color::Cyan,
                Color::Blue,
                Color::Normal,
                Color::Cyan,
                Color::Normal,
                Color::Green,
                Color::Cyan,
                Color::Normal
            ]
        )
    );
    assert_eq!(
        parse_formula("s0=s0", &lib, None),
        colored(
            "s0=s0",
            vec![Color::Magenta, Color::Yellow, Color::Cyan, Color::Magenta, Color::Yellow]
        )
    );
    assert_eq!(parse_formula("s0=0", &lib, None), monochromatic_formula("s0=0", Color::Red));
    assert_eq!(parse_formula("0", &lib, None), monochromatic_formula("0", Color::Red));
    assert_eq!(parse_formula("T", &lib, None), monochromatic_formula("T", Color::Red));
    assert_eq!(parse_formula("", &lib, None), colored("", vec![]));
    assert_eq!(parse_formula("  ", &lib, None), monochromatic_formula("  ", Color::Red));
    assert_eq!(
        parse_formula("\u{1D6FC}", &lib, None),
        colored("\u{1D6FC}", vec![Color::Blue])
    );
    assert_eq!(
        parse_formula("(T>\u{2026})", &lib, None),
        monochromatic_formula("(T>\u{2026})", Color::Red)
    );
}

#[test]
fn rule_of_the_file_itself_is_white() {
    let lib = library();
    assert_eq!(
        parse_formula("~(T > T)", &lib, Some(rule(SyntaxType::Formula, "~\u{1D6FC}"))),
        colored(
            "~(T > T)",
            vec![
                Color::White,
                Color::Cyan,
                Color::Green,
                Color::Normal,
                Color::Cyan,
                Color::Normal,
                Color::Green,
                Color::Cyan
            ]
        )
    );
}

#[test]
fn titles() {
    assert_eq!(parse_title(None), (FileLine::Raw("".to_string()), FileType::Unknown));
    assert_eq!(
        parse_title(Some("# Axiom A")),
        (FileLine::Raw("# Axiom A".to_string()), FileType::Unknown)
    );
    assert_eq!(parse_title(Some("##Axiom")), (FileLine::Raw("##Axiom".to_string()), FileType::Unknown));
    assert_eq!(
        parse_title(Some("## Axiom A1")),
        (
            FileLine::Title {
                title: "## Axiom".to_string(),
                name: "A1".to_string(),
                title_good: true,
                name_good: true
            },
            FileType::Axiom
        )
    );
    assert_eq!(
        parse_title(Some("## Syntax Definition (object) a-b")),
        (
            FileLine::Title {
                title: "## Syntax Definition (object)".to_string(),
                name: "a-b".to_string(),
                title_good: true,
                name_good: false
            },
            FileType::SyntaxDefinitionObject
        )
    );
    assert_eq!(
        parse_title(Some("## Lemma L")).1,
        FileType::Unknown
    );
    assert_eq!(parse_title(Some("## Theorem ")).1, FileType::Theorem);
    assert_eq!(
        parse_title(Some("## Syntax Definition (formula) F")).1,
        FileType::SyntaxDefinitionFormula
    );
}

#[test]
fn sections() {
    let lib = library();
    assert_eq!(parse_syntax_section(vec![], SyntaxType::Formula), (vec![], None));
    let (lines, syntax) = parse_syntax_section(vec!["# Syntax", "~\u{1D6FC}", "more"], SyntaxType::Formula);
    assert_eq!(
        lines,
        vec![
            FileLine::Section { name: "# Syntax".to_string(), is_valid: true },
            FileLine::Assertion {
                assertion: colored("~\u{1D6FC}", vec![Color::White, Color::Blue]),
                is_proven: ProvenState::NoState
            },
            FileLine::UnexpectedLine("more".to_string()),
        ]
    );
    assert_eq!(syntax, Some(rule(SyntaxType::Formula, "~\u{1D6FC}")));
    assert_eq!(
        parse_definition_section(vec!["# Definitions", "~T"], &lib, syntax),
        vec![
            FileLine::Section { name: "# Definitions".to_string(), is_valid: false },
            FileLine::Assertion {
                assertion: colored("~T", vec![Color::White, Color::Green]),
                is_proven: ProvenState::NoState
            },
        ]
    );
    assert_eq!(
        parse_hypotesis_section(vec!["# Hypotheses", "a : \u{1D6FC}", "none"], &lib),
        vec![
            FileLine::Section { name: "# Hypotheses".to_string(), is_valid: true },
            FileLine::Hypothesis {
                name: "a ".to_string(),
                hypot: colored(" \u{1D6FC}", vec![Color::Normal, Color::Blue])
            },
            FileLine::UnexpectedLine("none".to_string()),
        ]
    );
    assert_eq!(
        parse_assertion_section(vec!["# Assertion", "?"], &lib),
        vec![
            FileLine::Section { name: "# Assertion".to_string(), is_valid: true },
            FileLine::Assertion {
                assertion: colored("?", vec![Color::Red]),
                is_proven: ProvenState::NotProven
            },
        ]
    );
}

#[test]
fn proof_section() {
    let lib = library();
    let mut index = NameIndex::new();
    index.insert("LongName".to_string(), Reference::AxiomReference(0, 0));
    let (lines, info) = parse_proof_section(
        vec!["# Proof", "1 ; ; a ; \u{1D6FC}", "12345; 1, 22,3 ;LongName", "x"],
        &lib,
        &index,
    );
    assert_eq!(
        lines,
        vec![
            FileLine::Section { name: "# Proof".to_string(), is_valid: true },
            FileLine::ProofLine {
                line_no: "1".to_string(),
                line_index: 1,
                used_hypots: vec!["".to_string()],
                theo_ref: "a".to_string(),
                theo_ref_exists: false,
                formula: colored("\u{1D6FC}", vec![Color::Blue]),
            },
            FileLine::ProofLine {
                line_no: "12345".to_string(),
                line_index: 2,
                used_hypots: vec!["1".to_string(), "22".to_string(), "3".to_string()],
                theo_ref: "LongName".to_string(),
                theo_ref_exists: true,
                formula: colored("", vec![]),
            },
            FileLine::ProofLine {
                line_no: "x".to_string(),
                line_index: 3,
                used_hypots: vec!["".to_string()],
                theo_ref: "".to_string(),
                theo_ref_exists: false,
                formula: colored("", vec![]),
            },
        ]
    );
    assert_eq!(
        info,
        IndentInfo { line_number_indent: 8, used_hypotheses_indent: 10, theorem_reference_indent: 10 }
    );
    assert_eq!(
        parse_proof_section(vec![], &lib, &index),
        (
            vec![],
            IndentInfo { line_number_indent: 4, used_hypotheses_indent: 2, theorem_reference_indent: 2 }
        )
    );
}

#[test]
fn whole_file() {
    let lib = library();
    let index = NameIndex::new();
    let (lines, info) = parse_file(
        "## Theorem T\nstray\n# Hypotheses\na:T\n# Assertions\nT\n# Proof\n1;;a;T\n# More\nx\n",
        &lib,
        &index,
    );
    assert_eq!(lines.len(), 10);
    assert_eq!(lines[1], FileLine::Raw("stray".to_string()));
    assert_eq!(lines[2], FileLine::Section { name: "# Hypotheses".to_string(), is_valid: true });
    assert_eq!(lines[8], FileLine::UnexpectedLine("# More".to_string()));
    assert_eq!(lines[9], FileLine::UnexpectedLine("x".to_string()));
    assert_eq!(
        info,
        IndentInfo { line_number_indent: 4, used_hypotheses_indent: 2, theorem_reference_indent: 2 }
    );
    let (lines, info) = parse_file("notes\n# A\nb", &lib, &index);
    assert_eq!(
        lines,
        vec![
            FileLine::Raw("notes".to_string()),
            FileLine::Raw("# A".to_string()),
            FileLine::Raw("b".to_string())
        ]
    );
    assert_eq!(
        info,
        IndentInfo { line_number_indent: 0, used_hypotheses_indent: 0, theorem_reference_indent: 0 }
    );
    let (lines, _) = parse_file("## Syntax Definition (formula) N\n# Syntax\n~\u{1D6FC}\n# Definition\n~~T\n", &lib, &index);
    assert_eq!(
        lines[4],
        FileLine::Assertion {
            assertion: colored("~~T", vec![Color::White, Color::White, Color::Green]),
            is_proven: ProvenState::NoState
        }
    );
    assert_eq!(parse_file("", &lib, &index).0, vec![FileLine::Raw("".to_string())]);
}

fn menu() -> MenuGraphics {
    get_menu(
        "C:\\lib".to_string(),
        &vec![
            ("# Syntax Definitions".to_string(), Some("# Syntax Definitions".to_string())),
            ("\\syntax_definitions\\a.txt".to_string(), Some("a.txt".to_string())),
            ("".to_string(), None),
            ("# Axioms".to_string(), None),
            ("# Theorems".to_string(), None),
            ("\\theorems\\t.txt".to_string(), Some("t.txt".to_string())),
        ],
        &vec!["p.txt".to_string(), "q.txt".to_string()],
    )
    .unwrap()
}

#[test]
fn menu_of_the_library() {
    assert_eq!(
        menu(),
        MenuGraphics {
            cursor: 2,
            camera: 1,
            lines: vec![
                MenuLine::RootDirectory("C:\\lib".to_string()),
                MenuLine::SubDirectory("syntax_defintions".to_string(), false),
                MenuLine::File("a.txt".to_string(), "syntax_definitions\\a.txt".to_string(), false, true),
                MenuLine::SubDirectory("axioms".to_string(), false),
                MenuLine::SubDirectory("theorems".to_string(), false),
                MenuLine::File("t.txt".to_string(), "theorems\\t.txt".to_string(), false, true),
                MenuLine::SubDirectory("pending".to_string(), true),
                MenuLine::File("p.txt".to_string(), "pending\\p.txt".to_string(), true, false),
                MenuLine::File("q.txt".to_string(), "pending\\q.txt".to_string(), true, true),
            ],
        }
    );
    assert_eq!(
        get_menu("d".to_string(), &vec![("..".to_string(), None)], &vec![]),
        Err(())
    );
    assert_eq!(
        get_menu("d".to_string(), &vec![], &vec![]).unwrap().lines,
        vec![
            MenuLine::RootDirectory("d".to_string()),
            MenuLine::SubDirectory("pending".to_string(), true)
        ]
    );
}

#[test]
fn menu_events() {
    let mut data = EditorData::new(menu());
    assert_eq!(
        handle_event_in_menu(Event::KeyPressedArrow(-1, 0, Modifier::Plain), &mut data),
        Action::ShowMenu
    );
    assert_eq!(data.menu.cursor, 2);
    assert_eq!(
        handle_event_in_menu(Event::KeyPressedOther(Key::Enter, Modifier::Plain), &mut data),
        Action::Nothing
    );
    handle_event_in_menu(Event::KeyPressedArrow(1, 0, Modifier::Plain), &mut data);
    assert_eq!(data.menu.cursor, 3);
    assert_eq!(
        handle_event_in_menu(Event::KeyPressedOther(Key::Enter, Modifier::Plain), &mut data),
        Action::OpenFile("syntax_definitions\\a.txt".to_string())
    );
    assert_eq!(
        handle_event_in_menu(Event::KeyPressedOther(Key::Enter, Modifier::Shift), &mut data),
        Action::Nothing
    );
    handle_event_in_menu(Event::KeyPressedArrow(100, 0, Modifier::Plain), &mut data);
    assert_eq!(data.menu.cursor, 9);
    handle_event_in_menu(Event::KeyPressedArrow(isize::MIN, 0, Modifier::Shift), &mut data);
    assert_eq!(data.menu.camera, 1);
    handle_event_in_menu(Event::KeyPressedArrow(3, 0, Modifier::Shift), &mut data);
    assert_eq!(data.menu.camera, 4);
    assert_eq!(
        handle_event_in_menu(Event::KeyPressedArrow(0, 1, Modifier::Plain), &mut data),
        Action::Nothing
    );
    assert_eq!(handle_event_in_menu(Event::WindowResize(100, 30), &mut data), Action::ShowMenu);
    assert_eq!(data.dimensions, (100, 30));
    assert_eq!(handle_event_in_menu(Event::MouseMoved, &mut data), Action::Nothing);
    assert_eq!(data.state, EditorState::InMenu);
    assert_eq!(handle_event_in_menu(Event::KeyboardInterrupt, &mut data), Action::Nothing);
    assert_eq!(data.state, EditorState::ShouldExit);
}

fn open() -> EditorData {
    let mut data = EditorData::new(menu());
    let file = get_file(Some("abc\n\nlonger line"), &library(), &NameIndex::new()).unwrap();
    assert_eq!(file.cursor, (1, 1));
    assert_eq!(file.camera, 1);
    assert!(file.read_only);
    assert_eq!(open_file(&mut data, file), Action::ShowFile);
    assert_eq!(data.state, EditorState::EditingFile);
    data
}

#[test]
fn file_that_cannot_be_read_is_not_opened() {
    assert_eq!(get_file(None, &library(), &NameIndex::new()), Err(()));
    assert_eq!(FileGraphics::default().lines, vec![]);
}

#[test]
fn cursor_moves_along_the_text() {
    let mut data = open();
    assert_eq!(get_len_of_file_line(&data, 0), 4);
    assert_eq!(get_len_of_file_line(&data, 1), 1);
    assert_eq!(get_len_of_file_line(&data, 2), 12);
    assert_eq!(get_len_of_file_line(&data, 3), 1);
    let left = Event::KeyPressedArrow(0, -1, Modifier::Plain);
    let right = Event::KeyPressedArrow(0, 1, Modifier::Plain);
    assert_eq!(handle_event_in_file_edition(left, &mut data), Action::Nothing);
    assert_eq!(data.file.cursor, (1, 1));
    for expected in [(1, 2), (1, 3), (1, 4), (2, 1), (3, 1)] {
        assert_eq!(handle_event_in_file_edition(right, &mut data), Action::ShowFile);
        assert_eq!(data.file.cursor, expected);
    }
    for expected in [(2, 1), (1, 4), (1, 3)] {
        assert_eq!(handle_event_in_file_edition(left, &mut data), Action::ShowFile);
        assert_eq!(data.file.cursor, expected);
    }
    data.file.cursor = (3, 12);
    assert_eq!(handle_event_in_file_edition(right, &mut data), Action::Nothing);
    assert_eq!(data.file.cursor, (3, 12));
}

#[test]
fn cursor_moves_by_rows() {
    let mut data = open();
    let up = Event::KeyPressedArrow(-1, 0, Modifier::Plain);
    let down = Event::KeyPressedArrow(1, 0, Modifier::Plain);
    assert_eq!(handle_event_in_file_edition(up, &mut data), Action::Nothing);
    data.file.cursor = (1, 3);
    assert_eq!(handle_event_in_file_edition(up, &mut data), Action::ShowFile);
    assert_eq!(data.file.cursor, (1, 1));
    data.file.cursor = (1, 3);
    assert_eq!(handle_event_in_file_edition(down, &mut data), Action::ShowFile);
    assert_eq!(data.file.cursor, (2, 1));
    assert_eq!(handle_event_in_file_edition(down, &mut data), Action::ShowFile);
    assert_eq!(data.file.cursor, (3, 1));
    assert_eq!(handle_event_in_file_edition(down, &mut data), Action::ShowFile);
    assert_eq!(data.file.cursor, (3, 12));
    assert_eq!(handle_event_in_file_edition(down, &mut data), Action::Nothing);
    assert_eq!(handle_event_in_file_edition(up, &mut data), Action::ShowFile);
    assert_eq!(data.file.cursor, (2, 1));
    let mut wide = EditorData::new(menu());
    let file =
        get_file(Some("x\na long second line\nz"), &library(), &NameIndex::new()).unwrap();
    open_file(&mut wide, file);
    wide.dimensions = (10, 24);
    wide.indent = 1;
    wide.file.cursor = (2, 2);
    for expected in [(2, 10), (2, 18), (3, 2)] {
        assert_eq!(handle_event_in_file_edition(down, &mut wide), Action::ShowFile);
        assert_eq!(wide.file.cursor, expected);
    }
    for expected in [(2, 18), (2, 10), (2, 2), (1, 2), (1, 1)] {
        assert_eq!(handle_event_in_file_edition(up, &mut wide), Action::ShowFile);
        assert_eq!(wide.file.cursor, expected);
    }
    for expected in [(2, 1), (2, 10)] {
        assert_eq!(handle_event_in_file_edition(down, &mut wide), Action::ShowFile);
        assert_eq!(wide.file.cursor, expected);
    }
    data.dimensions = (1, 24);
    data.file.cursor = (2, 1);
    assert_eq!(handle_event_in_file_edition(down, &mut data), Action::Nothing);
    assert_eq!(
        handle_event_in_file_edition(Event::KeyPressedArrow(2, 0, Modifier::Plain), &mut data),
        Action::Nothing
    );
}

#[test]
fn other_events_in_a_file() {
    let mut data = open();
    assert_eq!(
        handle_event_in_file_edition(Event::KeyPressedArrow(5, 0, Modifier::Shift), &mut data),
        Action::ShowFile
    );
    assert_eq!(data.file.camera, 6);
    assert_eq!(handle_event_in_file_edition(Event::WindowResize(25, 9), &mut data), Action::ShowFile);
    assert_eq!((data.dimensions, data.indent), ((25, 9), 2));
    handle_event_in_file_edition(Event::WindowResize(3, 9), &mut data);
    assert_eq!(data.indent, 1);
    handle_event_in_file_edition(Event::WindowResize(300, 9), &mut data);
    assert_eq!(data.indent, 4);
    assert_eq!(handle_event_in_file_edition(Event::KeyboardInterrupt, &mut data), Action::Nothing);
    assert_eq!(data.state, EditorState::EditingFile);
    assert_eq!(
        handle_event_in_file_edition(Event::KeyPressedOther(Key::Escape, Modifier::Plain), &mut data),
        Action::ShowMenu
    );
    assert_eq!(data.state, EditorState::InMenu);
}

#[test]
fn coloured_text_for_the_terminal() {
    assert_eq!(
        colored_string_display(&colored(
            "ab cd",
            vec![Color::Red, Color::Red, Color::Normal, Color::Blue, Color::Normal]
        )),
        "\x1b[31mab\x1b[0m \x1b[34mc\x1b[0md"
    );
    assert_eq!(colored_string_display(&colored("ab", vec![Color::Normal])), "a");
    assert_eq!(colored_string_display(&colored("", vec![])), "");
}

#[test]
fn menu_for_the_terminal() {
    let shown = display_menu(&MenuGraphics {
        cursor: 2,
        camera: 1,
        lines: vec![
            MenuLine::RootDirectory("root".to_string()),
            MenuLine::SubDirectory("axioms".to_string(), false),
            MenuLine::File("a".to_string(), "p".to_string(), false, true),
            MenuLine::SubDirectory("pending".to_string(), true),
            MenuLine::File("b".to_string(), "q".to_string(), true, false),
        ],
    });
    assert_eq!(
        shown,
        "\x1b[2J\x1b[H\x1b[1;4;33mroot\x1b[m\n\r\
         \x1b[1;33m\u{2520}\u{2500}\u{2500}\x1b[m \x1b[1;7;34maxioms\x1b[m\n\r\
         \x1b[1;33m\u{2503}\x1b[m   \x1b[1;34m\u{2516}\u{2500}\u{2500}\x1b[m \x1b[ma\x1b[m\n\r\
         \x1b[1;33m\u{2516}\u{2500}\u{2500}\x1b[m \x1b[1;34mpending\x1b[m\n\r    \
         \x1b[1;34m\u{2520}\u{2500}\u{2500}\x1b[m \x1b[mb\x1b[m\n\r"
    );
}

#[test]
fn file_for_the_terminal() {
    let file = FileGraphics {
        cursor: (1, 1),
        camera: 1,
        lines: vec![
            FileLine::Title {
                title: "## Theorem".to_string(),
                name: "T".to_string(),
                title_good: true,
                name_good: false,
            },
            FileLine::Raw("raw".to_string()),
            FileLine::Section { name: "# Proof".to_string(), is_valid: true },
            FileLine::Hypothesis { name: "a".to_string(), hypot: colored("T", vec![Color::Green]) },
            FileLine::Assertion {
                assertion: colored("T", vec![Color::Normal]),
                is_proven: ProvenState::NotProven,
            },
            FileLine::ProofLine {
                line_no: "1".to_string(),
                line_index: 1,
                used_hypots: vec!["2".to_string(), "33".to_string()],
                theo_ref: "LongName".to_string(),
                theo_ref_exists: true,
                formula: colored("T", vec![Color::Green]),
            },
            FileLine::UnexpectedLine("?".to_string()),
        ],
        indent_info: IndentInfo {
            line_number_indent: 4,
            used_hypotheses_indent: 6,
            theorem_reference_indent: 2,
        },
        read_only: true,
    };
    assert_eq!(
        display_file(&file),
        "\x1b[2J\x1b[H\x1b[30;44m## Theorem \x1b[30;41mT\x1b[m\n\r\
         raw\x1b[m\n\r\
         # Proof\x1b[m\n\r\
         a: \x1b[32mT\x1b[m\n\r\
         T\x1b[m\n\r\
         1   ; 2, 33 ; LongName; \x1b[32mT\x1b[m\n\r\
         \x1b[31m?\x1b[m\n\r"
    );
}
