use math_lib::commands::{move_entry_to_order_file, LibrarySection};
use math_lib::flags::{flag_description, handle_flag_command, set_flag, settings_intro};
use math_lib::settings::{
    get_settings, parse_as_bool, parse_as_string, save_settings_to_file, Settings, SettingsError,
};

fn settings() -> Settings {
    Settings { color: false, lib_path: "C:/lib".to_string(), safe: true }
}

#[test]
fn default_settings() {
    assert_eq!(
        Settings::default(),
        Settings { color: true, lib_path: "".to_string(), safe: true }
    );
}

#[test]
fn booleans_and_strings() {
    assert_eq!(parse_as_bool("COLOR", "true", 3), Ok(true));
    assert_eq!(parse_as_bool("COLOR", "false", 3), Ok(false));
    assert_eq!(
        parse_as_bool("COLOR", " true", 3),
        Err(SettingsError::UnparsableAsBool(3, "COLOR".to_string(), " true".to_string()))
    );
    assert_eq!(parse_as_string("P", "\"a b\"", 0), Ok("a b".to_string()));
    assert_eq!(parse_as_string("P", "\"\"", 0), Ok("".to_string()));
    assert_eq!(parse_as_string("P", "\"", 0), Ok("".to_string()));
    assert_eq!(
        parse_as_string("P", "a\"", 7),
        Err(SettingsError::UnparsableAsString(7, "P".to_string(), "a\"".to_string()))
    );
    assert_eq!(
        parse_as_string("P", "", 7),
        Err(SettingsError::UnparsableAsString(7, "P".to_string(), "".to_string()))
    );
}

#[test]
fn settings_are_read_line_by_line() {
    let text = "COLOR=false\nnothing here\n LIB_PATH =\"C:/lib\"\nSAFE=true\n";
    assert_eq!(get_settings(Ok(text.to_string())), Ok(settings()));
    assert_eq!(get_settings(Ok("".to_string())), Ok(Settings::default()));
    assert_eq!(
        get_settings(Err("gone".to_string())),
        Err(SettingsError::IOError("gone".to_string()))
    );
    assert_eq!(
        get_settings(Ok("COLOR=true\nSIZE=3\n".to_string())),
        Err(SettingsError::UnknownOption(1, "SIZE".to_string()))
    );
    assert_eq!(
        get_settings(Ok("\nSAFE=yes\nSIZE=3".to_string())),
        Err(SettingsError::UnparsableAsBool(1, "SAFE".to_string(), "yes".to_string()))
    );
    assert_eq!(
        get_settings(Ok("LIB_PATH=lib".to_string())),
        Err(SettingsError::UnparsableAsString(0, "LIB_PATH".to_string(), "lib".to_string()))
    );
}

#[test]
fn settings_are_written_and_read_back() {
    let text = save_settings_to_file(&settings());
    assert_eq!(text, "COLOR=false\nLIB_PATH=\"C:/lib\"\nSAFE=true\n");
    assert_eq!(get_settings(Ok(text)), Ok(settings()));
}

#[test]
fn flags_are_shown() {
    assert_eq!(settings_intro(&settings()), "\ncolor: false\nlib_path: 'C:/lib'\nsafe: true\n");
    assert_eq!(
        flag_description(&settings(), &"color".to_string()),
        Some("\nFlag color: false\n  NOT IMPLEMENTED".to_string())
    );
    assert_eq!(
        flag_description(&settings(), &"lib_path".to_string()),
        Some("\nFlag lib_path: C:/lib\n  The path to the library directory".to_string())
    );
    assert_eq!(
        flag_description(&settings(), &"safe".to_string()),
        Some("\nFlag safe: true\n  Whether safe mode is activated".to_string())
    );
    assert_eq!(flag_description(&settings(), &"size".to_string()), None);
}

#[test]
fn flags_are_set() {
    let mut s = settings();
    assert_eq!(
        set_flag(&mut s, &"color".to_string(), "true".to_string()),
        Ok("Successfully set 'color' to 'true'".to_string())
    );
    assert!(s.color);
    assert_eq!(
        set_flag(&mut s, &"safe".to_string(), "false".to_string()),
        Ok("Successfully set 'safe' to 'false'".to_string())
    );
    assert!(!s.safe);
    assert_eq!(
        set_flag(&mut s, &"lib_path".to_string(), "x y".to_string()),
        Ok("Successfully set 'lib_path' to 'x y'".to_string())
    );
    assert_eq!(s.lib_path, "x y");
    assert_eq!(
        set_flag(&mut s, &"color".to_string(), "yes".to_string()),
        Err("'color' needs a boolean value, found 'yes'".to_string())
    );
    assert_eq!(
        set_flag(&mut s, &"safe".to_string(), "".to_string()),
        Err("'safe' needs a boolean value, found ''".to_string())
    );
    assert_eq!(
        set_flag(&mut s, &"size".to_string(), "3".to_string()),
        Err("Unknown flag 'size'".to_string())
    );
    assert_eq!(s, Settings { color: true, lib_path: "x y".to_string(), safe: false });
}

#[test]
fn flag_command() {
    let mut s = settings();
    assert_eq!(handle_flag_command(None, None, &mut s), Ok(settings_intro(&settings())));
    assert_eq!(
        handle_flag_command(None, Some("x".to_string()), &mut s),
        Ok(settings_intro(&settings()))
    );
    assert_eq!(
        handle_flag_command(Some("safe".to_string()), None, &mut s),
        Ok("\nFlag safe: true\n  Whether safe mode is activated".to_string())
    );
    assert_eq!(
        handle_flag_command(Some("size".to_string()), None, &mut s),
        Err("Unknown flag 'size'".to_string())
    );
    assert_eq!(s, settings());
    assert_eq!(
        handle_flag_command(Some("safe".to_string()), Some("false".to_string()), &mut s),
        Ok("Successfully set 'safe' to 'false'".to_string())
    );
    assert!(!s.safe);
}

#[test]
fn order_file_gains_an_entry() {
    assert_eq!(
        move_entry_to_order_file("", "a.txt", LibrarySection::Axioms),
        "# Syntax Definition\n\n# Axioms\n\\axioms\\a.txt\n\n# Theorems\n"
    );
    assert_eq!(
        move_entry_to_order_file(
            "# Syntax Definitions\nfirst\n# Axioms\n# Axioms\nsecond\n# Theorems\nthird\nt1\n\nt2",
            "n.txt",
            LibrarySection::Theorems
        ),
        "# Syntax Definition\n# Axioms\n# Axioms\n\n# Axioms\n# Theorems\n\n# Theorems\nt1\nt2\n\\theorems\\n.txt\n"
    );
    assert_eq!(
        move_entry_to_order_file("x\ny\nz\nw\nv", "s.txt", LibrarySection::SyntaxDefinitions),
        "# Syntax Definition\n\\syntax_definitions\\s.txt\n\n# Axioms\n\n# Theorems\nw\nv\n"
    );
}
