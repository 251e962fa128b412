//! The settings of the command line tool, and the text that holds them.

use vstd::prelude::*;
use crate::text::{
    chars_of, find_char, first_index, is_text, lines, rows, slice_of, split_lines, string_of, trim,
    trimmed,
};

verus! {

/// The settings: whether output is coloured, where the library lies, and
/// whether safe mode is on.
#[derive(Debug, PartialEq)]
pub struct Settings {
    pub color: bool,
    pub lib_path: String,
    pub safe: bool,
}

/// The model of the settings.
pub struct SettingsModel {
    pub color: bool,
    pub lib_path: Seq<char>,
    pub safe: bool,
}

impl View for Settings {
    type V = SettingsModel;

    open spec fn view(&self) -> SettingsModel {
        SettingsModel { color: self.color, lib_path: self.lib_path@, safe: self.safe }
    }
}

impl SettingsModel {
    /// The settings that hold where nothing is set: colour and safe mode on,
    /// and no library path.
    pub open spec fn initial() -> SettingsModel {
        SettingsModel { color: true, lib_path: Seq::empty(), safe: true }
    }
}

impl Default for Settings {
    fn default() -> (r: Settings)
        ensures
            r@ == SettingsModel::initial(),
    {
        Settings { color: true, lib_path: String::new(), safe: true }
    }
}

/// Why the settings could not be had: the file could not be read, or a line
/// of it sets an option to what is no value for it, or sets what is no
/// option. The lines are counted from 0.
#[derive(Debug, PartialEq)]
pub enum SettingsError {
    IOError(String),
    UnparsableAsBool(usize, String, String),
    UnparsableAsString(usize, String, String),
    UnknownOption(usize, String),
}

/// The model of a `SettingsError`.
pub enum SettingsErrorModel {
    IOError(Seq<char>),
    UnparsableAsBool(usize, Seq<char>, Seq<char>),
    UnparsableAsString(usize, Seq<char>, Seq<char>),
    UnknownOption(usize, Seq<char>),
}

impl View for SettingsError {
    type V = SettingsErrorModel;

    open spec fn view(&self) -> SettingsErrorModel {
        match self {
            SettingsError::IOError(why) => SettingsErrorModel::IOError(why@),
            SettingsError::UnparsableAsBool(i, name, value) => SettingsErrorModel::UnparsableAsBool(
                *i,
                name@,
                value@,
            ),
            SettingsError::UnparsableAsString(i, name, value) => {
                SettingsErrorModel::UnparsableAsString(*i, name@, value@)
            },
            SettingsError::UnknownOption(i, name) => SettingsErrorModel::UnknownOption(*i, name@),
        }
    }
}

/// The truth value that a value writes: `true` or `false`, and nothing else.
pub open spec fn bool_value(value: Seq<char>) -> Option<bool> {
    if value == "true"@ {
        Some(true)
    } else if value == "false"@ {
        Some(false)
    } else {
        None
    }
}

/// Reads a truth value from its characters.
pub fn read_bool(value: &Vec<char>) -> (r: Option<bool>)
    ensures
        r == bool_value(value@),
{
    if is_text(value, "true") {
        Some(true)
    } else if is_text(value, "false") {
        Some(false)
    } else {
        None
    }
}

/// Reads the truth value of the option `name` on line `index`.
pub fn parse_as_bool(name: &str, value: &str, index: usize) -> (r: Result<bool, SettingsError>)
    ensures
        match r {
            Ok(b) => bool_value(value@) == Some(b),
            Err(e) => bool_value(value@) is None && e@ == SettingsErrorModel::UnparsableAsBool(
                index,
                name@,
                value@,
            ),
        },
{
    match read_bool(&chars_of(value)) {
        Some(b) => Ok(b),
        None => Err(
            SettingsError::UnparsableAsBool(
                index,
                string_of(&chars_of(name)),
                string_of(&chars_of(value)),
            ),
        ),
    }
}

/// The text that a value quotes: the value starts and ends with a double
/// quote, and the text is what stands between the two; a value that is one
/// double quote quotes the empty text.
pub open spec fn quoted_value(value: Seq<char>) -> Option<Seq<char>> {
    if value.len() > 0 && value[0] == '"' && value.last() == '"' {
        if value.len() == 1 {
            Some(Seq::empty())
        } else {
            Some(value.subrange(1, value.len() - 1))
        }
    } else {
        None
    }
}

/// Reads a quoted text from its characters.
pub fn read_quoted(value: &Vec<char>) -> (r: Option<Vec<char>>)
    ensures
        match r {
            Some(text) => quoted_value(value@) == Some(text@),
            None => quoted_value(value@) is None,
        },
{
    let n = value.len();
    if n > 0 && value[0] == '"' && value[n - 1] == '"' {
        if n == 1 {
            Some(Vec::new())
        } else {
            Some(slice_of(value, 1, n - 1))
        }
    } else {
        None
    }
}

/// Reads the text of the option `name` on line `index`.
pub fn parse_as_string(name: &str, value: &str, index: usize) -> (r: Result<String, SettingsError>)
    ensures
        match r {
            Ok(text) => quoted_value(value@) == Some(text@),
            Err(e) => quoted_value(value@) is None && e@ == SettingsErrorModel::UnparsableAsString(
                index,
                name@,
                value@,
            ),
        },
{
    match read_quoted(&chars_of(value)) {
        Some(text) => Ok(string_of(&text)),
        None => Err(
            SettingsError::UnparsableAsString(
                index,
                string_of(&chars_of(name)),
                string_of(&chars_of(value)),
            ),
        ),
    }
}

/// The settings read so far, or the first error.
pub struct SettingsRead {
    pub settings: SettingsModel,
    pub error: Option<SettingsErrorModel>,
}

/// What one line of the settings text does. A line without `=` does
/// nothing. Otherwise what stands before the first `=` names an option, once
/// trimmed, and what stands after it is its value, as it stands: `COLOR` and
/// `SAFE` take a truth value, `LIB_PATH` a quoted text.
pub open spec fn settings_line(st: SettingsRead, line: Seq<char>, index: usize) -> SettingsRead {
    let n = first_index(line, '=');
    if st.error is Some || !(0 <= n < line.len()) {
        st
    } else {
        let name = line.take(n);
        let value = line.skip(n + 1);
        if trim(name) == "COLOR"@ {
            match bool_value(value) {
                Some(b) => SettingsRead {
                    settings: SettingsModel { color: b, ..st.settings },
                    ..st
                },
                None => SettingsRead {
                    error: Some(SettingsErrorModel::UnparsableAsBool(index, name, value)),
                    ..st
                },
            }
        } else if trim(name) == "LIB_PATH"@ {
            match quoted_value(value) {
                Some(text) => SettingsRead {
                    settings: SettingsModel { lib_path: text, ..st.settings },
                    ..st
                },
                None => SettingsRead {
                    error: Some(SettingsErrorModel::UnparsableAsString(index, name, value)),
                    ..st
                },
            }
        } else if trim(name) == "SAFE"@ {
            match bool_value(value) {
                Some(b) => SettingsRead { settings: SettingsModel { safe: b, ..st.settings }, ..st },
                None => SettingsRead {
                    error: Some(SettingsErrorModel::UnparsableAsBool(index, name, value)),
                    ..st
                },
            }
        } else {
            SettingsRead {
                error: Some(SettingsErrorModel::UnknownOption(index, trim(name))),
                ..st
            }
        }
    }
}

/// What the lines of the settings text do, from the first on; the lines are
/// counted from 0.
pub open spec fn settings_lines(all: Seq<Seq<char>>) -> SettingsRead
    decreases all.len(),
{
    if all.len() == 0 {
        SettingsRead { settings: SettingsModel::initial(), error: None }
    } else {
        settings_line(settings_lines(all.drop_last()), all.last(), (all.len() - 1) as usize)
    }
}

/// After an error the reading stays as it is.
pub proof fn lemma_settings_lines_stop(all: Seq<Seq<char>>, n: int)
    requires
        0 <= n <= all.len(),
        settings_lines(all.take(n)).error is Some,
    ensures
        settings_lines(all) == settings_lines(all.take(n)),
    decreases all.len(),
{
    if n < all.len() {
        assert(all.drop_last().take(n) == all.take(n));
        lemma_settings_lines_stop(all.drop_last(), n);
        assert(settings_lines(all) == settings_lines(all.drop_last()));
    } else {
        assert(all.take(n) == all);
    }
}

/// The settings that reading the settings file gives.
pub open spec fn settings_of(contents: Result<Seq<char>, Seq<char>>) -> Result<
    SettingsModel,
    SettingsErrorModel,
> {
    match contents {
        Err(why) => Err(SettingsErrorModel::IOError(why)),
        Ok(text) => match settings_lines(lines(text)).error {
            Some(e) => Err(e),
            None => Ok(settings_lines(lines(text)).settings),
        },
    }
}

/// Applies one line of the settings text to the settings.
pub fn apply_settings_line(settings: &mut Settings, line: &Vec<char>, index: usize) -> (r: Result<
    (),
    SettingsError,
>)
    ensures
        match r {
            Ok(_) => settings_line(
                SettingsRead { settings: old(settings)@, error: None },
                line@,
                index,
            ) == (SettingsRead { settings: final(settings)@, error: None }),
            Err(e) => settings_line(
                SettingsRead { settings: old(settings)@, error: None },
                line@,
                index,
            ).error == Some(e@),
        },
{
    let n = find_char(line, 0, '=');
    assert(line@.skip(0) == line@);
    if n == line.len() {
        return Ok(());
    }
    let name = slice_of(line, 0, n);
    let value = slice_of(line, n + 1, line.len());
    assert(line@.subrange(0, n as int) == line@.take(n as int));
    assert(line@.subrange(n + 1, line@.len() as int) == line@.skip(n + 1));
    let option = trimmed(&name);
    if is_text(&option, "COLOR") {
        match read_bool(&value) {
            Some(b) => {
                settings.color = b;
                Ok(())
            },
            None => Err(
                SettingsError::UnparsableAsBool(index, string_of(&name), string_of(&value)),
            ),
        }
    } else if is_text(&option, "LIB_PATH") {
        match read_quoted(&value) {
            Some(text) => {
                settings.lib_path = string_of(&text);
                Ok(())
            },
            None => Err(
                SettingsError::UnparsableAsString(index, string_of(&name), string_of(&value)),
            ),
        }
    } else if is_text(&option, "SAFE") {
        match read_bool(&value) {
            Some(b) => {
                settings.safe = b;
                Ok(())
            },
            None => Err(
                SettingsError::UnparsableAsBool(index, string_of(&name), string_of(&value)),
            ),
        }
    } else {
        Err(SettingsError::UnknownOption(index, string_of(&option)))
    }
}

/// The settings that the settings file gives, from what reading the file
/// gave: its text, or why it could not be read. Options that the text does
/// not set keep their initial values.
#[verifier::loop_isolation(false)]
pub fn get_settings(contents: Result<String, String>) -> (r: Result<Settings, SettingsError>)
    ensures
        match r {
            Ok(settings) => settings_of(
                match contents {
                    Ok(text) => Ok(text@),
                    Err(why) => Err(why@),
                },
            ) == Ok::<_, SettingsErrorModel>(settings@),
            Err(e) => settings_of(
                match contents {
                    Ok(text) => Ok(text@),
                    Err(why) => Err(why@),
                },
            ) == Err::<SettingsModel, _>(e@),
        },
{
    let text = match contents {
        Ok(text) => text,
        Err(why) => {
            return Err(SettingsError::IOError(why));
        },
    };
    let all = split_lines(&chars_of(text.as_str()));
    let mut settings = Settings::default();
    let mut i: usize = 0;
    assert(rows(all@).take(0) =~= Seq::empty());
    while i < all.len()
        invariant
            i <= all.len(),
            rows(all@) == lines(text@),
            settings_lines(rows(all@).take(i as int)) == (SettingsRead {
                settings: settings@,
                error: None,
            }),
        decreases all.len() - i,
    {
        proof {
            let next = rows(all@).take(i + 1);
            assert(next.drop_last() == rows(all@).take(i as int));
            assert(next.last() == all@[i as int]@);
            assert(settings_lines(next) == settings_line(
                settings_lines(next.drop_last()),
                next.last(),
                (next.len() - 1) as usize,
            ));
        }
        match apply_settings_line(&mut settings, &all[i], i) {
            Ok(_) => {},
            Err(e) => {
                proof {
                    lemma_settings_lines_stop(rows(all@), i + 1);
                }
                return Err(e);
            },
        }
        i += 1;
    }
    assert(rows(all@).take(i as int) == rows(all@));
    Ok(settings)
}

/// How a truth value is written.
pub open spec fn bool_text(b: bool) -> Seq<char> {
    if b {
        "true"@
    } else {
        "false"@
    }
}

/// Appends the characters of `text` to `r`.
pub fn push_text(r: &mut Vec<char>, text: &str)
    ensures
        final(r)@ == old(r)@ + text@,
{
    let mut more = chars_of(text);
    r.append(&mut more);
}

/// Appends how a truth value is written to `r`.
pub fn push_bool(r: &mut Vec<char>, b: bool)
    ensures
        final(r)@ == old(r)@ + bool_text(b),
{
    if b {
        push_text(r, "true");
    } else {
        push_text(r, "false");
    }
}

/// The text of the settings file: one line for each option.
pub open spec fn settings_text(settings: SettingsModel) -> Seq<char> {
    "COLOR="@ + bool_text(settings.color) + "\nLIB_PATH=\""@ + settings.lib_path + "\"\nSAFE="@
        + bool_text(settings.safe) + "\n"@
}

/// The text to write to the settings file for the settings.
pub fn save_settings_to_file(settings: &Settings) -> (r: String)
    ensures
        r@ == settings_text(settings@),
{
    let mut r: Vec<char> = Vec::new();
    push_text(&mut r, "COLOR=");
    push_bool(&mut r, settings.color);
    push_text(&mut r, "\nLIB_PATH=\"");
    push_text(&mut r, settings.lib_path.as_str());
    push_text(&mut r, "\"\nSAFE=");
    push_bool(&mut r, settings.safe);
    push_text(&mut r, "\n");
    assert(r@ =~= settings_text(settings@));
    string_of(&r)
}

} // verus!
