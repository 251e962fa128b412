//! The `flag` command: showing the settings and changing them.

use vstd::prelude::*;
use crate::settings::{bool_text, push_bool, push_text, Settings, SettingsModel};
use crate::text::{chars_of, is_text, string_of};

verus! {

/// The overview of the settings.
pub open spec fn intro_text(settings: SettingsModel) -> Seq<char> {
    "\ncolor: "@ + bool_text(settings.color) + "\nlib_path: '"@ + settings.lib_path + "'\nsafe: "@
        + bool_text(settings.safe) + "\n"@
}

/// Writes the overview of the settings.
pub fn settings_intro(settings: &Settings) -> (r: String)
    ensures
        r@ == intro_text(settings@),
{
    let mut r: Vec<char> = Vec::new();
    push_text(&mut r, "\ncolor: ");
    push_bool(&mut r, settings.color);
    push_text(&mut r, "\nlib_path: '");
    push_text(&mut r, settings.lib_path.as_str());
    push_text(&mut r, "'\nsafe: ");
    push_bool(&mut r, settings.safe);
    push_text(&mut r, "\n");
    assert(r@ =~= intro_text(settings@));
    string_of(&r)
}

/// The value of a flag as it is shown, and what the flag is for; nothing for
/// a name that is no flag.
pub open spec fn flag_entry(settings: SettingsModel, name: Seq<char>) -> Option<
    (Seq<char>, Seq<char>),
> {
    if name == "color"@ {
        Some((bool_text(settings.color), "NOT IMPLEMENTED"@))
    } else if name == "lib_path"@ {
        Some((settings.lib_path, "The path to the library directory"@))
    } else if name == "safe"@ {
        Some((bool_text(settings.safe), "Whether safe mode is activated"@))
    } else {
        None
    }
}

/// The description of a flag: its name, its value, and what it is for.
pub open spec fn description_text(settings: SettingsModel, name: Seq<char>) -> Option<Seq<char>> {
    match flag_entry(settings, name) {
        Some((value, purpose)) => Some("\nFlag "@ + name + ": "@ + value + "\n  "@ + purpose),
        None => None,
    }
}

/// Writes the description of a flag; nothing for a name that is no flag.
pub fn flag_description(settings: &Settings, flag_name: &String) -> (r: Option<String>)
    ensures
        match r {
            Some(text) => description_text(settings@, flag_name@) == Some(text@),
            None => description_text(settings@, flag_name@) is None,
        },
{
    let name = chars_of(flag_name.as_str());
    let mut r: Vec<char> = Vec::new();
    push_text(&mut r, "\nFlag ");
    push_text(&mut r, flag_name.as_str());
    push_text(&mut r, ": ");
    if is_text(&name, "color") {
        push_bool(&mut r, settings.color);
        push_text(&mut r, "\n  ");
        push_text(&mut r, "NOT IMPLEMENTED");
    } else if is_text(&name, "lib_path") {
        push_text(&mut r, settings.lib_path.as_str());
        push_text(&mut r, "\n  ");
        push_text(&mut r, "The path to the library directory");
    } else if is_text(&name, "safe") {
        push_bool(&mut r, settings.safe);
        push_text(&mut r, "\n  ");
        push_text(&mut r, "Whether safe mode is activated");
    } else {
        return None;
    }
    assert(Some(r@) =~= description_text(settings@, flag_name@));
    Some(string_of(&r))
}

/// The message for a name that is no flag.
pub open spec fn unknown_flag_text(name: Seq<char>) -> Seq<char> {
    "Unknown flag '"@ + name + "'"@
}

/// The message for a value that is no truth value.
pub open spec fn not_bool_text(name: Seq<char>, value: Seq<char>) -> Seq<char> {
    "'"@ + name + "' needs a boolean value, found '"@ + value + "'"@
}

/// The message for a flag that was set.
pub open spec fn set_text(name: Seq<char>, value: Seq<char>) -> Seq<char> {
    "Successfully set '"@ + name + "' to '"@ + value + "'"@
}

/// What setting a flag gives: the new settings and the message of success,
/// or the message that says why nothing was set. `color` and `safe` take
/// `true` or `false`; `lib_path` takes any text.
pub open spec fn flag_set(settings: SettingsModel, name: Seq<char>, value: Seq<char>) -> Result<
    (SettingsModel, Seq<char>),
    Seq<char>,
> {
    if name == "color"@ {
        if value == "true"@ || value == "false"@ {
            Ok((SettingsModel { color: value == "true"@, ..settings }, set_text(name, value)))
        } else {
            Err(not_bool_text(name, value))
        }
    } else if name == "safe"@ {
        if value == "true"@ || value == "false"@ {
            Ok((SettingsModel { safe: value == "true"@, ..settings }, set_text(name, value)))
        } else {
            Err(not_bool_text(name, value))
        }
    } else if name == "lib_path"@ {
        Ok((SettingsModel { lib_path: value, ..settings }, set_text(name, value)))
    } else {
        Err(unknown_flag_text(name))
    }
}

/// Writes a message made of three fixed parts around a name and a value.
fn message(first: &str, name: &str, second: &str, value: &str, third: &str) -> (r: String)
    ensures
        r@ == first@ + name@ + second@ + value@ + third@,
{
    let mut r: Vec<char> = Vec::new();
    push_text(&mut r, first);
    push_text(&mut r, name);
    push_text(&mut r, second);
    push_text(&mut r, value);
    push_text(&mut r, third);
    assert(r@ =~= first@ + name@ + second@ + value@ + third@);
    string_of(&r)
}

/// Sets a flag. On success the settings hold the new value, and the message
/// says so; on failure the settings are as they were.
pub fn set_flag(settings: &mut Settings, flag_name: &String, value: String) -> (r: Result<
    String,
    String,
>)
    ensures
        match r {
            Ok(text) => flag_set(old(settings)@, flag_name@, value@) == Ok::<_, Seq<char>>(
                (final(settings)@, text@),
            ),
            Err(text) => flag_set(old(settings)@, flag_name@, value@) == Err::<
                (SettingsModel, Seq<char>),
                _,
            >(text@) && final(settings)@ == old(settings)@,
        },
{
    let name = chars_of(flag_name.as_str());
    let given = chars_of(value.as_str());
    if is_text(&name, "color") || is_text(&name, "safe") {
        let b = if is_text(&given, "true") {
            true
        } else if is_text(&given, "false") {
            false
        } else {
            let text = message(
                "'",
                flag_name.as_str(),
                "' needs a boolean value, found '",
                value.as_str(),
                "'",
            );
            assert(text@ =~= not_bool_text(flag_name@, value@));
            return Err(text);
        };
        if is_text(&name, "color") {
            settings.color = b;
        } else {
            settings.safe = b;
        }
    } else if is_text(&name, "lib_path") {
        settings.lib_path = string_of(&given);
    } else {
        let text = message("Unknown flag '", flag_name.as_str(), "'", "", "");
        assert(text@ =~= unknown_flag_text(flag_name@)) by {
            reveal_strlit("");
        }
        return Err(text);
    }
    let text = message("Successfully set '", flag_name.as_str(), "' to '", value.as_str(), "'");
    assert(text@ =~= set_text(flag_name@, value@));
    Ok(text)
}

/// What the `flag` command gives: without a name the overview of the
/// settings, with a name the description of the flag, and with a name and a
/// value the outcome of setting the flag.
pub open spec fn flag_command(
    name: Option<Seq<char>>,
    value: Option<Seq<char>>,
    settings: SettingsModel,
) -> Result<(SettingsModel, Seq<char>), Seq<char>> {
    match name {
        None => Ok((settings, intro_text(settings))),
        Some(flag) => match value {
            None => match description_text(settings, flag) {
                Some(text) => Ok((settings, text)),
                None => Err(unknown_flag_text(flag)),
            },
            Some(v) => flag_set(settings, flag, v),
        },
    }
}

/// The text that an optional string holds.
pub open spec fn optional_text(s: Option<String>) -> Option<Seq<char>> {
    match s {
        Some(text) => Some(text@),
        None => None,
    }
}

/// Handles the `flag` command.
pub fn handle_flag_command(name: Option<String>, value: Option<String>, settings: &mut Settings) -> (r:
    Result<String, String>)
    ensures
        match r {
            Ok(text) => flag_command(optional_text(name), optional_text(value), old(settings)@)
                == Ok::<_, Seq<char>>((final(settings)@, text@)),
            Err(text) => flag_command(optional_text(name), optional_text(value), old(settings)@)
                == Err::<(SettingsModel, Seq<char>), _>(text@) && final(settings)@ == old(
                settings,
            )@,
        },
{
    match (name, value) {
        (None, _) => Ok(settings_intro(settings)),
        (Some(name), None) => match flag_description(settings, &name) {
            Some(text) => Ok(text),
            None => {
                let text = message("Unknown flag '", name.as_str(), "'", "", "");
                assert(text@ =~= unknown_flag_text(name@)) by {
                    reveal_strlit("");
                }
                Err(text)
            },
        },
        (Some(name), Some(value)) => set_flag(settings, &name, value),
    }
}

} // verus!
