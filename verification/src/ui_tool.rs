//! The command line of the UI snapshot tool: an action, a mandatory output
//! directory, and a closed choice of fixtures.
use vstd::prelude::*;

use crate::strings::{
    chars_of, debug_quoted, debug_text, owned, push_chars, push_str, str_equal, string_from_chars,
};

verus! {

/// A parsed UI snapshot command.
#[derive(Debug, PartialEq, Eq)]
pub struct UiArguments {
    pub action: String,
    pub output_directory: String,
    pub fixture: Option<String>,
    pub all: bool,
}

/// The parsed command, as character sequences.
pub struct UiArgumentsView {
    pub action: Seq<char>,
    pub output_directory: Seq<char>,
    pub fixture: Option<Seq<char>>,
    pub all: bool,
}

impl View for UiArguments {
    type V = UiArgumentsView;

    open spec fn view(&self) -> UiArgumentsView {
        UiArgumentsView {
            action: self.action@,
            output_directory: self.output_directory@,
            fixture: match self.fixture {
                Some(f) => Some(f@),
                None => None,
            },
            all: self.all,
        }
    }
}

/// The options from position `i` on, given what was read before them: the
/// output directory, the fixture and whether all fixtures were asked for, or
/// the reason they were refused.
pub open spec fn scanned_options(
    arguments: Seq<Seq<char>>,
    i: int,
    output_directory: Option<Seq<char>>,
    fixture: Option<Seq<char>>,
    all: bool,
) -> Result<(Option<Seq<char>>, Option<Seq<char>>, bool), Seq<char>>
    decreases arguments.len() - i,
{
    if i < 0 || i >= arguments.len() {
        Ok((output_directory, fixture, all))
    } else if arguments[i] == "--output-dir"@ {
        if i + 1 < arguments.len() {
            scanned_options(arguments, i + 2, Some(arguments[i + 1]), fixture, all)
        } else {
            Err("--output-dir requires a path"@)
        }
    } else if arguments[i] == "--fixture"@ {
        if i + 1 < arguments.len() {
            scanned_options(arguments, i + 2, output_directory, Some(arguments[i + 1]), all)
        } else {
            Err("--fixture requires an id"@)
        }
    } else if arguments[i] == "--all"@ {
        scanned_options(arguments, i + 1, output_directory, fixture, true)
    } else {
        Err("unknown ui argument "@ + debug_text(arguments[i]))
    }
}

/// What parsing the arguments of the UI snapshot tool gives.
pub open spec fn parsed_arguments(arguments: Seq<Seq<char>>) -> Result<UiArgumentsView, Seq<char>> {
    if arguments.len() == 0 {
        Err("ui requires an action: list, render, inspect, audit-text or verify"@)
    } else {
        let action = arguments[0];
        match scanned_options(arguments, 1, None, None, false) {
            Err(message) => Err(message),
            Ok((output_directory, fixture, all)) => if output_directory is None {
                Err("ui commands require an explicit --output-dir <path>"@)
            } else if fixture is Some && all {
                Err("use either --fixture <id> or --all, not both"@)
            } else if (action == "render"@ || action == "inspect"@) && fixture is None {
                Err("ui "@ + action + " requires --fixture <id>"@)
            } else if action == "audit-text"@ && fixture is None && !all {
                Err("ui audit-text requires --fixture <id> or --all"@)
            } else if (action == "list"@ || action == "verify"@) && (fixture is Some || all) {
                Err("ui "@ + action + " does not accept --fixture or --all"@)
            } else {
                Ok(
                    UiArgumentsView {
                        action,
                        output_directory: output_directory->0,
                        fixture,
                        all,
                    },
                )
            },
        }
    }
}

/// The views of a sequence of strings.
pub open spec fn string_views(strings: Seq<String>) -> Seq<Seq<char>> {
    strings.map_values(|s: String| s@)
}

/// Parses the arguments of the UI snapshot tool: the action, then
/// `--output-dir <path>` (required), `--fixture <id>` and `--all` (not both),
/// as the action needs them.
pub fn parse_arguments(arguments: Vec<String>) -> (r: Result<UiArguments, String>)
    ensures
        match r {
            Ok(parsed) => parsed_arguments(string_views(arguments@)) matches Ok(v) && v == parsed@,
            Err(e) => parsed_arguments(string_views(arguments@)) matches Err(m) && m == e@,
        },
{
    let ghost args = string_views(arguments@);
    if arguments.len() == 0 {
        return Err(owned("ui requires an action: list, render, inspect, audit-text or verify"));
    }
    let action = arguments[0].clone();
    let mut output_directory: Option<String> = None;
    let mut fixture: Option<String> = None;
    let mut all = false;
    let mut i: usize = 1;
    while i < arguments.len()
        invariant
            args == string_views(arguments@),
            1 <= i,
            scanned_options(args, 1, None, None, false) == scanned_options(
                args,
                i as int,
                match output_directory {
                    Some(o) => Some(o@),
                    None => None,
                },
                match fixture {
                    Some(f) => Some(f@),
                    None => None,
                },
                all,
            ),
        decreases arguments.len() - i,
    {
        let argument = arguments[i].as_str();
        if str_equal(argument, "--output-dir") {
            if i + 1 < arguments.len() {
                output_directory = Some(arguments[i + 1].clone());
                i = i + 2;
            } else {
                return Err(owned("--output-dir requires a path"));
            }
        } else if str_equal(argument, "--fixture") {
            if i + 1 < arguments.len() {
                fixture = Some(arguments[i + 1].clone());
                i = i + 2;
            } else {
                return Err(owned("--fixture requires an id"));
            }
        } else if str_equal(argument, "--all") {
            all = true;
            i = i + 1;
        } else {
            let mut text = chars_of("unknown ui argument ");
            let quoted = debug_quoted(argument);
            let quoted_chars = chars_of(quoted.as_str());
            push_chars(&mut text, &quoted_chars);
            return Err(string_from_chars(&text));
        }
    }
    let output_directory = match output_directory {
        Some(o) => o,
        None => {
            return Err(owned("ui commands require an explicit --output-dir <path>"));
        },
    };
    let has_fixture = match &fixture {
        Some(_) => true,
        None => false,
    };
    if has_fixture && all {
        return Err(owned("use either --fixture <id> or --all, not both"));
    }
    let name = action.as_str();
    if (str_equal(name, "render") || str_equal(name, "inspect")) && !has_fixture {
        let mut text = chars_of("ui ");
        push_str(&mut text, name);
        push_str(&mut text, " requires --fixture <id>");
        return Err(string_from_chars(&text));
    }
    if str_equal(name, "audit-text") && !has_fixture && !all {
        return Err(owned("ui audit-text requires --fixture <id> or --all"));
    }
    if (str_equal(name, "list") || str_equal(name, "verify")) && (has_fixture || all) {
        let mut text = chars_of("ui ");
        push_str(&mut text, name);
        push_str(&mut text, " does not accept --fixture or --all");
        return Err(string_from_chars(&text));
    }
    Ok(UiArguments { action, output_directory, fixture, all })
}

} // verus!
