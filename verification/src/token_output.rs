//! The generated Rust of resolved design tokens: the colour constant of a
//! theme.
use vstd::prelude::*;

use crate::strings::{chars_of, join_with, joined, push_chars, push_str, str_equal, string_from_chars};
use crate::tokens::{colour_literal, colour_literal_text, str_views, ResolvedValue, ResolvedView};

verus! {

/// How `str::to_uppercase` writes a text.
pub uninterp spec fn uppercase(text: Seq<char>) -> Seq<char>;

/// Calls std's `str::to_uppercase`. Claimed: the result depends on the text
/// alone (its case mapping is Unicode's, and no locale enters it).
#[verifier::external_body]
fn to_uppercase(text: &str) -> (r: String)
    ensures
        r@ == uppercase(text@),
{
    text.to_uppercase()
}

/// The fields of a theme's colour constant.
pub open spec fn colour_field_names() -> Seq<Seq<char>> {
    seq![
        "surface_canvas"@,
        "surface_panel"@,
        "surface_raised"@,
        "border_subtle"@,
        "text_primary"@,
        "text_muted"@,
        "accent_primary"@,
        "accent_on_accent"@,
        "selection_background"@,
        "focus_ring"@,
        "status_success"@,
        "status_warning"@,
        "status_error"@,
    ]
}

/// The token each field of a theme's colour constant takes its colour from.
pub open spec fn colour_field_paths() -> Seq<Seq<char>> {
    seq![
        "colour.surface.canvas"@,
        "colour.surface.panel"@,
        "colour.surface.raised"@,
        "colour.border.subtle"@,
        "colour.text.primary"@,
        "colour.text.muted"@,
        "colour.accent.primary"@,
        "colour.accent.onAccent"@,
        "colour.selection.background"@,
        "colour.focus.ring"@,
        "colour.status.success"@,
        "colour.status.warning"@,
        "colour.status.error"@,
    ]
}

/// The resolved value of the first token named `path`, from position `k` on.
pub open spec fn resolved_lookup(values: Seq<(Seq<char>, ResolvedView)>, path: Seq<char>, k: int) -> Option<ResolvedView>
    decreases values.len() - k,
{
    if k < 0 || k >= values.len() {
        None
    } else if values[k].0 == path {
        Some(values[k].1)
    } else {
        resolved_lookup(values, path, k + 1)
    }
}

/// The colour of the token `path`, which generation requires.
pub open spec fn required_colour(values: Seq<(Seq<char>, ResolvedView)>, path: Seq<char>) -> Result<Seq<u8>, Seq<char>> {
    match resolved_lookup(values, path, 0) {
        Some(ResolvedView::Color(channels)) => Ok(channels),
        Some(_) => Err("required generated token "@ + path + " is not a color"@),
        None => Err("required generated token "@ + path + " is missing"@),
    }
}

/// The lines of a colour constant from field `k` on.
pub open spec fn colour_lines_from(values: Seq<(Seq<char>, ResolvedView)>, k: int) -> Result<Seq<Seq<char>>, Seq<char>>
    decreases 13 - k,
{
    if k < 0 || k >= 13 {
        Ok(Seq::empty())
    } else {
        match required_colour(values, colour_field_paths()[k]) {
            Err(message) => Err(message),
            Ok(channels) => match colour_lines_from(values, k + 1) {
                Err(message) => Err(message),
                Ok(rest) => Ok(
                    seq!["    "@ + colour_field_names()[k] + ": "@ + colour_literal_text(channels) + ","@] + rest,
                ),
            },
        }
    }
}

/// `text` with each `-` written as `_`.
pub open spec fn dashes_to_underscores(text: Seq<char>) -> Seq<char> {
    text.map_values(|c: char| if c == '-' { '_' } else { c })
}

/// The colour constant of the theme `name`, or the first colour it lacks.
pub open spec fn colour_constant_text(name: Seq<char>, values: Seq<(Seq<char>, ResolvedView)>) -> Result<Seq<char>, Seq<char>> {
    match colour_lines_from(values, 0) {
        Err(message) => Err(message),
        Ok(lines) => Ok(
            "const COLOURS_"@ + uppercase(dashes_to_underscores(name)) + ": ColourTokens = ColourTokens {\n"@
                + joined(lines, "\n"@) + "\n};"@,
        ),
    }
}

pub open spec fn resolved_views(values: Seq<(String, ResolvedValue)>) -> Seq<(Seq<char>, ResolvedView)> {
    values.map_values(|v: (String, ResolvedValue)| (v.0@, v.1@))
}

/// The colour of the token `path`, which generation requires.
fn colour_of_token(values: &Vec<(String, ResolvedValue)>, path: &str) -> (r: Result<[u8; 4], String>)
    ensures
        match required_colour(resolved_views(values@), path@) {
            Ok(channels) => r matches Ok(c) && c@ == channels,
            Err(message) => r matches Err(e) && e@ == message,
        },
{
    let ghost views = resolved_views(values@);
    let mut k: usize = 0;
    while k < values.len()
        invariant
            views == resolved_views(values@),
            0 <= k <= values.len(),
            resolved_lookup(views, path@, 0) == resolved_lookup(views, path@, k as int),
        decreases values.len() - k,
    {
        if str_equal(values[k].0.as_str(), path) {
            match values[k].1 {
                ResolvedValue::Color(channels) => {
                    return Ok(channels);
                },
                _ => {
                    let mut message = chars_of("required generated token ");
                    push_str(&mut message, path);
                    push_str(&mut message, " is not a color");
                    return Err(string_from_chars(&message));
                },
            }
        }
        k = k + 1;
    }
    let mut message = chars_of("required generated token ");
    push_str(&mut message, path);
    push_str(&mut message, " is missing");
    Err(string_from_chars(&message))
}

/// The generated colour constant of the theme `name`, one field for each
/// colour a theme defines; or the first colour that `values` lacks.
pub fn colour_constant(name: &str, values: &Vec<(String, ResolvedValue)>) -> (r: Result<String, String>)
    ensures
        match colour_constant_text(name@, resolved_views(values@)) {
            Ok(text) => r matches Ok(t) && t@ == text,
            Err(message) => r matches Err(e) && e@ == message,
        },
{
    let mut renamed: Vec<char> = Vec::new();
    let chars = chars_of(name);
    let mut i: usize = 0;
    while i < chars.len()
        invariant
            chars@ == name@,
            0 <= i <= chars.len(),
            renamed@ == dashes_to_underscores(name@).take(i as int),
        decreases chars.len() - i,
    {
        let c = if chars[i] == '-' {
            '_'
        } else {
            chars[i]
        };
        renamed.push(c);
        proof {
            assert(dashes_to_underscores(name@).take(i + 1) =~= dashes_to_underscores(name@).take(i as int).push(c));
        }
        i = i + 1;
    }
    proof {
        assert(dashes_to_underscores(name@).take(chars.len() as int) =~= dashes_to_underscores(name@));
    }
    let renamed = string_from_chars(&renamed);
    let constant = to_uppercase(renamed.as_str());
    let fields: [&str; 13] = [
        "surface_canvas",
        "surface_panel",
        "surface_raised",
        "border_subtle",
        "text_primary",
        "text_muted",
        "accent_primary",
        "accent_on_accent",
        "selection_background",
        "focus_ring",
        "status_success",
        "status_warning",
        "status_error",
    ];
    let paths: [&str; 13] = [
        "colour.surface.canvas",
        "colour.surface.panel",
        "colour.surface.raised",
        "colour.border.subtle",
        "colour.text.primary",
        "colour.text.muted",
        "colour.accent.primary",
        "colour.accent.onAccent",
        "colour.selection.background",
        "colour.focus.ring",
        "colour.status.success",
        "colour.status.warning",
        "colour.status.error",
    ];
    proof {
        assert(str_views(fields@) =~= colour_field_names());
        assert(str_views(paths@) =~= colour_field_paths());
    }
    let ghost views = resolved_views(values@);
    let mut lines: Vec<String> = Vec::new();
    let mut k: usize = 0;
    while k < 13
        invariant
            views == resolved_views(values@),
            str_views(fields@) == colour_field_names(),
            str_views(paths@) == colour_field_paths(),
            0 <= k <= 13,
            colour_lines_from(views, 0) == match colour_lines_from(views, k as int) {
                Ok(rest) => Ok(crate::text_order::string_views(lines@) + rest),
                Err(message) => Err::<Seq<Seq<char>>, Seq<char>>(message),
            },
        decreases 13 - k,
    {
        let channels = match colour_of_token(values, paths[k]) {
            Ok(channels) => channels,
            Err(message) => {
                return Err(message);
            },
        };
        let literal = colour_literal(channels);
        let mut line = chars_of("    ");
        push_str(&mut line, fields[k]);
        push_str(&mut line, ": ");
        push_str(&mut line, literal.as_str());
        push_str(&mut line, ",");
        let ghost done = crate::text_order::string_views(lines@);
        let line = string_from_chars(&line);
        proof {
            assert(fields@[k as int]@ == colour_field_names()[k as int]);
            assert(paths@[k as int]@ == colour_field_paths()[k as int]);
        }
        lines.push(line);
        proof {
            assert(crate::text_order::string_views(lines@) =~= done.push(line@));
            match colour_lines_from(views, k + 1) {
                Ok(rest) => {
                    assert(done + (seq![line@] + rest) =~= done.push(line@) + rest);
                },
                Err(_) => {},
            }
        }
        k = k + 1;
    }
    proof {
        let done = crate::text_order::string_views(lines@);
        assert(done + Seq::<Seq<char>>::empty() =~= done);
    }
    let body = join_with(&lines, "\n");
    let mut text = chars_of("const COLOURS_");
    push_str(&mut text, constant.as_str());
    push_str(&mut text, ": ColourTokens = ColourTokens {\n");
    push_chars(&mut text, &body);
    push_str(&mut text, "\n};");
    Ok(string_from_chars(&text))
}

} // verus!
