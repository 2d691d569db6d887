//! The design token source: a JSON document of token groups, tokens with a
//! `$type` and a `$value`, and theme and density variants that override
//! token values. Reading it collects the base tokens and the variants'
//! overrides and checks their shapes.
use vstd::prelude::*;

use crate::strings::{chars_of, join_with, joined, owned, push_chars, push_str, str_equal, string_from_chars};
use crate::text_order::{
    arranged, ascending_order, holds, in_order, keys_in, lemma_arrangement_unique, lists, sorted_unique, string_views,
};
use crate::tokens::{
    overrides_view, variant_resolution, ResolveError, ResolveErrorView, ResolvedView,
    domain_problem_from, validate_override_domains, variant_path_views,
    alias_of, alias_target, definition_of, definition_views, override_views, OverrideView, TokenOverride, token_type_named, unsupported_type, DefinitionView, TokenDefinition,
    TokenType, TokenValue, TokenValueView,
};

verus! {

/// What the shape checks read of a JSON number, as floating point
/// arithmetic finds it: the bit pattern of its `f64`, whether that is
/// finite, whether it stays finite as an `f32`, whether it is below zero,
/// whether it has no fractional part, whether it is at most `u32::MAX`, and
/// whether it lies from 1 to 1000.
#[derive(Clone, Copy, Debug, PartialEq, Eq)]
pub struct NumberFacts {
    pub bits: u64,
    pub finite: bool,
    pub finite_as_f32: bool,
    pub negative: bool,
    pub whole: bool,
    pub within_u32: bool,
    pub within_weight_range: bool,
}

/// A JSON value. An object lists its members in order.
#[derive(Debug)]
pub enum Json {
    Null,
    Bool(bool),
    Number(NumberFacts),
    Text(String),
    Array(Vec<Json>),
    Object(Vec<(String, Json)>),
}

/// The value of the first member named `key`, from position `k` on.
pub open spec fn member_from(entries: Seq<(String, Json)>, key: Seq<char>, k: int) -> Option<Json>
    decreases entries.len() - k,
{
    if k < 0 || k >= entries.len() {
        None
    } else if entries[k].0@ == key {
        Some(entries[k].1)
    } else {
        member_from(entries, key, k + 1)
    }
}

/// The value of the first member named `key`.
pub open spec fn member(entries: Seq<(String, Json)>, key: Seq<char>) -> Option<Json> {
    member_from(entries, key, 0)
}

/// A member name that is an extension: it begins with `$`.
pub open spec fn is_extension(name: Seq<char>) -> bool {
    name.len() > 0 && name[0] == '$'
}

/// Some member is no extension: it is a child.
pub open spec fn has_child(entries: Seq<(String, Json)>) -> bool {
    exists|k: int| 0 <= k < entries.len() && !is_extension(#[trigger] entries[k].0@)
}

/// The first extension member from position `k` on that `allowed` does not
/// list, reported for `label`.
pub open spec fn extension_problem(
    entries: Seq<(String, Json)>,
    label: Seq<char>,
    allowed: Seq<Seq<char>>,
    k: int,
) -> Option<Seq<char>>
    decreases entries.len() - k,
{
    if k < 0 || k >= entries.len() {
        None
    } else if is_extension(entries[k].0@) && !allowed.contains(entries[k].0@) {
        Some(label + " uses unsupported construct "@ + entries[k].0@)
    } else {
        extension_problem(entries, label, allowed, k + 1)
    }
}

/// The token value a JSON value gives: text, a number's `f64` bits, or
/// anything else.
pub open spec fn value_of(value: Json) -> TokenValueView {
    match value {
        Json::Text(text) => TokenValueView::Text(text@),
        Json::Number(facts) => TokenValueView::Number(facts.bits),
        _ => TokenValueView::Other,
    }
}

/// Why `value` cannot be the value of a token of type `token_type` at
/// `path`, if it cannot: a malformed alias; a colour that is not text; a
/// number that is not finite, not finite as an `f32`, negative for a size or
/// a duration, not a whole number of milliseconds within `u32` for a
/// duration, or not a whole weight from 1 to 1000 for a font weight; or
/// neither a number nor an alias for the other types.
pub open spec fn shape_problem(path: Seq<char>, token_type: TokenType, value: Json) -> Option<Seq<char>> {
    let alias = match value {
        Json::Text(text) => alias_of(text@),
        _ => Ok(None),
    };
    match alias {
        Err(message) => Some(message),
        Ok(Some(_)) => None,
        Ok(None) => match value {
            Json::Text(_) => if token_type == TokenType::Color {
                None
            } else {
                Some("token "@ + path + " must contain a finite JSON number or an alias"@)
            },
            Json::Number(facts) => if token_type == TokenType::Color {
                Some("color token "@ + path + " must be #RRGGBB, #RRGGBBAA or an alias"@)
            } else if !facts.finite {
                Some("token "@ + path + " must contain a finite number"@)
            } else if !facts.finite_as_f32 {
                Some("token "@ + path + " must remain finite when represented as f32"@)
            } else if (token_type == TokenType::Dimension || token_type == TokenType::Duration
                || token_type == TokenType::FontSize) && facts.negative {
                Some("token "@ + path + " cannot be negative"@)
            } else if token_type == TokenType::Duration && (!facts.whole || !facts.within_u32) {
                Some("duration token "@ + path + " must be a whole number of milliseconds within u32"@)
            } else if token_type == TokenType::FontWeight && (!facts.whole || !facts.within_weight_range) {
                Some("fontWeight token "@ + path + " must be a whole number from 1 to 1000"@)
            } else {
                None
            },
            _ => if token_type == TokenType::Color {
                Some("color token "@ + path + " must be #RRGGBB, #RRGGBBAA or an alias"@)
            } else {
                Some("token "@ + path + " must contain a finite JSON number or an alias"@)
            },
        },
    }
}

/// The value of the first member named `key`.
fn member_exec<'a>(entries: &'a Vec<(String, Json)>, key: &str) -> (r: Option<&'a Json>)
    ensures
        match member(entries@, key@) {
            None => r is None,
            Some(value) => r matches Some(v) && *v == value,
        },
{
    let mut k: usize = 0;
    while k < entries.len()
        invariant
            0 <= k <= entries.len(),
            member(entries@, key@) == member_from(entries@, key@, k as int),
        decreases entries.len() - k,
    {
        if str_equal(entries[k].0.as_str(), key) {
            return Some(&entries[k].1);
        }
        k = k + 1;
    }
    None
}

/// Whether `name` begins with `$`.
fn is_extension_exec(name: &str) -> (r: bool)
    ensures
        r == is_extension(name@),
{
    let chars = chars_of(name);
    chars.len() > 0 && chars[0] == '$'
}

/// Whether some member is a child.
fn has_child_exec(entries: &Vec<(String, Json)>) -> (r: bool)
    ensures
        r == has_child(entries@),
{
    let mut k: usize = 0;
    while k < entries.len()
        invariant
            0 <= k <= entries.len(),
            forall|j: int| 0 <= j < k ==> is_extension(#[trigger] entries@[j].0@),
        decreases entries.len() - k,
    {
        if !is_extension_exec(entries[k].0.as_str()) {
            assert(!is_extension(entries@[k as int].0@));
            return true;
        }
        k = k + 1;
    }
    false
}

/// Whether `allowed` lists `name`.
fn listed(allowed: &[&str], name: &str) -> (r: bool)
    ensures
        r == crate::tokens::str_views(allowed@).contains(name@),
{
    let ghost views = crate::tokens::str_views(allowed@);
    let mut i: usize = 0;
    while i < allowed.len()
        invariant
            views == crate::tokens::str_views(allowed@),
            0 <= i <= allowed.len(),
            forall|j: int| 0 <= j < i ==> views[j] != name@,
        decreases allowed.len() - i,
    {
        if str_equal(allowed[i], name) {
            assert(views[i as int] == name@);
            return true;
        }
        i = i + 1;
    }
    false
}

/// Checks that every extension member is one `allowed` lists; the error
/// reports the first that is not, for `label`.
fn check_extensions(entries: &Vec<(String, Json)>, label: &str, allowed: &[&str]) -> (r: Result<(), String>)
    ensures
        match extension_problem(entries@, label@, crate::tokens::str_views(allowed@), 0) {
            None => r is Ok,
            Some(message) => r matches Err(e) && e@ == message,
        },
{
    let ghost views = crate::tokens::str_views(allowed@);
    let mut k: usize = 0;
    while k < entries.len()
        invariant
            views == crate::tokens::str_views(allowed@),
            0 <= k <= entries.len(),
            extension_problem(entries@, label@, views, 0) == extension_problem(entries@, label@, views, k as int),
        decreases entries.len() - k,
    {
        let name = entries[k].0.as_str();
        if is_extension_exec(name) && !listed(allowed, name) {
            let mut message = chars_of(label);
            push_str(&mut message, " uses unsupported construct ");
            push_str(&mut message, name);
            return Err(string_from_chars(&message));
        }
        k = k + 1;
    }
    Ok(())
}

/// `prefix`, `path`, then `suffix`, as a string.
fn path_message(prefix: &str, path: &str, suffix: &str) -> (r: String)
    ensures
        r@ == prefix@ + path@ + suffix@,
{
    let mut message = chars_of(prefix);
    push_str(&mut message, path);
    push_str(&mut message, suffix);
    string_from_chars(&message)
}

/// `text` followed by `suffix`, as a string.
fn suffixed(text: &str, suffix: &str) -> (r: String)
    ensures
        r@ == text@ + suffix@,
{
    let mut message = chars_of(text);
    push_str(&mut message, suffix);
    string_from_chars(&message)
}

/// Checks that `value` can be the value of a token of type `token_type` at
/// `path`.
fn check_shape(path: &str, token_type: TokenType, value: &Json) -> (r: Result<(), String>)
    ensures
        match shape_problem(path@, token_type, *value) {
            None => r is Ok,
            Some(message) => r matches Err(e) && e@ == message,
        },
{
    let text = match value {
        Json::Text(text) => Some(text.as_str()),
        _ => None,
    };
    match alias_target(text) {
        Err(message) => {
            return Err(message);
        },
        Ok(Some(_)) => {
            return Ok(());
        },
        Ok(None) => {},
    }
    let is_colour = token_type == TokenType::Color;
    match value {
        Json::Text(_) => {
            if is_colour {
                Ok(())
            } else {
                Err(path_message("token ", path, " must contain a finite JSON number or an alias"))
            }
        },
        Json::Number(facts) => {
            if is_colour {
                Err(path_message("color token ", path, " must be #RRGGBB, #RRGGBBAA or an alias"))
            } else if !facts.finite {
                Err(path_message("token ", path, " must contain a finite number"))
            } else if !facts.finite_as_f32 {
                Err(path_message("token ", path, " must remain finite when represented as f32"))
            } else if (token_type == TokenType::Dimension || token_type == TokenType::Duration
                || token_type == TokenType::FontSize) && facts.negative {
                Err(path_message("token ", path, " cannot be negative"))
            } else if token_type == TokenType::Duration && (!facts.whole || !facts.within_u32) {
                Err(path_message("duration token ", path, " must be a whole number of milliseconds within u32"))
            } else if token_type == TokenType::FontWeight && (!facts.whole || !facts.within_weight_range) {
                Err(path_message("fontWeight token ", path, " must be a whole number from 1 to 1000"))
            } else {
                Ok(())
            }
        },
        _ => {
            if is_colour {
                Err(path_message("color token ", path, " must be #RRGGBB, #RRGGBBAA or an alias"))
            } else {
                Err(path_message("token ", path, " must contain a finite JSON number or an alias"))
            }
        },
    }
}

/// The token value of a JSON value.
fn token_value(value: &Json) -> (r: TokenValue)
    ensures
        r@ == value_of(*value),
{
    match value {
        Json::Text(text) => TokenValue::Text(text.clone()),
        Json::Number(facts) => TokenValue::Number(facts.bits),
        _ => TokenValue::Other,
    }
}

/// The extensions a token may have.
pub open spec fn token_extensions() -> Seq<Seq<char>> {
    seq!["$description"@, "$type"@, "$value"@]
}

/// The extensions a group may have.
pub open spec fn group_extensions() -> Seq<Seq<char>> {
    seq!["$description"@]
}

/// Members that make an object a token rather than a group.
pub open spec fn is_token(entries: Seq<(String, Json)>) -> bool {
    member(entries, "$value"@) is Some || member(entries, "$type"@) is Some
}

/// The token at `path` that the members `entries` define, or why it is
/// refused: an unsupported extension, a child, a `$type` that is missing, not
/// text or not supported, a missing `$value`, or a value of the wrong shape.
pub open spec fn token_at(entries: Seq<(String, Json)>, path: Seq<char>) -> Result<DefinitionView, Seq<char>> {
    match extension_problem(entries, path, token_extensions(), 0) {
        Some(message) => Err(message),
        None => if has_child(entries) {
            Err("token "@ + path + " cannot contain child tokens"@)
        } else {
            match member(entries, "$type"@) {
                Some(Json::Text(name)) => match token_type_named(name@) {
                    None => Err(unsupported_type(name@, path)),
                    Some(token_type) => match member(entries, "$value"@) {
                        None => Err("token "@ + path + " must define $value"@),
                        Some(value) => match shape_problem(path, token_type, value) {
                            Some(message) => Err(message),
                            None => Ok(DefinitionView { path, token_type, value: value_of(value) }),
                        },
                    },
                },
                _ => Err("token "@ + path + " must define a string $type"@),
            }
        }
    }
}

/// Some token already found has `path`.
pub open spec fn path_found(found: Seq<DefinitionView>, path: Seq<char>) -> bool {
    exists|i: int| 0 <= i < found.len() && found[i].path == path
}

/// The tokens found after `found` by reading the group or token `value` at
/// `path`, in the order they are met; or the first problem.
pub open spec fn base_from(value: Json, path: Seq<char>, found: Seq<DefinitionView>) -> Result<Seq<DefinitionView>, Seq<char>>
    decreases value, 0int,
{
    match value {
        Json::Object(entries) => if is_token(entries@) {
            match token_at(entries@, path) {
                Err(message) => Err(message),
                Ok(definition) => if path_found(found, path) {
                    Err("duplicate token path "@ + path)
                } else {
                    Ok(found.push(definition))
                },
            }
        } else {
            match extension_problem(entries@, path, group_extensions(), 0) {
                Some(message) => Err(message),
                None => if !has_child(entries@) {
                    Err("token group "@ + path + " is empty"@)
                } else {
                    children_from(entries@, path, found, 0)
                },
            }
        },
        _ => Err("group or token "@ + path + " must be a JSON object"@),
    }
}

/// The tokens found after `found` by reading the children of the group at
/// `path` from position `k` on; or the first problem.
pub open spec fn children_from(
    entries: Seq<(String, Json)>,
    path: Seq<char>,
    found: Seq<DefinitionView>,
    k: int,
) -> Result<Seq<DefinitionView>, Seq<char>>
    decreases entries, entries.len() - k,
{
    if k < 0 || k >= entries.len() {
        Ok(found)
    } else if is_extension(entries[k].0@) {
        children_from(entries, path, found, k + 1)
    } else {
        match base_from(entries[k].1, path + "."@ + entries[k].0@, found) {
            Err(message) => Err(message),
            Ok(more) => children_from(entries, path, more, k + 1),
        }
    }
}

/// Whether the members make a token.
fn is_token_exec(entries: &Vec<(String, Json)>) -> (r: bool)
    ensures
        r == is_token(entries@),
{
    member_exec(entries, "$value").is_some() || member_exec(entries, "$type").is_some()
}

/// The token at `path` that the members `entries` define.
fn read_token(entries: &Vec<(String, Json)>, path: &str) -> (r: Result<TokenDefinition, String>)
    ensures
        match token_at(entries@, path@) {
            Ok(definition) => r matches Ok(d) && d@ == definition,
            Err(message) => r matches Err(e) && e@ == message,
        },
{
    let allowed: [&str; 3] = ["$description", "$type", "$value"];
    proof {
        assert(crate::tokens::str_views(allowed@) =~= token_extensions());
    }
    check_extensions(entries, path, &allowed)?;
    if has_child_exec(entries) {
        return Err(path_message("token ", path, " cannot contain child tokens"));
    }
    let name = match member_exec(entries, "$type") {
        Some(Json::Text(name)) => name,
        _ => {
            return Err(path_message("token ", path, " must define a string $type"));
        },
    };
    let token_type = TokenType::parse(name.as_str(), path)?;
    let value = match member_exec(entries, "$value") {
        None => {
            return Err(path_message("token ", path, " must define $value"));
        },
        Some(value) => value,
    };
    check_shape(path, token_type, value)?;
    Ok(TokenDefinition { path: owned(path), token_type, value: token_value(value) })
}

/// Whether a token already found has `path`.
fn found_before(found: &Vec<TokenDefinition>, path: &str) -> (r: bool)
    ensures
        r == path_found(definition_views(found@), path@),
{
    let ghost views = definition_views(found@);
    let mut i: usize = 0;
    while i < found.len()
        invariant
            views == definition_views(found@),
            0 <= i <= found.len(),
            forall|j: int| 0 <= j < i ==> views[j].path != path@,
        decreases found.len() - i,
    {
        if str_equal(found[i].path.as_str(), path) {
            assert(views[i as int].path == path@);
            return true;
        }
        i = i + 1;
    }
    false
}

/// Reads the group or token `value` at `path`, adding the tokens it defines
/// to `found` in the order they are met.
fn collect_base(value: &Json, path: &str, found: &mut Vec<TokenDefinition>) -> (r: Result<(), String>)
    requires
        distinct_definition_paths(definition_views(old(found)@)),
    ensures
        distinct_definition_paths(definition_views(final(found)@)),
        match base_from(*value, path@, definition_views(old(found)@)) {
            Ok(after) => r is Ok && definition_views(final(found)@) == after,
            Err(message) => r matches Err(e) && e@ == message,
        },
    decreases value,
{
    let entries = match value {
        Json::Object(entries) => entries,
        _ => {
            return Err(path_message("group or token ", path, " must be a JSON object"));
        },
    };
    if is_token_exec(entries) {
        let definition = read_token(entries, path)?;
        if found_before(found, path) {
            let message = path_message("duplicate token path ", path, "");
            proof {
                reveal_strlit("");
                assert(message@ =~= "duplicate token path "@ + path@);
            }
            return Err(message);
        }
        let ghost before = definition_views(found@);
        found.push(definition);
        proof {
            reveal_strlit("");
            assert("duplicate token path "@ + path@ + ""@ =~= "duplicate token path "@ + path@);
            assert(definition_views(found@) =~= before.push(definition@));
        }
        return Ok(());
    }
    let allowed: [&str; 1] = ["$description"];
    proof {
        assert(crate::tokens::str_views(allowed@) =~= group_extensions());
    }
    check_extensions(entries, path, &allowed)?;
    if !has_child_exec(entries) {
        return Err(path_message("token group ", path, " is empty"));
    }
    let ghost start = definition_views(found@);
    let mut k: usize = 0;
    while k < entries.len()
        invariant
            *value == Json::Object(*entries),
            start == definition_views(old(found)@),
            distinct_definition_paths(definition_views(found@)),
            !is_token(entries@),
            extension_problem(entries@, path@, group_extensions(), 0) is None,
            has_child(entries@),
            0 <= k <= entries.len(),
            base_from(*value, path@, start) == children_from(entries@, path@, definition_views(found@), k as int),
        decreases entries.len() - k,
    {
        let name = entries[k].0.as_str();
        if !is_extension_exec(name) {
            let mut child_path = chars_of(path);
            push_str(&mut child_path, ".");
            push_str(&mut child_path, name);
            let child_path = string_from_chars(&child_path);
            proof {
                assert(decreases_to!(*value => entries@[k as int].1));
            }
            match collect_base(&entries[k].1, child_path.as_str(), found) {
                Ok(()) => {},
                Err(message) => {
                    return Err(message);
                },
            }
        }
        k = k + 1;
    }
    Ok(())
}

/// How a problem of the override at `path` of `variant` is located.
pub open spec fn location(variant: Seq<char>, path: Seq<char>) -> Seq<char> {
    if path.len() == 0 {
        "variant "@ + variant
    } else {
        "variant "@ + variant + " token "@ + path
    }
}

/// The type an override declares, if it declares one, or why it is refused.
pub open spec fn declared_type_of(entries: Seq<(String, Json)>, label: Seq<char>, path: Seq<char>) -> Result<Option<TokenType>, Seq<char>> {
    match member(entries, "$type"@) {
        None => Ok(None),
        Some(Json::Text(name)) => match token_type_named(name@) {
            None => Err(unsupported_type(name@, path)),
            Some(token_type) => Ok(Some(token_type)),
        },
        Some(_) => Err(label + " $type must be a string"@),
    }
}

/// The override at `path` of `variant` that the members `entries` define,
/// checked against the base tokens, or why it is refused: an unsupported
/// extension, a child, no such base token, a `$type` that is not text, not
/// supported or not the base token's, a missing `$value`, or a value of the
/// wrong shape for the base token's type.
pub open spec fn override_at(
    entries: Seq<(String, Json)>,
    variant: Seq<char>,
    path: Seq<char>,
    base: Seq<DefinitionView>,
) -> Result<OverrideView, Seq<char>> {
    let label = location(variant, path);
    match extension_problem(entries, label, token_extensions(), 0) {
        Some(message) => Err(message),
        None => if has_child(entries) {
            Err(label + " cannot contain child tokens"@)
        } else {
            match definition_of(base, path) {
                None => Err("variant "@ + variant + " overrides unknown token "@ + path),
                Some(definition) => match declared_type_of(entries, label, path) {
                    Err(message) => Err(message),
                    Ok(declared) => if declared matches Some(t) && t != definition.token_type {
                        Err("variant "@ + variant + " changes the type of token "@ + path)
                    } else {
                        match member(entries, "$value"@) {
                            None => Err(label + " must define $value"@),
                            Some(value) => match shape_problem(path, definition.token_type, value) {
                                Some(message) => Err(message),
                                None => Ok(OverrideView { path, declared_type: declared, value: value_of(value) }),
                            },
                        }
                    },
                },
            }
        }
    }
}

/// The overrides found so far, each path once.
pub open spec fn distinct_override_paths(found: Seq<OverrideView>) -> bool {
    forall|i: int, j: int| 0 <= i < j < found.len() ==> found[i].path != found[j].path
}

/// `found` with `overriding` in place of the override of its path, or added.
pub open spec fn with_override(found: Seq<OverrideView>, overriding: OverrideView) -> Seq<OverrideView> {
    if exists|i: int| 0 <= i < found.len() && found[i].path == overriding.path {
        found.update(choose|i: int| 0 <= i < found.len() && found[i].path == overriding.path, overriding)
    } else {
        found.push(overriding)
    }
}

/// The overrides found after `found` by reading the value at `path` of
/// `variant`; or the first problem.
pub open spec fn overrides_from(
    value: Json,
    variant: Seq<char>,
    path: Seq<char>,
    base: Seq<DefinitionView>,
    found: Seq<OverrideView>,
) -> Result<Seq<OverrideView>, Seq<char>>
    decreases value, 0int,
{
    match value {
        Json::Object(entries) => if is_token(entries@) {
            if path.len() == 0 {
                Err("variant "@ + variant + " must contain token paths"@)
            } else {
                match override_at(entries@, variant, path, base) {
                    Err(message) => Err(message),
                    Ok(overriding) => Ok(with_override(found, overriding)),
                }
            }
        } else {
            match extension_problem(entries@, location(variant, path), group_extensions(), 0) {
                Some(message) => Err(message),
                None => override_children(entries@, variant, path, base, found, 0),
            }
        },
        _ => Err(location(variant, path) + " must be a JSON object"@),
    }
}

/// The path of the child `name` of `path`.
pub open spec fn child_path(path: Seq<char>, name: Seq<char>) -> Seq<char> {
    if path.len() == 0 {
        name
    } else {
        path + "."@ + name
    }
}

/// The overrides found after `found` by reading the children at `path` of
/// `variant` from position `k` on; or the first problem.
pub open spec fn override_children(
    entries: Seq<(String, Json)>,
    variant: Seq<char>,
    path: Seq<char>,
    base: Seq<DefinitionView>,
    found: Seq<OverrideView>,
    k: int,
) -> Result<Seq<OverrideView>, Seq<char>>
    decreases entries, entries.len() - k,
{
    if k < 0 || k >= entries.len() {
        Ok(found)
    } else if is_extension(entries[k].0@) {
        override_children(entries, variant, path, base, found, k + 1)
    } else {
        match overrides_from(entries[k].1, variant, child_path(path, entries[k].0@), base, found) {
            Err(message) => Err(message),
            Ok(more) => override_children(entries, variant, path, base, more, k + 1),
        }
    }
}

/// How a problem of the override at `path` of `variant` is located.
fn location_text(variant: &str, path: &str) -> (r: String)
    ensures
        r@ == location(variant@, path@),
{
    let mut text = chars_of("variant ");
    push_str(&mut text, variant);
    let path_chars = chars_of(path);
    if path_chars.len() > 0 {
        push_str(&mut text, " token ");
        push_str(&mut text, path);
    }
    string_from_chars(&text)
}

/// The override at `path` of `variant` that the members `entries` define.
fn read_override(
    entries: &Vec<(String, Json)>,
    variant: &str,
    path: &str,
    base: &Vec<TokenDefinition>,
) -> (r: Result<TokenOverride, String>)
    ensures
        match override_at(entries@, variant@, path@, definition_views(base@)) {
            Ok(overriding) => r matches Ok(o) && o@ == overriding,
            Err(message) => r matches Err(e) && e@ == message,
        },
{
    let label = location_text(variant, path);
    let allowed: [&str; 3] = ["$description", "$type", "$value"];
    proof {
        assert(crate::tokens::str_views(allowed@) =~= token_extensions());
    }
    check_extensions(entries, label.as_str(), &allowed)?;
    if has_child_exec(entries) {
        return Err(suffixed(label.as_str(), " cannot contain child tokens"));
    }
    let index = match crate::tokens::find_definition(base, path) {
        None => {
            let mut message = chars_of("variant ");
            push_str(&mut message, variant);
            push_str(&mut message, " overrides unknown token ");
            push_str(&mut message, path);
            return Err(string_from_chars(&message));
        },
        Some(index) => index,
    };
    let base_type = base[index].token_type;
    let declared_type = match member_exec(entries, "$type") {
        None => None,
        Some(Json::Text(name)) => Some(TokenType::parse(name.as_str(), path)?),
        Some(_) => {
            return Err(suffixed(label.as_str(), " $type must be a string"));
        },
    };
    if let Some(declared) = declared_type {
        if declared != base_type {
            let mut message = chars_of("variant ");
            push_str(&mut message, variant);
            push_str(&mut message, " changes the type of token ");
            push_str(&mut message, path);
            return Err(string_from_chars(&message));
        }
    }
    let value = match member_exec(entries, "$value") {
        None => {
            return Err(suffixed(label.as_str(), " must define $value"));
        },
        Some(value) => value,
    };
    check_shape(path, base_type, value)?;
    Ok(TokenOverride { path: owned(path), declared_type, value: token_value(value) })
}

/// Puts `overriding` in place of the override of its path, or adds it.
fn insert_override(found: &mut Vec<TokenOverride>, overriding: TokenOverride)
    requires
        distinct_override_paths(override_views(old(found)@)),
    ensures
        override_views(final(found)@) == with_override(override_views(old(found)@), overriding@),
        distinct_override_paths(override_views(final(found)@)),
{
    let ghost views = override_views(found@);
    let mut i: usize = 0;
    while i < found.len()
        invariant
            views == override_views(found@),
            views == override_views(old(found)@),
            distinct_override_paths(views),
            0 <= i <= found.len(),
            forall|j: int| 0 <= j < i ==> views[j].path != overriding@.path,
        decreases found.len() - i,
    {
        if str_equal(found[i].path.as_str(), overriding.path.as_str()) {
            let ghost new_view = overriding@;
            found.set(i, overriding);
            proof {
                assert(views[i as int].path == new_view.path);
                let c = choose|c: int| 0 <= c < views.len() && views[c].path == new_view.path;
                assert(c == i as int) by {
                    if c != i as int {
                        assert(views[c].path == views[i as int].path);
                    }
                }
                assert(override_views(found@) =~= views.update(i as int, new_view));
            }
            return;
        }
        i = i + 1;
    }
    let ghost new_view = overriding@;
    found.push(overriding);
    proof {
        assert(override_views(found@) =~= views.push(new_view));
    }
}

/// Reads the value at `path` of `variant`, adding the overrides it defines
/// to `found`.
fn collect_overrides(
    value: &Json,
    variant: &str,
    path: &str,
    base: &Vec<TokenDefinition>,
    found: &mut Vec<TokenOverride>,
) -> (r: Result<(), String>)
    requires
        distinct_override_paths(override_views(old(found)@)),
    ensures
        distinct_override_paths(override_views(final(found)@)),
        match overrides_from(*value, variant@, path@, definition_views(base@), override_views(old(found)@)) {
            Ok(after) => r is Ok && override_views(final(found)@) == after,
            Err(message) => r matches Err(e) && e@ == message,
        },
    decreases value,
{
    let entries = match value {
        Json::Object(entries) => entries,
        _ => {
            let label = location_text(variant, path);
            return Err(suffixed(label.as_str(), " must be a JSON object"));
        },
    };
    if is_token_exec(entries) {
        let path_chars = chars_of(path);
        if path_chars.len() == 0 {
            return Err(path_message("variant ", variant, " must contain token paths"));
        }
        let overriding = read_override(entries, variant, path, base)?;
        insert_override(found, overriding);
        return Ok(());
    }
    let label = location_text(variant, path);
    let allowed: [&str; 1] = ["$description"];
    proof {
        assert(crate::tokens::str_views(allowed@) =~= group_extensions());
    }
    check_extensions(entries, label.as_str(), &allowed)?;
    let ghost start = override_views(found@);
    let mut k: usize = 0;
    while k < entries.len()
        invariant
            *value == Json::Object(*entries),
            start == override_views(old(found)@),
            !is_token(entries@),
            extension_problem(entries@, location(variant@, path@), group_extensions(), 0) is None,
            distinct_override_paths(override_views(found@)),
            0 <= k <= entries.len(),
            overrides_from(*value, variant@, path@, definition_views(base@), start) == override_children(
                entries@,
                variant@,
                path@,
                definition_views(base@),
                override_views(found@),
                k as int,
            ),
        decreases entries.len() - k,
    {
        let name = entries[k].0.as_str();
        if !is_extension_exec(name) {
            let path_chars = chars_of(path);
            let child = if path_chars.len() == 0 {
                owned(name)
            } else {
                let mut text = chars_of(path);
                push_str(&mut text, ".");
                push_str(&mut text, name);
                string_from_chars(&text)
            };
            proof {
                assert(decreases_to!(*value => entries@[k as int].1));
            }
            match collect_overrides(&entries[k].1, variant, child.as_str(), base, found) {
                Ok(()) => {},
                Err(message) => {
                    return Err(message);
                },
            }
        }
        k = k + 1;
    }
    Ok(())
}

/// A token's path, the key tokens are ordered by.
pub open spec fn definition_key() -> spec_fn(DefinitionView) -> Seq<char> {
    |d: DefinitionView| d.path
}

/// An override's path, the key overrides are ordered by.
pub open spec fn override_key() -> spec_fn(OverrideView) -> Seq<char> {
    |o: OverrideView| o.path
}

/// The tokens in ascending order of their paths.
pub open spec fn definitions_by_path(list: Seq<DefinitionView>) -> Seq<DefinitionView> {
    choose|sorted: Seq<DefinitionView>| arranged(list, sorted, definition_key())
}

/// The overrides in ascending order of their paths.
pub open spec fn overrides_by_path(list: Seq<OverrideView>) -> Seq<OverrideView> {
    choose|sorted: Seq<OverrideView>| arranged(list, sorted, override_key())
}

/// No two tokens share a path.
pub open spec fn distinct_definition_paths(found: Seq<DefinitionView>) -> bool {
    forall|i: int, j: int| 0 <= i < j < found.len() ==> found[i].path != found[j].path
}

/// A copy of a token definition.
fn copy_definition(definition: &TokenDefinition) -> (r: TokenDefinition)
    ensures
        r@ == definition@,
{
    TokenDefinition {
        path: definition.path.clone(),
        token_type: definition.token_type,
        value: crate::tokens::copy_value(&definition.value),
    }
}

/// A copy of an override.
fn copy_override(overriding: &TokenOverride) -> (r: TokenOverride)
    ensures
        r@ == overriding@,
{
    TokenOverride {
        path: overriding.path.clone(),
        declared_type: overriding.declared_type,
        value: crate::tokens::copy_value(&overriding.value),
    }
}


/// The tokens in ascending order of their paths.
fn sort_definitions(list: &Vec<TokenDefinition>) -> (r: Vec<TokenDefinition>)
    requires
        distinct_definition_paths(definition_views(list@)),
    ensures
        definition_views(r@) == definitions_by_path(definition_views(list@)),
{
    let ghost views = definition_views(list@);
    let mut keys: Vec<String> = Vec::new();
    let mut i: usize = 0;
    while i < list.len()
        invariant
            views == definition_views(list@),
            0 <= i <= list.len(),
            keys.len() == i,
            forall|k: int| 0 <= k < i ==> #[trigger] keys@[k]@ == views[k].path,
        decreases list.len() - i,
    {
        keys.push(list[i].path.clone());
        i = i + 1;
    }
    proof {
        assert forall|a: int, b: int| 0 <= a < b < keys.len() implies string_views(keys@)[a] != string_views(keys@)[b] by {
            assert(keys@[a]@ == views[a].path);
            assert(keys@[b]@ == views[b].path);
        }
    }
    let order = ascending_order(&keys);
    let mut out: Vec<TokenDefinition> = Vec::new();
    let mut k: usize = 0;
    while k < order.len()
        invariant
            views == definition_views(list@),
            order.len() == list.len(),
            forall|j: int| 0 <= j < order.len() ==> order@[j] < list.len(),
            0 <= k <= order.len(),
            out.len() == k,
            forall|j: int| 0 <= j < k ==> #[trigger] out@[j]@ == views[order@[j] as int],
        decreases order.len() - k,
    {
        out.push(copy_definition(&list[order[k]]));
        k = k + 1;
    }
    proof {
        let sorted = definition_views(out@);
        let key = definition_key();
        assert(sorted.map_values(key) =~= keys_in(string_views(keys@), order@)) by {
            assert forall|j: int| 0 <= j < sorted.len() implies sorted.map_values(key)[j] == keys_in(string_views(keys@), order@)[j] by {
                assert(out@[j]@ == views[order@[j] as int]);
                assert(keys@[order@[j] as int]@ == views[order@[j] as int].path);
            }
        }
        assert forall|x: DefinitionView| views.contains(x) <==> sorted.contains(x) by {
            if views.contains(x) {
                let a = choose|a: int| 0 <= a < views.len() && views[a] == x;
                assert(lists(order@, a));
                let j = choose|j: int| 0 <= j < order.len() && order@[j] == a;
                assert(sorted[j] == out@[j]@);
            }
            if sorted.contains(x) {
                let j = choose|j: int| 0 <= j < sorted.len() && sorted[j] == x;
                assert(out@[j]@ == views[order@[j] as int]);
            }
        }
        assert(arranged(views, sorted, key));
        lemma_arrangement_unique(sorted, definitions_by_path(views), key);
    }
    out
}

/// The overrides in ascending order of their paths.
fn sort_overrides(list: &Vec<TokenOverride>) -> (r: Vec<TokenOverride>)
    requires
        distinct_override_paths(override_views(list@)),
    ensures
        override_views(r@) == overrides_by_path(override_views(list@)),
{
    let ghost views = override_views(list@);
    let mut keys: Vec<String> = Vec::new();
    let mut i: usize = 0;
    while i < list.len()
        invariant
            views == override_views(list@),
            0 <= i <= list.len(),
            keys.len() == i,
            forall|k: int| 0 <= k < i ==> #[trigger] keys@[k]@ == views[k].path,
        decreases list.len() - i,
    {
        keys.push(list[i].path.clone());
        i = i + 1;
    }
    proof {
        assert forall|a: int, b: int| 0 <= a < b < keys.len() implies string_views(keys@)[a] != string_views(keys@)[b] by {
            assert(keys@[a]@ == views[a].path);
            assert(keys@[b]@ == views[b].path);
        }
    }
    let order = ascending_order(&keys);
    let mut out: Vec<TokenOverride> = Vec::new();
    let mut k: usize = 0;
    while k < order.len()
        invariant
            views == override_views(list@),
            order.len() == list.len(),
            forall|j: int| 0 <= j < order.len() ==> order@[j] < list.len(),
            0 <= k <= order.len(),
            out.len() == k,
            forall|j: int| 0 <= j < k ==> #[trigger] out@[j]@ == views[order@[j] as int],
        decreases order.len() - k,
    {
        out.push(copy_override(&list[order[k]]));
        k = k + 1;
    }
    proof {
        let sorted = override_views(out@);
        let key = override_key();
        assert(sorted.map_values(key) =~= keys_in(string_views(keys@), order@)) by {
            assert forall|j: int| 0 <= j < sorted.len() implies sorted.map_values(key)[j] == keys_in(string_views(keys@), order@)[j] by {
                assert(out@[j]@ == views[order@[j] as int]);
                assert(keys@[order@[j] as int]@ == views[order@[j] as int].path);
            }
        }
        assert forall|x: OverrideView| views.contains(x) <==> sorted.contains(x) by {
            if views.contains(x) {
                let a = choose|a: int| 0 <= a < views.len() && views[a] == x;
                assert(lists(order@, a));
                let j = choose|j: int| 0 <= j < order.len() && order@[j] == a;
                assert(sorted[j] == out@[j]@);
            }
            if sorted.contains(x) {
                let j = choose|j: int| 0 <= j < sorted.len() && sorted[j] == x;
                assert(out@[j]@ == views[order@[j] as int]);
            }
        }
        assert(arranged(views, sorted, key));
        lemma_arrangement_unique(sorted, overrides_by_path(views), key);
    }
    out
}

/// Why the `kind` variants named `actual` are not exactly those named
/// `required`, if they are not.
pub open spec fn names_problem(kind: Seq<char>, actual: Seq<Seq<char>>, required: Seq<Seq<char>>) -> Option<Seq<char>> {
    if actual.to_set() == required.to_set() {
        None
    } else {
        Some(
            "token source "@ + kind + " variants must be exactly "@ + joined(in_order(required), ", "@) + "; found "@
                + joined(in_order(actual), ", "@),
        )
    }
}

/// Checks that the `kind` variants named `actual` are exactly those named
/// `required`; the error lists both, each in ascending order.
pub fn require_variant_names(kind: &str, actual: &Vec<String>, required: &Vec<String>) -> (r: Result<(), String>)
    ensures
        match names_problem(kind@, string_views(actual@), string_views(required@)) {
            None => r is Ok,
            Some(message) => r matches Err(e) && e@ == message,
        },
{
    let ghost a = string_views(actual@);
    let ghost b = string_views(required@);
    let mut same = true;
    let mut i: usize = 0;
    while i < actual.len()
        invariant
            a == string_views(actual@),
            b == string_views(required@),
            0 <= i <= actual.len(),
            same ==> forall|j: int| 0 <= j < i ==> b.contains(#[trigger] a[j]),
            !same ==> exists|j: int| 0 <= j < i && !b.contains(#[trigger] a[j]),
        decreases actual.len() - i,
    {
        let present = holds(required, actual[i].as_str());
        assert(a[i as int] == actual@[i as int]@);
        if !present {
            same = false;
        }
        i = i + 1;
    }
    let mut j: usize = 0;
    while j < required.len()
        invariant
            a == string_views(actual@),
            b == string_views(required@),
            0 <= j <= required.len(),
            same ==> forall|k: int| 0 <= k < a.len() ==> b.contains(#[trigger] a[k]),
            same ==> forall|k: int| 0 <= k < j ==> a.contains(#[trigger] b[k]),
            !same ==> (exists|k: int| 0 <= k < a.len() && !b.contains(#[trigger] a[k])) || exists|k: int|
                0 <= k < j && !a.contains(#[trigger] b[k]),
        decreases required.len() - j,
    {
        let present = holds(actual, required[j].as_str());
        assert(b[j as int] == required@[j as int]@);
        if !present {
            same = false;
        }
        j = j + 1;
    }
    proof {
        if same {
            assert(a.to_set() =~= b.to_set()) by {
                assert forall|x: Seq<char>| a.to_set().contains(x) <==> b.to_set().contains(x) by {
                    if a.contains(x) {
                        let k = choose|k: int| 0 <= k < a.len() && a[k] == x;
                        assert(b.contains(a[k]));
                    }
                    if b.contains(x) {
                        let k = choose|k: int| 0 <= k < b.len() && b[k] == x;
                        assert(a.contains(b[k]));
                    }
                }
            }
        } else {
            if exists|k: int| 0 <= k < a.len() && !b.contains(#[trigger] a[k]) {
                let k = choose|k: int| 0 <= k < a.len() && !b.contains(#[trigger] a[k]);
                assert(a.to_set().contains(a[k]));
                assert(!b.to_set().contains(a[k]));
            } else {
                let k = choose|k: int| 0 <= k < required.len() && !a.contains(#[trigger] b[k]);
                assert(b.to_set().contains(b[k]));
                assert(!a.to_set().contains(b[k]));
            }
        }
    }
    if same {
        return Ok(());
    }
    let wanted = sorted_unique(required);
    let found = sorted_unique(actual);
    let wanted_text = join_with(&wanted, ", ");
    let found_text = join_with(&found, ", ");
    let mut message = chars_of("token source ");
    push_str(&mut message, kind);
    push_str(&mut message, " variants must be exactly ");
    push_chars(&mut message, &wanted_text);
    push_str(&mut message, "; found ");
    push_chars(&mut message, &found_text);
    Err(string_from_chars(&message))
}

/// A variant's name and its overrides.
pub open spec fn variant_views(variants: Seq<(String, Vec<TokenOverride>)>) -> Seq<(Seq<char>, Seq<OverrideView>)> {
    variants.map_values(|v: (String, Vec<TokenOverride>)| (v.0@, override_views(v.1@)))
}

/// The variants from position `k` on of a variants object: each name with
/// its overrides in ascending order of path; or the first problem.
pub open spec fn variants_from(
    entries: Seq<(String, Json)>,
    base: Seq<DefinitionView>,
    k: int,
) -> Result<Seq<(Seq<char>, Seq<OverrideView>)>, Seq<char>>
    decreases entries.len() - k,
{
    if k < 0 || k >= entries.len() {
        Ok(Seq::empty())
    } else {
        match overrides_from(entries[k].1, entries[k].0@, Seq::empty(), base, Seq::empty()) {
            Err(message) => Err(message),
            Ok(list) => match variants_from(entries, base, k + 1) {
                Err(message) => Err(message),
                Ok(rest) => Ok(seq![(entries[k].0@, overrides_by_path(list))] + rest),
            },
        }
    }
}

/// The variants of the root member `extension`, or why they are refused.
pub open spec fn variants_of(
    root: Seq<(String, Json)>,
    extension: Seq<char>,
    base: Seq<DefinitionView>,
) -> Result<Seq<(Seq<char>, Seq<OverrideView>)>, Seq<char>> {
    match member(root, extension) {
        None => Err("token source must define "@ + extension),
        Some(Json::Object(entries)) => variants_from(entries@, base, 0),
        Some(_) => Err(extension + " must be an object"@),
    }
}

/// Reads the variants of the root member `extension`.
fn collect_variants(
    root: &Vec<(String, Json)>,
    extension: &str,
    base: &Vec<TokenDefinition>,
) -> (r: Result<Vec<(String, Vec<TokenOverride>)>, String>)
    ensures
        match variants_of(root@, extension@, definition_views(base@)) {
            Ok(variants) => r matches Ok(v) && variant_views(v@) == variants,
            Err(message) => r matches Err(e) && e@ == message,
        },
{
    let entries = match member_exec(root, extension) {
        None => {
            let message = path_message("token source must define ", extension, "");
            proof {
                reveal_strlit("");
                assert(message@ =~= "token source must define "@ + extension@);
            }
            return Err(message);
        },
        Some(Json::Object(entries)) => entries,
        Some(_) => {
            return Err(suffixed(extension, " must be an object"));
        },
    };
    let ghost base_views = definition_views(base@);
    let mut out: Vec<(String, Vec<TokenOverride>)> = Vec::new();
    let mut k: usize = 0;
    while k < entries.len()
        invariant
            base_views == definition_views(base@),
            member(root@, extension@) == Some(Json::Object(*entries)),
            0 <= k <= entries.len(),
            variants_from(entries@, base_views, 0) == match variants_from(entries@, base_views, k as int) {
                Ok(rest) => Ok(variant_views(out@) + rest),
                Err(message) => Err::<Seq<(Seq<char>, Seq<OverrideView>)>, Seq<char>>(message),
            },
        decreases entries.len() - k,
    {
        let mut found: Vec<TokenOverride> = Vec::new();
        proof {
            assert(override_views(found@) =~= Seq::<OverrideView>::empty());
            reveal_strlit("");
            assert(""@ =~= Seq::<char>::empty());
        }
        match collect_overrides(&entries[k].1, entries[k].0.as_str(), "", base, &mut found) {
            Ok(()) => {},
            Err(message) => {
                return Err(message);
            },
        }
        let sorted = sort_overrides(&found);
        let ghost done = variant_views(out@);
        let ghost item = (entries@[k as int].0@, override_views(sorted@));
        out.push((entries[k].0.clone(), sorted));
        proof {
            assert(variant_views(out@) =~= done.push(item));
            match variants_from(entries@, base_views, k + 1) {
                Ok(rest) => {
                    assert(done + (seq![item] + rest) =~= done.push(item) + rest);
                },
                Err(_) => {},
            }
        }
        k = k + 1;
    }
    proof {
        assert(variant_views(out@) + Seq::<(Seq<char>, Seq<OverrideView>)>::empty() =~= variant_views(out@));
    }
    Ok(out)
}

/// The tokens found after `found` by reading the root's token members from
/// position `k` on; or the first problem.
pub open spec fn root_base(entries: Seq<(String, Json)>, found: Seq<DefinitionView>, k: int) -> Result<Seq<DefinitionView>, Seq<char>>
    decreases entries.len() - k,
{
    if k < 0 || k >= entries.len() {
        Ok(found)
    } else if is_extension(entries[k].0@) {
        root_base(entries, found, k + 1)
    } else {
        match base_from(entries[k].1, entries[k].0@, found) {
            Err(message) => Err(message),
            Ok(more) => root_base(entries, more, k + 1),
        }
    }
}

/// The extensions the root may have.
pub open spec fn root_extensions() -> Seq<Seq<char>> {
    seq!["$description"@, "$themes"@, "$densities"@]
}

/// The themes a token source defines.
pub open spec fn theme_names() -> Seq<Seq<char>> {
    seq!["light"@, "dark"@, "light-high-contrast"@, "dark-high-contrast"@]
}

/// The densities a token source defines.
pub open spec fn density_names() -> Seq<Seq<char>> {
    seq!["compact"@, "comfortable"@]
}

/// The names of the variants.
pub open spec fn variant_names(variants: Seq<(Seq<char>, Seq<OverrideView>)>) -> Seq<Seq<char>> {
    variants.map_values(|v: (Seq<char>, Seq<OverrideView>)| v.0)
}

/// Each variant's name and the paths it overrides.
pub open spec fn variant_paths(variants: Seq<(Seq<char>, Seq<OverrideView>)>) -> Seq<(Seq<char>, Seq<Seq<char>>)> {
    variants.map_values(|v: (Seq<char>, Seq<OverrideView>)| (v.0, v.1.map_values(|o: OverrideView| o.path)))
}

/// A token source: its tokens in ascending order of path, and its themes and
/// densities, each in the order of the source with its overrides in
/// ascending order of path.
#[derive(Debug)]
pub struct TokenDocument {
    pub base: Vec<TokenDefinition>,
    pub themes: Vec<(String, Vec<TokenOverride>)>,
    pub densities: Vec<(String, Vec<TokenOverride>)>,
}

pub struct DocumentView {
    pub base: Seq<DefinitionView>,
    pub themes: Seq<(Seq<char>, Seq<OverrideView>)>,
    pub densities: Seq<(Seq<char>, Seq<OverrideView>)>,
}

impl View for TokenDocument {
    type V = DocumentView;

    open spec fn view(&self) -> DocumentView {
        DocumentView {
            base: definition_views(self.base@),
            themes: variant_views(self.themes@),
            densities: variant_views(self.densities@),
        }
    }
}

/// The token source that the JSON value `root` holds, or the first problem
/// with it: a root that is no object or has an unsupported extension, a
/// token or group that is refused, no tokens at all, variants that are
/// missing, refused or not exactly the supported themes and densities, or a
/// theme that overrides anything but colours, or a density anything but
/// spacing and geometry.
pub open spec fn document_of(root: Json) -> Result<DocumentView, Seq<char>> {
    match root {
        Json::Object(entries) => match extension_problem(entries@, "root"@, root_extensions(), 0) {
            Some(message) => Err(message),
            None => match root_base(entries@, Seq::empty(), 0) {
                Err(message) => Err(message),
                Ok(found) => if found.len() == 0 {
                    Err("token source contains no token definitions"@)
                } else {
                    match variants_of(entries@, "$themes"@, found) {
                        Err(message) => Err(message),
                        Ok(themes) => match variants_of(entries@, "$densities"@, found) {
                            Err(message) => Err(message),
                            Ok(densities) => match names_problem("theme"@, variant_names(themes), theme_names()) {
                                Some(message) => Err(message),
                                None => match names_problem("density"@, variant_names(densities), density_names()) {
                                    Some(message) => Err(message),
                                    None => match domain_problem_from(variant_paths(themes), "theme"@, seq!["colour."@], 0) {
                                        Some(message) => Err(message),
                                        None => match domain_problem_from(
                                            variant_paths(densities),
                                            "density"@,
                                            seq!["spacing."@, "geometry."@],
                                            0,
                                        ) {
                                            Some(message) => Err(message),
                                            None => Ok(
                                                DocumentView { base: definitions_by_path(found), themes, densities },
                                            ),
                                        },
                                    },
                                },
                            },
                        },
                    }
                },
            },
        },
        _ => Err("token source root must be a JSON object"@),
    }
}

/// The names of the variants.
fn names_of(variants: &Vec<(String, Vec<TokenOverride>)>) -> (r: Vec<String>)
    ensures
        string_views(r@) == variant_names(variant_views(variants@)),
{
    let ghost views = variant_views(variants@);
    let mut out: Vec<String> = Vec::new();
    let mut i: usize = 0;
    while i < variants.len()
        invariant
            views == variant_views(variants@),
            0 <= i <= variants.len(),
            string_views(out@) == variant_names(views).take(i as int),
        decreases variants.len() - i,
    {
        let ghost before = string_views(out@);
        out.push(variants[i].0.clone());
        proof {
            assert(string_views(out@) =~= before.push(views[i as int].0));
            assert(variant_names(views).take(i + 1) =~= variant_names(views).take(i as int).push(views[i as int].0));
        }
        i = i + 1;
    }
    proof {
        assert(variant_names(views).take(variants.len() as int) =~= variant_names(views));
    }
    out
}

/// Each variant's name and the paths it overrides.
fn paths_of(variants: &Vec<(String, Vec<TokenOverride>)>) -> (r: Vec<(String, Vec<String>)>)
    ensures
        variant_path_views(r@) == variant_paths(variant_views(variants@)),
{
    let ghost views = variant_views(variants@);
    let mut out: Vec<(String, Vec<String>)> = Vec::new();
    let mut i: usize = 0;
    while i < variants.len()
        invariant
            views == variant_views(variants@),
            0 <= i <= variants.len(),
            variant_path_views(out@) == variant_paths(views).take(i as int),
        decreases variants.len() - i,
    {
        let overrides = &variants[i].1;
        let ghost override_list = override_views(overrides@);
        let mut paths: Vec<String> = Vec::new();
        let mut j: usize = 0;
        while j < overrides.len()
            invariant
                override_list == override_views(overrides@),
                0 <= j <= overrides.len(),
                string_views(paths@) == override_list.map_values(|o: OverrideView| o.path).take(j as int),
            decreases overrides.len() - j,
        {
            let ghost before = string_views(paths@);
            paths.push(overrides[j].path.clone());
            proof {
                let all = override_list.map_values(|o: OverrideView| o.path);
                assert(string_views(paths@) =~= before.push(all[j as int]));
                assert(all.take(j + 1) =~= all.take(j as int).push(all[j as int]));
            }
            j = j + 1;
        }
        proof {
            let all = override_list.map_values(|o: OverrideView| o.path);
            assert(all.take(overrides.len() as int) =~= all);
        }
        let ghost before = variant_path_views(out@);
        let ghost item = (variants@[i as int].0@, string_views(paths@));
        out.push((variants[i].0.clone(), paths));
        proof {
            assert(variant_path_views(out@) =~= before.push(item));
            assert(views[i as int] == (variants@[i as int].0@, override_list));
            assert(variant_paths(views)[i as int] == item);
            assert(variant_paths(views).take(i + 1) =~= variant_paths(views).take(i as int).push(item));
        }
        i = i + 1;
    }
    proof {
        assert(variant_paths(views).take(variants.len() as int) =~= variant_paths(views));
    }
    out
}

/// Strings holding the texts.
fn strings_of(texts: &[&str]) -> (r: Vec<String>)
    ensures
        string_views(r@) == crate::tokens::str_views(texts@),
{
    let ghost views = crate::tokens::str_views(texts@);
    let mut out: Vec<String> = Vec::new();
    let mut i: usize = 0;
    while i < texts.len()
        invariant
            views == crate::tokens::str_views(texts@),
            0 <= i <= texts.len(),
            string_views(out@) == views.take(i as int),
        decreases texts.len() - i,
    {
        let ghost before = string_views(out@);
        out.push(owned(texts[i]));
        proof {
            assert(string_views(out@) =~= before.push(views[i as int]));
            assert(views.take(i + 1) =~= views.take(i as int).push(views[i as int]));
        }
        i = i + 1;
    }
    proof {
        assert(views.take(texts.len() as int) =~= views);
    }
    out
}

/// Reads the token source that the JSON value `root` holds: its tokens,
/// and its themes' and densities' overrides, each checked.
pub fn read_document(root: &Json) -> (r: Result<TokenDocument, String>)
    ensures
        match document_of(*root) {
            Ok(document) => r matches Ok(d) && d@ == document,
            Err(message) => r matches Err(e) && e@ == message,
        },
{
    let entries = match root {
        Json::Object(entries) => entries,
        _ => {
            return Err(owned("token source root must be a JSON object"));
        },
    };
    let allowed: [&str; 3] = ["$description", "$themes", "$densities"];
    proof {
        assert(crate::tokens::str_views(allowed@) =~= root_extensions());
    }
    check_extensions(entries, "root", &allowed)?;
    let mut found: Vec<TokenDefinition> = Vec::new();
    proof {
        assert(definition_views(found@) =~= Seq::<DefinitionView>::empty());
    }
    let mut k: usize = 0;
    while k < entries.len()
        invariant
            *root == Json::Object(*entries),
            extension_problem(entries@, "root"@, root_extensions(), 0) is None,
            distinct_definition_paths(definition_views(found@)),
            0 <= k <= entries.len(),
            root_base(entries@, Seq::empty(), 0) == root_base(entries@, definition_views(found@), k as int),
        decreases entries.len() - k,
    {
        let name = entries[k].0.as_str();
        if !is_extension_exec(name) {
            match collect_base(&entries[k].1, name, &mut found) {
                Ok(()) => {},
                Err(message) => {
                    return Err(message);
                },
            }
        }
        k = k + 1;
    }
    if found.len() == 0 {
        return Err(owned("token source contains no token definitions"));
    }
    let themes = collect_variants(entries, "$themes", &found)?;
    let densities = collect_variants(entries, "$densities", &found)?;
    let theme_list: [&str; 4] = ["light", "dark", "light-high-contrast", "dark-high-contrast"];
    let density_list: [&str; 2] = ["compact", "comfortable"];
    let colour_prefixes: [&str; 1] = ["colour."];
    let density_prefixes: [&str; 2] = ["spacing.", "geometry."];
    proof {
        assert(crate::tokens::str_views(theme_list@) =~= theme_names());
        assert(crate::tokens::str_views(density_list@) =~= density_names());
        assert(crate::tokens::str_views(colour_prefixes@) =~= seq!["colour."@]);
        assert(crate::tokens::str_views(density_prefixes@) =~= seq!["spacing."@, "geometry."@]);
    }
    let theme_names_found = names_of(&themes);
    let required_themes = strings_of(&theme_list);
    require_variant_names("theme", &theme_names_found, &required_themes)?;
    let density_names_found = names_of(&densities);
    let required_densities = strings_of(&density_list);
    require_variant_names("density", &density_names_found, &required_densities)?;
    let theme_paths = paths_of(&themes);
    validate_override_domains(&theme_paths, "theme", &colour_prefixes)?;
    let density_paths = paths_of(&densities);
    validate_override_domains(&density_paths, "density", &density_prefixes)?;
    let base = sort_definitions(&found);
    Ok(TokenDocument { base, themes, densities })
}

/// The overrides of the first variant named `name` from position `k` on.
pub open spec fn variant_named_from(
    variants: Seq<(Seq<char>, Seq<OverrideView>)>,
    name: Seq<char>,
    k: int,
) -> Option<Seq<OverrideView>>
    decreases variants.len() - k,
{
    if k < 0 || k >= variants.len() {
        None
    } else if variants[k].0 == name {
        Some(variants[k].1)
    } else {
        variant_named_from(variants, name, k + 1)
    }
}

/// The overrides of the variant named `name`.
pub open spec fn variant_named(variants: Seq<(Seq<char>, Seq<OverrideView>)>, name: Seq<char>) -> Option<Seq<OverrideView>> {
    variant_named_from(variants, name, 0)
}

/// Resolving the supported theme `t` and density `d`.
pub open spec fn combination_resolution(document: DocumentView, t: int, d: int) -> Result<Seq<(Seq<char>, ResolvedView)>, ResolveErrorView> {
    variant_resolution(
        document.base,
        variant_named(document.themes, theme_names()[t]),
        theme_names()[t],
        variant_named(document.densities, density_names()[d]),
        density_names()[d],
    )
}

/// The first problem in resolving the supported themes and densities from
/// the combination `c` on, theme by theme and each theme density by density.
pub open spec fn combinations_problem(document: DocumentView, c: int) -> Option<ResolveErrorView>
    decreases 8 - c,
{
    if c < 0 || c >= 8 {
        None
    } else {
        match combination_resolution(document, c / 2, c % 2) {
            Err(message) => Some(message),
            Ok(_) => combinations_problem(document, c + 1),
        }
    }
}

/// The overrides of the variant named `name`.
fn find_variant<'a>(variants: &'a Vec<(String, Vec<TokenOverride>)>, name: &str) -> (r: Option<&'a Vec<TokenOverride>>)
    ensures
        overrides_view(r) == variant_named(variant_views(variants@), name@),
{
    let ghost views = variant_views(variants@);
    let mut k: usize = 0;
    while k < variants.len()
        invariant
            views == variant_views(variants@),
            0 <= k <= variants.len(),
            variant_named(views, name@) == variant_named_from(views, name@, k as int),
        decreases variants.len() - k,
    {
        if str_equal(variants[k].0.as_str(), name) {
            return Some(&variants[k].1);
        }
        k = k + 1;
    }
    None
}

/// Checks that every supported theme and density resolves: the first
/// problem, theme by theme and each theme density by density, is the error.
pub fn check_combinations(document: &TokenDocument) -> (r: Result<(), ResolveError>)
    ensures
        match combinations_problem(document@, 0) {
            None => r is Ok,
            Some(problem) => r matches Err(e) && e@ == problem,
        },
{
    let theme_list: [&str; 4] = ["light", "dark", "light-high-contrast", "dark-high-contrast"];
    let density_list: [&str; 2] = ["compact", "comfortable"];
    let mut t: usize = 0;
    while t < 4
        invariant
            theme_list@ == seq!["light", "dark", "light-high-contrast", "dark-high-contrast"],
            density_list@ == seq!["compact", "comfortable"],
            0 <= t <= 4,
            combinations_problem(document@, 0) == combinations_problem(document@, 2 * t),
        decreases 4 - t,
    {
        let mut d: usize = 0;
        while d < 2
            invariant
                    theme_list@ == seq!["light", "dark", "light-high-contrast", "dark-high-contrast"],
                density_list@ == seq!["compact", "comfortable"],
                0 <= t < 4,
                0 <= d <= 2,
                combinations_problem(document@, 0) == combinations_problem(document@, 2 * t + d),
            decreases 2 - d,
        {
            let theme = theme_list[t];
            let density = density_list[d];
            let theme_overrides = find_variant(&document.themes, theme);
            let density_overrides = find_variant(&document.densities, density);
            proof {
                assert(theme@ == theme_names()[t as int]);
                assert(density@ == density_names()[d as int]);
                assert((2 * t + d) / 2 == t as int);
                assert((2 * t + d) % 2 == d as int);
            }
            match crate::tokens::resolve_variant(&document.base, theme_overrides, theme, density_overrides, density) {
                Ok(_) => {},
                Err(message) => {
                    return Err(message);
                },
            }
            d = d + 1;
        }
        t = t + 1;
    }
    Ok(())
}

} // verus!
