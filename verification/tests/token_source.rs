use polyorama::token_source::{check_combinations, read_document, Json, NumberFacts, TokenDocument};
use polyorama::tokens::{resolve_variant, ResolveError, ResolvedValue, TokenOverride};
use serde_json::Value;

fn json(value: &Value) -> Json {
    match value {
        Value::Null => Json::Null,
        Value::Bool(flag) => Json::Bool(*flag),
        Value::Number(number) => {
            let number = number.as_f64().unwrap_or(f64::NAN);
            Json::Number(NumberFacts {
                bits: number.to_bits(),
                finite: number.is_finite(),
                finite_as_f32: (number as f32).is_finite(),
                negative: number < 0.0,
                whole: number.fract() == 0.0,
                within_u32: !(number > f64::from(u32::MAX)),
                within_weight_range: (1.0..=1000.0).contains(&number),
            })
        }
        Value::String(text) => Json::Text(text.clone()),
        Value::Array(items) => Json::Array(items.iter().map(json).collect()),
        Value::Object(members) => {
            Json::Object(members.iter().map(|(name, member)| (name.clone(), json(member))).collect())
        }
    }
}

fn parse_source(source: &str) -> Result<TokenDocument, String> {
    let root: Value = serde_json::from_str(source).map_err(|error| {
        format!("token source JSON is invalid (numbers must be finite and within the f64 range): {error}")
    })?;
    let document = read_document(&json(&root))?;
    check_combinations(&document).map_err(|problem| match problem {
        ResolveError::Message(message) => message,
        ResolveError::CutCharacter(text) => format!("cut {text}"),
    })?;
    Ok(document)
}

fn variant<'a>(variants: &'a [(String, Vec<TokenOverride>)], name: &str) -> Option<&'a Vec<TokenOverride>> {
    variants.iter().find(|(candidate, _)| candidate == name).map(|(_, overrides)| overrides)
}

fn resolved(document: &TokenDocument, theme: &str, density: &str, path: &str) -> ResolvedValue {
    let values = resolve_variant(
        &document.base,
        variant(&document.themes, theme),
        theme,
        variant(&document.densities, density),
        density,
    )
    .unwrap();
    values.into_iter().find(|(candidate, _)| candidate == path).unwrap().1
}

fn source(base: &str, themes: &str, densities: &str) -> String {
    format!(
        r#"{{
            "tokens": {base},
            "$themes": {{
                "light": {themes}, "dark": {themes},
                "light-high-contrast": {themes}, "dark-high-contrast": {themes}
            }},
            "$densities": {{ "compact": {densities}, "comfortable": {densities} }}
        }}"#
    )
}

#[test]
fn parses_supported_types_and_aliases() {
    let input = source(
        r##"{
            "colour": { "$type": "color", "$value": "#102030" },
            "alias": { "$type": "color", "$value": "{tokens.colour}" },
            "size": { "$type": "dimension", "$value": 4 },
            "ratio": { "$type": "number", "$value": 1.25 },
            "duration": { "$type": "duration", "$value": 80 }
            ,"fontSize": { "$type": "fontSize", "$value": 13 }
            ,"fontWeight": { "$type": "fontWeight", "$value": 600 }
        }"##,
        "{}",
        "{}",
    );
    let document = parse_source(&input).unwrap();
    assert_eq!(resolved(&document, "dark", "compact", "tokens.alias"), ResolvedValue::Color([16, 32, 48, 255]));
}

#[test]
fn rejects_unsupported_type_and_construct() {
    let input = source(r#"{ "bad": { "$type": "shadow", "$value": 1 } }"#, "{}", "{}");
    assert!(parse_source(&input).unwrap_err().contains("unsupported $type"));

    let input = source(r#"{ "bad": { "$type": "number", "$value": 1, "$extensions": {} } }"#, "{}", "{}");
    assert!(parse_source(&input).unwrap_err().contains("unsupported construct"));
}

#[test]
fn rejects_alias_type_mismatch_and_missing_reference() {
    let input = source(
        r##"{
            "colour": { "$type": "color", "$value": "#102030" },
            "bad": { "$type": "number", "$value": "{tokens.colour}" }
        }"##,
        "{}",
        "{}",
    );
    assert!(parse_source(&input).unwrap_err().contains("different type"));

    let input = source(r#"{ "bad": { "$type": "number", "$value": "{tokens.missing}" } }"#, "{}", "{}");
    assert!(parse_source(&input).unwrap_err().contains("missing token"));
}

#[test]
fn rejects_variant_override_type_change() {
    let input = r#"{
        "value": { "$type": "number", "$value": 1 },
        "$themes": {
            "light": { "value": { "$type": "dimension", "$value": 2 } },
            "dark": {}, "light-high-contrast": {}, "dark-high-contrast": {}
        },
        "$densities": { "compact": {}, "comfortable": {} }
    }"#;
    assert!(parse_source(input).unwrap_err().contains("changes the type"));
}

#[test]
fn rejects_cross_domain_and_common_token_overrides() {
    let theme_changes_spacing = r##"{
        "colour": { "$type": "color", "$value": "#000000" },
        "spacing": { "$type": "dimension", "$value": 4 },
        "$themes": {
            "light": { "spacing": { "$value": 8 } },
            "dark": {}, "light-high-contrast": {}, "dark-high-contrast": {}
        },
        "$densities": { "compact": {}, "comfortable": {} }
    }"##;
    assert!(parse_source(theme_changes_spacing)
        .unwrap_err()
        .contains("theme overrides are restricted to colour."));

    let density_changes_colour = r##"{
        "colour": { "$type": "color", "$value": "#000000" },
        "$themes": {
            "light": {}, "dark": {}, "light-high-contrast": {}, "dark-high-contrast": {}
        },
        "$densities": {
            "compact": { "colour": { "$value": "#ffffff" } },
            "comfortable": {}
        }
    }"##;
    assert!(parse_source(density_changes_colour)
        .unwrap_err()
        .contains("density overrides are restricted to spacing. or geometry."));

    let theme_changes_typography = r#"{
        "typography": { "body": { "$type": "fontSize", "$value": 13 } },
        "$themes": {
            "light": { "typography": { "body": { "$value": 14 } } },
            "dark": {}, "light-high-contrast": {}, "dark-high-contrast": {}
        },
        "$densities": { "compact": {}, "comfortable": {} }
    }"#;
    assert!(parse_source(theme_changes_typography)
        .unwrap_err()
        .contains("theme overrides are restricted to colour."));
}

#[test]
fn rejects_alias_cycle() {
    let input = source(
        r#"{
            "a": { "$type": "number", "$value": "{tokens.b}" },
            "b": { "$type": "number", "$value": "{tokens.a}" }
        }"#,
        "{}",
        "{}",
    );
    assert!(parse_source(&input).unwrap_err().contains("alias cycle"));
}

#[test]
fn rejects_non_finite_number() {
    let input = source(r#"{ "bad": { "$type": "number", "$value": 1e400 } }"#, "{}", "{}");
    assert!(parse_source(&input).unwrap_err().contains("finite"));

    let input = source(r#"{ "bad": { "$type": "number", "$value": 3.5e38 } }"#, "{}", "{}");
    assert!(parse_source(&input).unwrap_err().contains("finite when represented as f32"));
}

#[test]
fn theme_and_density_overrides_resolve_independently() {
    let input = r##"{
        "colour": { "primary": { "$type": "color", "$value": "#000000" } },
        "spacing": { "unit": { "$type": "dimension", "$value": 4 } },
        "$themes": {
            "light": { "colour": { "primary": { "$value": "#ffffff" } } },
            "dark": {},
            "light-high-contrast": { "colour": { "primary": { "$value": "#eeeeee" } } },
            "dark-high-contrast": { "colour": { "primary": { "$value": "#111111" } } }
        },
        "$densities": {
            "compact": { "spacing": { "unit": { "$value": 2 } } },
            "comfortable": { "spacing": { "unit": { "$value": 6 } } }
        }
    }"##;
    let document = parse_source(input).unwrap();
    assert_eq!(resolved(&document, "light", "compact", "colour.primary"), ResolvedValue::Color([255, 255, 255, 255]));
    assert_eq!(resolved(&document, "light", "compact", "spacing.unit"), ResolvedValue::Number(2.0f64.to_bits()));
}

#[test]
fn base_tokens_come_in_ascending_order_of_path() {
    let input = r##"{
        "a-b": { "$type": "number", "$value": 1 },
        "a": { "b": { "$type": "number", "$value": 2 }, "$description": "group" },
        "$themes": { "light": {}, "dark": {}, "light-high-contrast": {}, "dark-high-contrast": {} },
        "$densities": { "compact": {}, "comfortable": {} }
    }"##;
    let document = parse_source(input).unwrap();
    let paths = document.base.iter().map(|definition| definition.path.as_str()).collect::<Vec<_>>();
    assert_eq!(paths, vec!["a-b", "a.b"]);
}

#[test]
fn group_and_token_shapes_are_checked() {
    let input = source(r#"{ "empty": {} }"#, "{}", "{}");
    assert_eq!(parse_source(&input).unwrap_err(), "token group tokens.empty is empty");
    let input = source(r#"{ "bad": { "$type": "number", "$value": 1, "child": {} } }"#, "{}", "{}");
    assert_eq!(parse_source(&input).unwrap_err(), "token tokens.bad cannot contain child tokens");
    let input = source(r#"{ "bad": { "$value": 1 } }"#, "{}", "{}");
    assert_eq!(parse_source(&input).unwrap_err(), "token tokens.bad must define a string $type");
    let input = source(r#"{ "bad": { "$type": "number" } }"#, "{}", "{}");
    assert_eq!(parse_source(&input).unwrap_err(), "token tokens.bad must define $value");
    let input = source(r#"{ "bad": 3 }"#, "{}", "{}");
    assert_eq!(parse_source(&input).unwrap_err(), "group or token tokens.bad must be a JSON object");
    let input = source(r#"{ "bad": { "$type": "duration", "$value": 1.5 } }"#, "{}", "{}");
    assert_eq!(
        parse_source(&input).unwrap_err(),
        "duration token tokens.bad must be a whole number of milliseconds within u32"
    );
    let input = source(r#"{ "bad": { "$type": "fontWeight", "$value": 1001 } }"#, "{}", "{}");
    assert_eq!(
        parse_source(&input).unwrap_err(),
        "fontWeight token tokens.bad must be a whole number from 1 to 1000"
    );
    let input = source(r#"{ "bad": { "$type": "dimension", "$value": -1 } }"#, "{}", "{}");
    assert_eq!(parse_source(&input).unwrap_err(), "token tokens.bad cannot be negative");
    let input = source(r#"{ "bad": { "$type": "color", "$value": 1 } }"#, "{}", "{}");
    assert_eq!(parse_source(&input).unwrap_err(), "color token tokens.bad must be #RRGGBB, #RRGGBBAA or an alias");
}

#[test]
fn variants_must_be_exactly_the_supported_names() {
    let input = r#"{
        "value": { "$type": "number", "$value": 1 },
        "$themes": { "light": {}, "dark": {}, "sepia": {} },
        "$densities": { "compact": {}, "comfortable": {} }
    }"#;
    assert_eq!(
        parse_source(input).unwrap_err(),
        "token source theme variants must be exactly dark, dark-high-contrast, light, light-high-contrast; found dark, light, sepia"
    );
    let input = r#"{ "value": { "$type": "number", "$value": 1 }, "$densities": {} }"#;
    assert_eq!(parse_source(input).unwrap_err(), "token source must define $themes");
    let input = r#"{ "value": { "$type": "number", "$value": 1 }, "$themes": [], "$densities": {} }"#;
    assert_eq!(parse_source(input).unwrap_err(), "$themes must be an object");
    let input = r#"{ "$themes": {}, "$densities": {} }"#;
    assert_eq!(parse_source(input).unwrap_err(), "token source contains no token definitions");
    let input = r#"{ "$version": 1 }"#;
    assert_eq!(parse_source(input).unwrap_err(), "root uses unsupported construct $version");
    assert_eq!(parse_source("[]").unwrap_err(), "token source root must be a JSON object");
}

#[test]
fn overrides_name_known_tokens() {
    let input = r#"{
        "value": { "$type": "number", "$value": 1 },
        "$themes": {
            "light": { "missing": { "$value": 2 } },
            "dark": {}, "light-high-contrast": {}, "dark-high-contrast": {}
        },
        "$densities": { "compact": {}, "comfortable": {} }
    }"#;
    assert_eq!(parse_source(input).unwrap_err(), "variant light overrides unknown token missing");
    let input = r#"{
        "value": { "$type": "number", "$value": 1 },
        "$themes": {
            "light": { "$value": 2 },
            "dark": {}, "light-high-contrast": {}, "dark-high-contrast": {}
        },
        "$densities": { "compact": {}, "comfortable": {} }
    }"#;
    assert_eq!(parse_source(input).unwrap_err(), "variant light must contain token paths");
}
