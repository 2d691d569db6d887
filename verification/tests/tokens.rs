use polyorama::token_output::colour_constant;
use polyorama::tokens::{
    alias_target, apply_variant, colour_literal, parse_colour, resolve_tokens, resolve_variant, validate_override_domains,
    ResolveError, ResolvedValue, TokenDefinition, TokenOverride, TokenType, TokenValue,
};

#[test]
fn supported_token_types_are_parsed() {
    assert_eq!(TokenType::parse("color", "a.b"), Ok(TokenType::Color));
    assert_eq!(TokenType::parse("fontWeight", "a.b"), Ok(TokenType::FontWeight));
    assert_eq!(
        TokenType::parse("shadow", "effects.glow"),
        Err("token effects.glow uses unsupported $type \"shadow\"; supported types are color, dimension, number, duration, fontSize and fontWeight".to_string())
    );
}

#[test]
fn colours_are_read_from_hexadecimal_text() {
    assert_eq!(parse_colour("#0a141e", "c"), Ok([10, 20, 30, 255]));
    assert_eq!(parse_colour("#0A141E80", "c"), Ok([10, 20, 30, 128]));
    assert_eq!(parse_colour("0a141e", "c"), Err("color token c must start with #".to_string()));
    assert_eq!(parse_colour("#0a14", "c"), Err("color token c must use #RRGGBB or #RRGGBBAA".to_string()));
    assert_eq!(
        parse_colour("#0a14zz", "c"),
        Err("color token c contains invalid hexadecimal digits".to_string())
    );
}

#[test]
fn colour_literals_name_every_channel() {
    assert_eq!(
        colour_literal([1, 2, 3, 255]),
        "Rgba8 {\n        red: 1,\n        green: 2,\n        blue: 3,\n        alpha: 255,\n    }"
    );
}

#[test]
fn aliases_name_their_target() {
    assert_eq!(alias_target(Some("{colour.text.primary}")), Ok(Some("colour.text.primary".to_string())));
    assert_eq!(alias_target(Some("#ffffff")), Ok(None));
    assert_eq!(alias_target(None), Ok(None));
    assert_eq!(
        alias_target(Some("{}")),
        Err("malformed token alias \"{}\"; expected {path.to.token}".to_string())
    );
    assert!(alias_target(Some("{a{b}")).is_err());
}

fn token(path: &str, token_type: TokenType, value: TokenValue) -> TokenDefinition {
    TokenDefinition { path: path.to_string(), token_type, value }
}

fn text(value: &str) -> TokenValue {
    TokenValue::Text(value.to_string())
}

#[test]
fn aliases_resolve_to_the_value_they_name() {
    let definitions = vec![
        token("tokens.alias", TokenType::Color, text("{tokens.colour}")),
        token("tokens.colour", TokenType::Color, text("#102030")),
        token("tokens.ratio", TokenType::Number, TokenValue::Number(1.25f64.to_bits())),
        token("tokens.scaled", TokenType::Number, text("{tokens.ratio}")),
    ];
    let resolved = resolve_tokens(&definitions).unwrap();
    assert_eq!(
        resolved,
        vec![
            ("tokens.alias".to_string(), ResolvedValue::Color([16, 32, 48, 255])),
            ("tokens.colour".to_string(), ResolvedValue::Color([16, 32, 48, 255])),
            ("tokens.ratio".to_string(), ResolvedValue::Number(1.25f64.to_bits())),
            ("tokens.scaled".to_string(), ResolvedValue::Number(1.25f64.to_bits())),
        ]
    );
}

#[test]
fn alias_of_another_type_is_refused() {
    let definitions = vec![
        token("tokens.bad", TokenType::Number, text("{tokens.colour}")),
        token("tokens.colour", TokenType::Color, text("#102030")),
    ];
    assert_eq!(
        resolve_tokens(&definitions),
        Err(ResolveError::Message("token tokens.bad (Number) aliases tokens.colour (Color) with a different type".to_string()))
    );
}

#[test]
fn alias_of_a_missing_token_is_refused() {
    let definitions = vec![token("tokens.bad", TokenType::Number, text("{tokens.missing}"))];
    assert_eq!(
        resolve_tokens(&definitions),
        Err(ResolveError::Message("token tokens.bad aliases missing token tokens.missing".to_string()))
    );
}

#[test]
fn alias_cycle_is_reported_from_where_it_closes() {
    let definitions = vec![
        token("tokens.a", TokenType::Number, text("{tokens.b}")),
        token("tokens.b", TokenType::Number, text("{tokens.c}")),
        token("tokens.c", TokenType::Number, text("{tokens.b}")),
    ];
    assert_eq!(
        resolve_tokens(&definitions),
        Err(ResolveError::Message("token alias cycle: tokens.b -> tokens.c -> tokens.b".to_string()))
    );
}

#[test]
fn non_finite_numbers_and_colours_without_text_are_refused() {
    let definitions = vec![token("tokens.bad", TokenType::Number, TokenValue::Number(f64::INFINITY.to_bits()))];
    assert_eq!(
        resolve_tokens(&definitions),
        Err(ResolveError::Message("token tokens.bad must contain a finite number".to_string()))
    );
    let definitions = vec![token("tokens.bad", TokenType::Dimension, text("wide"))];
    assert_eq!(
        resolve_tokens(&definitions),
        Err(ResolveError::Message("token tokens.bad must contain a finite number".to_string()))
    );
    let definitions = vec![token("tokens.bad", TokenType::Color, TokenValue::Number(1))];
    assert_eq!(
        resolve_tokens(&definitions),
        Err(ResolveError::Message("color token tokens.bad must contain a string".to_string()))
    );
    let definitions = vec![token("tokens.bad", TokenType::Color, text("{tokens"))];
    assert_eq!(
        resolve_tokens(&definitions),
        Err(ResolveError::Message("malformed token alias \"{tokens\"; expected {path.to.token}".to_string()))
    );
}

#[test]
fn colour_constant_lists_every_theme_colour() {
    let paths = [
        "colour.surface.canvas",
        "colour.surface.panel",
        "colour.surface.raised",
        "colour.border.subtle",
        "colour.text.primary",
        "colour.text.muted",
        "colour.accent.primary",
        "colour.accent.onAccent",
        "colour.selection.background",
        "colour.focus.ring",
        "colour.status.success",
        "colour.status.warning",
        "colour.status.error",
    ];
    let mut values = paths
        .iter()
        .enumerate()
        .map(|(index, path)| (path.to_string(), ResolvedValue::Color([index as u8, 0, 0, 255])))
        .collect::<Vec<_>>();
    let text = colour_constant("dark-high-contrast", &values).unwrap();
    assert!(text.starts_with("const COLOURS_DARK_HIGH_CONTRAST: ColourTokens = ColourTokens {\n    surface_canvas: Rgba8 {\n        red: 0,"));
    assert!(text.contains("    status_error: Rgba8 {\n        red: 12,\n        green: 0,\n        blue: 0,\n        alpha: 255,\n    },"));
    assert!(text.ends_with(",\n    },\n};"));
    values[3].1 = ResolvedValue::Number(0);
    assert_eq!(
        colour_constant("light", &values),
        Err("required generated token colour.border.subtle is not a color".to_string())
    );
    values.remove(3);
    assert_eq!(
        colour_constant("light", &values),
        Err("required generated token colour.border.subtle is missing".to_string())
    );
}

fn overriding(path: &str, declared_type: Option<TokenType>, value: TokenValue) -> TokenOverride {
    TokenOverride { path: path.to_string(), declared_type, value }
}

#[test]
fn variants_replace_values_and_keep_types() {
    let mut definitions = vec![
        token("colour.text", TokenType::Color, text("#000000")),
        token("spacing.unit", TokenType::Dimension, TokenValue::Number(4.0f64.to_bits())),
    ];
    let theme = vec![overriding("colour.text", None, text("#ffffff"))];
    assert_eq!(apply_variant(&mut definitions, Some(&theme), "theme", "light"), Ok(()));
    assert_eq!(definitions[0], token("colour.text", TokenType::Color, text("#ffffff")));
    assert_eq!(
        apply_variant(&mut definitions, None, "density", "roomy"),
        Err("unknown density variant roomy".to_string())
    );
    let missing = vec![overriding("colour.none", None, text("#ffffff"))];
    assert_eq!(
        apply_variant(&mut definitions, Some(&missing), "theme", "dark"),
        Err("theme dark overrides missing token colour.none".to_string())
    );
    let retyped = vec![overriding("spacing.unit", Some(TokenType::Number), TokenValue::Number(2))];
    assert_eq!(
        apply_variant(&mut definitions, Some(&retyped), "density", "compact"),
        Err("density compact changes the type of token spacing.unit".to_string())
    );
}

#[test]
fn variant_resolution_applies_theme_then_density() {
    let base = vec![
        token("colour.text", TokenType::Color, text("#000000")),
        token("colour.link", TokenType::Color, text("{colour.text}")),
    ];
    let theme = vec![overriding("colour.text", None, text("#0a0b0c"))];
    let density: Vec<TokenOverride> = vec![];
    assert_eq!(
        resolve_variant(&base, Some(&theme), "light", Some(&density), "compact"),
        Ok(vec![
            ("colour.text".to_string(), ResolvedValue::Color([10, 11, 12, 255])),
            ("colour.link".to_string(), ResolvedValue::Color([10, 11, 12, 255])),
        ])
    );
    assert_eq!(
        resolve_variant(&base, None, "sepia", Some(&density), "compact"),
        Err(ResolveError::Message("unknown theme variant sepia".to_string()))
    );
}

#[test]
fn overrides_stay_within_their_domain() {
    let variants = vec![
        ("dark".to_string(), vec!["colour.text".to_string()]),
        ("light".to_string(), vec!["colour.text".to_string(), "spacing.unit".to_string()]),
    ];
    assert_eq!(
        validate_override_domains(&variants, "theme", &["colour."]),
        Err("theme light cannot override token spacing.unit; theme overrides are restricted to colour.".to_string())
    );
    assert_eq!(validate_override_domains(&variants, "density", &["colour.", "spacing."]), Ok(()));
}

#[test]
fn colour_text_that_reading_would_cut_is_reported() {
    let definitions = vec![token("tokens.bad", TokenType::Color, text("#1\u{e9}234"))];
    assert_eq!(
        resolve_tokens(&definitions),
        Err(ResolveError::CutCharacter("#1\u{e9}234".to_string()))
    );
    let definitions = vec![token("tokens.fine", TokenType::Color, text("#zz\u{e9}12"))];
    assert_eq!(
        resolve_tokens(&definitions),
        Err(ResolveError::Message("color token tokens.fine contains invalid hexadecimal digits".to_string()))
    );
}
