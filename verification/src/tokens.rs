//! Design token values: their declared types, colours written as hexadecimal
//! text, aliases to other tokens, theme and density overrides, the
//! resolution of every token to a colour or a number, and the Rust literals
//! generated for colours.
use vstd::prelude::*;

use crate::text_scan::starts_with;
use crate::strings::{
    chars_of, debug_quoted, debug_text, decimal, decimal_chars, join_with, joined, owned, push_chars, push_str, str_equal,
    string_from_chars,
};

verus! {

/// The type a design token declares.
#[derive(Clone, Copy, Debug, PartialEq, Eq, Structural)]
pub enum TokenType {
    Color,
    Dimension,
    Number,
    Duration,
    FontSize,
    FontWeight,
}

/// The token type named `name`, if it is supported.
pub open spec fn token_type_named(name: Seq<char>) -> Option<TokenType> {
    if name == "color"@ {
        Some(TokenType::Color)
    } else if name == "dimension"@ {
        Some(TokenType::Dimension)
    } else if name == "number"@ {
        Some(TokenType::Number)
    } else if name == "duration"@ {
        Some(TokenType::Duration)
    } else if name == "fontSize"@ {
        Some(TokenType::FontSize)
    } else if name == "fontWeight"@ {
        Some(TokenType::FontWeight)
    } else {
        None
    }
}

/// Why the token at `path` cannot have the type named `name`.
pub open spec fn unsupported_type(name: Seq<char>, path: Seq<char>) -> Seq<char> {
    "token "@ + path + " uses unsupported $type "@ + debug_text(name)
        + "; supported types are color, dimension, number, duration, fontSize and fontWeight"@
}

impl TokenType {
    /// The token type named by `$type` of the token at `path`.
    pub fn parse(name: &str, path: &str) -> (r: Result<TokenType, String>)
        ensures
            match token_type_named(name@) {
                Some(t) => r == Ok::<TokenType, String>(t),
                None => r matches Err(message) && message@ == unsupported_type(name@, path@),
            },
    {
        if str_equal(name, "color") {
            Ok(TokenType::Color)
        } else if str_equal(name, "dimension") {
            Ok(TokenType::Dimension)
        } else if str_equal(name, "number") {
            Ok(TokenType::Number)
        } else if str_equal(name, "duration") {
            Ok(TokenType::Duration)
        } else if str_equal(name, "fontSize") {
            Ok(TokenType::FontSize)
        } else if str_equal(name, "fontWeight") {
            Ok(TokenType::FontWeight)
        } else {
            let mut text = chars_of("token ");
            push_str(&mut text, path);
            push_str(&mut text, " uses unsupported $type ");
            let quoted = debug_quoted(name);
            let quoted_chars = chars_of(quoted.as_str());
            push_chars(&mut text, &quoted_chars);
            push_str(
                &mut text,
                "; supported types are color, dimension, number, duration, fontSize and fontWeight",
            );
            Err(string_from_chars(&text))
        }
    }
}

/// The value of an ASCII hexadecimal digit byte.
pub open spec fn hex_value(byte: u8) -> Option<u8> {
    if 48 <= byte <= 57 {
        Some((byte - 48) as u8)
    } else if 97 <= byte <= 102 {
        Some((byte - 87) as u8)
    } else if 65 <= byte <= 70 {
        Some((byte - 55) as u8)
    } else {
        None
    }
}

/// Two bytes read as a base-16 `u8`, as `u8::from_str_radix` reads them: two
/// digits, or a `+` sign and one digit.
pub open spec fn hex_pair(first: u8, second: u8) -> Option<u8> {
    if first == 43 {
        hex_value(second)
    } else {
        match (hex_value(first), hex_value(second)) {
            (Some(high), Some(low)) => Some((high * 16 + low) as u8),
            _ => None,
        }
    }
}

/// The channels of the hexadecimal digits after `#`, two bytes each.
pub open spec fn colour_channels(bytes: Seq<u8>) -> Seq<Option<u8>> {
    Seq::new((bytes.len() - 1) as nat / 2, |k: int| hex_pair(bytes[1 + 2 * k], bytes[2 + 2 * k]))
}

/// A byte in the middle of an encoded character.
pub open spec fn is_continuation(byte: u8) -> bool {
    128 <= byte < 192
}

/// The channels of a colour written as `#RRGGBB` or `#RRGGBBAA` in `bytes`,
/// or why it is refused; an absent alpha is opaque.
pub open spec fn colour_of(bytes: Seq<u8>, path: Seq<char>) -> Result<Seq<u8>, Seq<char>> {
    if bytes.len() == 0 || bytes[0] != 35 {
        Err("color token "@ + path + " must start with #"@)
    } else if bytes.len() != 7 && bytes.len() != 9 {
        Err("color token "@ + path + " must use #RRGGBB or #RRGGBBAA"@)
    } else {
        let channels = colour_channels(bytes);
        if exists|k: int| 0 <= k < channels.len() && channels[k] is None {
            Err("color token "@ + path + " contains invalid hexadecimal digits"@)
        } else {
            let values = channels.map_values(|c: Option<u8>| c->0);
            Ok(
                if values.len() == 3 {
                    values.push(255u8)
                } else {
                    values
                },
            )
        }
    }
}

/// Reading the channels of a colour of the right length slices its text at
/// character boundaries up to the first channel that is not hexadecimal,
/// where reading stops; slicing inside an encoded character would panic.
pub open spec fn channels_on_boundaries(bytes: Seq<u8>) -> bool {
    (bytes.len() > 0 && bytes[0] == 35 && (bytes.len() == 7 || bytes.len() == 9)) ==> forall|k: int|
        0 <= k && 2 + 2 * k < bytes.len() && (forall|j: int|
            0 <= j < k ==> #[trigger] hex_pair(bytes[1 + 2 * j], bytes[2 + 2 * j]) is Some)
            ==> !is_continuation(#[trigger] bytes[1 + 2 * k]) && (3 + 2 * k < bytes.len()
            ==> !is_continuation(bytes[3 + 2 * k]))
}

fn hex_digit(byte: u8) -> (r: Option<u8>)
    ensures
        r == hex_value(byte),
{
    if 48 <= byte && byte <= 57 {
        Some(byte - 48)
    } else if 97 <= byte && byte <= 102 {
        Some(byte - 87)
    } else if 65 <= byte && byte <= 70 {
        Some(byte - 55)
    } else {
        None
    }
}

/// The hexadecimal digits in order of value, in lower case.
pub open spec fn lower_hex_digits() -> Seq<char> {
    "0123456789abcdef"@
}

/// The hexadecimal digits in order of value, in upper case.
pub open spec fn upper_hex_digits() -> Seq<char> {
    "0123456789ABCDEF"@
}

/// The byte of the hexadecimal digit of value `v`, in upper or lower case.
pub open spec fn hex_digit_byte(v: int, upper: bool) -> u8 {
    let c = if upper {
        upper_hex_digits()[v]
    } else {
        lower_hex_digits()[v]
    };
    (c as u32) as u8
}

/// Each hexadecimal digit, in either case, reads as its value, and no other
/// byte reads as a digit.
pub proof fn lemma_hex_digits_read(v: int, upper: bool, byte: u8)
    requires
        0 <= v < 16,
    ensures
        hex_value(hex_digit_byte(v, upper)) == Some(v as u8),
        hex_value(byte) is Some ==> byte == hex_digit_byte(hex_value(byte)->0 as int, false) || byte
            == hex_digit_byte(hex_value(byte)->0 as int, true),
{
    reveal_strlit("0123456789abcdef");
    reveal_strlit("0123456789ABCDEF");
    assert(lower_hex_digits() =~= seq!['0', '1', '2', '3', '4', '5', '6', '7', '8', '9', 'a', 'b', 'c', 'd', 'e', 'f']);
    assert(upper_hex_digits() =~= seq!['0', '1', '2', '3', '4', '5', '6', '7', '8', '9', 'A', 'B', 'C', 'D', 'E', 'F']);
}

/// The bytes of `#` and the two digits of each channel, in upper or lower
/// case.
pub open spec fn hex_colour_bytes(red: u8, green: u8, blue: u8, upper: bool) -> Seq<u8> {
    seq![
        35u8,
        hex_digit_byte(red as int / 16, upper),
        hex_digit_byte(red as int % 16, upper),
        hex_digit_byte(green as int / 16, upper),
        hex_digit_byte(green as int % 16, upper),
        hex_digit_byte(blue as int / 16, upper),
        hex_digit_byte(blue as int % 16, upper),
    ]
}

/// Two hexadecimal digits, in either case, read as the byte they write.
proof fn lemma_hex_pair_reads(value: u8, upper: bool)
    ensures
        hex_pair(hex_digit_byte(value as int / 16, upper), hex_digit_byte(value as int % 16, upper)) == Some(value),
{
    lemma_hex_digits_read(value as int / 16, upper, 0);
    lemma_hex_digits_read(value as int % 16, upper, 0);
    assert((value / 16) * 16 + value % 16 == value) by (nonlinear_arith);
}

/// A colour written as `#` and two hexadecimal digits per channel, in upper
/// or in lower case, reads as its three channels, opaque.
pub proof fn lemma_hex_colour_reads(red: u8, green: u8, blue: u8, upper: bool, path: Seq<char>)
    ensures
        colour_of(hex_colour_bytes(red, green, blue, upper), path) == Ok::<Seq<u8>, Seq<char>>(
            seq![red, green, blue, 255u8],
        ),
{
    let bytes = hex_colour_bytes(red, green, blue, upper);
    lemma_hex_pair_reads(red, upper);
    lemma_hex_pair_reads(green, upper);
    lemma_hex_pair_reads(blue, upper);
    let channels = colour_channels(bytes);
    assert(channels[0] == Some(red));
    assert(channels[1] == Some(green));
    assert(channels[2] == Some(blue));
    assert(channels =~= seq![Some(red), Some(green), Some(blue)]);
    let values = channels.map_values(|c: Option<u8>| c->0);
    assert(values =~= seq![red, green, blue]);
    assert(values.push(255u8) =~= seq![red, green, blue, 255u8]);
}

fn read_pair(first: u8, second: u8) -> (r: Option<u8>)
    ensures
        r == hex_pair(first, second),
{
    if first == 43 {
        hex_digit(second)
    } else {
        match (hex_digit(first), hex_digit(second)) {
            (Some(high), Some(low)) => Some(high * 16 + low),
            _ => None,
        }
    }
}

fn colour_from_bytes(bytes: &[u8], path: &str) -> (r: Result<[u8; 4], String>)
    ensures
        match colour_of(bytes@, path@) {
            Ok(channels) => r matches Ok(c) && c@ == channels,
            Err(message) => r matches Err(e) && e@ == message,
        },
{
    if bytes.len() == 0 || bytes[0] != 35 {
        let mut text = chars_of("color token ");
        push_str(&mut text, path);
        push_str(&mut text, " must start with #");
        return Err(string_from_chars(&text));
    }
    if bytes.len() != 7 && bytes.len() != 9 {
        let mut text = chars_of("color token ");
        push_str(&mut text, path);
        push_str(&mut text, " must use #RRGGBB or #RRGGBBAA");
        return Err(string_from_chars(&text));
    }
    let count = (bytes.len() - 1) / 2;
    let ghost channels = colour_channels(bytes@);
    let mut out: [u8; 4] = [0, 0, 0, 255];
    let mut k: usize = 0;
    while k < count
        invariant
            bytes.len() == 7 || bytes.len() == 9,
            bytes@[0] == 35,
            count == (bytes.len() - 1) / 2,
            channels == colour_channels(bytes@),
            channels.len() == count,
            0 <= k <= count,
            forall|j: int| 0 <= j < k ==> #[trigger] channels[j] == Some(out@[j]),
            k <= 3 ==> out@[3] == 255,
        decreases count - k,
    {
        let pair = read_pair(bytes[1 + 2 * k], bytes[2 + 2 * k]);
        assert(channels[k as int] == pair);
        match pair {
            Some(channel) => {
                out[k] = channel;
            },
            None => {
                let mut text = chars_of("color token ");
                push_str(&mut text, path);
                push_str(&mut text, " contains invalid hexadecimal digits");
                proof {
                    assert(0 <= k < colour_channels(bytes@).len() && colour_channels(bytes@)[k as int] is None);
                }
                return Err(string_from_chars(&text));
            },
        }
        k = k + 1;
    }
    proof {
        let values = channels.map_values(|c: Option<u8>| c->0);
        assert forall|j: int| 0 <= j < channels.len() implies channels[j] is Some by {
            assert(channels[j] == Some(out@[j]));
        }
        if count == 3 {
            assert(out@ =~= values.push(255u8));
        } else {
            assert(out@ =~= values);
        }
    }
    Ok(out)
}

/// The channels of the colour token at `path`, written as `#RRGGBB` or
/// `#RRGGBBAA`; an absent alpha is opaque.
pub fn parse_colour(value: &str, path: &str) -> (r: Result<[u8; 4], String>)
    requires
        channels_on_boundaries(vstd::utf8::encode_utf8(value@)),
    ensures
        match colour_of(vstd::utf8::encode_utf8(value@), path@) {
            Ok(channels) => r matches Ok(c) && c@ == channels,
            Err(message) => r matches Err(e) && e@ == message,
        },
{
    colour_from_bytes(value.as_bytes(), path)
}

/// The generated Rust literal of a colour.
pub open spec fn colour_literal_text(value: Seq<u8>) -> Seq<char> {
    "Rgba8 {\n        red: "@ + decimal(value[0] as nat) + ",\n        green: "@ + decimal(
        value[1] as nat,
    ) + ",\n        blue: "@ + decimal(value[2] as nat) + ",\n        alpha: "@ + decimal(
        value[3] as nat,
    ) + ",\n    }"@
}

/// The generated Rust literal of a colour.
pub fn colour_literal(value: [u8; 4]) -> (r: String)
    ensures
        r@ == colour_literal_text(value@),
{
    let mut text = chars_of("Rgba8 {\n        red: ");
    let red = decimal_chars(value[0] as u64);
    push_chars(&mut text, &red);
    push_str(&mut text, ",\n        green: ");
    let green = decimal_chars(value[1] as u64);
    push_chars(&mut text, &green);
    push_str(&mut text, ",\n        blue: ");
    let blue = decimal_chars(value[2] as u64);
    push_chars(&mut text, &blue);
    push_str(&mut text, ",\n        alpha: ");
    let alpha = decimal_chars(value[3] as u64);
    push_chars(&mut text, &alpha);
    push_str(&mut text, ",\n    }");
    proof {
        assert(text@ =~= colour_literal_text(value@));
    }
    string_from_chars(&text)
}


/// The token an alias value refers to: `{path.to.token}` gives
/// `path.to.token`; text that neither begins with `{` nor ends with `}` is no
/// alias; other text with braces is a malformed alias.
pub open spec fn alias_of(text: Seq<char>) -> Result<Option<Seq<char>>, Seq<char>> {
    let opens = text.len() > 0 && text[0] == '{';
    let closes = text.len() > 0 && text.last() == '}';
    if !opens && !closes {
        Ok(None)
    } else if opens && closes && text.len() >= 2 && {
        let inner = text.subrange(1, text.len() - 1);
        inner.len() > 0 && forall|k: int|
            0 <= k < inner.len() ==> #[trigger] inner[k] != '{' && inner[k] != '}'
    } {
        Ok(Some(text.subrange(1, text.len() - 1)))
    } else {
        Err("malformed token alias "@ + debug_text(text) + "; expected {path.to.token}"@)
    }
}

/// The token an alias refers to, where the value is text.
pub fn alias_target(value: Option<&str>) -> (r: Result<Option<String>, String>)
    ensures
        match value {
            None => r matches Ok(None),
            Some(text) => match alias_of(text@) {
                Ok(None) => r matches Ok(None),
                Ok(Some(target)) => r matches Ok(Some(t)) && t@ == target,
                Err(message) => r matches Err(e) && e@ == message,
            },
        },
{
    let text = match value {
        None => {
            return Ok(None);
        },
        Some(text) => text,
    };
    let chars = chars_of(text);
    let n = chars.len();
    let opens = n > 0 && chars[0] == '{';
    let closes = n > 0 && chars[n - 1] == '}';
    if !opens && !closes {
        return Ok(None);
    }
    if opens && closes && n >= 2 {
        let mut clean = n > 2;
        let mut i: usize = 1;
        while i < n - 1
            invariant
                n == chars@.len(),
                n >= 2,
                1 <= i <= n - 1,
                clean == (n > 2 && forall|k: int|
                    1 <= k < i ==> #[trigger] chars@[k] != '{' && chars@[k] != '}'),
            decreases n - 1 - i,
        {
            if chars[i] == '{' || chars[i] == '}' {
                clean = false;
            }
            i = i + 1;
        }
        if clean {
            let inner = crate::text_scan::copy_range(&chars, 1, n - 1);
            proof {
                let spec_inner = text@.subrange(1, text@.len() - 1);
                assert(inner@ == spec_inner);
                assert forall|k: int| 0 <= k < spec_inner.len() implies #[trigger] spec_inner[k] != '{'
                    && spec_inner[k] != '}' by {
                    assert(spec_inner[k] == chars@[k + 1]);
                }
            }
            return Ok(Some(string_from_chars(&inner)));
        }
        proof {
            let spec_inner = text@.subrange(1, text@.len() - 1);
            if spec_inner.len() > 0 && forall|k: int|
                0 <= k < spec_inner.len() ==> #[trigger] spec_inner[k] != '{' && spec_inner[k] != '}' {
                assert forall|k: int| 1 <= k < n - 1 implies #[trigger] chars@[k] != '{' && chars@[k] != '}' by {
                    assert(spec_inner[k - 1] == chars@[k]);
                }
            }
        }
    }
    let quoted = debug_quoted(text);
    let mut message = chars_of("malformed token alias ");
    let quoted_chars = chars_of(quoted.as_str());
    push_chars(&mut message, &quoted_chars);
    push_str(&mut message, "; expected {path.to.token}");
    Err(string_from_chars(&message))
}


/// A token's value as the source gives it: text, a JSON number (the bit
/// pattern of its `f64`), or anything else.
#[derive(Debug, PartialEq, Eq)]
pub enum TokenValue {
    Text(String),
    Number(u64),
    Other,
}

pub enum TokenValueView {
    Text(Seq<char>),
    Number(u64),
    Other,
}

impl View for TokenValue {
    type V = TokenValueView;

    open spec fn view(&self) -> TokenValueView {
        match self {
            TokenValue::Text(text) => TokenValueView::Text(text@),
            TokenValue::Number(bits) => TokenValueView::Number(*bits),
            TokenValue::Other => TokenValueView::Other,
        }
    }
}

/// A token of one resolved theme and density: its path, declared type and
/// value.
#[derive(Debug, PartialEq, Eq)]
pub struct TokenDefinition {
    pub path: String,
    pub token_type: TokenType,
    pub value: TokenValue,
}

pub struct DefinitionView {
    pub path: Seq<char>,
    pub token_type: TokenType,
    pub value: TokenValueView,
}

impl View for TokenDefinition {
    type V = DefinitionView;

    open spec fn view(&self) -> DefinitionView {
        DefinitionView { path: self.path@, token_type: self.token_type, value: self.value@ }
    }
}

/// What a token resolves to: a colour, or a number (the bit pattern of its
/// `f64`).
#[derive(Clone, Copy, Debug, PartialEq, Eq)]
pub enum ResolvedValue {
    Color([u8; 4]),
    Number(u64),
}

pub enum ResolvedView {
    Color(Seq<u8>),
    Number(u64),
}

impl View for ResolvedValue {
    type V = ResolvedView;

    open spec fn view(&self) -> ResolvedView {
        match self {
            ResolvedValue::Color(channels) => ResolvedView::Color(channels@),
            ResolvedValue::Number(bits) => ResolvedView::Number(*bits),
        }
    }
}

pub open spec fn definition_views(definitions: Seq<TokenDefinition>) -> Seq<DefinitionView> {
    definitions.map_values(|d: TokenDefinition| d@)
}

/// `i` is the first definition of `path`.
pub open spec fn is_first_definition(definitions: Seq<DefinitionView>, path: Seq<char>, i: int) -> bool {
    &&& 0 <= i < definitions.len()
    &&& definitions[i].path == path
    &&& forall|j: int| 0 <= j < i ==> definitions[j].path != path
}

/// The definition of `path`, if there is one.
pub open spec fn definition_of(definitions: Seq<DefinitionView>, path: Seq<char>) -> Option<DefinitionView> {
    if exists|i: int| 0 <= i < definitions.len() && definitions[i].path == path {
        Some(definitions[choose|i: int| is_first_definition(definitions, path, i)])
    } else {
        None
    }
}

/// The bit pattern of a finite `f64`: its exponent is not all ones.
pub open spec fn is_finite_bits(bits: u64) -> bool {
    (bits >> 52u64) & 0x7ffu64 != 0x7ffu64
}

/// How `Debug` shows a token type.
pub open spec fn kind_name(token_type: TokenType) -> Seq<char> {
    match token_type {
        TokenType::Color => "Color"@,
        TokenType::Dimension => "Dimension"@,
        TokenType::Number => "Number"@,
        TokenType::Duration => "Duration"@,
        TokenType::FontSize => "FontSize"@,
        TokenType::FontWeight => "FontWeight"@,
    }
}

/// Why resolving stopped: a problem, reported in words, or a colour text
/// whose channels, read two bytes at a time, would cut a character (reading
/// such a text by byte slices panics).
#[derive(Debug, PartialEq, Eq)]
pub enum ResolveError {
    Message(String),
    CutCharacter(String),
}

pub enum ResolveErrorView {
    Message(Seq<char>),
    CutCharacter(Seq<char>),
}

impl View for ResolveError {
    type V = ResolveErrorView;

    open spec fn view(&self) -> ResolveErrorView {
        match self {
            ResolveError::Message(message) => ResolveErrorView::Message(message@),
            ResolveError::CutCharacter(text) => ResolveErrorView::CutCharacter(text@),
        }
    }
}

/// The value of a token that is no alias: a colour token's colour text read
/// as a colour, any other token's finite number.
pub open spec fn literal_value(definition: DefinitionView) -> Result<ResolvedView, ResolveErrorView> {
    match definition.token_type {
        TokenType::Color => match definition.value {
            TokenValueView::Text(text) => if !channels_on_boundaries(vstd::utf8::encode_utf8(text)) {
                Err(ResolveErrorView::CutCharacter(text))
            } else {
                match colour_of(vstd::utf8::encode_utf8(text), definition.path) {
                    Ok(channels) => Ok(ResolvedView::Color(channels)),
                    Err(message) => Err(ResolveErrorView::Message(message)),
                }
            },
            _ => Err(ResolveErrorView::Message("color token "@ + definition.path + " must contain a string"@)),
        },
        _ => match definition.value {
            TokenValueView::Number(bits) => if is_finite_bits(bits) {
                Ok(ResolvedView::Number(bits))
            } else {
                Err(ResolveErrorView::Message("token "@ + definition.path + " must contain a finite number"@))
            },
            _ => Err(ResolveErrorView::Message("token "@ + definition.path + " must contain a finite number"@)),
        },
    }
}

/// The alias a value holds: only text can be one.
pub open spec fn alias_in(value: TokenValueView) -> Result<Option<Seq<char>>, Seq<char>> {
    match value {
        TokenValueView::Text(text) => alias_of(text),
        _ => Ok(None),
    }
}

/// The first position of `path` among the visited tokens.
pub open spec fn first_visit(visited: Seq<Seq<char>>, path: Seq<char>) -> int {
    choose|i: int| 0 <= i < visited.len() && visited[i] == path && forall|j: int|
        0 <= j < i ==> visited[j] != path
}

/// What resolving `path` gives after following aliases through `visited`:
/// its value at the end of its aliases, or the first problem on the way: an
/// alias back to a token on the way (reported as the cycle), a missing
/// token, an alias to a token of another type, a malformed alias, or a value
/// that does not fit the type.
pub open spec fn chain_outcome(definitions: Seq<DefinitionView>, path: Seq<char>, visited: Seq<Seq<char>>) -> Result<ResolvedView, ResolveErrorView>
    decreases definitions.len() - visited.len(),
{
    if visited.contains(path) {
        Err(
            ResolveErrorView::Message(
                "token alias cycle: "@ + joined(
                    visited.subrange(first_visit(visited, path), visited.len() as int).push(path),
                    " -> "@,
                ),
            ),
        )
    } else {
        match definition_of(definitions, path) {
            None => Err(ResolveErrorView::Message("token alias references missing token "@ + path)),
            Some(definition) => match alias_in(definition.value) {
                Err(message) => Err(ResolveErrorView::Message(message)),
                Ok(None) => literal_value(definition),
                Ok(Some(target)) => match definition_of(definitions, target) {
                    None => Err(ResolveErrorView::Message("token "@ + path + " aliases missing token "@ + target)),
                    Some(aliased) => if aliased.token_type != definition.token_type {
                        Err(
                            ResolveErrorView::Message(
                                "token "@ + path + " ("@ + kind_name(definition.token_type) + ") aliases "@
                                    + target + " ("@ + kind_name(aliased.token_type) + ") with a different type"@,
                            ),
                        )
                    } else if visited.len() >= definitions.len() {
                        // Not reached: each step visits a token that has a definition.
                        Err(ResolveErrorView::Message("token alias cycle: "@ + joined(visited.push(path), " -> "@)))
                    } else {
                        chain_outcome(definitions, target, visited.push(path))
                    },
                },
            },
        }
    }
}

/// Resolving the tokens from position `k` on, in order: their paths and
/// values, or the first problem.
pub open spec fn resolved_from(definitions: Seq<DefinitionView>, k: int) -> Result<Seq<(Seq<char>, ResolvedView)>, ResolveErrorView>
    decreases definitions.len() - k,
{
    if k < 0 || k >= definitions.len() {
        Ok(Seq::empty())
    } else {
        match chain_outcome(definitions, definitions[k].path, Seq::empty()) {
            Err(message) => Err(message),
            Ok(value) => match resolved_from(definitions, k + 1) {
                Err(message) => Err(message),
                Ok(rest) => Ok(seq![(definitions[k].path, value)] + rest),
            },
        }
    }
}

/// `r` is the outcome `outcome`.
pub open spec fn resolved_as(outcome: Result<ResolvedView, ResolveErrorView>, r: Result<ResolvedValue, ResolveError>) -> bool {
    match outcome {
        Ok(value) => r matches Ok(x) && x@ == value,
        Err(problem) => r matches Err(e) && e@ == problem,
    }
}

/// Some definition has path `path`.
pub open spec fn has_definition(definitions: Seq<DefinitionView>, path: Seq<char>) -> bool {
    exists|i: int| 0 <= i < definitions.len() && definitions[i].path == path
}

/// The position of the first definition of `path`.
pub(crate) fn find_definition(definitions: &Vec<TokenDefinition>, path: &str) -> (found: Option<usize>)
    ensures
        match found {
            Some(i) => is_first_definition(definition_views(definitions@), path@, i as int)
                && definition_of(definition_views(definitions@), path@) == Some(
                definition_views(definitions@)[i as int],
            ),
            None => definition_of(definition_views(definitions@), path@) is None,
        },
{
    let ghost views = definition_views(definitions@);
    let mut i: usize = 0;
    while i < definitions.len()
        invariant
            views == definition_views(definitions@),
            0 <= i <= definitions.len(),
            forall|j: int| 0 <= j < i ==> views[j].path != path@,
        decreases definitions.len() - i,
    {
        if str_equal(definitions[i].path.as_str(), path) {
            proof {
                assert(is_first_definition(views, path@, i as int));
                let k = choose|k: int| is_first_definition(views, path@, k);
                assert(k == i as int) by {
                    if k < i as int {
                        assert(views[k].path != path@);
                    } else if k > i as int {
                        assert(views[i as int].path != path@);
                    }
                }
            }
            return Some(i);
        }
        i = i + 1;
    }
    None
}

/// How `Debug` shows the token type.
fn kind_text(token_type: TokenType) -> (r: &'static str)
    ensures
        r@ == kind_name(token_type),
{
    match token_type {
        TokenType::Color => "Color",
        TokenType::Dimension => "Dimension",
        TokenType::Number => "Number",
        TokenType::Duration => "Duration",
        TokenType::FontSize => "FontSize",
        TokenType::FontWeight => "FontWeight",
    }
}

/// The channels before `k` are hexadecimal.
pub open spec fn pairs_read(bytes: Seq<u8>, k: int) -> bool {
    forall|j: int| 0 <= j < k ==> #[trigger] hex_pair(bytes[1 + 2 * j], bytes[2 + 2 * j]) is Some
}

/// The channels before `k` begin and end on character boundaries.
pub open spec fn pairs_whole(bytes: Seq<u8>, k: int) -> bool {
    forall|j: int|
        0 <= j < k ==> !is_continuation(#[trigger] bytes[1 + 2 * j]) && (3 + 2 * j < bytes.len()
            ==> !is_continuation(bytes[3 + 2 * j]))
}

/// Reading stops after channel `k` (it is not hexadecimal, or it is the
/// last), and every channel up to it was read whole: no character is cut.
proof fn lemma_reading_whole(bytes: Seq<u8>, k: int)
    requires
        bytes.len() == 7 || bytes.len() == 9,
        bytes[0] == 35,
        0 <= k,
        pairs_whole(bytes, k),
        2 + 2 * k >= bytes.len() || (!is_continuation(bytes[1 + 2 * k]) && (3 + 2 * k < bytes.len()
            ==> !is_continuation(bytes[3 + 2 * k])) && hex_pair(bytes[1 + 2 * k], bytes[2 + 2 * k]) is None),
    ensures
        channels_on_boundaries(bytes),
{
    assert forall|m: int|
        0 <= m && 2 + 2 * m < bytes.len() && (forall|j: int|
            0 <= j < m ==> #[trigger] hex_pair(bytes[1 + 2 * j], bytes[2 + 2 * j]) is Some) implies !is_continuation(
        #[trigger] bytes[1 + 2 * m],
    ) && (3 + 2 * m < bytes.len() ==> !is_continuation(bytes[3 + 2 * m])) by {
        if m > k {
            assert(hex_pair(bytes[1 + 2 * k], bytes[2 + 2 * k]) is Some);
        } else if m < k {
            assert(!is_continuation(bytes[1 + 2 * m]));
        }
    }
}

/// Channel `k` is reached and would be cut: reading cuts a character.
proof fn lemma_reading_cuts(bytes: Seq<u8>, k: int)
    requires
        0 <= k,
        2 + 2 * k < bytes.len(),
        pairs_read(bytes, k),
        is_continuation(bytes[1 + 2 * k]) || (3 + 2 * k < bytes.len() && is_continuation(bytes[3 + 2 * k])),
    ensures
        !channels_on_boundaries(bytes) || !(bytes.len() > 0 && bytes[0] == 35 && (bytes.len() == 7 || bytes.len() == 9)),
{
    if channels_on_boundaries(bytes) && bytes.len() > 0 && bytes[0] == 35 && (bytes.len() == 7 || bytes.len() == 9) {
        assert(!is_continuation(bytes[1 + 2 * k]));
    }
}

/// One more channel, hexadecimal and whole, extends what was read.
proof fn lemma_pairs_extend(bytes: Seq<u8>, k: int)
    requires
        0 <= k,
        pairs_read(bytes, k),
        pairs_whole(bytes, k),
        hex_pair(bytes[1 + 2 * k], bytes[2 + 2 * k]) is Some,
        !is_continuation(bytes[1 + 2 * k]),
        3 + 2 * k < bytes.len() ==> !is_continuation(bytes[3 + 2 * k]),
    ensures
        pairs_read(bytes, k + 1),
        pairs_whole(bytes, k + 1),
{
    assert forall|j: int| 0 <= j < k + 1 implies #[trigger] hex_pair(bytes[1 + 2 * j], bytes[2 + 2 * j]) is Some by {
        if j < k {
            assert(pairs_read(bytes, k));
        }
    }
    assert forall|j: int|
        0 <= j < k + 1 implies !is_continuation(#[trigger] bytes[1 + 2 * j]) && (3 + 2 * j < bytes.len()
            ==> !is_continuation(bytes[3 + 2 * j])) by {
        if j < k {
            assert(pairs_whole(bytes, k));
        }
    }
}

/// Whether reading the channels of the colour text `bytes` two bytes at a
/// time would cut a character.
fn cuts_character(bytes: &[u8]) -> (r: bool)
    ensures
        r == !channels_on_boundaries(bytes@),
{
    let n = bytes.len();
    if n == 0 || bytes[0] != 35 || (n != 7 && n != 9) {
        return false;
    }
    let mut k: usize = 0;
    while 2 + 2 * k < n
        invariant
            n == bytes@.len(),
            n == 7 || n == 9,
            bytes@[0] == 35,
            2 * k <= n,
            pairs_read(bytes@, k as int),
            pairs_whole(bytes@, k as int),
        decreases n - 2 * k,
    {
        let first = bytes[1 + 2 * k];
        let cut_after = 3 + 2 * k < n && 128 <= bytes[3 + 2 * k] && bytes[3 + 2 * k] < 192;
        if (128 <= first && first < 192) || cut_after {
            proof {
                lemma_reading_cuts(bytes@, k as int);
            }
            return true;
        }
        if read_pair(bytes[1 + 2 * k], bytes[2 + 2 * k]).is_none() {
            proof {
                lemma_reading_whole(bytes@, k as int);
            }
            return false;
        }
        proof {
            assert(!is_continuation(bytes@[1 + 2 * k]));
            assert(3 + 2 * k < bytes@.len() ==> !is_continuation(bytes@[3 + 2 * k]));
            lemma_pairs_extend(bytes@, k as int);
        }
        k = k + 1;
    }
    proof {
        lemma_reading_whole(bytes@, k as int);
    }
    false
}

/// The value of a token that is no alias.
fn literal(definition: &TokenDefinition) -> (r: Result<ResolvedValue, ResolveError>)
    ensures
        resolved_as(literal_value(definition@), r),
{
    match definition.token_type {
        TokenType::Color => match &definition.value {
            TokenValue::Text(text) => {
                if cuts_character(text.as_str().as_bytes()) {
                    return Err(ResolveError::CutCharacter(text.clone()));
                }
                match parse_colour(text.as_str(), definition.path.as_str()) {
                    Ok(channels) => Ok(ResolvedValue::Color(channels)),
                    Err(message) => Err(ResolveError::Message(message)),
                }
            },
            _ => {
                let mut message = chars_of("color token ");
                push_str(&mut message, definition.path.as_str());
                push_str(&mut message, " must contain a string");
                Err(ResolveError::Message(string_from_chars(&message)))
            },
        },
        _ => {
            if let TokenValue::Number(bits) = definition.value {
                if (bits >> 52u64) & 0x7ffu64 != 0x7ffu64 {
                    return Ok(ResolvedValue::Number(bits));
                }
            }
            let mut message = chars_of("token ");
            push_str(&mut message, definition.path.as_str());
            push_str(&mut message, " must contain a finite number");
            Err(ResolveError::Message(string_from_chars(&message)))
        },
    }
}

/// The first position of `path` among `visited`.
fn first_position(visited: &Vec<String>, path: &str) -> (r: Option<usize>)
    ensures
        match r {
            Some(f) => f < visited.len() && visited@[f as int]@ == path@ && forall|j: int|
                0 <= j < f ==> visited@[j]@ != path@,
            None => forall|j: int| 0 <= j < visited.len() ==> visited@[j]@ != path@,
        },
{
    let mut i: usize = 0;
    while i < visited.len()
        invariant
            0 <= i <= visited.len(),
            forall|j: int| 0 <= j < i ==> visited@[j]@ != path@,
        decreases visited.len() - i,
    {
        if str_equal(visited[i].as_str(), path) {
            return Some(i);
        }
        i = i + 1;
    }
    None
}

/// Distinct paths that all have definitions are no more than the
/// definitions.
proof fn lemma_trail_fits(definitions: Seq<DefinitionView>, trail: Seq<Seq<char>>)
    requires
        trail.no_duplicates(),
        forall|j: int| 0 <= j < trail.len() ==> has_definition(definitions, #[trigger] trail[j]),
    ensures
        trail.len() <= definitions.len(),
{
    broadcast use vstd::seq_lib::seq_to_set_is_finite;
    let paths = definitions.map_values(|d: DefinitionView| d.path);
    trail.unique_seq_to_set();
    paths.lemma_cardinality_of_set();
    assert forall|p: Seq<char>| trail.to_set().contains(p) implies paths.to_set().contains(p) by {
        let j = choose|j: int| 0 <= j < trail.len() && trail[j] == p;
        assert(has_definition(definitions, trail[j]));
        let i = choose|i: int| 0 <= i < definitions.len() && definitions[i].path == p;
        assert(paths[i] == p);
    }
    vstd::set_lib::lemma_len_subset(trail.to_set(), paths.to_set());
}

/// The value of the token at `start`, at the end of its aliases.
fn resolve_chain(definitions: &Vec<TokenDefinition>, start: &str) -> (r: Result<ResolvedValue, ResolveError>)
    ensures
        resolved_as(chain_outcome(definition_views(definitions@), start@, Seq::empty()), r),
{
    let ghost views = definition_views(definitions@);
    let mut current = owned(start);
    let mut visited: Vec<String> = Vec::new();
    let ghost mut trail: Seq<Seq<char>> = Seq::empty();
    proof {
        assert(trail =~= visited@.map_values(|s: String| s@));
    }
    loop
        invariant
            views == definition_views(definitions@),
            trail == visited@.map_values(|s: String| s@),
            trail.no_duplicates(),
            forall|j: int| 0 <= j < trail.len() ==> has_definition(views, #[trigger] trail[j]),
            trail.len() <= views.len(),
            chain_outcome(views, start@, Seq::empty()) == chain_outcome(views, current@, trail),
        decreases views.len() - trail.len(),
    {
        if let Some(f) = first_position(&visited, current.as_str()) {
            let mut parts: Vec<String> = Vec::new();
            let mut k: usize = f;
            while k < visited.len()
                invariant
                    f <= k <= visited.len(),
                    f < visited.len(),
                    trail == visited@.map_values(|s: String| s@),
                    parts@.map_values(|s: String| s@) == trail.subrange(f as int, k as int),
                decreases visited.len() - k,
            {
                let ghost prev = parts@.map_values(|s: String| s@);
                let part = visited[k].clone();
                assert(part@ == trail[k as int]);
                parts.push(part);
                k = k + 1;
                proof {
                    assert(parts@.map_values(|s: String| s@) =~= prev.push(trail[k - 1]));
                    assert(trail.subrange(f as int, k as int) =~= trail.subrange(f as int, k - 1).push(trail[k - 1]));
                }
            }
            let ghost before = parts@.map_values(|s: String| s@);
            parts.push(current.clone());
            let joined = join_with(&parts, " -> ");
            let mut message = chars_of("token alias cycle: ");
            push_chars(&mut message, &joined);
            proof {
                assert(trail[f as int] == current@);
                assert(trail.contains(current@));
                assert(parts@.map_values(|s: String| s@) =~= before.push(current@));
                let g = first_visit(trail, current@);
                assert(0 <= f < trail.len() && trail[f as int] == current@ && forall|j: int|
                    0 <= j < f ==> trail[j] != current@);
                assert(g == f as int) by {
                    if g < f as int {
                        assert(trail[g] != current@);
                    } else if g > f as int {
                        assert(trail[f as int] != current@);
                    }
                }
            }
            return Err(ResolveError::Message(string_from_chars(&message)));
        }
        proof {
            assert(!trail.contains(current@));
        }
        let index = match find_definition(definitions, current.as_str()) {
            Some(i) => i,
            None => {
                let mut message = chars_of("token alias references missing token ");
                push_str(&mut message, current.as_str());
                return Err(ResolveError::Message(string_from_chars(&message)));
            },
        };
        let definition = &definitions[index];
        let target = match &definition.value {
            TokenValue::Text(text) => match alias_target(Some(text.as_str())) {
                Ok(found) => found,
                Err(message) => {
                    return Err(ResolveError::Message(message));
                },
            },
            _ => None,
        };
        let target = match target {
            None => {
                return literal(definition);
            },
            Some(target) => target,
        };
        let target_index = match find_definition(definitions, target.as_str()) {
            Some(j) => j,
            None => {
                let mut message = chars_of("token ");
                push_str(&mut message, current.as_str());
                push_str(&mut message, " aliases missing token ");
                push_str(&mut message, target.as_str());
                return Err(ResolveError::Message(string_from_chars(&message)));
            },
        };
        let aliased_type = definitions[target_index].token_type;
        if aliased_type != definition.token_type {
            let mut message = chars_of("token ");
            push_str(&mut message, current.as_str());
            push_str(&mut message, " (");
            push_str(&mut message, kind_text(definition.token_type));
            push_str(&mut message, ") aliases ");
            push_str(&mut message, target.as_str());
            push_str(&mut message, " (");
            push_str(&mut message, kind_text(aliased_type));
            push_str(&mut message, ") with a different type");
            return Err(ResolveError::Message(string_from_chars(&message)));
        }
        let ghost walked = current@;
        proof {
            let longer = trail.push(walked);
            assert forall|a: int, b: int| 0 <= a < b < longer.len() implies longer[a] != longer[b] by {
                if b == trail.len() {
                    assert(trail[a] != walked) by {
                        if trail[a] == walked {
                            assert(trail.contains(walked));
                        }
                    }
                }
            }
            assert forall|j: int| 0 <= j < longer.len() implies has_definition(views, #[trigger] longer[j]) by {
                if j == trail.len() {
                    assert(views[index as int].path == walked);
                } else {
                    assert(longer[j] == trail[j]);
                }
            }
            lemma_trail_fits(views, longer);
        }
        visited.push(current);
        current = target;
        proof {
            trail = trail.push(walked);
            assert(trail =~= visited@.map_values(|s: String| s@));
        }
    }
}

/// The tokens, each with its value at the end of its aliases, in order; or
/// the first problem met.
pub fn resolve_tokens(definitions: &Vec<TokenDefinition>) -> (r: Result<Vec<(String, ResolvedValue)>, ResolveError>)
    ensures
        match resolved_from(definition_views(definitions@), 0) {
            Ok(pairs) => r matches Ok(out) && out.len() == pairs.len() && forall|k: int|
                0 <= k < out.len() ==> (#[trigger] out@[k]).0@ == pairs[k].0 && out@[k].1@ == pairs[k].1,
            Err(problem) => r matches Err(e) && e@ == problem,
        },
{
    let ghost views = definition_views(definitions@);
    let mut out: Vec<(String, ResolvedValue)> = Vec::new();
    let mut i: usize = 0;
    proof {
        assert(out@.map_values(|p: (String, ResolvedValue)| (p.0@, p.1@)) =~= Seq::<(Seq<char>, ResolvedView)>::empty());
    }
    while i < definitions.len()
        invariant
            views == definition_views(definitions@),
            0 <= i <= definitions.len(),
            resolved_from(views, 0) == match resolved_from(views, i as int) {
                Ok(rest) => Ok(out@.map_values(|p: (String, ResolvedValue)| (p.0@, p.1@)) + rest),
                Err(problem) => Err::<Seq<(Seq<char>, ResolvedView)>, ResolveErrorView>(problem),
            },
        decreases definitions.len() - i,
    {
        let value = match resolve_chain(definitions, definitions[i].path.as_str()) {
            Ok(value) => value,
            Err(message) => {
                return Err(message);
            },
        };
        let ghost done = out@.map_values(|p: (String, ResolvedValue)| (p.0@, p.1@));
        let ghost pair = (views[i as int].path, value@);
        out.push((definitions[i].path.clone(), value));
        proof {
            assert(out@.map_values(|p: (String, ResolvedValue)| (p.0@, p.1@)) =~= done.push(pair));
            match resolved_from(views, i + 1) {
                Ok(rest) => {
                    assert(done + (seq![pair] + rest) =~= done.push(pair) + rest);
                },
                Err(_) => {},
            }
        }
        i = i + 1;
    }
    proof {
        let done = out@.map_values(|p: (String, ResolvedValue)| (p.0@, p.1@));
        assert(done + Seq::<(Seq<char>, ResolvedView)>::empty() =~= done);
        assert forall|k: int| 0 <= k < out.len() implies (#[trigger] out@[k]).0@ == done[k].0 && out@[k].1@ == done[k].1 by {}
    }
    Ok(out)
}

/// A theme's or a density's value for one token: its path, the type it
/// declares, if it declares one, and its value.
#[derive(Debug, PartialEq, Eq)]
pub struct TokenOverride {
    pub path: String,
    pub declared_type: Option<TokenType>,
    pub value: TokenValue,
}

pub struct OverrideView {
    pub path: Seq<char>,
    pub declared_type: Option<TokenType>,
    pub value: TokenValueView,
}

impl View for TokenOverride {
    type V = OverrideView;

    open spec fn view(&self) -> OverrideView {
        OverrideView { path: self.path@, declared_type: self.declared_type, value: self.value@ }
    }
}

pub open spec fn override_views(overrides: Seq<TokenOverride>) -> Seq<OverrideView> {
    overrides.map_values(|o: TokenOverride| o@)
}

/// Why `overriding` cannot be applied to `definitions`, if it cannot: its
/// token is missing, or it declares another type than the token's.
pub open spec fn override_problem(
    definitions: Seq<DefinitionView>,
    overriding: OverrideView,
    kind: Seq<char>,
    name: Seq<char>,
) -> Option<Seq<char>> {
    match definition_of(definitions, overriding.path) {
        None => Some(kind + " "@ + name + " overrides missing token "@ + overriding.path),
        Some(definition) => match overriding.declared_type {
            Some(declared) => if declared != definition.token_type {
                Some(kind + " "@ + name + " changes the type of token "@ + overriding.path)
            } else {
                None
            },
            None => None,
        },
    }
}

/// `definitions` with the value of the token that `overriding` names
/// replaced by its value.
pub open spec fn overridden(definitions: Seq<DefinitionView>, overriding: OverrideView) -> Seq<DefinitionView> {
    let i = choose|i: int| is_first_definition(definitions, overriding.path, i);
    definitions.update(
        i,
        DefinitionView { path: definitions[i].path, token_type: definitions[i].token_type, value: overriding.value },
    )
}

/// Applying the overrides from position `k` on, in order: the definitions
/// after the last one applied, and the problem that stopped it, if one did.
pub open spec fn applied_from(
    definitions: Seq<DefinitionView>,
    overrides: Seq<OverrideView>,
    kind: Seq<char>,
    name: Seq<char>,
    k: int,
) -> (Seq<DefinitionView>, Option<Seq<char>>)
    decreases overrides.len() - k,
{
    if k < 0 || k >= overrides.len() {
        (definitions, None)
    } else {
        match override_problem(definitions, overrides[k], kind, name) {
            Some(message) => (definitions, Some(message)),
            None => applied_from(overridden(definitions, overrides[k]), overrides, kind, name, k + 1),
        }
    }
}

/// A copy of a token value.
pub(crate) fn copy_value(value: &TokenValue) -> (r: TokenValue)
    ensures
        r@ == value@,
{
    match value {
        TokenValue::Text(text) => TokenValue::Text(text.clone()),
        TokenValue::Number(bits) => TokenValue::Number(*bits),
        TokenValue::Other => TokenValue::Other,
    }
}

/// Applies the overrides of the `kind` variant `name` in order: each gives
/// its token its value, where the token exists and the override declares no
/// other type. The first that cannot be applied stops it, and is the error;
/// an absent variant is unknown.
pub fn apply_variant(
    definitions: &mut Vec<TokenDefinition>,
    overrides: Option<&Vec<TokenOverride>>,
    kind: &str,
    name: &str,
) -> (r: Result<(), String>)
    ensures
        match overrides {
            None => {
                &&& definition_views(final(definitions)@) == definition_views(old(definitions)@)
                &&& r matches Err(e) && e@ == "unknown "@ + kind@ + " variant "@ + name@
            },
            Some(overrides) => {
                let (after, problem) = applied_from(
                    definition_views(old(definitions)@),
                    override_views(overrides@),
                    kind@,
                    name@,
                    0,
                );
                &&& definition_views(final(definitions)@) == after
                &&& match problem {
                    None => r is Ok,
                    Some(message) => r matches Err(e) && e@ == message,
                }
            },
        },
{
    let list = match overrides {
        None => {
            let mut message = chars_of("unknown ");
            push_str(&mut message, kind);
            push_str(&mut message, " variant ");
            push_str(&mut message, name);
            return Err(string_from_chars(&message));
        },
        Some(list) => list,
    };
    let ghost views = override_views(list@);
    let ghost start = definition_views(definitions@);
    let mut k: usize = 0;
    while k < list.len()
        invariant
            overrides == Some(list),
            start == definition_views(old(definitions)@),
            views == override_views(list@),
            0 <= k <= list.len(),
            applied_from(start, views, kind@, name@, 0) == applied_from(
                definition_views(definitions@),
                views,
                kind@,
                name@,
                k as int,
            ),
        decreases list.len() - k,
    {
        let overriding = &list[k];
        assert(views[k as int] == overriding@);
        let index = match find_definition(definitions, overriding.path.as_str()) {
            None => {
                let mut message = chars_of(kind);
                push_str(&mut message, " ");
                push_str(&mut message, name);
                push_str(&mut message, " overrides missing token ");
                push_str(&mut message, overriding.path.as_str());
                return Err(string_from_chars(&message));
            },
            Some(i) => i,
        };
        if let Some(declared) = overriding.declared_type {
            if declared != definitions[index].token_type {
                let mut message = chars_of(kind);
                push_str(&mut message, " ");
                push_str(&mut message, name);
                push_str(&mut message, " changes the type of token ");
                push_str(&mut message, overriding.path.as_str());
                return Err(string_from_chars(&message));
            }
        }
        let ghost before = definition_views(definitions@);
        let replaced = TokenDefinition {
            path: definitions[index].path.clone(),
            token_type: definitions[index].token_type,
            value: copy_value(&overriding.value),
        };
        definitions.set(index, replaced);
        proof {
            let i = choose|i: int| is_first_definition(before, overriding@.path, i);
            assert(i == index as int) by {
                if i < index as int {
                    assert(before[i].path != overriding@.path);
                } else if i > index as int {
                    assert(before[index as int].path != overriding@.path);
                }
            }
            assert(definition_views(definitions@) =~= overridden(before, views[k as int]));
        }
        k = k + 1;
    }
    Ok(())
}

/// Where some definition has `path`, a first one does.
proof fn lemma_first_definition(definitions: Seq<DefinitionView>, path: Seq<char>, i: int)
    requires
        0 <= i < definitions.len(),
        definitions[i].path == path,
    ensures
        exists|f: int| is_first_definition(definitions, path, f),
    decreases i,
{
    if exists|j: int| 0 <= j < i && definitions[j].path == path {
        let j = choose|j: int| 0 <= j < i && definitions[j].path == path;
        lemma_first_definition(definitions, path, j);
    } else {
        assert(is_first_definition(definitions, path, i));
    }
}

/// The same tokens, in the same order, of the same types.
pub open spec fn same_tokens(a: Seq<DefinitionView>, b: Seq<DefinitionView>) -> bool {
    &&& a.len() == b.len()
    &&& forall|i: int| 0 <= i < a.len() ==> (#[trigger] a[i]).path == b[i].path && a[i].token_type == b[i].token_type
}

/// A variant's overrides change values only: applying them, however far it
/// gets, keeps every token's path and type, and the tokens' order.
pub proof fn lemma_overrides_keep_tokens(
    definitions: Seq<DefinitionView>,
    overrides: Seq<OverrideView>,
    kind: Seq<char>,
    name: Seq<char>,
    k: int,
)
    ensures
        same_tokens(definitions, applied_from(definitions, overrides, kind, name, k).0),
    decreases overrides.len() - k,
{
    if 0 <= k < overrides.len() && override_problem(definitions, overrides[k], kind, name) is None {
        let witness = choose|i: int| 0 <= i < definitions.len() && definitions[i].path == overrides[k].path;
        lemma_first_definition(definitions, overrides[k].path, witness);
        let next = overridden(definitions, overrides[k]);
        lemma_overrides_keep_tokens(next, overrides, kind, name, k + 1);
        let i = choose|i: int| is_first_definition(definitions, overrides[k].path, i);
        assert(same_tokens(definitions, next)) by {
            if 0 <= i < definitions.len() {
                assert forall|j: int| 0 <= j < definitions.len() implies (#[trigger] definitions[j]).path
                    == next[j].path && definitions[j].token_type == next[j].token_type by {
                    if j == i {
                    } else {
                        assert(next[j] == definitions[j]);
                    }
                }
            }
        }
    }
}

pub open spec fn overrides_view(overrides: Option<&Vec<TokenOverride>>) -> Option<Seq<OverrideView>> {
    match overrides {
        Some(list) => Some(override_views(list@)),
        None => None,
    }
}

/// The definitions of one theme and density: the base definitions with the
/// theme's overrides applied, then the density's; or the first problem.
pub open spec fn variant_definitions(
    base: Seq<DefinitionView>,
    theme: Option<Seq<OverrideView>>,
    theme_name: Seq<char>,
    density: Option<Seq<OverrideView>>,
    density_name: Seq<char>,
) -> Result<Seq<DefinitionView>, Seq<char>> {
    match theme {
        None => Err("unknown theme variant "@ + theme_name),
        Some(theme) => {
            let (themed, problem) = applied_from(base, theme, "theme"@, theme_name, 0);
            match problem {
                Some(message) => Err(message),
                None => match density {
                    None => Err("unknown density variant "@ + density_name),
                    Some(density) => {
                        let (dense, problem) = applied_from(themed, density, "density"@, density_name, 0);
                        match problem {
                            Some(message) => Err(message),
                            None => Ok(dense),
                        }
                    },
                },
            }
        },
    }
}

/// The resolved tokens of one theme and density, or the first problem.
pub open spec fn variant_resolution(
    base: Seq<DefinitionView>,
    theme: Option<Seq<OverrideView>>,
    theme_name: Seq<char>,
    density: Option<Seq<OverrideView>>,
    density_name: Seq<char>,
) -> Result<Seq<(Seq<char>, ResolvedView)>, ResolveErrorView> {
    match variant_definitions(base, theme, theme_name, density, density_name) {
        Err(message) => Err(ResolveErrorView::Message(message)),
        Ok(definitions) => resolved_from(definitions, 0),
    }
}

/// A copy of the definitions.
fn copy_definitions(definitions: &Vec<TokenDefinition>) -> (r: Vec<TokenDefinition>)
    ensures
        definition_views(r@) == definition_views(definitions@),
{
    let mut out: Vec<TokenDefinition> = Vec::new();
    let mut i: usize = 0;
    while i < definitions.len()
        invariant
            0 <= i <= definitions.len(),
            definition_views(out@) == definition_views(definitions@.take(i as int)),
        decreases definitions.len() - i,
    {
        let copy = TokenDefinition {
            path: definitions[i].path.clone(),
            token_type: definitions[i].token_type,
            value: copy_value(&definitions[i].value),
        };
        let ghost before = out@;
        out.push(copy);
        proof {
            assert(definitions@.take(i + 1) =~= definitions@.take(i as int).push(definitions@[i as int]));
            assert(definition_views(out@) =~= definition_views(before).push(copy@));
            assert(definition_views(definitions@.take(i + 1)) =~= definition_views(
                definitions@.take(i as int),
            ).push(definitions@[i as int]@));
        }
        i = i + 1;
    }
    proof {
        assert(definitions@.take(definitions.len() as int) =~= definitions@);
    }
    out
}

/// The resolved tokens of the theme `theme_name` and the density
/// `density_name`: the base definitions with the theme's overrides applied,
/// then the density's, each token resolved in order; or the first problem.
pub fn resolve_variant(
    base: &Vec<TokenDefinition>,
    theme: Option<&Vec<TokenOverride>>,
    theme_name: &str,
    density: Option<&Vec<TokenOverride>>,
    density_name: &str,
) -> (r: Result<Vec<(String, ResolvedValue)>, ResolveError>)
    ensures
        match variant_resolution(
            definition_views(base@),
            overrides_view(theme),
            theme_name@,
            overrides_view(density),
            density_name@,
        ) {
            Ok(pairs) => r matches Ok(out) && out.len() == pairs.len() && forall|k: int|
                0 <= k < out.len() ==> (#[trigger] out@[k]).0@ == pairs[k].0 && out@[k].1@ == pairs[k].1,
            Err(problem) => r matches Err(e) && e@ == problem,
        },
{
    proof {
        reveal_strlit("unknown ");
        reveal_strlit(" variant ");
        reveal_strlit("theme");
        reveal_strlit("density");
        reveal_strlit("unknown theme variant ");
        reveal_strlit("unknown density variant ");
        assert("unknown "@ + "theme"@ + " variant "@ =~= "unknown theme variant "@);
        assert("unknown "@ + "density"@ + " variant "@ =~= "unknown density variant "@);
    }
    let mut definitions = copy_definitions(base);
    match apply_variant(&mut definitions, theme, "theme", theme_name) {
        Ok(()) => {},
        Err(message) => {
            return Err(ResolveError::Message(message));
        },
    }
    match apply_variant(&mut definitions, density, "density", density_name) {
        Ok(()) => {},
        Err(message) => {
            return Err(ResolveError::Message(message));
        },
    }
    resolve_tokens(&definitions)
}

/// The views of borrowed strings.
pub open spec fn str_views(texts: Seq<&str>) -> Seq<Seq<char>> {
    texts.map_values(|t: &str| t@)
}

/// `path` begins with one of `prefixes`.
pub open spec fn has_allowed_prefix(path: Seq<char>, prefixes: Seq<Seq<char>>) -> bool {
    exists|i: int| 0 <= i < prefixes.len() && starts_with(path, #[trigger] prefixes[i])
}

/// The first of the override paths from `j` on of the `kind` variant `name`
/// that begins with none of `prefixes`, reported.
pub open spec fn path_domain_problem(
    name: Seq<char>,
    paths: Seq<Seq<char>>,
    kind: Seq<char>,
    prefixes: Seq<Seq<char>>,
    j: int,
) -> Option<Seq<char>>
    decreases paths.len() - j,
{
    if j < 0 || j >= paths.len() {
        None
    } else if !has_allowed_prefix(paths[j], prefixes) {
        Some(
            kind + " "@ + name + " cannot override token "@ + paths[j] + "; "@ + kind
                + " overrides are restricted to "@ + joined(prefixes, " or "@),
        )
    } else {
        path_domain_problem(name, paths, kind, prefixes, j + 1)
    }
}

/// The first override path, variant by variant from `v` on, that begins with
/// none of `prefixes`, reported.
pub open spec fn domain_problem_from(
    variants: Seq<(Seq<char>, Seq<Seq<char>>)>,
    kind: Seq<char>,
    prefixes: Seq<Seq<char>>,
    v: int,
) -> Option<Seq<char>>
    decreases variants.len() - v,
{
    if v < 0 || v >= variants.len() {
        None
    } else {
        match path_domain_problem(variants[v].0, variants[v].1, kind, prefixes, 0) {
            Some(message) => Some(message),
            None => domain_problem_from(variants, kind, prefixes, v + 1),
        }
    }
}

pub open spec fn variant_path_views(variants: Seq<(String, Vec<String>)>) -> Seq<(Seq<char>, Seq<Seq<char>>)> {
    variants.map_values(|v: (String, Vec<String>)| (v.0@, v.1@.map_values(|p: String| p@)))
}

/// Whether `path` begins with one of `prefixes`.
fn allowed_path(path: &str, prefixes: &[&str]) -> (r: bool)
    ensures
        r == has_allowed_prefix(path@, str_views(prefixes@)),
{
    let ghost views = str_views(prefixes@);
    let text = chars_of(path);
    let mut i: usize = 0;
    while i < prefixes.len()
        invariant
            views == str_views(prefixes@),
            text@ == path@,
            0 <= i <= prefixes.len(),
            forall|k: int| 0 <= k < i ==> !starts_with(path@, #[trigger] views[k]),
        decreases prefixes.len() - i,
    {
        let prefix = chars_of(prefixes[i]);
        if crate::text_scan::starts_with_chars(&text, &prefix) {
            assert(starts_with(path@, views[i as int]));
            return true;
        }
        i = i + 1;
    }
    false
}

/// Checks that every override of every `kind` variant names a token under
/// one of `allowed_prefixes`; the error reports the first that does not,
/// variant by variant.
pub fn validate_override_domains(
    variants: &Vec<(String, Vec<String>)>,
    kind: &str,
    allowed_prefixes: &[&str],
) -> (r: Result<(), String>)
    ensures
        match domain_problem_from(variant_path_views(variants@), kind@, str_views(allowed_prefixes@), 0) {
            None => r is Ok,
            Some(message) => r matches Err(e) && e@ == message,
        },
{
    let ghost views = variant_path_views(variants@);
    let ghost prefix_views = str_views(allowed_prefixes@);
    let mut v: usize = 0;
    while v < variants.len()
        invariant
            views == variant_path_views(variants@),
            prefix_views == str_views(allowed_prefixes@),
            0 <= v <= variants.len(),
            domain_problem_from(views, kind@, prefix_views, 0) == domain_problem_from(
                views,
                kind@,
                prefix_views,
                v as int,
            ),
        decreases variants.len() - v,
    {
        let name = &variants[v].0;
        let paths = &variants[v].1;
        let ghost path_views = paths@.map_values(|p: String| p@);
        assert(views[v as int] == (name@, path_views));
        let mut j: usize = 0;
        while j < paths.len()
            invariant
                path_views == paths@.map_values(|p: String| p@),
                prefix_views == str_views(allowed_prefixes@),
                views == variant_path_views(variants@),
                v < variants.len(),
                views[v as int] == (name@, path_views),
                domain_problem_from(views, kind@, prefix_views, 0) == domain_problem_from(
                    views,
                    kind@,
                    prefix_views,
                    v as int,
                ),
                0 <= j <= paths.len(),
                path_domain_problem(name@, path_views, kind@, prefix_views, 0) == path_domain_problem(
                    name@,
                    path_views,
                    kind@,
                    prefix_views,
                    j as int,
                ),
            decreases paths.len() - j,
        {
            if !allowed_path(paths[j].as_str(), allowed_prefixes) {
                let mut owned_prefixes: Vec<String> = Vec::new();
                let mut k: usize = 0;
                while k < allowed_prefixes.len()
                    invariant
                        prefix_views == str_views(allowed_prefixes@),
                        0 <= k <= allowed_prefixes.len(),
                        owned_prefixes@.map_values(|p: String| p@) == prefix_views.take(k as int),
                    decreases allowed_prefixes.len() - k,
                {
                    let ghost before = owned_prefixes@.map_values(|p: String| p@);
                    owned_prefixes.push(owned(allowed_prefixes[k]));
                    proof {
                        assert(owned_prefixes@.map_values(|p: String| p@) =~= before.push(prefix_views[k as int]));
                        assert(prefix_views.take(k + 1) =~= prefix_views.take(k as int).push(prefix_views[k as int]));
                    }
                    k = k + 1;
                }
                proof {
                    assert(prefix_views.take(allowed_prefixes.len() as int) =~= prefix_views);
                }
                let listed = join_with(&owned_prefixes, " or ");
                let mut message = chars_of(kind);
                push_str(&mut message, " ");
                push_str(&mut message, name.as_str());
                push_str(&mut message, " cannot override token ");
                push_str(&mut message, paths[j].as_str());
                push_str(&mut message, "; ");
                push_str(&mut message, kind);
                push_str(&mut message, " overrides are restricted to ");
                push_chars(&mut message, &listed);
                return Err(string_from_chars(&message));
            }
            j = j + 1;
        }
        v = v + 1;
    }
    Ok(())
}

/// Following aliases from `path` through `visited` reaches `target` before
/// resolving stops.
pub open spec fn reaches(definitions: Seq<DefinitionView>, path: Seq<char>, visited: Seq<Seq<char>>, target: Seq<char>) -> bool
    decreases definitions.len() - visited.len(),
{
    if path == target {
        true
    } else if visited.contains(path) {
        false
    } else {
        match definition_of(definitions, path) {
            None => false,
            Some(definition) => match alias_in(definition.value) {
                Ok(Some(next)) => match definition_of(definitions, next) {
                    None => false,
                    Some(aliased) => if aliased.token_type != definition.token_type || visited.len()
                        >= definitions.len() {
                        false
                    } else {
                        reaches(definitions, next, visited.push(path), target)
                    },
                },
                _ => false,
            },
        }
    }
}

/// A path that some definition has.
proof fn lemma_defined(definitions: Seq<DefinitionView>, path: Seq<char>)
    requires
        definition_of(definitions, path) is Some,
    ensures
        has_definition(definitions, path),
{
}

/// Visiting one more token that resolving does not reach leaves what it
/// resolves to unchanged.
proof fn lemma_unreached_visit(
    definitions: Seq<DefinitionView>,
    path: Seq<char>,
    visited: Seq<Seq<char>>,
    more: Seq<Seq<char>>,
    extra: Seq<char>,
)
    requires
        chain_outcome(definitions, path, visited) is Ok,
        forall|z: Seq<char>| #[trigger] more.contains(z) <==> (visited.contains(z) || z == extra),
        more.len() == visited.len() + 1,
        more.no_duplicates(),
        forall|j: int| 0 <= j < more.len() ==> has_definition(definitions, #[trigger] more[j]),
        !reaches(definitions, path, visited, extra),
    ensures
        chain_outcome(definitions, path, more) == chain_outcome(definitions, path, visited),
    decreases definitions.len() - visited.len(),
{
    assert(!more.contains(path));
    let definition = definition_of(definitions, path)->0;
    if let Ok(Some(next)) = alias_in(definition.value) {
        if let Some(aliased) = definition_of(definitions, next) {
            if aliased.token_type == definition.token_type {
                let longer = more.push(path);
                lemma_defined(definitions, path);
                assert forall|a: int, b: int| 0 <= a < b < longer.len() implies longer[a] != longer[b] by {
                    if b == more.len() {
                        assert(longer[a] == more[a]);
                        assert(more.contains(more[a]));
                    }
                }
                assert forall|j: int| 0 <= j < longer.len() implies has_definition(definitions, #[trigger] longer[j]) by {
                    if j < more.len() {
                        assert(longer[j] == more[j]);
                    }
                }
                lemma_trail_fits(definitions, longer);
                let shorter = visited.push(path);
                assert forall|z: Seq<char>| #[trigger] longer.contains(z) <==> (shorter.contains(z) || z == extra) by {
                    if longer.contains(z) {
                        let j = choose|j: int| 0 <= j < longer.len() && longer[j] == z;
                        if j < more.len() {
                            assert(more.contains(z));
                            if visited.contains(z) {
                                let k = choose|k: int| 0 <= k < visited.len() && visited[k] == z;
                                assert(shorter[k] == z);
                            }
                        } else {
                            assert(shorter[visited.len() as int] == z);
                        }
                    }
                    if shorter.contains(z) {
                        let j = choose|j: int| 0 <= j < shorter.len() && shorter[j] == z;
                        if j < visited.len() {
                            assert(visited.contains(z));
                            assert(more.contains(z));
                            let k = choose|k: int| 0 <= k < more.len() && more[k] == z;
                            assert(longer[k] == z);
                        } else {
                            assert(longer[more.len() as int] == z);
                        }
                    }
                    if z == extra {
                        assert(more.contains(z));
                        let k = choose|k: int| 0 <= k < more.len() && more[k] == z;
                        assert(longer[k] == z);
                    }
                }
                lemma_unreached_visit(definitions, next, shorter, longer, extra);
            }
        }
    }
}

/// Where the alias `path` names `target` with the same type, resolving
/// `path` through any visited tokens that include `target` ends in an
/// error: it closes a cycle.
proof fn lemma_alias_back_fails(
    definitions: Seq<DefinitionView>,
    path: Seq<char>,
    target: Seq<char>,
    visited: Seq<Seq<char>>,
)
    requires
        definition_of(definitions, path) matches Some(alias) && alias_in(alias.value) == Ok::<Option<Seq<char>>, Seq<char>>(
            Some(target),
        ),
        definition_of(definitions, target) matches Some(aliased) && aliased.token_type == definition_of(
            definitions,
            path,
        )->0.token_type,
        visited.contains(target) || path == target,
    ensures
        chain_outcome(definitions, path, visited) is Err,
{
    if !visited.contains(path) && visited.len() < definitions.len() {
        let longer = visited.push(path);
        if visited.contains(target) {
            let k = choose|k: int| 0 <= k < visited.len() && visited[k] == target;
            assert(longer[k] == target);
        } else {
            assert(longer[visited.len() as int] == target);
        }
        assert(longer.contains(target));
        assert(chain_outcome(definitions, target, longer) is Err);
        assert(chain_outcome(definitions, path, visited) == chain_outcome(definitions, target, longer));
    }
}

/// Resolving from `path` through `visited` that reaches a token whose every
/// resolution through `source` ends in an error ends in an error.
proof fn lemma_reaching_failure_fails(
    definitions: Seq<DefinitionView>,
    path: Seq<char>,
    visited: Seq<Seq<char>>,
    failing: Seq<char>,
    source: Seq<char>,
)
    requires
        reaches(definitions, path, visited, failing),
        visited.contains(source) || path == source,
        forall|w: Seq<Seq<char>>| (w.contains(source) || failing == source) ==> (#[trigger] chain_outcome(definitions, failing, w)) is Err,
    ensures
        chain_outcome(definitions, path, visited) is Err,
    decreases definitions.len() - visited.len(),
{
    if path == failing {
        assert(chain_outcome(definitions, failing, visited) is Err);
    } else {
        let definition = definition_of(definitions, path)->0;
        let next = alias_in(definition.value)->Ok_0->0;
        let longer = visited.push(path);
        if visited.contains(source) {
            let k = choose|k: int| 0 <= k < visited.len() && visited[k] == source;
            assert(longer[k] == source);
        } else {
            assert(longer[visited.len() as int] == source);
        }
        lemma_reaching_failure_fails(definitions, next, longer, failing, source);
    }
}

/// An alias resolves to what the token it names resolves to, wherever that
/// resolves and has the alias's type.
pub proof fn lemma_alias_resolves_to_target(definitions: Seq<DefinitionView>, path: Seq<char>, target: Seq<char>)
    requires
        definition_of(definitions, path) matches Some(alias) && alias_in(alias.value) == Ok::<Option<Seq<char>>, Seq<char>>(
            Some(target),
        ),
        definition_of(definitions, target) matches Some(aliased) && aliased.token_type == definition_of(
            definitions,
            path,
        )->0.token_type,
        chain_outcome(definitions, target, Seq::empty()) is Ok,
    ensures
        chain_outcome(definitions, path, Seq::empty()) == chain_outcome(definitions, target, Seq::empty()),
{
    lemma_defined(definitions, path);
    assert(definitions.len() > 0) by {
        let i = choose|i: int| 0 <= i < definitions.len() && definitions[i].path == path;
    }
    let walked = Seq::<Seq<char>>::empty().push(path);
    assert(chain_outcome(definitions, path, Seq::empty()) == chain_outcome(definitions, target, walked));
    assert forall|w: Seq<Seq<char>>| (w.contains(target) || path == target) implies (#[trigger] chain_outcome(
        definitions,
        path,
        w,
    )) is Err by {
        lemma_alias_back_fails(definitions, path, target, w);
    }
    if reaches(definitions, target, Seq::empty(), path) {
        lemma_reaching_failure_fails(definitions, target, Seq::empty(), path, target);
    }
    assert forall|z: Seq<char>| #[trigger] walked.contains(z) <==> (Seq::<Seq<char>>::empty().contains(z) || z == path) by {
        if walked.contains(z) {
            let j = choose|j: int| 0 <= j < walked.len() && walked[j] == z;
        }
        if z == path {
            assert(walked[0] == z);
        }
    }
    assert(has_definition(definitions, walked[0]));
    lemma_unreached_visit(definitions, target, Seq::empty(), walked, path);
}

} // verus!
