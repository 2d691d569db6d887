//! User-visible capabilities: their identity, shortcut, scope and
//! availability, and the stable identities derived from them.
use vstd::prelude::*;

use crate::ids::PaneId;
use crate::strings::{decimal, decimal_chars, push_chars, push_str, string_from_chars};

verus! {

/// Application-owned identity for a user-visible capability: a stable
/// external identity and the presentation metadata of generic controls.
pub trait ActionKey: Copy + Eq + core::hash::Hash + Ord + Sized {
    fn stable_id(self) -> &'static str;

    fn specification(self) -> ActionSpec<Self>;
}

/// Where an action applies.
#[derive(Clone, Copy, Debug, PartialEq, Eq, PartialOrd, Ord, Structural)]
pub enum ActionScope {
    Application,
    ActivePane,
    Pane,
}

/// A keyboard key that can trigger an action.
#[derive(Clone, Copy, Debug, PartialEq, Eq, PartialOrd, Ord, Structural)]
pub enum ShortcutKey {
    Z,
    S,
    F,
    L,
    One,
    Two,
    Three,
    Enter,
    Delete,
    R,
}

/// The label shown for a key.
pub open spec fn key_label(key: ShortcutKey) -> Seq<char> {
    match key {
        ShortcutKey::Z => "Z"@,
        ShortcutKey::S => "S"@,
        ShortcutKey::F => "F"@,
        ShortcutKey::L => "L"@,
        ShortcutKey::One => "1"@,
        ShortcutKey::Two => "2"@,
        ShortcutKey::Three => "3"@,
        ShortcutKey::Enter => "Enter"@,
        ShortcutKey::Delete => "Delete"@,
        ShortcutKey::R => "R"@,
    }
}

impl ShortcutKey {
    /// The label shown for this key.
    pub fn label(self) -> (r: &'static str)
        ensures
            r@ == key_label(self),
    {
        match self {
            ShortcutKey::Z => "Z",
            ShortcutKey::S => "S",
            ShortcutKey::F => "F",
            ShortcutKey::L => "L",
            ShortcutKey::One => "1",
            ShortcutKey::Two => "2",
            ShortcutKey::Three => "3",
            ShortcutKey::Enter => "Enter",
            ShortcutKey::Delete => "Delete",
            ShortcutKey::R => "R",
        }
    }
}

/// A key with the modifiers that must be held.
#[derive(Clone, Copy, Debug, PartialEq, Eq, PartialOrd, Ord, Structural)]
pub struct ActionShortcut {
    pub command: bool,
    pub shift: bool,
    pub alt: bool,
    pub key: ShortcutKey,
}

/// How a shortcut is shown: the held modifiers, then the key, joined by `+`.
pub open spec fn shortcut_text(shortcut: ActionShortcut) -> Seq<char> {
    (if shortcut.command {
        "Ctrl/Cmd+"@
    } else {
        Seq::empty()
    }) + (if shortcut.shift {
        "Shift+"@
    } else {
        Seq::empty()
    }) + (if shortcut.alt {
        "Alt+"@
    } else {
        Seq::empty()
    }) + key_label(shortcut.key)
}

impl ActionShortcut {
    /// The key alone.
    pub fn new(key: ShortcutKey) -> (r: Self)
        ensures
            r == (ActionShortcut { command: false, shift: false, alt: false, key }),
    {
        ActionShortcut { command: false, shift: false, alt: false, key }
    }

    /// The key with the command modifier.
    pub fn command(key: ShortcutKey) -> (r: Self)
        ensures
            r == (ActionShortcut { command: true, shift: false, alt: false, key }),
    {
        ActionShortcut { command: true, ..ActionShortcut::new(key) }
    }

    /// The key with the command and shift modifiers.
    pub fn command_shift(key: ShortcutKey) -> (r: Self)
        ensures
            r == (ActionShortcut { command: true, shift: true, alt: false, key }),
    {
        ActionShortcut { command: true, shift: true, alt: false, key }
    }

    /// How the shortcut is shown, such as `Ctrl/Cmd+Shift+Z`.
    pub fn display(self) -> (r: String)
        ensures
            r@ == shortcut_text(self),
    {
        let mut text: Vec<char> = Vec::new();
        if self.command {
            push_str(&mut text, "Ctrl/Cmd+");
        }
        if self.shift {
            push_str(&mut text, "Shift+");
        }
        if self.alt {
            push_str(&mut text, "Alt+");
        }
        push_str(&mut text, self.key.label());
        proof {
            assert(text@ =~= shortcut_text(self));
        }
        string_from_chars(&text)
    }
}

/// What generic controls show of an action.
#[derive(Clone, Copy, Debug, PartialEq, Eq)]
pub struct ActionSpec<A: ActionKey> {
    pub id: A,
    pub label: &'static str,
    pub description: &'static str,
    pub compact_label: Option<&'static str>,
    pub shortcut: Option<ActionShortcut>,
    pub scope: ActionScope,
}

/// Whether an action can be used now, and why not.
#[derive(Clone, Debug, PartialEq, Eq)]
pub enum Availability {
    Enabled,
    Disabled { reason: String },
    Hidden,
}

impl Availability {
    /// The action can be used.
    pub fn enabled(&self) -> (r: bool)
        ensures
            r == (*self is Enabled),
    {
        match self {
            Availability::Enabled => true,
            _ => false,
        }
    }

    /// The action is shown, usable or not.
    pub fn visible(&self) -> (r: bool)
        ensures
            r == !(*self is Hidden),
    {
        match self {
            Availability::Hidden => false,
            _ => true,
        }
    }

    /// Why the action cannot be used, where it is shown disabled.
    pub fn disabled_reason(&self) -> (r: Option<&str>)
        ensures
            match self {
                Availability::Disabled { reason } => r is Some && r->0@ == reason@,
                _ => r is None,
            },
    {
        match self {
            Availability::Disabled { reason } => Some(reason.as_str()),
            _ => None,
        }
    }
}

/// The semantic identity of an action's control: `action.` and its stable
/// ID, and `.pane.` and the pane's number where it targets a pane.
pub open spec fn action_semantic_text(stable_id: Seq<char>, pane: Option<PaneId>) -> Seq<char> {
    "action."@ + stable_id + match pane {
        Some(p) => ".pane."@ + decimal(p.0 as nat),
        None => Seq::empty(),
    }
}

/// The semantic identity of the control of the action with `stable_id`,
/// targeting `pane` where given.
pub fn action_semantic_id(stable_id: &str, pane: Option<PaneId>) -> (r: String)
    ensures
        r@ == action_semantic_text(stable_id@, pane),
{
    let mut text: Vec<char> = Vec::new();
    push_str(&mut text, "action.");
    push_str(&mut text, stable_id);
    match pane {
        Some(p) => {
            push_str(&mut text, ".pane.");
            let digits = decimal_chars(p.0 as u64);
            push_chars(&mut text, &digits);
        },
        None => {},
    }
    proof {
        assert(text@ =~= action_semantic_text(stable_id@, pane));
    }
    string_from_chars(&text)
}

/// The FNV-1a prime.
pub const FNV_PRIME: u64 = 0x0000_0100_0000_01b3;

/// The FNV-1a offset basis.
pub const FNV_OFFSET: u64 = 0xcbf2_9ce4_8422_2325;

/// Integers below 2^53 are exact in JavaScript.
pub const JAVASCRIPT_SAFE_INTEGER_MASK: u64 = 0x001f_ffff_ffff_ffff;

/// One FNV-1a step.
pub open spec fn fnv_step(hash: u64, byte: u8) -> u64 {
    vstd::wrapping::u64_specs::wrapping_mul(hash ^ (byte as u64), FNV_PRIME)
}

/// FNV-1a over `bytes`, from `hash`.
pub open spec fn fnv(hash: u64, bytes: Seq<u8>) -> u64
    decreases bytes.len(),
{
    if bytes.len() == 0 {
        hash
    } else {
        fnv_step(fnv(hash, bytes.drop_last()), bytes.last())
    }
}

/// The little-endian bytes of a `u32`.
pub open spec fn u32_le_bytes(value: u32) -> Seq<u8> {
    seq![
        (value % 256) as u8,
        ((value / 256) % 256) as u8,
        ((value / 65536) % 256) as u8,
        (value / 16777216) as u8,
    ]
}

/// The stable hash of an action's identity: FNV-1a over the UTF-8 bytes of
/// its stable ID, then a byte telling whether a pane is targeted, then the
/// pane's number as little-endian bytes, kept to 53 bits.
pub open spec fn action_hash(id_bytes: Seq<u8>, pane: Option<PaneId>) -> u64 {
    let hash = fnv_step(fnv(FNV_OFFSET, id_bytes), if pane is Some { 1u8 } else { 0u8 });
    let hash = match pane {
        Some(p) => fnv(hash, u32_le_bytes(p.0)),
        None => hash,
    };
    hash & JAVASCRIPT_SAFE_INTEGER_MASK
}

fn fnv_bytes(hash: u64, bytes: &[u8]) -> (r: u64)
    ensures
        r == fnv(hash, bytes@),
{
    let mut h = hash;
    let mut i: usize = 0;
    while i < bytes.len()
        invariant
            0 <= i <= bytes@.len(),
            h == fnv(hash, bytes@.subrange(0, i as int)),
        decreases bytes@.len() - i,
    {
        proof {
            assert(bytes@.subrange(0, i as int + 1).drop_last() =~= bytes@.subrange(0, i as int));
        }
        h = (h ^ (bytes[i] as u64)).wrapping_mul(FNV_PRIME);
        i = i + 1;
    }
    proof {
        assert(bytes@.subrange(0, bytes@.len() as int) =~= bytes@);
    }
    h
}

/// The stable hash of the identity of the action with `stable_id`, targeting
/// `pane` where given. It is below 2^53.
pub fn stable_id_hash(stable_id: &str, pane: Option<PaneId>) -> (r: u64)
    ensures
        r == action_hash(vstd::utf8::encode_utf8(stable_id@), pane),
        r < 0x20_0000_0000_0000,
{
    let id_hash = fnv_bytes(FNV_OFFSET, stable_id.as_bytes());
    let flag: u8 = match pane {
        Some(_) => 1,
        None => 0,
    };
    let hash = (id_hash ^ (flag as u64)).wrapping_mul(FNV_PRIME);
    let hash = match pane {
        Some(p) => {
            let n = p.0;
            let bytes: [u8; 4] = [
                (n % 256) as u8,
                ((n / 256) % 256) as u8,
                ((n / 65536) % 256) as u8,
                (n / 16777216) as u8,
            ];
            let h = fnv_bytes(hash, &bytes);
            proof {
                assert(bytes@ =~= u32_le_bytes(n));
            }
            h
        },
        None => hash,
    };
    let r = hash & JAVASCRIPT_SAFE_INTEGER_MASK;
    assert(r < 0x20_0000_0000_0000) by (bit_vector)
        requires
            r == hash & 0x001f_ffff_ffff_ffffu64,
    ;
    r
}

/// The stable hash of an action and the pane it targets: the hash of the
/// stable ID that the action's `ActionKey` implementation gives. It is below
/// 2^53.
pub fn stable_action_hash<A: ActionKey>(action: A, pane: Option<PaneId>) -> (r: u64)
    ensures
        exists|id: &'static str|
            call_ensures(A::stable_id, (action,), id) && r == action_hash(
                vstd::utf8::encode_utf8(id@),
                pane,
            ),
        r < 0x20_0000_0000_0000,
{
    let stable_id = A::stable_id;
    let id = stable_id(action);
    stable_id_hash(id, pane)
}

} // verus!
