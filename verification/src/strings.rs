//! Building messages and reading text as sequences of characters.
use vstd::prelude::*;

verus! {

/// The decimal digit character for `d`, which is below ten.
pub open spec fn digit(d: nat) -> char {
    if d == 0 {
        '0'
    } else if d == 1 {
        '1'
    } else if d == 2 {
        '2'
    } else if d == 3 {
        '3'
    } else if d == 4 {
        '4'
    } else if d == 5 {
        '5'
    } else if d == 6 {
        '6'
    } else if d == 7 {
        '7'
    } else if d == 8 {
        '8'
    } else {
        '9'
    }
}

/// The decimal representation of `n`, without leading zeros.
pub open spec fn decimal(n: nat) -> Seq<char>
    decreases n,
{
    if n < 10 {
        seq![digit(n)]
    } else {
        decimal(n / 10).push(digit(n % 10))
    }
}

fn digit_char(d: u64) -> (c: char)
    requires
        d < 10,
    ensures
        c == digit(d as nat),
{
    match d {
        0 => '0',
        1 => '1',
        2 => '2',
        3 => '3',
        4 => '4',
        5 => '5',
        6 => '6',
        7 => '7',
        8 => '8',
        _ => '9',
    }
}

/// The decimal digits of `n`.
pub fn decimal_chars(n: u64) -> (r: Vec<char>)
    ensures
        r@ == decimal(n as nat),
    decreases n,
{
    if n < 10 {
        let mut r = Vec::new();
        r.push(digit_char(n));
        assert(r@ =~= seq![digit(n as nat)]);
        r
    } else {
        let mut r = decimal_chars(n / 10);
        r.push(digit_char(n % 10));
        r
    }
}

fn digit_char_wide(d: u128) -> (c: char)
    requires
        d < 10,
    ensures
        c == digit(d as nat),
{
    digit_char(d as u64)
}

/// The decimal digits of `n`.
pub fn decimal_chars_wide(n: u128) -> (r: Vec<char>)
    ensures
        r@ == decimal(n as nat),
    decreases n,
{
    if n < 10 {
        let mut r = Vec::new();
        r.push(digit_char_wide(n));
        assert(r@ =~= seq![digit(n as nat)]);
        r
    } else {
        let mut r = decimal_chars_wide(n / 10);
        r.push(digit_char_wide(n % 10));
        r
    }
}

/// The string of the characters `chars`.
///
/// Trusted: collects the characters with std's `FromIterator<char>` for
/// `String`, which appends them in order.
#[verifier::external_body]
pub(crate) fn string_from_chars(chars: &Vec<char>) -> (s: String)
    ensures
        s@ == chars@,
{
    chars.iter().collect()
}

/// The characters of `text`, in order.
pub fn chars_of(text: &str) -> (r: Vec<char>)
    ensures
        r@ == text@,
{
    broadcast use vstd::string::group_string_axioms;
    let mut r: Vec<char> = Vec::new();
    for c in it: text.chars()
        invariant
            r@ == it.seq().take(it.index() as int),
            it.seq() == text@,
    {
        r.push(c);
        assert(r@ =~= it.seq().take(it.index() + 1));
    }
    assert(r@ =~= text@);
    r
}

/// `prefix` followed by `suffix`, as a string.
pub fn concat_chars(prefix: &str, suffix: &Vec<char>) -> (s: String)
    ensures
        s@ == prefix@ + suffix@,
{
    let mut all = chars_of(prefix);
    let mut i: usize = 0;
    let ghost start = all@;
    while i < suffix.len()
        invariant
            0 <= i <= suffix.len(),
            all@ == start + suffix@.subrange(0, i as int),
        decreases suffix.len() - i,
    {
        all.push(suffix[i]);
        i = i + 1;
        assert(all@ =~= start + suffix@.subrange(0, i as int));
    }
    assert(suffix@.subrange(0, suffix.len() as int) =~= suffix@);
    string_from_chars(&all)
}

/// The string holding exactly the characters of `text`.
pub fn owned(text: &str) -> (s: String)
    ensures
        s@ == text@,
{
    let chars = chars_of(text);
    string_from_chars(&chars)
}


/// Appends the characters of `text`.
pub fn push_str(chars: &mut Vec<char>, text: &str)
    ensures
        final(chars)@ == old(chars)@ + text@,
{
    let tail = chars_of(text);
    let ghost start = chars@;
    let mut i: usize = 0;
    while i < tail.len()
        invariant
            0 <= i <= tail.len(),
            chars@ == start + tail@.subrange(0, i as int),
        decreases tail.len() - i,
    {
        chars.push(tail[i]);
        i = i + 1;
        assert(chars@ =~= start + tail@.subrange(0, i as int));
    }
    assert(tail@.subrange(0, tail.len() as int) =~= tail@);
}

/// Appends the characters of `more`.
pub fn push_chars(chars: &mut Vec<char>, more: &Vec<char>)
    ensures
        final(chars)@ == old(chars)@ + more@,
{
    let ghost start = chars@;
    let mut i: usize = 0;
    while i < more.len()
        invariant
            0 <= i <= more.len(),
            chars@ == start + more@.subrange(0, i as int),
        decreases more.len() - i,
    {
        chars.push(more[i]);
        i = i + 1;
        assert(chars@ =~= start + more@.subrange(0, i as int));
    }
    assert(more@.subrange(0, more.len() as int) =~= more@);
}


/// Whether two character sequences are equal.
pub fn chars_equal(a: &Vec<char>, b: &Vec<char>) -> (r: bool)
    ensures
        r == (a@ == b@),
{
    if a.len() != b.len() {
        return false;
    }
    let mut i: usize = 0;
    while i < a.len()
        invariant
            a.len() == b.len(),
            0 <= i <= a.len(),
            forall|j: int| 0 <= j < i ==> a@[j] == b@[j],
        decreases a.len() - i,
    {
        if a[i] != b[i] {
            return false;
        }
        i = i + 1;
    }
    assert(a@ =~= b@);
    true
}

/// Whether two strings hold the same characters.
pub fn str_equal(a: &str, b: &str) -> (r: bool)
    ensures
        r == (a@ == b@),
{
    let x = chars_of(a);
    let y = chars_of(b);
    chars_equal(&x, &y)
}

/// How `format!("{:?}", ..)` shows a string: quoted, with its special
/// characters escaped.
pub uninterp spec fn debug_text(text: Seq<char>) -> Seq<char>;

/// Calls std's `Debug` formatting of `str`. Claimed: the text depends on the
/// string alone.
#[verifier::external_body]
pub(crate) fn debug_quoted(text: &str) -> (r: String)
    ensures
        r@ == debug_text(text@),
{
    format!("{:?}", text)
}

/// The parts with `separator` between each two.
pub open spec fn joined(parts: Seq<Seq<char>>, separator: Seq<char>) -> Seq<char>
    decreases parts.len(),
{
    if parts.len() == 0 {
        Seq::empty()
    } else if parts.len() == 1 {
        parts[0]
    } else {
        joined(parts.drop_last(), separator) + separator + parts.last()
    }
}

/// The strings with `separator` between each two.
pub fn join_with(parts: &Vec<String>, separator: &str) -> (r: Vec<char>)
    ensures
        r@ == joined(parts@.map_values(|s: String| s@), separator@),
{
    let ghost views = parts@.map_values(|s: String| s@);
    if parts.len() == 0 {
        return Vec::new();
    }
    let mut out = chars_of(parts[0].as_str());
    proof {
        assert(views.take(1).drop_last() =~= Seq::<Seq<char>>::empty());
    }
    let mut i: usize = 1;
    while i < parts.len()
        invariant
            views == parts@.map_values(|s: String| s@),
            1 <= i <= parts.len(),
            out@ == joined(views.take(i as int), separator@),
        decreases parts.len() - i,
    {
        push_str(&mut out, separator);
        push_str(&mut out, parts[i].as_str());
        proof {
            assert(views.take(i + 1).drop_last() =~= views.take(i as int));
        }
        i = i + 1;
    }
    proof {
        assert(views.take(parts.len() as int) =~= views);
    }
    out
}

} // verus!
