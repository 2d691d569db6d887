//! Reading text by characters: lines, pieces between separators, trimming,
//! prefixes, searching and ASCII case.
use vstd::prelude::*;

verus! {

/// What trimming removes: Unicode white space, or one particular character.
#[derive(Clone, Copy, Debug, PartialEq, Eq, Structural)]
pub enum TrimClass {
    Space,
    Exactly(char),
}

/// The characters with the Unicode `White_Space` property, which
/// `char::is_whitespace` documents.
pub open spec fn is_space(c: char) -> bool {
    let n = c as u32;
    ||| n == 0x20
    ||| 0x09 <= n <= 0x0d
    ||| n == 0x85
    ||| n == 0xa0
    ||| n == 0x1680
    ||| 0x2000 <= n <= 0x200a
    ||| n == 0x2028
    ||| n == 0x2029
    ||| n == 0x202f
    ||| n == 0x205f
    ||| n == 0x3000
}

pub open spec fn in_class(c: char, class: TrimClass) -> bool {
    match class {
        TrimClass::Space => is_space(c),
        TrimClass::Exactly(d) => c == d,
    }
}

/// `text` without the leading characters of `class`.
pub open spec fn trim_start(text: Seq<char>, class: TrimClass) -> Seq<char>
    decreases text.len(),
{
    if text.len() > 0 && in_class(text[0], class) {
        trim_start(text.subrange(1, text.len() as int), class)
    } else {
        text
    }
}

/// `text` without the trailing characters of `class`.
pub open spec fn trim_end(text: Seq<char>, class: TrimClass) -> Seq<char>
    decreases text.len(),
{
    if text.len() > 0 && in_class(text.last(), class) {
        trim_end(text.drop_last(), class)
    } else {
        text
    }
}

/// `text` without the leading and trailing characters of `class`.
pub open spec fn trim(text: Seq<char>, class: TrimClass) -> Seq<char> {
    trim_end(trim_start(text, class), class)
}

/// The pieces of `text` before each `separator`, and the piece after the last.
pub open spec fn split_state(text: Seq<char>, separator: char) -> (Seq<Seq<char>>, Seq<char>)
    decreases text.len(),
{
    if text.len() == 0 {
        (Seq::empty(), Seq::empty())
    } else {
        let (done, current) = split_state(text.drop_last(), separator);
        if text.last() == separator {
            (done.push(current), Seq::empty())
        } else {
            (done, current.push(text.last()))
        }
    }
}

/// The pieces of `text` between `separator`s, as `str::split` gives them.
pub open spec fn split(text: Seq<char>, separator: char) -> Seq<Seq<char>> {
    split_state(text, separator).0.push(split_state(text, separator).1)
}

/// A line without the carriage return that ended it.
pub open spec fn without_cr(line: Seq<char>) -> Seq<char> {
    if line.len() > 0 && line.last() == '\r' {
        line.drop_last()
    } else {
        line
    }
}

/// The lines of `text`, as `str::lines` gives them: split at each `\n`, a
/// `\r` before it removed, and no empty line after a final `\n`.
pub open spec fn lines(text: Seq<char>) -> Seq<Seq<char>> {
    let (done, current) = split_state(text, '\n');
    let ended = done.map_values(|line: Seq<char>| without_cr(line));
    if current.len() > 0 {
        ended.push(current)
    } else {
        ended
    }
}

/// `text` begins with `prefix`.
pub open spec fn starts_with(text: Seq<char>, prefix: Seq<char>) -> bool {
    prefix.len() <= text.len() && text.subrange(0, prefix.len() as int) == prefix
}

/// `pattern` occurs in `text` at `i` and nowhere before.
pub open spec fn is_first_match(text: Seq<char>, pattern: Seq<char>, i: int) -> bool {
    &&& 0 <= i && i + pattern.len() <= text.len()
    &&& text.subrange(i, i + pattern.len()) == pattern
    &&& forall|j: int|
        0 <= j < i ==> #[trigger] text.subrange(j, j + pattern.len()) != pattern
}

/// Where `pattern` first occurs in `text`.
pub open spec fn find(text: Seq<char>, pattern: Seq<char>) -> Option<int> {
    if exists|i: int| is_first_match(text, pattern, i) {
        Some(choose|i: int| is_first_match(text, pattern, i))
    } else {
        None
    }
}

/// An ASCII capital in lower case; any other character unchanged.
pub open spec fn lower_char(c: char) -> char {
    if 65 <= (c as u32) <= 90 {
        ((c as u32) + 32) as char
    } else {
        c
    }
}

/// `text` with its ASCII capitals in lower case.
pub open spec fn ascii_lower(text: Seq<char>) -> Seq<char> {
    text.map_values(|c: char| lower_char(c))
}

/// The views of a sequence of character vectors.
pub open spec fn char_views(items: Seq<Vec<char>>) -> Seq<Seq<char>> {
    items.map_values(|v: Vec<char>| v@)
}

pub fn is_space_char(c: char) -> (r: bool)
    ensures
        r == is_space(c),
{
    let n = c as u32;
    n == 0x20 || (0x09 <= n && n <= 0x0d) || n == 0x85 || n == 0xa0 || n == 0x1680 || (0x2000
        <= n && n <= 0x200a) || n == 0x2028 || n == 0x2029 || n == 0x202f || n == 0x205f || n
        == 0x3000
}

fn in_class_char(c: char, class: TrimClass) -> (r: bool)
    ensures
        r == in_class(c, class),
{
    match class {
        TrimClass::Space => is_space_char(c),
        TrimClass::Exactly(d) => c == d,
    }
}

/// The characters of `text` from `from` up to `to`.
pub fn copy_range(text: &Vec<char>, from: usize, to: usize) -> (r: Vec<char>)
    requires
        from <= to <= text.len(),
    ensures
        r@ == text@.subrange(from as int, to as int),
{
    let mut r: Vec<char> = Vec::new();
    let mut i: usize = from;
    while i < to
        invariant
            from <= i <= to <= text.len(),
            r@ == text@.subrange(from as int, i as int),
        decreases to - i,
    {
        r.push(text[i]);
        i = i + 1;
        assert(r@ =~= text@.subrange(from as int, i as int));
    }
    r
}

proof fn lemma_trim_start_step(text: Seq<char>, class: TrimClass, i: int)
    requires
        0 <= i < text.len(),
        in_class(text[i], class),
    ensures
        trim_start(text.subrange(i, text.len() as int), class) == trim_start(
            text.subrange(i + 1, text.len() as int),
            class,
        ),
{
    let rest = text.subrange(i, text.len() as int);
    assert(rest.subrange(1, rest.len() as int) =~= text.subrange(i + 1, text.len() as int));
}

/// `text` without the leading characters of `class`.
pub fn trim_start_chars(text: &Vec<char>, class: TrimClass) -> (r: Vec<char>)
    ensures
        r@ == trim_start(text@, class),
{
    let mut i: usize = 0;
    assert(text@.subrange(0, text@.len() as int) =~= text@);
    while i < text.len() && in_class_char(text[i], class)
        invariant
            0 <= i <= text.len(),
            trim_start(text@, class) == trim_start(text@.subrange(i as int, text@.len() as int), class),
        decreases text.len() - i,
    {
        proof {
            lemma_trim_start_step(text@, class, i as int);
        }
        i = i + 1;
    }
    copy_range(text, i, text.len())
}

/// `text` without the trailing characters of `class`.
pub fn trim_end_chars(text: &Vec<char>, class: TrimClass) -> (r: Vec<char>)
    ensures
        r@ == trim_end(text@, class),
{
    let mut j: usize = text.len();
    assert(text@.subrange(0, text@.len() as int) =~= text@);
    while j > 0 && in_class_char(text[j - 1], class)
        invariant
            0 <= j <= text.len(),
            trim_end(text@, class) == trim_end(text@.subrange(0, j as int), class),
        decreases j,
    {
        proof {
            assert(text@.subrange(0, j as int).drop_last() =~= text@.subrange(0, j - 1));
        }
        j = j - 1;
    }
    copy_range(text, 0, j)
}

/// `text` without the leading and trailing characters of `class`.
pub fn trim_chars(text: &Vec<char>, class: TrimClass) -> (r: Vec<char>)
    ensures
        r@ == trim(text@, class),
{
    let start = trim_start_chars(text, class);
    trim_end_chars(&start, class)
}

/// The pieces of `text` between `separator`s, and the piece after the last.
fn split_chars(text: &Vec<char>, separator: char) -> (r: (Vec<Vec<char>>, Vec<char>))
    ensures
        (char_views(r.0@), r.1@) == split_state(text@, separator),
{
    let mut done: Vec<Vec<char>> = Vec::new();
    let mut current: Vec<char> = Vec::new();
    let mut i: usize = 0;
    while i < text.len()
        invariant
            0 <= i <= text.len(),
            (char_views(done@), current@) == split_state(text@.subrange(0, i as int), separator),
        decreases text.len() - i,
    {
        proof {
            assert(text@.subrange(0, i as int + 1).drop_last() =~= text@.subrange(0, i as int));
        }
        let c = text[i];
        if c == separator {
            let ghost before = done@;
            let piece = current;
            done.push(piece);
            current = Vec::new();
            proof {
                assert(char_views(done@) =~= char_views(before).push(piece@));
                assert(current@ =~= Seq::<char>::empty());
            }
        } else {
            current.push(c);
        }
        i = i + 1;
    }
    proof {
        assert(text@.subrange(0, text@.len() as int) =~= text@);
    }
    (done, current)
}

/// The pieces of `text` between `separator`s.
pub fn split_on(text: &Vec<char>, separator: char) -> (r: Vec<Vec<char>>)
    ensures
        char_views(r@) == split(text@, separator),
{
    let (mut done, current) = split_chars(text, separator);
    let ghost before = done@;
    done.push(current);
    proof {
        assert(char_views(done@) =~= char_views(before).push(current@));
    }
    done
}

/// The lines of `text`, as `str::lines` gives them.
pub fn lines_of(text: &Vec<char>) -> (r: Vec<Vec<char>>)
    ensures
        char_views(r@) == lines(text@),
{
    let (done, current) = split_chars(text, '\n');
    let ghost pieces = char_views(done@);
    let mut out: Vec<Vec<char>> = Vec::new();
    let mut i: usize = 0;
    while i < done.len()
        invariant
            0 <= i <= done.len(),
            pieces == char_views(done@),
            char_views(out@) == pieces.subrange(0, i as int).map_values(
                |line: Seq<char>| without_cr(line),
            ),
        decreases done.len() - i,
    {
        let piece = &done[i];
        let n = piece.len();
        let line = if n > 0 && piece[n - 1] == '\r' {
            copy_range(piece, 0, n - 1)
        } else {
            copy_range(piece, 0, n)
        };
        let ghost before = out@;
        out.push(line);
        proof {
            if n > 0 {
                assert(piece@.drop_last() =~= piece@.subrange(0, n - 1));
            }
            assert(piece@.subrange(0, n as int) =~= piece@);
            assert(line@ == without_cr(pieces[i as int]));
            assert(char_views(out@) =~= char_views(before).push(line@));
            assert(char_views(out@) =~= pieces.subrange(0, i as int + 1).map_values(
                |line: Seq<char>| without_cr(line),
            ));
        }
        i = i + 1;
    }
    proof {
        assert(pieces.subrange(0, pieces.len() as int) =~= pieces);
    }
    if current.len() > 0 {
        let ghost before = out@;
        out.push(current);
        proof {
            assert(char_views(out@) =~= char_views(before).push(current@));
        }
    }
    out
}

/// Whether `text` begins with `prefix`.
pub fn starts_with_chars(text: &Vec<char>, prefix: &Vec<char>) -> (r: bool)
    ensures
        r == starts_with(text@, prefix@),
{
    if prefix.len() > text.len() {
        return false;
    }
    let mut i: usize = 0;
    while i < prefix.len()
        invariant
            prefix.len() <= text.len(),
            0 <= i <= prefix.len(),
            forall|j: int| 0 <= j < i ==> text@[j] == prefix@[j],
        decreases prefix.len() - i,
    {
        if text[i] != prefix[i] {
            assert(text@.subrange(0, prefix@.len() as int)[i as int] != prefix@[i as int]);
            return false;
        }
        i = i + 1;
    }
    assert(text@.subrange(0, prefix@.len() as int) =~= prefix@);
    true
}

fn matches_at(text: &Vec<char>, pattern: &Vec<char>, at: usize) -> (r: bool)
    requires
        at + pattern.len() <= text.len(),
    ensures
        r == (text@.subrange(at as int, at + pattern@.len()) == pattern@),
{
    let mut i: usize = 0;
    while i < pattern.len()
        invariant
            at + pattern.len() <= text.len(),
            0 <= i <= pattern.len(),
            forall|j: int| 0 <= j < i ==> text@[at + j] == pattern@[j],
        decreases pattern.len() - i,
    {
        if text[at + i] != pattern[i] {
            assert(text@.subrange(at as int, at + pattern@.len())[i as int] != pattern@[i as int]);
            return false;
        }
        i = i + 1;
    }
    assert(text@.subrange(at as int, at + pattern@.len()) =~= pattern@);
    true
}

/// Where `pattern` first occurs in `text`.
pub fn find_chars(text: &Vec<char>, pattern: &Vec<char>) -> (r: Option<usize>)
    ensures
        match r {
            Some(i) => find(text@, pattern@) == Some(i as int),
            None => find(text@, pattern@) is None,
        },
{
    if pattern.len() > text.len() {
        proof {
            assert forall|i: int| !is_first_match(text@, pattern@, i) by {}
        }
        return None;
    }
    let last = text.len() - pattern.len();
    let mut i: usize = 0;
    loop
        invariant
            last + pattern.len() == text.len(),
            0 <= i <= last,
            forall|j: int| 0 <= j < i ==> #[trigger] text@.subrange(j, j + pattern@.len()) != pattern@,
        decreases last - i,
    {
        if matches_at(text, pattern, i) {
            proof {
                assert(is_first_match(text@, pattern@, i as int));
                let k = choose|k: int| is_first_match(text@, pattern@, k);
                assert(is_first_match(text@, pattern@, k));
                if k < i {
                    assert(text@.subrange(k, k + pattern@.len()) != pattern@);
                } else if k > i {
                    assert(text@.subrange(i as int, i + pattern@.len()) != pattern@);
                }
            }
            return Some(i);
        }
        if i == last {
            proof {
                assert forall|k: int| !is_first_match(text@, pattern@, k) by {
                    if is_first_match(text@, pattern@, k) {
                        assert(text@.subrange(k, k + pattern@.len()) != pattern@);
                    }
                }
            }
            return None;
        }
        i = i + 1;
    }
}

/// `text` with its ASCII capitals in lower case.
pub fn ascii_lower_chars(text: &Vec<char>) -> (r: Vec<char>)
    ensures
        r@ == ascii_lower(text@),
{
    let mut r: Vec<char> = Vec::new();
    let mut i: usize = 0;
    while i < text.len()
        invariant
            0 <= i <= text.len(),
            r@ == ascii_lower(text@.subrange(0, i as int)),
        decreases text.len() - i,
    {
        let c = text[i];
        let code: u32 = c as u32;
        let lower = if 65 <= code && code <= 90 {
            let lowered: u8 = (code + 32) as u8;
            lowered as char
        } else {
            c
        };
        r.push(lower);
        i = i + 1;
        assert(r@ =~= ascii_lower(text@.subrange(0, i as int)));
    }
    assert(text@.subrange(0, text@.len() as int) =~= text@);
    r
}

} // verus!
