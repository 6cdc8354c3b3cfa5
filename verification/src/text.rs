//! Comparisons on the text of header fields, with the meaning that the
//! standard library gives them on strings.
use vstd::prelude::*;

verus! {

/// The lower-case form of an ASCII capital; any other character is itself.
pub open spec fn ascii_lower(c: char) -> char {
    if 'A' <= c && c <= 'Z' {
        ((c as u32) + 0x20) as char
    } else {
        c
    }
}

/// Equality of two texts up to the case of their ASCII letters.
pub open spec fn eq_ignore_ascii_case(a: Seq<char>, b: Seq<char>) -> bool {
    &&& a.len() == b.len()
    &&& forall|i: int| 0 <= i < a.len() ==> ascii_lower(#[trigger] a[i]) == ascii_lower(b[i])
}

/// The characters with the Unicode property `White_Space`.
pub open spec fn is_whitespace(c: char) -> bool {
    let n = c as u32;
    ||| n == 0x20
    ||| 0x09 <= n <= 0x0D
    ||| n == 0x85
    ||| n == 0xA0
    ||| n == 0x1680
    ||| 0x2000 <= n <= 0x200A
    ||| n == 0x2028
    ||| n == 0x2029
    ||| n == 0x202F
    ||| n == 0x205F
    ||| n == 0x3000
}

/// `s` without its leading whitespace.
pub open spec fn trim_start(s: Seq<char>) -> Seq<char>
    decreases s.len(),
{
    if s.len() > 0 && is_whitespace(s.first()) {
        trim_start(s.drop_first())
    } else {
        s
    }
}

/// `s` without its trailing whitespace.
pub open spec fn trim_end(s: Seq<char>) -> Seq<char>
    decreases s.len(),
{
    if s.len() > 0 && is_whitespace(s.last()) {
        trim_end(s.drop_last())
    } else {
        s
    }
}

/// `s` without its leading and trailing whitespace.
pub open spec fn trim(s: Seq<char>) -> Seq<char> {
    trim_end(trim_start(s))
}

/// Whether one of the pieces into which `separator` cuts the text trims to
/// `token`.  The text is `piece` followed by `rest`: `piece` is the start of
/// the piece that is being read, and holds no separator.
pub open spec fn some_piece_is(rest: Seq<char>, piece: Seq<char>, separator: char, token: Seq<char>) -> bool
    decreases rest.len(),
{
    if rest.len() == 0 {
        trim(piece) == token
    } else if rest.first() == separator {
        trim(piece) == token || some_piece_is(rest.drop_first(), Seq::empty(), separator, token)
    } else {
        some_piece_is(rest.drop_first(), piece.push(rest.first()), separator, token)
    }
}

/// Whether one of the pieces into which `separator` cuts `text` trims to
/// `token`.
pub open spec fn has_token(text: Seq<char>, separator: char, token: Seq<char>) -> bool {
    some_piece_is(text, Seq::empty(), separator, token)
}

/// The characters of a string.
pub fn chars_of(s: &str) -> (v: Vec<char>)
    ensures
        v@ == s@,
{
    let mut v: Vec<char> = Vec::new();
    for c in it: s.chars()
        invariant
            it.seq() == s@,
            v@ == it.seq().take(it.index() as int),
    {
        v.push(c);
    }
    v
}

/// Whether two texts are the same.
pub fn text_eq(a: &[char], b: &[char]) -> (r: bool)
    ensures
        r == (a@ == b@),
{
    if a.len() != b.len() {
        return false;
    }
    let mut i: usize = 0;
    while i < a.len()
        invariant
            i <= a@.len(),
            a@.len() == b@.len(),
            forall|k: int| 0 <= k < i ==> a@[k] == b@[k],
        decreases a@.len() - i,
    {
        if a[i] != b[i] {
            return false;
        }
        i = i + 1;
    }
    assert(a@ =~= b@);
    true
}

/// The lower-case form of an ASCII capital; any other character is itself.
pub fn to_ascii_lower(c: char) -> (r: char)
    ensures
        r == ascii_lower(c),
{
    if 'A' <= c && c <= 'Z' {
        match c {
            'A' => 'a',
            'B' => 'b',
            'C' => 'c',
            'D' => 'd',
            'E' => 'e',
            'F' => 'f',
            'G' => 'g',
            'H' => 'h',
            'I' => 'i',
            'J' => 'j',
            'K' => 'k',
            'L' => 'l',
            'M' => 'm',
            'N' => 'n',
            'O' => 'o',
            'P' => 'p',
            'Q' => 'q',
            'R' => 'r',
            'S' => 's',
            'T' => 't',
            'U' => 'u',
            'V' => 'v',
            'W' => 'w',
            'X' => 'x',
            'Y' => 'y',
            _ => 'z',
        }
    } else {
        c
    }
}

/// Whether two texts are the same up to the case of their ASCII letters.
pub fn text_eq_ignore_ascii_case(a: &[char], b: &[char]) -> (r: bool)
    ensures
        r == eq_ignore_ascii_case(a@, b@),
{
    if a.len() != b.len() {
        return false;
    }
    let mut i: usize = 0;
    while i < a.len()
        invariant
            i <= a@.len(),
            a@.len() == b@.len(),
            forall|k: int| 0 <= k < i ==> ascii_lower(#[trigger] a@[k]) == ascii_lower(b@[k]),
        decreases a@.len() - i,
    {
        if to_ascii_lower(a[i]) != to_ascii_lower(b[i]) {
            return false;
        }
        i = i + 1;
    }
    true
}

/// Whether the character has the Unicode property `White_Space`.
pub fn char_is_whitespace(c: char) -> (r: bool)
    ensures
        r == is_whitespace(c),
{
    let n: u32 = c as u32;
    n == 0x20 || (0x09 <= n && n <= 0x0D) || n == 0x85 || n == 0xA0 || n == 0x1680 || (0x2000 <= n
        && n <= 0x200A) || n == 0x2028 || n == 0x2029 || n == 0x202F || n == 0x205F || n == 0x3000
}

/// Whether `text[from..to]`, without its leading and trailing whitespace, is
/// `token`.
pub fn trimmed_eq(text: &[char], from: usize, to: usize, token: &[char]) -> (r: bool)
    requires
        from <= to <= text@.len(),
    ensures
        r == (trim(text@.subrange(from as int, to as int)) == token@),
{
    let mut start: usize = from;
    while start < to
        invariant
            from <= start <= to <= text@.len(),
            trim_start(text@.subrange(from as int, to as int)) == trim_start(
                text@.subrange(start as int, to as int),
            ),
        ensures
            from <= start <= to,
            trim_start(text@.subrange(from as int, to as int)) == text@.subrange(
                start as int,
                to as int,
            ),
        decreases to - start,
    {
        if !char_is_whitespace(text[start]) {
            break;
        }
        assert(text@.subrange(start as int, to as int).drop_first() =~= text@.subrange(
            start + 1,
            to as int,
        ));
        start = start + 1;
    }
    let mut end: usize = to;
    while end > start
        invariant
            start <= end <= to <= text@.len(),
            trim_end(text@.subrange(start as int, to as int)) == trim_end(
                text@.subrange(start as int, end as int),
            ),
        ensures
            start <= end <= to,
            trim_end(text@.subrange(start as int, to as int)) == text@.subrange(
                start as int,
                end as int,
            ),
        decreases end - start,
    {
        if !char_is_whitespace(text[end - 1]) {
            break;
        }
        assert(text@.subrange(start as int, end as int).drop_last() =~= text@.subrange(
            start as int,
            end - 1,
        ));
        end = end - 1;
    }
    text_eq(vstd::slice::slice_subrange(text, start, end), token)
}

/// Whether one of the pieces into which `separator` cuts `text` is `token`
/// once its leading and trailing whitespace is taken off.
pub fn text_has_token(text: &[char], separator: char, token: &[char]) -> (r: bool)
    ensures
        r == has_token(text@, separator, token@),
{
    let mut piece_start: usize = 0;
    let mut i: usize = 0;
    proof {
        assert(text@.skip(0) =~= text@);
        assert(text@.subrange(0, 0) =~= Seq::<char>::empty());
    }
    while i < text.len()
        invariant
            piece_start <= i <= text@.len(),
            has_token(text@, separator, token@) == some_piece_is(
                text@.skip(i as int),
                text@.subrange(piece_start as int, i as int),
                separator,
                token@,
            ),
        decreases text@.len() - i,
    {
        proof {
            assert(text@.skip(i as int).drop_first() =~= text@.skip(i + 1));
            assert(text@.subrange(piece_start as int, i as int).push(text@[i as int])
                =~= text@.subrange(piece_start as int, i + 1));
            assert(text@.subrange(i + 1, i + 1) =~= Seq::<char>::empty());
        }
        if text[i] == separator {
            if trimmed_eq(text, piece_start, i, token) {
                return true;
            }
            piece_start = i + 1;
        }
        i = i + 1;
    }
    assert(text@.skip(i as int).len() == 0);
    trimmed_eq(text, piece_start, i, token)
}

} // verus!
