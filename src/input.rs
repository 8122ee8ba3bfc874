//! Reading a move typed as `"<row>, <col>"`.
use crate::board::BOARD_SIZE;
use vstd::prelude::*;

verus! {

/// Unicode `White_Space`, the characters that `str::trim` removes.
pub open spec fn is_space(c: char) -> bool {
    ('\u{9}' <= c && c <= '\u{d}') || c == ' ' || c == '\u{85}' || c == '\u{a0}' || c
        == '\u{1680}' || ('\u{2000}' <= c && c <= '\u{200a}') || c == '\u{2028}' || c
        == '\u{2029}' || c == '\u{202f}' || c == '\u{205f}' || c == '\u{3000}'
}

pub open spec fn is_digit(c: char) -> bool {
    '0' <= c && c <= '9'
}

pub open spec fn digit_value(c: char) -> nat {
    (c as u32 - '0' as u32) as nat
}

pub open spec fn trim_start(s: Seq<char>) -> Seq<char>
    decreases s.len(),
{
    if s.len() > 0 && is_space(s[0]) {
        trim_start(s.drop_first())
    } else {
        s
    }
}

pub open spec fn trim_end(s: Seq<char>) -> Seq<char>
    decreases s.len(),
{
    if s.len() > 0 && is_space(s.last()) {
        trim_end(s.drop_last())
    } else {
        s
    }
}

pub open spec fn trim(s: Seq<char>) -> Seq<char> {
    trim_end(trim_start(s))
}

/// The number written by the decimal digits `d`.
pub open spec fn digits_value(d: Seq<char>) -> nat
    decreases d.len(),
{
    if d.len() == 0 {
        0
    } else {
        10 * digits_value(d.drop_last()) + digit_value(d.last())
    }
}

/// `u` without its leading `+`, if it has one.
pub open spec fn unsigned_digits(u: Seq<char>) -> Seq<char> {
    if u.len() > 0 && u[0] == '+' {
        u.drop_first()
    } else {
        u
    }
}

pub open spec fn all_digits(d: Seq<char>) -> bool {
    forall|i: int| 0 <= i < d.len() ==> is_digit(#[trigger] d[i])
}

/// A field holding one coordinate: after trimming whitespace, an optional
/// `+` and at least one decimal digit, whose value is below the board size.
pub open spec fn coordinate(t: Seq<char>) -> Option<nat> {
    let d = unsigned_digits(trim(t));
    if d.len() > 0 && all_digits(d) && digits_value(d) < BOARD_SIZE {
        Some(digits_value(d))
    } else {
        None
    }
}

/// Index of the first `,` of `s` at or after `i`, or -1.
pub open spec fn comma_from(s: Seq<char>, i: int) -> int
    decreases s.len() - i,
{
    if i < 0 || i >= s.len() {
        -1
    } else if s[i] == ',' {
        i
    } else {
        comma_from(s, i + 1)
    }
}

/// The move that the line `s` names: exactly two comma-separated fields,
/// each a coordinate.
pub open spec fn move_of(s: Seq<char>) -> Option<(usize, usize)> {
    let k = comma_from(s, 0);
    if k < 0 || comma_from(s, k + 1) >= 0 {
        None
    } else {
        match (coordinate(s.take(k)), coordinate(s.skip(k + 1))) {
            (Some(r), Some(c)) => Some((r as usize, c as usize)),
            _ => None,
        }
    }
}

fn is_space_char(c: char) -> (r: bool)
    ensures
        r == is_space(c),
{
    ('\u{9}' <= c && c <= '\u{d}') || c == ' ' || c == '\u{85}' || c == '\u{a0}' || c
        == '\u{1680}' || ('\u{2000}' <= c && c <= '\u{200a}') || c == '\u{2028}' || c
        == '\u{2029}' || c == '\u{202f}' || c == '\u{205f}' || c == '\u{3000}'
}

/// The first `,` of `s` at or after `from`.
fn find_comma(s: &str, n: usize, from: usize) -> (r: Option<usize>)
    requires
        n == s@.len(),
        from <= n,
    ensures
        match r {
            Some(k) => from <= k < n && k == comma_from(s@, from as int),
            None => comma_from(s@, from as int) == -1,
        },
{
    let mut i = from;
    while i < n
        invariant
            n == s@.len(),
            from <= i <= n,
            comma_from(s@, from as int) == comma_from(s@, i as int),
        decreases n - i,
    {
        if s.get_char(i) == ',' {
            return Some(i);
        }
        i = i + 1;
    }
    None
}

/// The coordinate held by the characters `lo..hi` of `s`.
fn parse_coordinate(s: &str, lo: usize, hi: usize) -> (r: Option<usize>)
    requires
        lo <= hi <= s@.len(),
    ensures
        match coordinate(s@.subrange(lo as int, hi as int)) {
            Some(v) => r == Some(v as usize),
            None => r is None,
        },
{
    let ghost t = s@.subrange(lo as int, hi as int);
    let mut a = lo;
    while a < hi && is_space_char(s.get_char(a))
        invariant
            lo <= a <= hi <= s@.len(),
            trim_start(t) == trim_start(s@.subrange(a as int, hi as int)),
        decreases hi - a,
    {
        assert(s@.subrange(a as int, hi as int).drop_first() =~= s@.subrange(a + 1, hi as int));
        a = a + 1;
    }
    assert(trim_start(t) == s@.subrange(a as int, hi as int));
    let mut b = hi;
    while b > a && is_space_char(s.get_char(b - 1))
        invariant
            a <= b <= hi <= s@.len(),
            trim(t) == trim_end(s@.subrange(a as int, b as int)),
        decreases b,
    {
        assert(s@.subrange(a as int, b as int).drop_last() =~= s@.subrange(a as int, b - 1));
        b = b - 1;
    }
    let ghost u = s@.subrange(a as int, b as int);
    assert(trim(t) == u);
    if a < b && s.get_char(a) == '+' {
        a = a + 1;
    }
    let ghost d = s@.subrange(a as int, b as int);
    assert(d =~= unsigned_digits(trim(t)));
    if a == b {
        assert(d.len() == 0);
        assert(coordinate(t) is None);
        return None;
    }
    // `value` saturates at the board size: any larger number is refused.
    let mut value: usize = 0;
    let mut i = a;
    while i < b
        invariant
            a <= i <= b <= s@.len(),
            d == s@.subrange(a as int, b as int),
            t == s@.subrange(lo as int, hi as int),
            d == unsigned_digits(trim(t)),
            forall|j: int| a <= j < i ==> is_digit(#[trigger] s@[j]),
            value <= BOARD_SIZE,
            value < BOARD_SIZE ==> value == digits_value(s@.subrange(a as int, i as int)),
            value == BOARD_SIZE ==> digits_value(s@.subrange(a as int, i as int)) >= BOARD_SIZE,
        decreases b - i,
    {
        let c = s.get_char(i);
        if !('0' <= c && c <= '9') {
            assert(!is_digit(d[i - a]));
            assert(!all_digits(d));
            assert(coordinate(t) is None);
            return None;
        }
        assert(s@.subrange(a as int, i + 1).drop_last() =~= s@.subrange(a as int, i as int));
        let digit = (c as u32 - '0' as u32) as usize;
        if value < BOARD_SIZE {
            value = value * 10 + digit;
            if value > BOARD_SIZE {
                value = BOARD_SIZE;
            }
        }
        i = i + 1;
    }
    assert(d =~= s@.subrange(a as int, i as int));
    if value < BOARD_SIZE {
        Some(value)
    } else {
        None
    }
}

/// Reads a move from a line of input: two non-negative integers separated
/// by one comma, surrounding whitespace ignored, both below the board size.
/// Returns `None` for anything else.
pub fn parse_move(input: &str) -> (r: Option<(usize, usize)>)
    ensures
        r == move_of(input@),
{
    let n = input.unicode_len();
    let k = match find_comma(input, n, 0) {
        Some(k) => k,
        None => return None,
    };
    if find_comma(input, n, k + 1).is_some() {
        return None;
    }
    assert(input@.subrange(0, k as int) =~= input@.take(k as int));
    assert(input@.subrange(k + 1, n as int) =~= input@.skip(k + 1));
    let row = parse_coordinate(input, 0, k);
    let col = parse_coordinate(input, k + 1, n);
    match (row, col) {
        (Some(r), Some(c)) => Some((r, c)),
        _ => None,
    }
}

} // verus!
