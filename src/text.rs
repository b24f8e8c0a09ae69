//! Character-level scanning: whitespace trimming, splitting on a
//! delimiter, and the number formats used by the database.
use vstd::prelude::*;

verus! {

/// Rust's `char::is_whitespace`: the Unicode White_Space property.
pub open spec fn is_ws(c: char) -> bool {
    let u = c as u32;
    u == 32 || (9 <= u && u <= 13) || u == 0x85 || u == 0xa0 || u == 0x1680 || (0x2000 <= u
        && u <= 0x200a) || u == 0x2028 || u == 0x2029 || u == 0x202f || u == 0x205f || u == 0x3000
}

pub fn is_ws_char(c: char) -> (r: bool)
    ensures
        r == is_ws(c),
{
    let u = c as u32;
    u == 32 || (9 <= u && u <= 13) || u == 0x85 || u == 0xa0 || u == 0x1680 || (0x2000 <= u
        && u <= 0x200a) || u == 0x2028 || u == 0x2029 || u == 0x202f || u == 0x205f || u == 0x3000
}

/// The characters of `s`, one by one.
pub fn chars_of(s: &str) -> (v: Vec<char>)
    ensures
        v@ == s@,
{
    let n = s.unicode_len();
    let mut v: Vec<char> = Vec::new();
    let mut i: usize = 0;
    while i < n
        invariant
            n == s@.len(),
            i <= n,
            v@ == s@.take(i as int),
        decreases n - i,
    {
        v.push(s.get_char(i));
        i += 1;
        assert(v@ =~= s@.take(i as int));
    }
    assert(v@ =~= s@);
    v
}

/// First index at or after `i` (and before `end`) that is not whitespace.
pub open spec fn skip_ws(s: Seq<char>, i: int, end: int) -> int
    decreases end - i,
{
    if i < end && is_ws(s[i]) {
        skip_ws(s, i + 1, end)
    } else {
        i
    }
}

/// End of `s[start..j]` once trailing whitespace is dropped.
pub open spec fn back_ws(s: Seq<char>, start: int, j: int) -> int
    decreases j - start,
{
    if start < j && is_ws(s[j - 1]) {
        back_ws(s, start, j - 1)
    } else {
        j
    }
}

/// Bounds of `s[a..b]` with leading and trailing whitespace removed.
pub open spec fn trim_range(s: Seq<char>, a: int, b: int) -> (int, int) {
    let a2 = skip_ws(s, a, b);
    (a2, back_ws(s, a2, b))
}

/// The text of `s[r.0..r.1]`, trimmed.
pub open spec fn trimmed(s: Seq<char>, r: (int, int)) -> Seq<char> {
    let t = trim_range(s, r.0, r.1);
    s.subrange(t.0, t.1)
}

pub fn trim_span(s: &Vec<char>, a: usize, b: usize) -> (r: (usize, usize))
    requires
        a <= b <= s@.len(),
    ensures
        (r.0 as int, r.1 as int) == trim_range(s@, a as int, b as int),
        a <= r.0 <= r.1 <= b,
{
    let mut i = a;
    while i < b && is_ws_char(s[i])
        invariant
            a <= i <= b <= s@.len(),
            skip_ws(s@, i as int, b as int) == skip_ws(s@, a as int, b as int),
        decreases b - i,
    {
        i += 1;
    }
    let mut j = b;
    while i < j && is_ws_char(s[j - 1])
        invariant
            i <= j <= b <= s@.len(),
            skip_ws(s@, a as int, b as int) == i,
            back_ws(s@, i as int, j as int) == back_ws(s@, i as int, b as int),
        decreases j - i,
    {
        j -= 1;
    }
    (i, j)
}

/// Pieces of `s[start..end]` between occurrences of `d`, scanning from `i`.
pub open spec fn split_from(s: Seq<char>, d: char, start: int, i: int, end: int) -> Seq<(int, int)>
    decreases end - i,
{
    if i >= end {
        seq![(start, end)]
    } else if s[i] == d {
        seq![(start, i)] + split_from(s, d, i + 1, i + 1, end)
    } else {
        split_from(s, d, start, i + 1, end)
    }
}

/// Bounds of the pieces of `s[..end]` separated by `d`, as `str::split` yields them.
pub open spec fn split(s: Seq<char>, d: char, end: int) -> Seq<(int, int)> {
    split_from(s, d, 0, 0, end)
}

pub open spec fn spans(v: Seq<(usize, usize)>) -> Seq<(int, int)> {
    v.map_values(|p: (usize, usize)| (p.0 as int, p.1 as int))
}

pub fn split_spans(s: &Vec<char>, d: char, end: usize) -> (r: Vec<(usize, usize)>)
    requires
        end <= s@.len(),
    ensures
        spans(r@) == split(s@, d, end as int),
        forall|k: int| 0 <= k < r@.len() ==> #[trigger] r@[k].0 <= r@[k].1 <= end,
{
    let mut r: Vec<(usize, usize)> = Vec::new();
    let mut start: usize = 0;
    let mut i: usize = 0;
    while i < end
        invariant
            start <= i <= end <= s@.len(),
            spans(r@) + split_from(s@, d, start as int, i as int, end as int) == split(
                s@,
                d,
                end as int,
            ),
            forall|k: int| 0 <= k < r@.len() ==> #[trigger] r@[k].0 <= r@[k].1 <= start,
        decreases end - i,
    {
        if s[i] == d {
            let ghost before = r@;
            r.push((start, i));
            assert(spans(r@) =~= spans(before) + seq![(start as int, i as int)]);
            assert(spans(r@) + split_from(s@, d, i + 1, i + 1, end as int) =~= spans(before) + (
            seq![(start as int, i as int)] + split_from(s@, d, i + 1, i + 1, end as int)));
            start = i + 1;
        }
        i += 1;
    }
    let ghost before = r@;
    r.push((start, end));
    assert(spans(r@) =~= spans(before) + seq![(start as int, end as int)]);
    r
}


pub open spec fn is_digit(c: char) -> bool {
    48 <= c as u32 && c as u32 <= 57
}

pub open spec fn digit_val(c: char) -> nat {
    (c as u32 - 48) as nat
}

pub open spec fn all_digits(t: Seq<char>) -> bool {
    forall|k: int| 0 <= k < t.len() ==> is_digit(#[trigger] t[k])
}

/// Value of a run of decimal digits.
pub open spec fn num_value(t: Seq<char>) -> nat
    decreases t.len(),
{
    if t.len() == 0 {
        0
    } else {
        num_value(t.drop_last()) * 10 + digit_val(t.last())
    }
}

/// `t` without one leading `+`.
pub open spec fn unsigned_body(t: Seq<char>) -> Seq<char> {
    if t.len() > 0 && t[0] == '+' {
        t.drop_first()
    } else {
        t
    }
}

/// `u32::from_str`: an optional `+`, then one or more ASCII digits, in range.
pub open spec fn parse_u32(t: Seq<char>) -> Option<u32> {
    let d = unsigned_body(t);
    if d.len() > 0 && all_digits(d) && num_value(d) <= u32::MAX {
        Some(num_value(d) as u32)
    } else {
        None
    }
}

/// `i32::from_str`: an optional sign, then one or more ASCII digits, in range.
pub open spec fn parse_i32(t: Seq<char>) -> Option<i32> {
    if t.len() > 0 && t[0] == '-' {
        let d = t.drop_first();
        if d.len() > 0 && all_digits(d) && num_value(d) <= 0x8000_0000 {
            Some((-num_value(d)) as i32)
        } else {
            None
        }
    } else {
        let d = unsigned_body(t);
        if d.len() > 0 && all_digits(d) && num_value(d) <= i32::MAX {
            Some(num_value(d) as i32)
        } else {
            None
        }
    }
}

/// `t` without one leading sign.
pub open spec fn sign_body(t: Seq<char>) -> Seq<char> {
    if t.len() > 0 && (t[0] == '+' || t[0] == '-') {
        t.drop_first()
    } else {
        t
    }
}

/// Digits with at most one `.`, and at least one digit.
pub open spec fn is_digits_with_point(b: Seq<char>) -> bool {
    &&& forall|k: int| 0 <= k < b.len() ==> is_digit(#[trigger] b[k]) || b[k] == '.'
    &&& forall|k1: int, k2: int|
        0 <= k1 < b.len() && 0 <= k2 < b.len() && #[trigger] b[k1] == '.' && #[trigger] b[k2]
            == '.' ==> k1 == k2
    &&& exists|k: int| 0 <= k < b.len() && is_digit(#[trigger] b[k])
}

/// `c` is the lower-case ASCII letter `l`, in either case.
pub open spec fn same_letter(c: char, l: char) -> bool {
    c == l || c as u32 + 32 == l as u32
}

/// `b` spells the lower-case word `w`, ignoring ASCII case.
pub open spec fn is_word(b: Seq<char>, w: Seq<char>) -> bool {
    b.len() == w.len() && forall|k: int| 0 <= k < b.len() ==> same_letter(#[trigger] b[k], w[k])
}

/// `inf`, `infinity` or `nan`, in any case.
pub open spec fn is_special_float(b: Seq<char>) -> bool {
    is_word(b, seq!['i', 'n', 'f']) || is_word(b, seq!['i', 'n', 'f', 'i', 'n', 'i', 't', 'y'])
        || is_word(b, seq!['n', 'a', 'n'])
}

/// First index at or after `i` that holds `e` or `E`, or the length.
pub open spec fn exp_pos(b: Seq<char>, i: int) -> int
    decreases b.len() - i,
{
    if 0 <= i < b.len() && b[i] != 'e' && b[i] != 'E' {
        exp_pos(b, i + 1)
    } else {
        i
    }
}

/// An exponent after its `e`: an optional sign, then one or more digits.
pub open spec fn is_exponent(x: Seq<char>) -> bool {
    let d = sign_body(x);
    d.len() > 0 && all_digits(d)
}

/// The text that `f32::from_str` accepts: an optional sign, then either
/// `inf`, `infinity` or `nan` in any case, or digits with at most one `.`
/// and at least one digit, optionally followed by `e` or `E` and an
/// exponent (`12`, `-0.5`, `+.25`, `7.`, `1e1`, `2.5E-3`, `NaN`).
pub open spec fn is_float(t: Seq<char>) -> bool {
    let b = sign_body(t);
    let q = exp_pos(b, 0);
    is_special_float(b) || (is_digits_with_point(b.take(q)) && (q == b.len() || is_exponent(
        b.skip(q + 1),
    )))
}

proof fn lemma_num_value_prefix(t: Seq<char>, n: int)
    requires
        0 <= n <= t.len(),
    ensures
        num_value(t.take(n)) <= num_value(t),
    decreases t.len(),
{
    if n < t.len() {
        assert(t.take(n) =~= t.drop_last().take(n));
        lemma_num_value_prefix(t.drop_last(), n);
    } else {
        assert(t.take(n) =~= t);
    }
}

/// The value of the digits `t[a..b]`, if there is at least one, all are
/// digits, and the value is at most `limit`.
fn read_digits(t: &Vec<char>, a: usize, b: usize, limit: u64) -> (r: Option<u64>)
    requires
        a <= b <= t@.len(),
        limit <= 0x1_0000_0000,
    ensures
        r == (if a < b && all_digits(t@.subrange(a as int, b as int)) && num_value(
            t@.subrange(a as int, b as int),
        ) <= limit {
            Some(num_value(t@.subrange(a as int, b as int)) as u64)
        } else {
            None
        }),
{
    if a == b {
        return None;
    }
    let ghost d = t@.subrange(a as int, b as int);
    let mut acc: u64 = 0;
    let mut i = a;
    while i < b
        invariant
            a <= i <= b <= t@.len(),
            d == t@.subrange(a as int, b as int),
            limit <= 0x1_0000_0000,
            acc == num_value(d.take(i - a)),
            acc <= limit,
            all_digits(d.take(i - a)),
        decreases b - i,
    {
        let c = t[i];
        if !(48 <= (c as u32) && (c as u32) <= 57) {
            assert(!is_digit(d[i - a]));
            return None;
        }
        assert(d.take(i + 1 - a).drop_last() =~= d.take(i - a));
        let v = acc * 10 + (c as u32 - 48) as u64;
        if v > limit {
            proof {
                lemma_num_value_prefix(d, i + 1 - a);
            }
            return None;
        }
        acc = v;
        i += 1;
        assert(all_digits(d.take(i - a)));
    }
    assert(d.take(i - a) =~= d);
    Some(acc)
}

pub fn parse_u32_chars(t: &Vec<char>) -> (r: Option<u32>)
    ensures
        r == parse_u32(t@),
{
    let a: usize = if t.len() > 0 && t[0] == '+' {
        1
    } else {
        0
    };
    assert(unsigned_body(t@) =~= t@.subrange(a as int, t@.len() as int));
    match read_digits(t, a, t.len(), 0xffff_ffff) {
        Some(v) => Some(v as u32),
        None => None,
    }
}

pub fn parse_i32_chars(t: &Vec<char>) -> (r: Option<i32>)
    ensures
        r == parse_i32(t@),
{
    if t.len() > 0 && t[0] == '-' {
        assert(t@.drop_first() =~= t@.subrange(1, t@.len() as int));
        match read_digits(t, 1, t.len(), 0x8000_0000) {
            Some(v) => Some((0 - (v as i64)) as i32),
            None => None,
        }
    } else {
        let a: usize = if t.len() > 0 && t[0] == '+' {
            1
        } else {
            0
        };
        assert(unsigned_body(t@) =~= t@.subrange(a as int, t@.len() as int));
        match read_digits(t, a, t.len(), 0x7fff_ffff) {
            Some(v) => Some(v as i32),
            None => None,
        }
    }
}

fn digits_with_point_chars(b: &Vec<char>) -> (r: bool)
    ensures
        r == is_digits_with_point(b@),
{
    let mut seen_dot = false;
    let mut seen_digit = false;
    let mut i: usize = 0;
    while i < b.len()
        invariant
            i <= b@.len(),
            forall|k: int| 0 <= k < i ==> is_digit(#[trigger] b@[k]) || b@[k] == '.',
            forall|k1: int, k2: int|
                0 <= k1 < i && 0 <= k2 < i && #[trigger] b@[k1] == '.' && #[trigger] b@[k2] == '.'
                    ==> k1 == k2,
            seen_dot == exists|k: int| 0 <= k < i && #[trigger] b@[k] == '.',
            seen_digit == exists|k: int| 0 <= k < i && is_digit(#[trigger] b@[k]),
        decreases b@.len() - i,
    {
        let c = b[i];
        if c == '.' {
            if seen_dot {
                let ghost k0 = choose|k: int| 0 <= k < i && #[trigger] b@[k] == '.';
                assert(b@[k0] == '.' && b@[i as int] == '.');
                return false;
            }
            seen_dot = true;
        } else if 48 <= (c as u32) && (c as u32) <= 57 {
            seen_digit = true;
        } else {
            assert(!(is_digit(b@[i as int]) || b@[i as int] == '.'));
            return false;
        }
        i += 1;
    }
    seen_digit
}

fn all_digits_chars(d: &Vec<char>) -> (r: bool)
    ensures
        r == all_digits(d@),
{
    let mut i: usize = 0;
    while i < d.len()
        invariant
            i <= d@.len(),
            forall|k: int| 0 <= k < i ==> is_digit(#[trigger] d@[k]),
        decreases d@.len() - i,
    {
        if !(48 <= (d[i] as u32) && (d[i] as u32) <= 57) {
            assert(!is_digit(d@[i as int]));
            return false;
        }
        i += 1;
    }
    true
}

fn is_word_chars(b: &Vec<char>, w: &Vec<char>) -> (r: bool)
    ensures
        r == is_word(b@, w@),
{
    if b.len() != w.len() {
        return false;
    }
    let mut i: usize = 0;
    while i < b.len()
        invariant
            i <= b@.len() == w@.len(),
            forall|k: int| 0 <= k < i ==> same_letter(#[trigger] b@[k], w@[k]),
        decreases b@.len() - i,
    {
        let c = b[i];
        let l = w[i];
        if !(c == l || ((l as u32) >= 32 && (c as u32) == (l as u32) - 32)) {
            assert(!same_letter(b@[i as int], w@[i as int]));
            return false;
        }
        i += 1;
    }
    true
}

fn exp_pos_exec(b: &Vec<char>) -> (r: usize)
    ensures
        r == exp_pos(b@, 0),
        r <= b@.len(),
{
    let mut i: usize = 0;
    while i < b.len() && b[i] != 'e' && b[i] != 'E'
        invariant
            i <= b@.len(),
            exp_pos(b@, i as int) == exp_pos(b@, 0),
        decreases b@.len() - i,
    {
        i += 1;
    }
    i
}

pub fn is_float_chars(t: &Vec<char>) -> (r: bool)
    ensures
        r == is_float(t@),
{
    let a: usize = if t.len() > 0 && (t[0] == '+' || t[0] == '-') {
        1
    } else {
        0
    };
    let b = slice_chars(t, a, t.len());
    assert(b@ =~= sign_body(t@));
    let inf = vec!['i', 'n', 'f'];
    let infinity = vec!['i', 'n', 'f', 'i', 'n', 'i', 't', 'y'];
    let nan = vec!['n', 'a', 'n'];
    assert(inf@ =~= seq!['i', 'n', 'f']);
    assert(infinity@ =~= seq!['i', 'n', 'f', 'i', 'n', 'i', 't', 'y']);
    assert(nan@ =~= seq!['n', 'a', 'n']);
    if is_word_chars(&b, &inf) || is_word_chars(&b, &infinity) || is_word_chars(&b, &nan) {
        return true;
    }
    let q = exp_pos_exec(&b);
    let m = slice_chars(&b, 0, q);
    assert(m@ =~= b@.take(q as int));
    if !digits_with_point_chars(&m) {
        return false;
    }
    if q == b.len() {
        return true;
    }
    let x = slice_chars(&b, q + 1, b.len());
    assert(x@ =~= b@.skip(q + 1));
    let s: usize = if x.len() > 0 && (x[0] == '+' || x[0] == '-') {
        1
    } else {
        0
    };
    let d = slice_chars(&x, s, x.len());
    assert(d@ =~= sign_body(x@));
    d.len() > 0 && all_digits_chars(&d)
}

/// A copy of `t[a..b]`.
pub fn slice_chars(t: &Vec<char>, a: usize, b: usize) -> (v: Vec<char>)
    requires
        a <= b <= t@.len(),
    ensures
        v@ == t@.subrange(a as int, b as int),
{
    let mut v: Vec<char> = Vec::new();
    let mut i = a;
    while i < b
        invariant
            a <= i <= b <= t@.len(),
            v@ == t@.subrange(a as int, i as int),
        decreases b - i,
    {
        v.push(t[i]);
        i += 1;
        assert(v@ =~= t@.subrange(a as int, i as int));
    }
    v
}

} // verus!
