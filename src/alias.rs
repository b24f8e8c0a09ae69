//! Alias tokens: a key, an optional leading `=` that makes the key exact,
//! and overrides in brackets: `(cq)`, `[itu]`, `<lat/lon>`, `{continent}`,
//! `~hours~`.
use vstd::prelude::*;
use crate::entity::{fixed_offset, Annotation, CtyError, Entity, EntityView};
use crate::text::{
    chars_of, slice_chars, is_float, is_float_chars, is_digit, parse_i32, parse_i32_chars, parse_u32,
    parse_u32_chars,
};

verus! {

/// First index at or after `i` that does not hold `c`.
pub open spec fn skip_char(t: Seq<char>, c: char, i: int) -> int
    decreases t.len() - i,
{
    if 0 <= i < t.len() && t[i] == c {
        skip_char(t, c, i + 1)
    } else {
        i
    }
}

/// The characters that open an override.
pub open spec fn is_opener(c: char) -> bool {
    c == '(' || c == '[' || c == '<' || c == '{' || c == '~'
}

/// First index at or after `i` that opens an override, or the length.
pub open spec fn find_opener(t: Seq<char>, i: int) -> int
    decreases t.len() - i,
{
    if 0 <= i < t.len() && !is_opener(t[i]) {
        find_opener(t, i + 1)
    } else {
        i
    }
}

/// First index at or after `i` that holds `c`, or the length.
pub open spec fn find_char(t: Seq<char>, c: char, i: int) -> int
    decreases t.len() - i,
{
    if 0 <= i < t.len() && t[i] != c {
        find_char(t, c, i + 1)
    } else {
        i
    }
}

/// Last index before `j` that holds `c`, or -1.
pub open spec fn rfind_char(t: Seq<char>, c: char, j: int) -> int
    decreases j,
{
    if j <= 0 || j > t.len() {
        -1
    } else if t[j - 1] == c {
        j - 1
    } else {
        rfind_char(t, c, j - 1)
    }
}

/// End of the run of digits that starts at `i`.
pub open spec fn digits_end(t: Seq<char>, i: int) -> int
    decreases t.len() - i,
{
    if 0 <= i < t.len() && is_digit(t[i]) {
        digits_end(t, i + 1)
    } else {
        i
    }
}

/// `t[i]` is `open`, followed by one or more digits and then `close`.
pub open spec fn number_at(t: Seq<char>, open: char, close: char, i: int) -> bool {
    let j = digits_end(t, i + 1);
    &&& 0 <= i < t.len()
    &&& t[i] == open
    &&& i + 1 < j < t.len()
    &&& t[j] == close
}

/// Bounds of the digits of the first `open digits close` at or after `i`.
pub open spec fn find_number(t: Seq<char>, open: char, close: char, i: int) -> Option<(int, int)>
    decreases t.len() - i,
{
    if i < 0 || i >= t.len() {
        None
    } else if number_at(t, open, close, i) {
        Some((i + 1, digits_end(t, i + 1)))
    } else {
        find_number(t, open, close, i + 1)
    }
}

/// Bounds of the text between the first `open` at or after `from` and the
/// last `close` after it.
pub open spec fn find_enclosed(t: Seq<char>, open: char, close: char, from: int) -> Option<
    (int, int),
> {
    let k = rfind_char(t, close, t.len() as int);
    let i = find_char(t, open, from);
    if 0 <= k && i < k {
        Some((i + 1, k))
    } else {
        None
    }
}

/// For `<lat/lon>`: the start of the latitude, the `/` (the last one before
/// the last `>`), and that `>`.
pub open spec fn find_coords(t: Seq<char>, from: int) -> Option<(int, int, int)> {
    let k = rfind_char(t, '>', t.len() as int);
    let j = rfind_char(t, '/', k);
    let i = find_char(t, '<', from);
    if 0 <= j && i < j {
        Some((i + 1, j, k))
    } else {
        None
    }
}

/// The offset override: `Ok` of seconds, or the error it raises.
pub open spec fn offset_override(t: Seq<char>, from: int, base: i32, line: int, index: int) -> Result<
    i32,
    CtyError,
> {
    match find_enclosed(t, '~', '~', from) {
        None => Ok(base),
        Some(r) => match parse_i32(t.subrange(r.0, r.1)) {
            None => Err(CtyError::OverrideFormat { annotation: Annotation::Timezone, line: line as usize, token: index as usize }),
            Some(h) => if -86400 < h * 3600 < 86400 {
                Ok((h * 3600) as i32)
            } else {
                Err(CtyError::InvalidTimezone { line: line as usize, token: index as usize })
            },
        },
    }
}

/// What the alias token `t` (trimmed, not empty), piece `index` of line
/// `line`, inserts into the table: its key and the entity `base` with the overrides applied.
pub open spec fn decode_alias_spec(base: EntityView, t: Seq<char>, line: int, index: int) -> Result<
    (Seq<char>, EntityView),
    CtyError,
> {
    let e = skip_char(t, '=', 0);
    let p = find_opener(t, e);
    let cq = match find_number(t, '(', ')', p) {
        Some(r) => parse_u32(t.subrange(r.0, r.1)),
        None => Some(base.cq),
    };
    let itu = match find_number(t, '[', ']', p) {
        Some(r) => parse_u32(t.subrange(r.0, r.1)),
        None => Some(base.itu),
    };
    let coords = find_coords(t, p);
    let lat = match coords {
        Some(c) => t.subrange(c.0, c.1),
        None => base.lat,
    };
    let lon = match coords {
        Some(c) => t.subrange(c.1 + 1, c.2),
        None => base.lon,
    };
    let continent = match find_enclosed(t, '{', '}', p) {
        Some(r) => t.subrange(r.0, r.1),
        None => base.continent,
    };
    let tz = offset_override(t, p, base.timezone, line, index);
    if cq is None {
        Err(CtyError::OverrideFormat { annotation: Annotation::Cq, line: line as usize, token: index as usize })
    } else if itu is None {
        Err(CtyError::OverrideFormat { annotation: Annotation::Itu, line: line as usize, token: index as usize })
    } else if coords is Some && !is_float(lat) {
        Err(CtyError::OverrideFormat { annotation: Annotation::Latitude, line: line as usize, token: index as usize })
    } else if coords is Some && !is_float(lon) {
        Err(CtyError::OverrideFormat { annotation: Annotation::Longitude, line: line as usize, token: index as usize })
    } else if tz is Err {
        Err(tz->Err_0)
    } else {
        Ok(
            (
                t.subrange(e, p),
                EntityView {
                    name: base.name,
                    cq: cq->0,
                    itu: itu->0,
                    continent,
                    lat,
                    lon,
                    timezone: tz->Ok_0,
                    prefix: base.prefix,
                    waedc: base.waedc,
                    is_exact: e > 0,
                },
            ),
        )
    }
}

pub(crate) fn skip_char_exec(t: &Vec<char>, c: char, i0: usize) -> (r: usize)
    requires
        i0 <= t@.len(),
    ensures
        r == skip_char(t@, c, i0 as int),
        i0 <= r <= t@.len(),
{
    let mut i = i0;
    while i < t.len() && t[i] == c
        invariant
            i0 <= i <= t@.len(),
            skip_char(t@, c, i as int) == skip_char(t@, c, i0 as int),
        decreases t@.len() - i,
    {
        i += 1;
    }
    i
}

fn find_opener_exec(t: &Vec<char>, i0: usize) -> (r: usize)
    requires
        i0 <= t@.len(),
    ensures
        r == find_opener(t@, i0 as int),
        i0 <= r <= t@.len(),
{
    let mut i = i0;
    while i < t.len() && !(t[i] == '(' || t[i] == '[' || t[i] == '<' || t[i] == '{' || t[i]
        == '~')
        invariant
            i0 <= i <= t@.len(),
            find_opener(t@, i as int) == find_opener(t@, i0 as int),
        decreases t@.len() - i,
    {
        i += 1;
    }
    i
}

fn find_char_exec(t: &Vec<char>, c: char, i0: usize) -> (r: usize)
    requires
        i0 <= t@.len(),
    ensures
        r == find_char(t@, c, i0 as int),
        i0 <= r <= t@.len(),
{
    let mut i = i0;
    while i < t.len() && t[i] != c
        invariant
            i0 <= i <= t@.len(),
            find_char(t@, c, i as int) == find_char(t@, c, i0 as int),
        decreases t@.len() - i,
    {
        i += 1;
    }
    i
}

fn rfind_char_exec(t: &Vec<char>, c: char, j0: usize) -> (r: Option<usize>)
    requires
        j0 <= t@.len(),
    ensures
        match r {
            Some(k) => k == rfind_char(t@, c, j0 as int) && k < j0,
            None => rfind_char(t@, c, j0 as int) == -1,
        },
{
    let mut j = j0;
    while j > 0 && t[j - 1] != c
        invariant
            j <= j0 <= t@.len(),
            rfind_char(t@, c, j as int) == rfind_char(t@, c, j0 as int),
        decreases j,
    {
        j -= 1;
    }
    if j == 0 {
        None
    } else {
        Some(j - 1)
    }
}

fn digits_end_exec(t: &Vec<char>, i0: usize) -> (r: usize)
    requires
        i0 <= t@.len(),
    ensures
        r == digits_end(t@, i0 as int),
        i0 <= r <= t@.len(),
{
    let mut i = i0;
    while i < t.len() && 48 <= (t[i] as u32) && (t[i] as u32) <= 57
        invariant
            i0 <= i <= t@.len(),
            digits_end(t@, i as int) == digits_end(t@, i0 as int),
        decreases t@.len() - i,
    {
        i += 1;
    }
    i
}

fn find_number_exec(t: &Vec<char>, open: char, close: char, i0: usize) -> (r: Option<
    (usize, usize),
>)
    requires
        i0 <= t@.len(),
    ensures
        match r {
            Some(p) => find_number(t@, open, close, i0 as int) == Some((p.0 as int, p.1 as int))
                && p.0 <= p.1 <= t@.len(),
            None => find_number(t@, open, close, i0 as int) is None,
        },
{
    let mut i = i0;
    while i < t.len()
        invariant
            i0 <= i <= t@.len(),
            find_number(t@, open, close, i as int) == find_number(t@, open, close, i0 as int),
        decreases t@.len() - i,
    {
        if t[i] == open {
            let j = digits_end_exec(t, i + 1);
            if i + 1 < j && j < t.len() && t[j] == close {
                return Some((i + 1, j));
            }
        }
        i += 1;
    }
    None
}

fn find_enclosed_exec(t: &Vec<char>, open: char, close: char, from: usize) -> (r: Option<
    (usize, usize),
>)
    requires
        from <= t@.len(),
    ensures
        match r {
            Some(p) => find_enclosed(t@, open, close, from as int) == Some((p.0 as int, p.1 as int))
                && p.0 <= p.1 <= t@.len(),
            None => find_enclosed(t@, open, close, from as int) is None,
        },
{
    let i = find_char_exec(t, open, from);
    match rfind_char_exec(t, close, t.len()) {
        Some(k) => if i < k {
            Some((i + 1, k))
        } else {
            None
        },
        None => None,
    }
}

fn find_coords_exec(t: &Vec<char>, from: usize) -> (r: Option<(usize, usize, usize)>)
    requires
        from <= t@.len(),
    ensures
        match r {
            Some(p) => find_coords(t@, from as int) == Some((p.0 as int, p.1 as int, p.2 as int))
                && p.0 <= p.1 < p.2 <= t@.len(),
            None => find_coords(t@, from as int) is None,
        },
{
    let i = find_char_exec(t, '<', from);
    match rfind_char_exec(t, '>', t.len()) {
        Some(k) => match rfind_char_exec(t, '/', k) {
            Some(j) => if i < j {
                Some((i + 1, j, k))
            } else {
                None
            },
            None => None,
        },
        None => {
            assert(rfind_char(t@, '/', -1) == -1);
            None
        },
    }
}

/// Decodes the alias token `token` (trimmed, not empty), piece `index` of
/// line `line`, over the entity `base`: the key it stands for and the entity stored
/// under it.
pub fn decode_alias(base: &Entity, token: &str, line: usize, index: usize) -> (r: Result<(String, Entity), CtyError>)
    ensures
        match r {
            Ok((k, e)) => decode_alias_spec(base@, token@, line as int, index as int) == Ok::<
                (Seq<char>, EntityView),
                CtyError,
            >((k@, e@)),
            Err(x) => decode_alias_spec(base@, token@, line as int, index as int) == Err::<
                (Seq<char>, EntityView),
                CtyError,
            >(x),
        },
{
    let t = chars_of(token);
    let e = skip_char_exec(&t, '=', 0);
    let p = find_opener_exec(&t, e);
    let cq = match find_number_exec(&t, '(', ')', p) {
        Some((a, b)) => match parse_u32_chars(&slice_chars(&t, a, b)) {
            Some(v) => v,
            None => return Err(CtyError::OverrideFormat { annotation: Annotation::Cq, line, token: index }),
        },
        None => base.cq,
    };
    let itu = match find_number_exec(&t, '[', ']', p) {
        Some((a, b)) => match parse_u32_chars(&slice_chars(&t, a, b)) {
            Some(v) => v,
            None => return Err(CtyError::OverrideFormat { annotation: Annotation::Itu, line, token: index }),
        },
        None => base.itu,
    };
    let (lat, lon) = match find_coords_exec(&t, p) {
        Some((a, j, k)) => {
            if !is_float_chars(&slice_chars(&t, a, j)) {
                return Err(CtyError::OverrideFormat { annotation: Annotation::Latitude, line, token: index });
            }
            if !is_float_chars(&slice_chars(&t, j + 1, k)) {
                return Err(CtyError::OverrideFormat { annotation: Annotation::Longitude, line, token: index });
            }
            (
                String::from_str(token.substring_char(a, j)),
                String::from_str(token.substring_char(j + 1, k)),
            )
        },
        None => (base.lat.clone(), base.lon.clone()),
    };
    let continent = match find_enclosed_exec(&t, '{', '}', p) {
        Some((a, b)) => String::from_str(token.substring_char(a, b)),
        None => base.continent.clone(),
    };
    let timezone = match find_enclosed_exec(&t, '~', '~', p) {
        Some((a, b)) => match parse_i32_chars(&slice_chars(&t, a, b)) {
            Some(h) => {
                let secs: i64 = h as i64 * 3600;
                if secs < -0x8000_0000 || secs > 0x7fff_ffff {
                    return Err(CtyError::InvalidTimezone { line, token: index });
                }
                match fixed_offset(secs as i32) {
                    Some(s) => s,
                    None => return Err(CtyError::InvalidTimezone { line, token: index }),
                }
            },
            None => return Err(
                CtyError::OverrideFormat { annotation: Annotation::Timezone, line, token: index },
            ),
        },
        None => base.timezone,
    };
    let key = String::from_str(token.substring_char(e, p));
    let entity = Entity {
        name: base.name.clone(),
        cq,
        itu,
        continent,
        lat,
        lon,
        timezone,
        prefix: base.prefix.clone(),
        waedc: base.waedc,
        is_exact: e > 0,
    };
    Ok((key, entity))
}

} // verus!
