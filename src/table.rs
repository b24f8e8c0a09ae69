//! The entity table: loading it from the lines of a country file, and
//! resolving callsigns against it.
use vstd::prelude::*;
use vstd::hash_map::StringHashMap;
use crate::alias::{decode_alias, decode_alias_spec, skip_char, skip_char_exec};
use crate::entity::{blank_entity, CtyError, Entity, EntityView, Field};
use crate::text::{
    chars_of, is_float, is_float_chars, parse_u32, parse_u32_chars, slice_chars, spans,
    split, split_spans, trim_span, trimmed,
};

verus! {

/// The table's entries as views.
pub open spec fn view_table(m: Map<Seq<char>, Entity>) -> Map<Seq<char>, EntityView> {
    m.map_values(|e: Entity| e@)
}

/// Field `k` of a line split into `parts`, trimmed.
pub open spec fn field(s: Seq<char>, parts: Seq<(int, int)>, k: int) -> Seq<char> {
    trimmed(s, parts[k])
}

/// A line with more than two `:`-separated fields is a record line.
pub open spec fn is_record_line(s: Seq<char>) -> bool {
    split(s, ':', s.len() as int).len() > 2
}

/// The entity that a record line defines: name, CQ zone, ITU zone,
/// continent, latitude, longitude, an unused field and the prefix, whose
/// leading `*`s mark the WAEDC list. The offset from UTC is zero. Fields
/// are checked in position order: a bad number met before the first
/// missing field is the error.
pub open spec fn parse_record_spec(s: Seq<char>, line: int) -> Result<EntityView, CtyError> {
    let parts = split(s, ':', s.len() as int);
    let cq = parse_u32(field(s, parts, 1));
    let itu = parse_u32(field(s, parts, 2));
    let lat = field(s, parts, 4);
    let lon = field(s, parts, 5);
    let pre = field(s, parts, 7);
    if parts.len() < 3 {
        Err(CtyError::MalformedRecord { line: line as usize })
    } else if cq is None {
        Err(CtyError::FieldFormat { field: Field::Cq, line: line as usize })
    } else if itu is None {
        Err(CtyError::FieldFormat { field: Field::Itu, line: line as usize })
    } else if parts.len() < 5 {
        Err(CtyError::MalformedRecord { line: line as usize })
    } else if !is_float(lat) {
        Err(CtyError::FieldFormat { field: Field::Latitude, line: line as usize })
    } else if parts.len() < 6 {
        Err(CtyError::MalformedRecord { line: line as usize })
    } else if !is_float(lon) {
        Err(CtyError::FieldFormat { field: Field::Longitude, line: line as usize })
    } else if parts.len() < 8 {
        Err(CtyError::MalformedRecord { line: line as usize })
    } else {
        Ok(
            EntityView {
                name: field(s, parts, 0),
                cq: cq->0,
                itu: itu->0,
                continent: field(s, parts, 3),
                lat,
                lon,
                timezone: 0,
                prefix: pre.skip(skip_char(pre, '*', 0)),
                waedc: pre.len() > 0 && pre[0] == '*',
                is_exact: false,
            },
        )
    }
}

/// End of `s[..j]` once trailing `c`s are dropped.
pub open spec fn strip_end(s: Seq<char>, c: char, j: int) -> int
    decreases j,
{
    if 0 < j <= s.len() && s[j - 1] == c {
        strip_end(s, c, j - 1)
    } else {
        j
    }
}

/// Inserts the aliases `parts[k..]` of the alias line `s`, in order,
/// skipping empty ones.
pub open spec fn add_aliases(
    m: Map<Seq<char>, EntityView>,
    base: EntityView,
    s: Seq<char>,
    parts: Seq<(int, int)>,
    k: int,
    line: int,
) -> Result<Map<Seq<char>, EntityView>, CtyError>
    decreases parts.len() - k,
{
    if k < 0 || k >= parts.len() {
        Ok(m)
    } else {
        let t = trimmed(s, parts[k]);
        if t.len() == 0 {
            add_aliases(m, base, s, parts, k + 1, line)
        } else {
            match decode_alias_spec(base, t, line, k) {
                Err(x) => Err(x),
                Ok(kv) => add_aliases(m.insert(kv.0, kv.1), base, s, parts, k + 1, line),
            }
        }
    }
}

/// One line of the file, given the table so far and the current base
/// entity: the new table and base entity.
pub open spec fn load_line(
    m: Map<Seq<char>, EntityView>,
    base: EntityView,
    s: Seq<char>,
    line: int,
) -> Result<(Map<Seq<char>, EntityView>, EntityView), CtyError> {
    if is_record_line(s) {
        match parse_record_spec(s, line) {
            Ok(e) => Ok((m.insert(e.prefix, e), e)),
            Err(x) => Err(x),
        }
    } else {
        match add_aliases(m, base, s, split(s, ',', strip_end(s, ';', s.len() as int)), 0, line) {
            Ok(m2) => Ok((m2, base)),
            Err(x) => Err(x),
        }
    }
}

/// The lines from `i` on, in order; the first error ends the load.
pub open spec fn load_from(
    m: Map<Seq<char>, EntityView>,
    base: EntityView,
    lines: Seq<Seq<char>>,
    i: int,
) -> Result<Map<Seq<char>, EntityView>, CtyError>
    decreases lines.len() - i,
{
    if i < 0 || i >= lines.len() {
        Ok(m)
    } else {
        match load_line(m, base, lines[i], i) {
            Err(x) => Err(x),
            Ok(st) => load_from(st.0, st.1, lines, i + 1),
        }
    }
}

/// The table that a file of `lines` yields, or its first error.
pub open spec fn load_spec(lines: Seq<Seq<char>>) -> Result<Map<Seq<char>, EntityView>, CtyError> {
    load_from(Map::empty(), blank_entity(), lines, 0)
}

/// The entry under the longest of the first `n` non-empty prefixes of `c`.
pub open spec fn longest_prefix(m: Map<Seq<char>, EntityView>, c: Seq<char>, n: int) -> Option<
    EntityView,
>
    decreases n,
{
    if n <= 0 {
        None
    } else if m.contains_key(c.take(n)) {
        Some(m[c.take(n)])
    } else {
        longest_prefix(m, c, n - 1)
    }
}

/// An exact entry under the whole callsign wins; otherwise the entry under
/// its longest prefix that is a key.
pub open spec fn lookup_spec(m: Map<Seq<char>, EntityView>, c: Seq<char>) -> Option<EntityView> {
    if m.contains_key(c) && m[c].is_exact {
        Some(m[c])
    } else {
        longest_prefix(m, c, c.len() as int)
    }
}

pub open spec fn lines_view(lines: Seq<String>) -> Seq<Seq<char>> {
    lines.map_values(|l: String| l@)
}

/// The table of entities, keyed by prefix or alias.
pub struct Cty {
    entities: StringHashMap<Entity>,
}

impl View for Cty {
    type V = Map<Seq<char>, EntityView>;

    closed spec fn view(&self) -> Map<Seq<char>, EntityView> {
        view_table(self.entities@)
    }
}

fn insert_entity(m: &mut StringHashMap<Entity>, k: String, e: Entity)
    ensures
        view_table(final(m)@) == view_table(old(m)@).insert(k@, e@),
{
    let ghost kv = k@;
    let ghost ev = e@;
    m.insert(k, e);
    assert(view_table(m@) =~= view_table(old(m)@).insert(kv, ev));
}

/// The record line `line` (with characters `t`, split at `:` into `parts`).
fn parse_record(line: &str, t: &Vec<char>, parts: &Vec<(usize, usize)>, line_no: usize) -> (r:
    Result<Entity, CtyError>)
    requires
        t@ == line@,
        spans(parts@) == split(t@, ':', t@.len() as int),
        forall|k: int| 0 <= k < parts@.len() ==> #[trigger] parts@[k].0 <= parts@[k].1 <= t@.len(),
    ensures
        match r {
            Ok(e) => parse_record_spec(line@, line_no as int) == Ok::<EntityView, CtyError>(e@),
            Err(x) => parse_record_spec(line@, line_no as int) == Err::<EntityView, CtyError>(x),
        },
{
    let ghost sp = spans(parts@);
    if parts.len() < 3 {
        return Err(CtyError::MalformedRecord { line: line_no });
    }
    assert(forall|k: int| 0 <= k < parts@.len() ==> #[trigger] sp[k] == (
    parts@[k].0 as int,
    parts@[k].1 as int,
    ));
    let f1 = trim_span(t, parts[1].0, parts[1].1);
    let f2 = trim_span(t, parts[2].0, parts[2].1);
    let cq = match parse_u32_chars(&slice_chars(t, f1.0, f1.1)) {
        Some(v) => v,
        None => return Err(CtyError::FieldFormat { field: Field::Cq, line: line_no }),
    };
    let itu = match parse_u32_chars(&slice_chars(t, f2.0, f2.1)) {
        Some(v) => v,
        None => return Err(CtyError::FieldFormat { field: Field::Itu, line: line_no }),
    };
    if parts.len() < 5 {
        return Err(CtyError::MalformedRecord { line: line_no });
    }
    let f4 = trim_span(t, parts[4].0, parts[4].1);
    if !is_float_chars(&slice_chars(t, f4.0, f4.1)) {
        return Err(CtyError::FieldFormat { field: Field::Latitude, line: line_no });
    }
    if parts.len() < 6 {
        return Err(CtyError::MalformedRecord { line: line_no });
    }
    let f5 = trim_span(t, parts[5].0, parts[5].1);
    if !is_float_chars(&slice_chars(t, f5.0, f5.1)) {
        return Err(CtyError::FieldFormat { field: Field::Longitude, line: line_no });
    }
    if parts.len() < 8 {
        return Err(CtyError::MalformedRecord { line: line_no });
    }
    let f0 = trim_span(t, parts[0].0, parts[0].1);
    let f3 = trim_span(t, parts[3].0, parts[3].1);
    let f7 = trim_span(t, parts[7].0, parts[7].1);
    let pre = slice_chars(t, f7.0, f7.1);
    let stars = skip_char_exec(&pre, '*', 0);
    assert(pre@.skip(stars as int) =~= line@.subrange(f7.0 + stars, f7.1 as int));
    Ok(
        Entity {
            name: String::from_str(line.substring_char(f0.0, f0.1)),
            cq,
            itu,
            continent: String::from_str(line.substring_char(f3.0, f3.1)),
            lat: String::from_str(line.substring_char(f4.0, f4.1)),
            lon: String::from_str(line.substring_char(f5.0, f5.1)),
            timezone: 0,
            prefix: String::from_str(line.substring_char(f7.0 + stars, f7.1)),
            waedc: f7.0 < f7.1 && t[f7.0] == '*',
            is_exact: false,
        },
    )
}

/// The alias line `line` (with characters `t`) over the entity `base`.
fn add_alias_line(
    m: &mut StringHashMap<Entity>,
    base: &Entity,
    line: &str,
    t: &Vec<char>,
    line_no: usize,
) -> (r: Result<(), CtyError>)
    requires
        t@ == line@,
    ensures
        match r {
            Ok(_) => add_aliases(
                view_table(old(m)@),
                base@,
                line@,
                split(line@, ',', strip_end(line@, ';', line@.len() as int)),
                0,
                line_no as int,
            ) == Ok::<Map<Seq<char>, EntityView>, CtyError>(view_table(final(m)@)),
            Err(x) => add_aliases(
                view_table(old(m)@),
                base@,
                line@,
                split(line@, ',', strip_end(line@, ';', line@.len() as int)),
                0,
                line_no as int,
            ) == Err::<Map<Seq<char>, EntityView>, CtyError>(x),
        },
{
    let mut end = t.len();
    while end > 0 && t[end - 1] == ';'
        invariant
            end <= t@.len(),
            strip_end(t@, ';', end as int) == strip_end(t@, ';', t@.len() as int),
        decreases end,
    {
        end -= 1;
    }
    let parts = split_spans(t, ',', end);
    let ghost sp = spans(parts@);
    let ghost m0 = view_table(m@);
    let mut k: usize = 0;
    while k < parts.len()
        invariant
            t@ == line@,
            end <= t@.len(),
            sp == spans(parts@),
            sp == split(t@, ',', strip_end(t@, ';', t@.len() as int)),
            forall|j: int| 0 <= j < parts@.len() ==> #[trigger] parts@[j].0 <= parts@[j].1 <= end,
            k <= parts@.len(),
            m0 == view_table(old(m)@),
            add_aliases(view_table(m@), base@, line@, sp, k as int, line_no as int) == add_aliases(
                m0,
                base@,
                line@,
                sp,
                0,
                line_no as int,
            ),
        decreases parts@.len() - k,
    {
        let (a, b) = trim_span(t, parts[k].0, parts[k].1);
        assert(sp[k as int] == (parts@[k as int].0 as int, parts@[k as int].1 as int));
        if a < b {
            let tok = line.substring_char(a, b);
            match decode_alias(base, tok, line_no, k) {
                Ok((key, e)) => insert_entity(m, key, e),
                Err(x) => return Err(x),
            }
        }
        k += 1;
    }
    Ok(())
}

impl Cty {
    /// Builds the table from the lines of a country file, in order: each
    /// record line inserts its entity under its prefix and becomes the base
    /// of the alias lines after it; each alias of an alias line inserts the
    /// base entity with its overrides under its key. A later entry replaces
    /// an earlier one under the same key. The first bad line ends the load.
    pub fn load(lines: &Vec<String>) -> (r: Result<Cty, CtyError>)
        ensures
            match r {
                Ok(c) => load_spec(lines_view(lines@)) == Ok::<
                    Map<Seq<char>, EntityView>,
                    CtyError,
                >(c@),
                Err(x) => load_spec(lines_view(lines@)) == Err::<
                    Map<Seq<char>, EntityView>,
                    CtyError,
                >(x),
            },
    {
        let mut m: StringHashMap<Entity> = StringHashMap::new();
        let mut base = Entity::blank();
        let ghost ls = lines_view(lines@);
        assert(view_table(m@) =~= Map::empty());
        let mut i: usize = 0;
        while i < lines.len()
            invariant
                ls == lines_view(lines@),
                i <= lines@.len(),
                load_from(view_table(m@), base@, ls, i as int) == load_spec(ls),
            decreases lines@.len() - i,
        {
            let line: &str = lines[i].as_str();
            assert(ls[i as int] == line@);
            let t = chars_of(line);
            let parts = split_spans(&t, ':', t.len());
            if parts.len() > 2 {
                match parse_record(line, &t, &parts, i) {
                    Ok(e) => {
                        let key = e.prefix.clone();
                        insert_entity(&mut m, key, e.copy());
                        base = e;
                    },
                    Err(x) => return Err(x),
                }
            } else {
                match add_alias_line(&mut m, &base, line, &t, i) {
                    Ok(_) => {},
                    Err(x) => return Err(x),
                }
            }
            i += 1;
        }
        Ok(Cty { entities: m })
    }

    /// The entity for `callsign`: the entry under the whole callsign if it
    /// is exact, else the entry under its longest prefix that is a key.
    pub fn lookup(&self, callsign: &str) -> (r: Option<&Entity>)
        ensures
            match r {
                Some(e) => lookup_spec(self@, callsign@) == Some(e@),
                None => lookup_spec(self@, callsign@) is None,
            },
    {
        match self.entities.get(callsign) {
            Some(e) => {
                if e.is_exact {
                    return Some(e);
                }
            },
            None => {},
        }
        let n = callsign.unicode_len();
        let mut i = n;
        while i > 0
            invariant
                i <= n == callsign@.len(),
                lookup_spec(self@, callsign@) == longest_prefix(self@, callsign@, n as int),
                longest_prefix(self@, callsign@, i as int) == longest_prefix(
                    self@,
                    callsign@,
                    n as int,
                ),
            decreases i,
        {
            let sub = callsign.substring_char(0, i);
            assert(sub@ == callsign@.take(i as int));
            match self.entities.get(sub) {
                Some(e) => return Some(e),
                None => {},
            }
            i -= 1;
        }
        None
    }

    /// The entry stored under exactly `key`, if any.
    pub fn get(&self, key: &str) -> (r: Option<&Entity>)
        ensures
            match r {
                Some(e) => self@.contains_key(key@) && e@ == self@[key@],
                None => !self@.contains_key(key@),
            },
    {
        self.entities.get(key)
    }

    /// The number of keys in the table.
    pub fn len(&self) -> (r: usize)
        ensures
            r == self@.len(),
    {
        assert(self@.dom() =~= self.entities@.dom());
        self.entities.len()
    }
}

} // verus!
