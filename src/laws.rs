//! Properties of loading and lookup, proved over the models of `table`.
use vstd::prelude::*;
use crate::alias::{
    decode_alias_spec, digits_end, find_char, find_number, find_opener, rfind_char, skip_char,
};
use crate::entity::{CtyError, EntityView, Field};
use crate::table::{
    add_aliases, field, is_record_line, load_from, load_line, load_spec, longest_prefix,
    lookup_spec, parse_record_spec,
};
use crate::text::{parse_u32, split};

verus! {

/// Looking up a key of the table gives the entry stored under it.
pub proof fn lookup_finds_every_key(m: Map<Seq<char>, EntityView>, k: Seq<char>)
    requires
        m.contains_key(k),
        k.len() > 0,
    ensures
        lookup_spec(m, k) == Some(m[k]),
{
    assert(k.take(k.len() as int) =~= k);
}

/// An exact entry under the whole callsign wins over any prefix.
pub proof fn exact_entry_wins(m: Map<Seq<char>, EntityView>, c: Seq<char>)
    requires
        m.contains_key(c),
        m[c].is_exact,
    ensures
        lookup_spec(m, c) == Some(m[c]),
{
}

proof fn longest_prefix_reaches(m: Map<Seq<char>, EntityView>, c: Seq<char>, i: int, n: int)
    requires
        1 <= n <= i <= c.len(),
        m.contains_key(c.take(n)),
        forall|j: int| n < j <= c.len() ==> !m.contains_key(#[trigger] c.take(j)),
    ensures
        longest_prefix(m, c, i) == Some(m[c.take(n)]),
    decreases i,
{
    if i > n {
        longest_prefix_reaches(m, c, i - 1, n);
    }
}

/// When the longest prefix of `c` that is a key has length `n`, lookup
/// gives its entry, whatever shorter prefixes are keys and whether or not
/// that entry is exact.
pub proof fn lookup_takes_longest_prefix(m: Map<Seq<char>, EntityView>, c: Seq<char>, n: int)
    requires
        1 <= n <= c.len(),
        m.contains_key(c.take(n)),
        forall|j: int| n < j <= c.len() ==> !m.contains_key(#[trigger] c.take(j)),
    ensures
        lookup_spec(m, c) == Some(m[c.take(n)]),
{
    assert(c.take(c.len() as int) =~= c);
    longest_prefix_reaches(m, c, c.len() as int, n);
}

proof fn longest_prefix_none(m: Map<Seq<char>, EntityView>, c: Seq<char>, i: int)
    requires
        i <= c.len(),
        forall|j: int| 1 <= j <= c.len() ==> !m.contains_key(#[trigger] c.take(j)),
    ensures
        longest_prefix(m, c, i) is None,
    decreases i,
{
    if i > 0 {
        longest_prefix_none(m, c, i - 1);
    }
}

/// A callsign none of whose non-empty prefixes is a key has no entity.
pub proof fn lookup_without_prefix_is_none(m: Map<Seq<char>, EntityView>, c: Seq<char>)
    requires
        c.len() > 0,
        forall|j: int| 1 <= j <= c.len() ==> !m.contains_key(#[trigger] c.take(j)),
    ensures
        lookup_spec(m, c) is None,
{
    assert(c.take(c.len() as int) =~= c);
    longest_prefix_none(m, c, c.len() as int);
}

proof fn aliases_keep_keys(
    m0: Map<Seq<char>, EntityView>,
    base: EntityView,
    s: Seq<char>,
    parts: Seq<(int, int)>,
    k: int,
    line: int,
    key: Seq<char>,
)
    requires
        add_aliases(m0, base, s, parts, k, line) is Ok,
        m0.contains_key(key),
    ensures
        add_aliases(m0, base, s, parts, k, line)->Ok_0.contains_key(key),
    decreases parts.len() - k,
{
    if 0 <= k < parts.len() {
        let t = crate::text::trimmed(s, parts[k]);
        if t.len() == 0 {
            aliases_keep_keys(m0, base, s, parts, k + 1, line, key);
        } else {
            match decode_alias_spec(base, t, line, k) {
                Err(x) => {},
                Ok(kv) => aliases_keep_keys(m0.insert(kv.0, kv.1), base, s, parts, k + 1, line, key),
            }
        }
    }
}

proof fn load_keeps_keys(
    m0: Map<Seq<char>, EntityView>,
    base: EntityView,
    lines: Seq<Seq<char>>,
    i: int,
    key: Seq<char>,
)
    requires
        load_from(m0, base, lines, i) is Ok,
        m0.contains_key(key),
    ensures
        load_from(m0, base, lines, i)->Ok_0.contains_key(key),
    decreases lines.len() - i,
{
    if 0 <= i < lines.len() {
        let s = lines[i];
        if !is_record_line(s) {
            aliases_keep_keys(
                m0,
                base,
                s,
                split(s, ',', crate::table::strip_end(s, ';', s.len() as int)),
                0,
                i,
                key,
            );
        }
        match load_line(m0, base, s, i) {
            Err(x) => {},
            Ok(st) => load_keeps_keys(st.0, st.1, lines, i + 1, key),
        }
    }
}

proof fn load_reaches_record(
    m0: Map<Seq<char>, EntityView>,
    base: EntityView,
    lines: Seq<Seq<char>>,
    j: int,
    i: int,
)
    requires
        0 <= j <= i < lines.len(),
        is_record_line(lines[i]),
        load_from(m0, base, lines, j) is Ok,
    ensures
        parse_record_spec(lines[i], i) is Ok,
        load_from(m0, base, lines, j)->Ok_0.contains_key(parse_record_spec(lines[i], i)->Ok_0.prefix),
    decreases i - j,
{
    match load_line(m0, base, lines[j], j) {
        Err(x) => {},
        Ok(st) => {
            if j == i {
                let e = parse_record_spec(lines[i], i)->Ok_0;
                load_keeps_keys(st.0, st.1, lines, i + 1, e.prefix);
            } else {
                load_reaches_record(st.0, st.1, lines, j + 1, i);
            }
        },
    }
}

/// A load that succeeds on a file with a record line gives a non-empty
/// table: the record's prefix is one of its keys.
pub proof fn load_with_record_is_nonempty(lines: Seq<Seq<char>>, i: int)
    requires
        0 <= i < lines.len(),
        is_record_line(lines[i]),
        load_spec(lines) is Ok,
    ensures
        parse_record_spec(lines[i], i) is Ok,
        load_spec(lines)->Ok_0.contains_key(parse_record_spec(lines[i], i)->Ok_0.prefix),
{
    load_reaches_record(Map::empty(), crate::entity::blank_entity(), lines, 0, i);
}

proof fn load_stops_at_bad_line(
    m0: Map<Seq<char>, EntityView>,
    base: EntityView,
    lines: Seq<Seq<char>>,
    j: int,
    i: int,
)
    requires
        0 <= j <= i < lines.len(),
        is_record_line(lines[i]),
        parse_record_spec(lines[i], i) is Err,
    ensures
        load_from(m0, base, lines, j) is Err,
    decreases i - j,
{
    match load_line(m0, base, lines[j], j) {
        Err(x) => {},
        Ok(st) => {
            if j < i {
                load_stops_at_bad_line(st.0, st.1, lines, j + 1, i);
            }
        },
    }
}

/// A record line whose CQ zone is not a number fails with a field-format
/// error, however many fields follow, and the load of any file that holds
/// it fails.
pub proof fn bad_zone_fails_load(lines: Seq<Seq<char>>, i: int)
    requires
        0 <= i < lines.len(),
        is_record_line(lines[i]),
        parse_u32(field(lines[i], split(lines[i], ':', lines[i].len() as int), 1)) is None,
    ensures
        parse_record_spec(lines[i], i) == Err::<EntityView, CtyError>(
            CtyError::FieldFormat { field: Field::Cq, line: i as usize },
        ),
        load_spec(lines) is Err,
{
    load_stops_at_bad_line(Map::empty(), crate::entity::blank_entity(), lines, 0, i);
}

/// The token `XY9(5)[10]{AS}<1.0/2.0>~8~` sets the CQ zone, ITU zone,
/// continent, coordinates and offset over any base entity, under the key
/// `XY9`, and keeps the base's name, prefix and WAEDC mark.
pub proof fn full_override_token(base: EntityView, line: int, index: int)
    ensures
        decode_alias_spec(
            base,
            seq!['X', 'Y', '9', '(', '5', ')', '[', '1', '0', ']', '{', 'A', 'S', '}', '<', '1', '.', '0', '/', '2', '.', '0', '>', '~', '8', '~'],
            line,
            index,
        ) == Ok::<(Seq<char>, EntityView), CtyError>(
            (
                seq!['X', 'Y', '9'],
                EntityView {
                    name: base.name,
                    cq: 5,
                    itu: 10,
                    continent: seq!['A', 'S'],
                    lat: seq!['1', '.', '0'],
                    lon: seq!['2', '.', '0'],
                    timezone: 28800,
                    prefix: base.prefix,
                    waedc: base.waedc,
                    is_exact: false,
                },
            ),
        ),
{
    let t = seq!['X', 'Y', '9', '(', '5', ')', '[', '1', '0', ']', '{', 'A', 'S', '}', '<', '1', '.', '0', '/', '2', '.', '0', '>', '~', '8', '~'];
    reveal_with_fuel(find_opener, 5);
    reveal_with_fuel(find_char, 25);
    reveal_with_fuel(rfind_char, 15);
    reveal_with_fuel(find_number, 5);
    reveal_with_fuel(digits_end, 4);
    reveal_with_fuel(crate::text::num_value, 3);
    reveal_with_fuel(crate::text::exp_pos, 4);
    assert(skip_char(t, '=', 0) == 0);
    assert(find_opener(t, 0) == 3);
    assert(digits_end(t, 4) == 5);
    assert(find_number(t, '(', ')', 3) == Some((4int, 5int)));
    assert(digits_end(t, 7) == 9);
    assert(find_number(t, '[', ']', 3) == Some((7int, 9int)));
    assert(rfind_char(t, '>', 26) == 22);
    assert(rfind_char(t, '/', 22) == 18);
    assert(find_char(t, '<', 3) == 14);
    assert(rfind_char(t, '}', 26) == 13);
    assert(find_char(t, '{', 3) == 10);
    assert(rfind_char(t, '~', 26) == 25);
    assert(find_char(t, '~', 3) == 23);
    assert(t.subrange(4, 5) =~= seq!['5']);
    assert(t.subrange(7, 9) =~= seq!['1', '0']);
    assert(t.subrange(7, 9).drop_last() =~= seq!['1']);
    assert(parse_u32(t.subrange(4, 5)) == Some(5u32));
    assert(parse_u32(t.subrange(7, 9)) == Some(10u32));
    assert(t.subrange(24, 25) =~= seq!['8']);
    assert(crate::text::parse_i32(t.subrange(24, 25)) == Some(8i32));
    assert(t.subrange(15, 18) =~= seq!['1', '.', '0']);
    assert(t.subrange(19, 22) =~= seq!['2', '.', '0']);
    assert(t.subrange(11, 13) =~= seq!['A', 'S']);
    assert(t.subrange(0, 3) =~= seq!['X', 'Y', '9']);
    assert(crate::text::is_float(seq!['1', '.', '0'])) by {
        let b = seq!['1', '.', '0'];
        assert(crate::text::sign_body(b) == b);
        assert(crate::text::is_digit(b[0]));
        assert(crate::text::exp_pos(b, 0) == 3);
        assert(b.take(3) =~= b);
    }
    assert(crate::text::is_float(seq!['2', '.', '0'])) by {
        let b = seq!['2', '.', '0'];
        assert(crate::text::sign_body(b) == b);
        assert(crate::text::is_digit(b[0]));
        assert(crate::text::exp_pos(b, 0) == 3);
        assert(b.take(3) =~= b);
    }
}

/// The key that the alias token `t` (trimmed, not empty) stands for.
pub open spec fn alias_key(t: Seq<char>) -> Seq<char> {
    let e = skip_char(t, '=', 0);
    t.subrange(e, find_opener(t, e))
}

/// The key under which the record line `s` stores its entity.
pub open spec fn record_key(s: Seq<char>) -> Seq<char> {
    let pre = field(s, split(s, ':', s.len() as int), 7);
    pre.skip(skip_char(pre, '*', 0))
}

/// The alias pieces `parts[k..]` of `s` name `key`.
pub open spec fn names_key(s: Seq<char>, parts: Seq<(int, int)>, k: int, key: Seq<char>) -> bool {
    exists|j: int|
        k <= j < parts.len() && crate::text::trimmed(s, #[trigger] parts[j]).len() > 0
            && alias_key(crate::text::trimmed(s, parts[j])) == key
}

/// Line `s` stores an entry under `key` (when it loads).
pub open spec fn line_names_key(s: Seq<char>, key: Seq<char>) -> bool {
    if is_record_line(s) {
        record_key(s) == key
    } else {
        names_key(
            s,
            split(s, ',', crate::table::strip_end(s, ';', s.len() as int)),
            0,
            key,
        )
    }
}

proof fn aliases_keep_entry(
    m0: Map<Seq<char>, EntityView>,
    base: EntityView,
    s: Seq<char>,
    parts: Seq<(int, int)>,
    k: int,
    line: int,
    key: Seq<char>,
)
    requires
        0 <= k,
        add_aliases(m0, base, s, parts, k, line) is Ok,
        m0.contains_key(key),
        !names_key(s, parts, k, key),
    ensures
        add_aliases(m0, base, s, parts, k, line)->Ok_0.contains_key(key),
        add_aliases(m0, base, s, parts, k, line)->Ok_0[key] == m0[key],
    decreases parts.len() - k,
{
    if k < parts.len() {
        let t = crate::text::trimmed(s, parts[k]);
        if t.len() == 0 {
            aliases_keep_entry(m0, base, s, parts, k + 1, line, key);
        } else {
            match decode_alias_spec(base, t, line, k) {
                Err(x) => {},
                Ok(kv) => {
                    assert(kv.0 == alias_key(t));
                    assert(kv.0 != key);
                    aliases_keep_entry(m0.insert(kv.0, kv.1), base, s, parts, k + 1, line, key);
                },
            }
        }
    }
}

proof fn load_keeps_entry(
    m0: Map<Seq<char>, EntityView>,
    base: EntityView,
    lines: Seq<Seq<char>>,
    i: int,
    key: Seq<char>,
)
    requires
        0 <= i,
        load_from(m0, base, lines, i) is Ok,
        m0.contains_key(key),
        forall|j: int| i <= j < lines.len() ==> !line_names_key(#[trigger] lines[j], key),
    ensures
        load_from(m0, base, lines, i)->Ok_0.contains_key(key),
        load_from(m0, base, lines, i)->Ok_0[key] == m0[key],
    decreases lines.len() - i,
{
    if i < lines.len() {
        let s = lines[i];
        assert(!line_names_key(s, key));
        if !is_record_line(s) {
            aliases_keep_entry(
                m0,
                base,
                s,
                split(s, ',', crate::table::strip_end(s, ';', s.len() as int)),
                0,
                i,
                key,
            );
        }
        match load_line(m0, base, s, i) {
            Err(x) => {},
            Ok(st) => load_keeps_entry(st.0, st.1, lines, i + 1, key),
        }
    }
}

proof fn load_reaches_last_record(
    m0: Map<Seq<char>, EntityView>,
    base: EntityView,
    lines: Seq<Seq<char>>,
    j: int,
    i: int,
)
    requires
        0 <= j <= i < lines.len(),
        is_record_line(lines[i]),
        load_from(m0, base, lines, j) is Ok,
        forall|l: int| i < l < lines.len() ==> !line_names_key(#[trigger] lines[l], record_key(lines[i])),
    ensures
        parse_record_spec(lines[i], i) is Ok,
        load_from(m0, base, lines, j)->Ok_0[record_key(lines[i])] == parse_record_spec(lines[i], i)->Ok_0,
    decreases i - j,
{
    match load_line(m0, base, lines[j], j) {
        Err(x) => {},
        Ok(st) => {
            if j == i {
                let e = parse_record_spec(lines[i], i)->Ok_0;
                assert(e.prefix == record_key(lines[i]));
                load_keeps_entry(st.0, st.1, lines, i + 1, e.prefix);
            } else {
                load_reaches_last_record(st.0, st.1, lines, j + 1, i);
            }
        },
    }
}

/// A later entry replaces an earlier one: after a successful load, the key
/// of a record line holds that record's entity when no later line stores
/// an entry under the same key.
pub proof fn last_record_wins(lines: Seq<Seq<char>>, i: int)
    requires
        0 <= i < lines.len(),
        is_record_line(lines[i]),
        load_spec(lines) is Ok,
        forall|l: int| i < l < lines.len() ==> !line_names_key(#[trigger] lines[l], record_key(lines[i])),
    ensures
        parse_record_spec(lines[i], i) is Ok,
        load_spec(lines)->Ok_0[record_key(lines[i])] == parse_record_spec(lines[i], i)->Ok_0,
{
    load_reaches_last_record(Map::empty(), crate::entity::blank_entity(), lines, 0, i);
}

proof fn skip_char_from(t: Seq<char>, c: char, i: int)
    ensures
        skip_char(t, c, i) >= i,
    decreases t.len() - i,
{
    if 0 <= i < t.len() && t[i] == c {
        skip_char_from(t, c, i + 1);
    }
}

/// Decoding an alias token over `base` keeps the base's name, prefix and
/// WAEDC mark, makes the entry exact exactly when the token starts with
/// `=`, and changes each other field only where the token holds that
/// field's override, to the override's value.
pub proof fn overrides_change_only_their_fields(base: EntityView, t: Seq<char>, line: int, index: int)
    requires
        decode_alias_spec(base, t, line, index) is Ok,
    ensures
        ({
            let e = decode_alias_spec(base, t, line, index)->Ok_0.1;
            let p = find_opener(t, skip_char(t, '=', 0));
            let cq = find_number(t, '(', ')', p);
            let itu = find_number(t, '[', ']', p);
            let coords = crate::alias::find_coords(t, p);
            let cont = crate::alias::find_enclosed(t, '{', '}', p);
            let tz = crate::alias::find_enclosed(t, '~', '~', p);
            &&& e.name == base.name && e.prefix == base.prefix && e.waedc == base.waedc
            &&& e.is_exact == (t.len() > 0 && t[0] == '=')
            &&& cq is None ==> e.cq == base.cq
            &&& cq is Some ==> parse_u32(t.subrange(cq->Some_0.0, cq->Some_0.1)) == Some(e.cq)
            &&& itu is None ==> e.itu == base.itu
            &&& itu is Some ==> parse_u32(t.subrange(itu->Some_0.0, itu->Some_0.1)) == Some(e.itu)
            &&& coords is None ==> e.lat == base.lat && e.lon == base.lon
            &&& coords is Some ==> e.lat == t.subrange(coords->Some_0.0, coords->Some_0.1) && e.lon
                == t.subrange(coords->Some_0.1 + 1, coords->Some_0.2)
            &&& cont is None ==> e.continent == base.continent
            &&& cont is Some ==> e.continent == t.subrange(cont->Some_0.0, cont->Some_0.1)
            &&& tz is None ==> e.timezone == base.timezone
            &&& tz is Some ==> crate::text::parse_i32(t.subrange(tz->Some_0.0, tz->Some_0.1))
                is Some && e.timezone == crate::text::parse_i32(
                t.subrange(tz->Some_0.0, tz->Some_0.1),
            )->Some_0 * 3600
        }),
{
    skip_char_from(t, '=', 1);
}

/// The pieces of the alias line `s`, split at `,` once trailing `;`s are
/// dropped.
pub open spec fn alias_pieces(s: Seq<char>) -> Seq<(int, int)> {
    split(s, ',', crate::table::strip_end(s, ';', s.len() as int))
}

/// The base entity in force for line `i`: that of the last record line
/// before it, or the blank entity.
pub open spec fn base_at(lines: Seq<Seq<char>>, i: int) -> EntityView
    decreases i,
{
    if i <= 0 || i > lines.len() {
        crate::entity::blank_entity()
    } else if is_record_line(lines[i - 1]) && parse_record_spec(lines[i - 1], i - 1) is Ok {
        parse_record_spec(lines[i - 1], i - 1)->Ok_0
    } else {
        base_at(lines, i - 1)
    }
}

proof fn aliases_reach_piece(
    m0: Map<Seq<char>, EntityView>,
    base: EntityView,
    s: Seq<char>,
    parts: Seq<(int, int)>,
    j: int,
    k: int,
    line: int,
)
    requires
        0 <= j <= k < parts.len(),
        crate::text::trimmed(s, parts[k]).len() > 0,
        add_aliases(m0, base, s, parts, j, line) is Ok,
        !names_key(s, parts, k + 1, alias_key(crate::text::trimmed(s, parts[k]))),
    ensures
        decode_alias_spec(base, crate::text::trimmed(s, parts[k]), line, k) is Ok,
        add_aliases(m0, base, s, parts, j, line)->Ok_0.contains_key(
            alias_key(crate::text::trimmed(s, parts[k])),
        ),
        add_aliases(m0, base, s, parts, j, line)->Ok_0[alias_key(crate::text::trimmed(s, parts[k]))]
            == decode_alias_spec(base, crate::text::trimmed(s, parts[k]), line, k)->Ok_0.1,
    decreases k - j,
{
    let t = crate::text::trimmed(s, parts[j]);
    if t.len() == 0 {
        aliases_reach_piece(m0, base, s, parts, j + 1, k, line);
    } else {
        match decode_alias_spec(base, t, line, j) {
            Err(x) => {},
            Ok(kv) => {
                if j == k {
                    aliases_keep_entry(m0.insert(kv.0, kv.1), base, s, parts, k + 1, line, kv.0);
                } else {
                    aliases_reach_piece(m0.insert(kv.0, kv.1), base, s, parts, j + 1, k, line);
                }
            },
        }
    }
}

proof fn load_reaches_alias(
    m0: Map<Seq<char>, EntityView>,
    base: EntityView,
    lines: Seq<Seq<char>>,
    j: int,
    i: int,
    k: int,
)
    requires
        0 <= j <= i < lines.len(),
        base == base_at(lines, j),
        !is_record_line(lines[i]),
        0 <= k < alias_pieces(lines[i]).len(),
        crate::text::trimmed(lines[i], alias_pieces(lines[i])[k]).len() > 0,
        load_from(m0, base, lines, j) is Ok,
        !names_key(
            lines[i],
            alias_pieces(lines[i]),
            k + 1,
            alias_key(crate::text::trimmed(lines[i], alias_pieces(lines[i])[k])),
        ),
        forall|l: int|
            i < l < lines.len() ==> !line_names_key(
                #[trigger] lines[l],
                alias_key(crate::text::trimmed(lines[i], alias_pieces(lines[i])[k])),
            ),
    ensures
        decode_alias_spec(
            base_at(lines, i),
            crate::text::trimmed(lines[i], alias_pieces(lines[i])[k]),
            i,
            k,
        ) is Ok,
        load_from(m0, base, lines, j)->Ok_0.contains_key(
            alias_key(crate::text::trimmed(lines[i], alias_pieces(lines[i])[k])),
        ),
        load_from(m0, base, lines, j)->Ok_0[alias_key(
            crate::text::trimmed(lines[i], alias_pieces(lines[i])[k]),
        )] == decode_alias_spec(
            base_at(lines, i),
            crate::text::trimmed(lines[i], alias_pieces(lines[i])[k]),
            i,
            k,
        )->Ok_0.1,
    decreases i - j,
{
    let s = lines[j];
    match load_line(m0, base, s, j) {
        Err(x) => {},
        Ok(st) => {
            if j == i {
                let t = crate::text::trimmed(s, alias_pieces(s)[k]);
                aliases_reach_piece(m0, base, s, alias_pieces(s), 0, k, i);
                load_keeps_entry(st.0, st.1, lines, i + 1, alias_key(t));
            } else {
                assert(st.1 == base_at(lines, j + 1));
                load_reaches_alias(st.0, st.1, lines, j + 1, i, k);
            }
        },
    }
}

/// A later entry replaces an earlier one: after a successful load, the key
/// of alias piece `k` of alias line `i` holds that alias's entity, decoded
/// over the base entity in force there, when no later piece of the line and
/// no later line stores an entry under the same key.
pub proof fn last_alias_wins(lines: Seq<Seq<char>>, i: int, k: int)
    requires
        0 <= i < lines.len(),
        !is_record_line(lines[i]),
        0 <= k < alias_pieces(lines[i]).len(),
        crate::text::trimmed(lines[i], alias_pieces(lines[i])[k]).len() > 0,
        load_spec(lines) is Ok,
        !names_key(
            lines[i],
            alias_pieces(lines[i]),
            k + 1,
            alias_key(crate::text::trimmed(lines[i], alias_pieces(lines[i])[k])),
        ),
        forall|l: int|
            i < l < lines.len() ==> !line_names_key(
                #[trigger] lines[l],
                alias_key(crate::text::trimmed(lines[i], alias_pieces(lines[i])[k])),
            ),
    ensures
        decode_alias_spec(
            base_at(lines, i),
            crate::text::trimmed(lines[i], alias_pieces(lines[i])[k]),
            i,
            k,
        ) is Ok,
        load_spec(lines)->Ok_0.contains_key(
            alias_key(crate::text::trimmed(lines[i], alias_pieces(lines[i])[k])),
        ),
        load_spec(lines)->Ok_0[alias_key(crate::text::trimmed(lines[i], alias_pieces(lines[i])[k]))]
            == decode_alias_spec(
            base_at(lines, i),
            crate::text::trimmed(lines[i], alias_pieces(lines[i])[k]),
            i,
            k,
        )->Ok_0.1,
{
    load_reaches_alias(Map::empty(), crate::entity::blank_entity(), lines, 0, i, k);
}

} // verus!
