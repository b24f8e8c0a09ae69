//! Entity records, their mathematical view, and load errors.
use vstd::prelude::*;

verus! {

/// One entity as seen under one key of the table.
///
/// Coordinates are kept as the number text of the file, in the forms that
/// `f32::from_str` accepts; the offset from UTC is a number of seconds.
#[derive(Debug)]
pub struct Entity {
    pub name: String,
    pub cq: u32,
    pub itu: u32,
    pub continent: String,
    pub lat: String,
    pub lon: String,
    pub timezone: i32,
    pub prefix: String,
    pub waedc: bool,
    pub is_exact: bool,
}

pub struct EntityView {
    pub name: Seq<char>,
    pub cq: u32,
    pub itu: u32,
    pub continent: Seq<char>,
    pub lat: Seq<char>,
    pub lon: Seq<char>,
    pub timezone: i32,
    pub prefix: Seq<char>,
    pub waedc: bool,
    pub is_exact: bool,
}

impl View for Entity {
    type V = EntityView;

    open spec fn view(&self) -> EntityView {
        EntityView {
            name: self.name@,
            cq: self.cq,
            itu: self.itu,
            continent: self.continent@,
            lat: self.lat@,
            lon: self.lon@,
            timezone: self.timezone,
            prefix: self.prefix@,
            waedc: self.waedc,
            is_exact: self.is_exact,
        }
    }
}

/// The entity that alias lines extend before any record line was read.
pub open spec fn blank_entity() -> EntityView {
    EntityView {
        name: Seq::empty(),
        cq: 0,
        itu: 0,
        continent: Seq::empty(),
        lat: seq!['0'],
        lon: seq!['0'],
        timezone: 0,
        prefix: Seq::empty(),
        waedc: false,
        is_exact: false,
    }
}

impl Entity {
    pub fn blank() -> (r: Entity)
        ensures
            r@ == blank_entity(),
    {
        let r = Entity {
            name: String::new(),
            cq: 0,
            itu: 0,
            continent: String::new(),
            lat: String::from_str("0"),
            lon: String::from_str("0"),
            timezone: 0,
            prefix: String::new(),
            waedc: false,
            is_exact: false,
        };
        proof {
            reveal_strlit("0");
        }
        assert(r@.lat =~= seq!['0']);
        r
    }

    /// A field-by-field copy.
    pub fn copy(&self) -> (r: Entity)
        ensures
            r@ == self@,
    {
        Entity {
            name: self.name.clone(),
            cq: self.cq,
            itu: self.itu,
            continent: self.continent.clone(),
            lat: self.lat.clone(),
            lon: self.lon.clone(),
            timezone: self.timezone,
            prefix: self.prefix.clone(),
            waedc: self.waedc,
            is_exact: self.is_exact,
        }
    }
}

impl Default for Entity {
    fn default() -> (r: Entity)
        ensures
            r@ == blank_entity(),
    {
        Entity::blank()
    }
}

impl Clone for Entity {
    fn clone(&self) -> (r: Entity)
        ensures
            r@ == self@,
    {
        self.copy()
    }
}

/// A numeric field of a record line.
#[derive(Debug, Clone, Copy, PartialEq, Eq, Structural)]
pub enum Field {
    Cq,
    Itu,
    Latitude,
    Longitude,
}

/// An override annotation of an alias.
#[derive(Debug, Clone, Copy, PartialEq, Eq, Structural)]
pub enum Annotation {
    Cq,
    Itu,
    Latitude,
    Longitude,
    Timezone,
}

/// Why a load failed; `line` counts lines from 0, and `token` counts the
/// comma-separated pieces of an alias line from 0.
#[derive(Debug, Clone, Copy, PartialEq, Eq, Structural)]
pub enum CtyError {
    /// A record line with fewer than eight fields.
    MalformedRecord { line: usize },
    /// A numeric field of a record line that does not parse.
    FieldFormat { field: Field, line: usize },
    /// An override of an alias whose value does not parse.
    OverrideFormat { annotation: Annotation, line: usize, token: usize },
    /// An offset override of more than a day either way.
    InvalidTimezone { line: usize, token: usize },
}

/// Relies on chrono's `FixedOffset::east_opt`, which accepts an offset
/// strictly between minus and plus one day, and `local_minus_utc`, which
/// gives it back.
#[verifier::external_body]
pub(crate) fn fixed_offset(secs: i32) -> (r: Option<i32>)
    ensures
        r == (if -86400 < secs < 86400 {
            Some(secs)
        } else {
            None
        }),
{
    match chrono::FixedOffset::east_opt(secs) {
        Some(o) => Some(o.local_minus_utc()),
        None => None,
    }
}

} // verus!
