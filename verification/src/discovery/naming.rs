//! From the name of a database to its port and its source.

use vstd::prelude::*;

use crate::text::{
    capped, chars_of, decimal, ends_with, law_decimal_round_trip, parse_u16, parse_u32, same_text, starts_with, text_of,
    unsigned_number,
};

verus! {

/// What the name of a regional database starts with.
pub const REGION_PREFIX: &'static str = "bitcraft-live-";

/// The database of the whole world.
pub const GLOBAL_DATABASE: &'static str = "bitcraft-live-global";

/// What the names of other global databases end with.
pub const GLOBAL_SUFFIX: &'static str = "-global";

/// The source of the whole world.
pub const GLOBAL_SOURCE: &'static str = "global";

/// The port of the whole world; the port of a region follows by its number.
pub const FIRST_PORT: u16 = 3000;

/// Whether a text starts with another.
pub open spec fn has_prefix(s: Seq<char>, prefix: Seq<char>) -> bool {
    prefix.len() <= s.len() && s.take(prefix.len() as int) == prefix
}

/// Whether a text ends with another.
pub open spec fn has_suffix(s: Seq<char>, suffix: Seq<char>) -> bool {
    suffix.len() <= s.len() && s.skip(s.len() - suffix.len()) == suffix
}

/// The number behind the prefix of a regional database, if it is at most
/// `max`.
pub open spec fn number_in_name(database: Seq<char>, max: int) -> Option<nat> {
    if has_prefix(database, REGION_PREFIX@) {
        capped(unsigned_number(database.skip(REGION_PREFIX@.len() as int)), max)
    } else {
        None
    }
}

/// The region behind the name of a database.
pub open spec fn region_in_name(database: Seq<char>) -> Option<u32> {
    match number_in_name(database, u32::MAX as int) {
        Some(v) => Some(v as u32),
        None => None,
    }
}

/// Whether a database is global.
pub open spec fn is_global(database: Seq<char>) -> bool {
    database == GLOBAL_DATABASE@ || has_suffix(database, GLOBAL_SUFFIX@)
}

/// The port of a database.
pub open spec fn port_of(database: Seq<char>) -> int {
    if is_global(database) {
        FIRST_PORT as int
    } else {
        match number_in_name(database, u16::MAX as int) {
            Some(n) => FIRST_PORT + n,
            None => FIRST_PORT as int,
        }
    }
}

/// What follows the prefix of a regional database.
fn behind_prefix<'a>(chars: &'a [char]) -> (r: Option<&'a [char]>)
    ensures
        match r {
            Some(s) => has_prefix(chars@, REGION_PREFIX@) && s@ == chars@.skip(REGION_PREFIX@.len() as int),
            None => !has_prefix(chars@, REGION_PREFIX@),
        },
{
    let prefix = chars_of(REGION_PREFIX);
    if !starts_with(chars, prefix.as_slice()) {
        return None;
    }
    let rest = vstd::slice::slice_subrange(chars, prefix.len(), chars.len());
    assert(rest@ =~= chars@.skip(prefix@.len() as int));
    Some(rest)
}

/// The region behind the name of a database: 14 behind `bitcraft-live-14`.
pub fn parse_region_number(name: &str) -> (r: Option<u32>)
    ensures
        r == region_in_name(name@),
{
    let chars = chars_of(name);
    match behind_prefix(chars.as_slice()) {
        Some(rest) => parse_u32(rest),
        None => None,
    }
}

/// The port at which a database is offered, if there is a port of that number.
pub fn port_for_database(database: &str) -> (r: Option<u16>)
    ensures
        match r {
            Some(p) => p == port_of(database@),
            None => port_of(database@) > u16::MAX,
        },
{
    let chars = chars_of(database);
    if same_text(database, GLOBAL_DATABASE) || ends_with(chars.as_slice(), chars_of(GLOBAL_SUFFIX).as_slice()) {
        return Some(FIRST_PORT);
    }
    match behind_prefix(chars.as_slice()) {
        Some(rest) => match parse_u16(rest) {
            Some(id) => if id > u16::MAX - FIRST_PORT {
                None
            } else {
                Some(FIRST_PORT + id)
            },
            None => Some(FIRST_PORT),
        },
        None => Some(FIRST_PORT),
    }
}

/// The port at which a database is offered: 3000 for the whole world, 3000
/// plus its number for a region.
pub fn public_port_for_database(database: &str) -> (r: u16)
    requires
        port_of(database@) <= u16::MAX,
    ensures
        r == port_of(database@),
{
    match port_for_database(database) {
        Some(p) => p,
        None => FIRST_PORT,
    }
}

/// The source of a database.
pub open spec fn source_of(database: Seq<char>) -> Seq<char> {
    if database == GLOBAL_DATABASE@ {
        GLOBAL_SOURCE@
    } else {
        database
    }
}

/// The source of a database: `global` for the whole world, else the name of
/// the database.
pub fn source_name_for_database(database: &str) -> (r: String)
    ensures
        r@ == source_of(database@),
{
    if same_text(database, GLOBAL_DATABASE) {
        text_of(chars_of(GLOBAL_SOURCE).as_slice())
    } else {
        text_of(chars_of(database).as_slice())
    }
}

/// Two regions have two ports, and neither has that of the whole world, but
/// for region 0.
pub proof fn law_ports_are_distinct(a: Seq<char>, b: Seq<char>)
    requires
        !is_global(a),
        !is_global(b),
        number_in_name(a, u16::MAX as int) is Some,
        number_in_name(b, u16::MAX as int) is Some,
    ensures
        port_of(a) == port_of(b) ==> region_in_name(a) == region_in_name(b),
        port_of(a) == port_of(GLOBAL_DATABASE@) ==> region_in_name(a) == Some(0u32),
{
}

/// A region is named by its number behind `bitcraft-live-`, and its port is 3000
/// plus that number. The whole world is at port 3000 and has the source `global`.
pub proof fn law_regions_are_named_by_number(n: nat)
    ensures
        n <= 0xffff_ffff ==> region_in_name("bitcraft-live-"@ + decimal(n)) == Some(n as u32),
        n <= 0xffff ==> port_of("bitcraft-live-"@ + decimal(n)) == 3000 + n,
        source_of("bitcraft-live-"@ + decimal(n)) == "bitcraft-live-"@ + decimal(n),
        port_of("bitcraft-live-global"@) == 3000,
        source_of("bitcraft-live-global"@) == "global"@,
        region_in_name("global"@) is None,
{
    let name = "bitcraft-live-"@ + decimal(n);
    law_decimal_round_trip(n);
    reveal_strlit("bitcraft-live-");
    reveal_strlit("bitcraft-live-global");
    reveal_strlit("-global");
    reveal_strlit("global");
    assert(name.take(14) =~= REGION_PREFIX@);
    assert(name.skip(14) =~= decimal(n));
    let last = decimal(n).len() - 1;
    assert(name.last() == decimal(n)[last]);
    assert(name.last() != 'l');
    assert(GLOBAL_DATABASE@.last() == 'l');
    if has_suffix(name, GLOBAL_SUFFIX@) {
        assert(name.skip(name.len() - 7)[6] == GLOBAL_SUFFIX@[6]);
    }
}

} // verus!
