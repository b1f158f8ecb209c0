//! Cells of a decoded row, and what the row decoders read out of them.

use vstd::prelude::*;

use crate::hex_text::{bytes_of_hex, decode as decode_hex, is_hex};
use crate::json::{as_i32, as_int, get, i32_of, int_of, member, Json};
use crate::le_bytes::{from_le, read_le};
use crate::schema::{entry_error, error, error_at, plain_error, DecodeError, Problem};
use crate::text::{chars_of, same_text};

verus! {

/// A single-precision number by its bit pattern.
#[derive(Debug, Clone, Copy, PartialEq, Eq, Structural)]
pub struct Single {
    pub bits: u32,
}

/// One column of a decoded row. No column is ever read in double precision:
/// [`cell_f32`] rounds such a number to single precision. So it stands here as
/// the single-precision number that it is rounded to.
#[derive(Debug)]
pub enum Cell {
    Bool(Option<bool>),
    Smallint(Option<i16>),
    Integer(Option<i32>),
    Bigint(Option<i64>),
    Real(Option<Single>),
    DoublePrecision(Option<Single>),
    Text(Option<String>),
    Bytea(Option<Vec<u8>>),
    Jsonb(Json),
}

/// One slot of an inventory.
#[derive(Debug, Clone, Copy, PartialEq, Eq, Structural)]
pub struct Pocket {
    pub volume: i32,
    pub has_contents: bool,
    pub item_id: i32,
    pub quantity: i32,
    /// [`ITEM`] or [`CARGO`].
    pub item_type: u8,
    pub has_durability: bool,
    pub durability: i32,
}

/// Item type of things that fit a pocket.
pub const ITEM: u8 = 0;

/// Item type of cargo.
pub const CARGO: u8 = 1;

/// Storage log action: an item was reserved.
pub const ACTION_RESERVED: u8 = 0;

/// Storage log action: an item was taken out.
pub const ACTION_WITHDRAW: u8 = 1;

/// Storage log action: an item was put in.
pub const ACTION_DEPOSIT: u8 = 2;

/// One entry of a list of active buffs.
#[derive(Debug, Clone, PartialEq, Eq)]
pub struct BuffEntry {
    pub buff_id: i32,
    /// Unix seconds at which the buff started; 0 for a placeholder.
    pub start_timestamp: i32,
    /// Duration in seconds; 0 for a placeholder.
    pub duration: i32,
    pub values: Vec<Single>,
}

/// What [`BuffEntry`] holds.
#[verifier::ext_equal]
pub struct BuffModel {
    pub buff_id: i32,
    pub start_timestamp: i32,
    pub duration: i32,
    pub values: Seq<Single>,
}

impl View for BuffEntry {
    type V = BuffModel;

    open spec fn view(&self) -> BuffModel {
        BuffModel {
            buff_id: self.buff_id,
            start_timestamp: self.start_timestamp,
            duration: self.duration,
            values: self.values@,
        }
    }
}

/// Something that a recipe makes.
#[derive(Debug, Clone, Copy, PartialEq, Eq, Structural)]
pub struct CraftedItemStack {
    pub item_id: i32,
    pub quantity: i32,
    /// [`ITEM`] or [`CARGO`].
    pub item_type: u8,
}

/// What an item is carried by.
#[derive(Debug, Clone, Copy, PartialEq, Eq, Structural)]
pub enum DeployableKind {
    Cart,
    Cache,
    Mount,
    Boat,
    Other,
}

/// State of a passive craft.
#[derive(Debug, Clone, Copy, PartialEq, Eq, Structural)]
pub enum PassiveCraftStatus {
    Queued,
    Processing,
    Complete,
}

impl PassiveCraftStatus {
    pub fn is_complete(self) -> (r: bool)
        ensures
            r <==> self == PassiveCraftStatus::Complete,
    {
        matches!(self, PassiveCraftStatus::Complete)
    }
}

/// A list read entry by entry: the values of the first `n`, or the first
/// error.
pub open spec fn each<T>(arr: Seq<Json>, n: nat, f: spec_fn(int, Json) -> Result<T, DecodeError>) -> Result<
    Seq<T>,
    DecodeError,
>
    decreases n,
{
    if n == 0 {
        Ok(Seq::empty())
    } else {
        match each(arr, (n - 1) as nat, f) {
            Err(e) => Err(e),
            Ok(s) => match f(n - 1, arr[n - 1]) {
                Err(e) => Err(e),
                Ok(v) => Ok(s.push(v)),
            },
        }
    }
}

/// The first error stays.
pub proof fn lemma_each_stops<T>(arr: Seq<Json>, n: nat, m: nat, f: spec_fn(int, Json) -> Result<T, DecodeError>)
    requires
        n <= m,
        each(arr, n, f) is Err,
    ensures
        each(arr, m, f) == each(arr, n, f),
    decreases m,
{
    if n < m {
        lemma_each_stops(arr, n, (m - 1) as nat, f);
    }
}

/// The JSON value of a cell.
pub open spec fn json_in(cell: Cell, ctx: &'static str) -> Result<Json, DecodeError> {
    match cell {
        Cell::Jsonb(v) => Ok(v),
        _ => Err(plain_error(ctx, Problem::WrongType)),
    }
}

/// The list in a JSON cell.
pub open spec fn list_in(cell: Cell, ctx: &'static str) -> Result<Seq<Json>, DecodeError> {
    match json_in(cell, ctx) {
        Err(e) => Err(e),
        Ok(Json::Array(arr)) => Ok(arr@),
        Ok(_) => Err(plain_error(ctx, Problem::WrongType)),
    }
}

/// The object in a JSON cell.
pub open spec fn object_in(cell: Cell, ctx: &'static str) -> Result<Seq<(String, Json)>, DecodeError> {
    match json_in(cell, ctx) {
        Err(e) => Err(e),
        Ok(Json::Object(o)) => Ok(o@),
        Ok(_) => Err(plain_error(ctx, Problem::WrongType)),
    }
}

/// The JSON value of a cell.
pub fn cell_json<'a>(cell: &'a Cell, ctx: &'static str) -> (r: Result<&'a Json, DecodeError>)
    ensures
        match r {
            Ok(v) => json_in(*cell, ctx) == Ok::<Json, DecodeError>(*v),
            Err(e) => json_in(*cell, ctx) == Err::<Json, DecodeError>(e),
        },
{
    match cell {
        Cell::Jsonb(v) => Ok(v),
        _ => Err(error(ctx, Problem::WrongType)),
    }
}

/// The list in a JSON cell.
pub fn cell_list<'a>(cell: &'a Cell, ctx: &'static str) -> (r: Result<&'a [Json], DecodeError>)
    ensures
        match r {
            Ok(v) => list_in(*cell, ctx) == Ok::<Seq<Json>, DecodeError>(v@),
            Err(e) => list_in(*cell, ctx) == Err::<Seq<Json>, DecodeError>(e),
        },
{
    match cell {
        Cell::Jsonb(Json::Array(arr)) => Ok(arr.as_slice()),
        _ => Err(error(ctx, Problem::WrongType)),
    }
}

/// The object in a JSON cell.
pub fn cell_object<'a>(cell: &'a Cell, ctx: &'static str) -> (r: Result<&'a [(String, Json)], DecodeError>)
    ensures
        match r {
            Ok(v) => object_in(*cell, ctx) == Ok::<Seq<(String, Json)>, DecodeError>(v@),
            Err(e) => object_in(*cell, ctx) == Err::<Seq<(String, Json)>, DecodeError>(e),
        },
{
    match cell {
        Cell::Jsonb(Json::Object(o)) => Ok(o.as_slice()),
        _ => Err(error(ctx, Problem::WrongType)),
    }
}

/// A single-precision number.
pub open spec fn single_in(cell: Cell, ctx: &'static str) -> Result<Single, DecodeError> {
    match cell {
        Cell::Real(Some(n)) => Ok(n),
        Cell::Real(None) => Err(plain_error(ctx, Problem::Null)),
        Cell::DoublePrecision(Some(n)) => Ok(n),
        _ => Err(plain_error(ctx, Problem::WrongType)),
    }
}

/// A single-precision number.
pub fn cell_f32(cell: &Cell, ctx: &'static str) -> (r: Result<Single, DecodeError>)
    ensures
        r == single_in(*cell, ctx),
{
    match cell {
        Cell::Real(Some(n)) => Ok(*n),
        Cell::Real(None) => Err(error(ctx, Problem::Null)),
        Cell::DoublePrecision(Some(n)) => Ok(*n),
        _ => Err(error(ctx, Problem::WrongType)),
    }
}

/// The 64-bit number in eight bytes.
pub open spec fn u64_bytes(b: Seq<u8>, ctx: &'static str) -> Result<u64, DecodeError> {
    if b.len() == 8 {
        Ok(from_le(b) as u64)
    } else {
        Err(plain_error(ctx, Problem::BadLength))
    }
}

/// A 64-bit id, which a row carries as eight bytes.
pub open spec fn u64_in(cell: Cell, ctx: &'static str) -> Result<u64, DecodeError> {
    match cell {
        Cell::Bytea(Some(b)) => u64_bytes(b@, ctx),
        Cell::Bytea(None) => Err(plain_error(ctx, Problem::Null)),
        _ => Err(plain_error(ctx, Problem::WrongType)),
    }
}

/// The 64-bit number in eight bytes.
fn u64_of_bytes(b: &[u8], ctx: &'static str) -> (r: Result<u64, DecodeError>)
    ensures
        r == u64_bytes(b@, ctx),
{
    if b.len() != 8 {
        return Err(error(ctx, Problem::BadLength));
    }
    assert(b@.subrange(0, 8) =~= b@);
    match read_le(b, 0, 8) {
        Some(v) => Ok(v),
        None => Err(error(ctx, Problem::BadLength)),
    }
}

/// A 64-bit id.
pub fn cell_u64(cell: &Cell, ctx: &'static str) -> (r: Result<u64, DecodeError>)
    ensures
        r == u64_in(*cell, ctx),
{
    match cell {
        Cell::Bytea(Some(b)) => u64_of_bytes(b.as_slice(), ctx),
        Cell::Bytea(None) => Err(error(ctx, Problem::Null)),
        _ => Err(error(ctx, Problem::WrongType)),
    }
}

/// A signed 32-bit number.
pub open spec fn i32_in(cell: Cell, ctx: &'static str) -> Result<i32, DecodeError> {
    match cell {
        Cell::Integer(Some(n)) => Ok(n),
        _ => Err(plain_error(ctx, Problem::WrongType)),
    }
}

/// A signed 32-bit number.
pub fn cell_i32(cell: &Cell, ctx: &'static str) -> (r: Result<i32, DecodeError>)
    ensures
        r == i32_in(*cell, ctx),
{
    match cell {
        Cell::Integer(Some(n)) => Ok(*n),
        _ => Err(error(ctx, Problem::WrongType)),
    }
}

/// A signed 16-bit number.
pub open spec fn i16_in(cell: Cell, ctx: &'static str) -> Result<i16, DecodeError> {
    match cell {
        Cell::Smallint(Some(n)) => Ok(n),
        Cell::Smallint(None) => Err(plain_error(ctx, Problem::Null)),
        _ => Err(plain_error(ctx, Problem::WrongType)),
    }
}

/// A signed 16-bit number.
pub fn cell_i16(cell: &Cell, ctx: &'static str) -> (r: Result<i16, DecodeError>)
    ensures
        r == i16_in(*cell, ctx),
{
    match cell {
        Cell::Smallint(Some(n)) => Ok(*n),
        Cell::Smallint(None) => Err(error(ctx, Problem::Null)),
        _ => Err(error(ctx, Problem::WrongType)),
    }
}

/// An unsigned 32-bit number, which a row carries as a signed 64-bit one.
pub open spec fn u32_in(cell: Cell, ctx: &'static str) -> Result<u32, DecodeError> {
    match cell {
        Cell::Bigint(Some(n)) => if 0 <= n <= u32::MAX {
            Ok(n as u32)
        } else {
            Err(plain_error(ctx, Problem::OutOfRange))
        },
        _ => Err(plain_error(ctx, Problem::WrongType)),
    }
}

/// An unsigned 32-bit number.
pub fn cell_u32(cell: &Cell, ctx: &'static str) -> (r: Result<u32, DecodeError>)
    ensures
        r == u32_in(*cell, ctx),
{
    match cell {
        Cell::Bigint(Some(n)) => if 0 <= *n && *n <= u32::MAX as i64 {
            Ok(*n as u32)
        } else {
            Err(error(ctx, Problem::OutOfRange))
        },
        _ => Err(error(ctx, Problem::WrongType)),
    }
}

/// An unsigned 16-bit number, which a row carries as a signed 32-bit one.
pub open spec fn u16_in(cell: Cell, ctx: &'static str) -> Result<u16, DecodeError> {
    match cell {
        Cell::Integer(Some(n)) => if 0 <= n <= u16::MAX {
            Ok(n as u16)
        } else {
            Err(plain_error(ctx, Problem::OutOfRange))
        },
        _ => Err(plain_error(ctx, Problem::WrongType)),
    }
}

/// An unsigned 16-bit number.
pub fn cell_u16(cell: &Cell, ctx: &'static str) -> (r: Result<u16, DecodeError>)
    ensures
        r == u16_in(*cell, ctx),
{
    match cell {
        Cell::Integer(Some(n)) => if 0 <= *n && *n <= u16::MAX as i32 {
            Ok(*n as u16)
        } else {
            Err(error(ctx, Problem::OutOfRange))
        },
        _ => Err(error(ctx, Problem::WrongType)),
    }
}

/// An unsigned 8-bit number, which a row carries as a signed 16-bit one.
pub open spec fn u8_in(cell: Cell, ctx: &'static str) -> Result<u8, DecodeError> {
    match cell {
        Cell::Smallint(Some(n)) => if 0 <= n <= u8::MAX {
            Ok(n as u8)
        } else {
            Err(plain_error(ctx, Problem::OutOfRange))
        },
        Cell::Smallint(None) => Err(plain_error(ctx, Problem::Null)),
        _ => Err(plain_error(ctx, Problem::WrongType)),
    }
}

/// An unsigned 8-bit number.
pub fn cell_u8(cell: &Cell, ctx: &'static str) -> (r: Result<u8, DecodeError>)
    ensures
        r == u8_in(*cell, ctx),
{
    match cell {
        Cell::Smallint(Some(n)) => if 0 <= *n && *n <= u8::MAX as i16 {
            Ok(*n as u8)
        } else {
            Err(error(ctx, Problem::OutOfRange))
        },
        Cell::Smallint(None) => Err(error(ctx, Problem::Null)),
        _ => Err(error(ctx, Problem::WrongType)),
    }
}

/// A text.
pub open spec fn text_in(cell: Cell, ctx: &'static str) -> Result<Seq<char>, DecodeError> {
    match cell {
        Cell::Text(Some(s)) => Ok(s@),
        _ => Err(plain_error(ctx, Problem::WrongType)),
    }
}

/// A text.
pub fn cell_string(cell: &Cell, ctx: &'static str) -> (r: Result<String, DecodeError>)
    ensures
        match r {
            Ok(s) => text_in(*cell, ctx) == Ok::<Seq<char>, DecodeError>(s@),
            Err(e) => text_in(*cell, ctx) == Err::<Seq<char>, DecodeError>(e),
        },
{
    match cell {
        Cell::Text(Some(s)) => Ok(s.clone()),
        _ => Err(error(ctx, Problem::WrongType)),
    }
}

/// A truth value.
pub open spec fn bool_in(cell: Cell, ctx: &'static str) -> Result<bool, DecodeError> {
    match cell {
        Cell::Bool(Some(b)) => Ok(b),
        _ => Err(plain_error(ctx, Problem::WrongType)),
    }
}

/// A truth value.
pub fn cell_bool(cell: &Cell, ctx: &'static str) -> (r: Result<bool, DecodeError>)
    ensures
        r == bool_in(*cell, ctx),
{
    match cell {
        Cell::Bool(Some(b)) => Ok(*b),
        _ => Err(error(ctx, Problem::WrongType)),
    }
}

/// An identity: 32 bytes, least significant first.
pub open spec fn identity_in(cell: Cell, ctx: &'static str) -> Result<Seq<u8>, DecodeError> {
    match cell {
        Cell::Bytea(Some(b)) => if b@.len() == 32 {
            Ok(b@)
        } else {
            Err(plain_error(ctx, Problem::BadLength))
        },
        _ => Err(plain_error(ctx, Problem::WrongType)),
    }
}

/// An identity.
pub fn cell_identity(cell: &Cell, ctx: &'static str) -> (r: Result<[u8; 32], DecodeError>)
    ensures
        match r {
            Ok(b) => identity_in(*cell, ctx) == Ok::<Seq<u8>, DecodeError>(b@),
            Err(e) => identity_in(*cell, ctx) == Err::<Seq<u8>, DecodeError>(e),
        },
{
    match cell {
        Cell::Bytea(Some(b)) => {
            if b.len() != 32 {
                return Err(error(ctx, Problem::BadLength));
            }
            let mut out: [u8; 32] = [0u8; 32];
            let mut i: usize = 0;
            while i < 32
                invariant
                    i <= 32 == b@.len(),
                    forall|j: int| 0 <= j < i ==> out@[j] == b@[j],
                decreases 32 - i,
            {
                out[i] = b[i];
                i += 1;
            }
            assert(out@ =~= b@);
            Ok(out)
        },
        _ => Err(error(ctx, Problem::WrongType)),
    }
}

/// The member `some` of an optional value's object.
pub open spec fn some_member(o: Seq<(String, Json)>) -> Option<Json> {
    member(o, "some"@)
}

/// The 64-bit number in a hexadecimal JSON text of eight bytes.
pub open spec fn hex_u64(v: Json, at: DecodeError) -> Result<u64, DecodeError> {
    match v {
        Json::Text(s) => if !is_hex(s@) {
            Err(DecodeError { problem: Problem::BadHex, ..at })
        } else if s@.len() != 16 {
            Err(DecodeError { problem: Problem::BadLength, ..at })
        } else {
            Ok(from_le(bytes_of_hex(s@)) as u64)
        },
        _ => Err(DecodeError { problem: Problem::WrongType, ..at }),
    }
}

/// The 64-bit number in a hexadecimal JSON text of eight bytes.
fn u64_of_hex(v: &Json, at: DecodeError) -> (r: Result<u64, DecodeError>)
    ensures
        r == hex_u64(*v, at),
{
    match v {
        Json::Text(s) => match decode_hex(s.as_str()) {
            None => Err(DecodeError { problem: Problem::BadHex, ..at }),
            Some(b) => {
                if b.len() != 8 {
                    return Err(DecodeError { problem: Problem::BadLength, ..at });
                }
                assert(b@.subrange(0, 8) =~= b@);
                match read_le(b.as_slice(), 0, 8) {
                    Some(n) => Ok(n),
                    None => Err(DecodeError { problem: Problem::BadLength, ..at }),
                }
            },
        },
        _ => Err(DecodeError { problem: Problem::WrongType, ..at }),
    }
}

/// An optional 64-bit id: eight bytes or null, or an object with `some` or
/// `none`.
pub open spec fn opt_u64_in(cell: Cell, ctx: &'static str) -> Result<Option<u64>, DecodeError> {
    match cell {
        Cell::Bytea(None) | Cell::Jsonb(Json::Null) => Ok(None),
        Cell::Bytea(Some(b)) => match u64_bytes(b@, ctx) {
            Ok(v) => Ok(Some(v)),
            Err(e) => Err(e),
        },
        Cell::Jsonb(Json::Object(o)) => match some_member(o@) {
            Some(v) => match hex_u64(v, plain_error(ctx, Problem::WrongType)) {
                Ok(n) => Ok(Some(n)),
                Err(e) => Err(e),
            },
            None => if member(o@, "none"@) is Some {
                Ok(None)
            } else {
                Err(plain_error(ctx, Problem::UnknownVariant))
            },
        },
        _ => Err(plain_error(ctx, Problem::WrongType)),
    }
}

/// An optional 64-bit id.
pub fn cell_opt_u64_sum(cell: &Cell, ctx: &'static str) -> (r: Result<Option<u64>, DecodeError>)
    ensures
        r == opt_u64_in(*cell, ctx),
{
    match cell {
        Cell::Bytea(None) => Ok(None),
        Cell::Jsonb(Json::Null) => Ok(None),
        Cell::Bytea(Some(b)) => match u64_of_bytes(b.as_slice(), ctx) {
            Ok(v) => Ok(Some(v)),
            Err(e) => Err(e),
        },
        Cell::Jsonb(Json::Object(o)) => {
            if let Some(v) = get(o.as_slice(), "some") {
                return match u64_of_hex(v, error(ctx, Problem::WrongType)) {
                    Ok(n) => Ok(Some(n)),
                    Err(e) => Err(e),
                };
            }
            if get(o.as_slice(), "none").is_some() {
                return Ok(None);
            }
            Err(error(ctx, Problem::UnknownVariant))
        },
        _ => Err(error(ctx, Problem::WrongType)),
    }
}

/// An optional signed 32-bit number: a number or null, or an object with
/// `some` or `none`.
pub open spec fn opt_i32_in(cell: Cell, ctx: &'static str) -> Result<Option<i32>, DecodeError> {
    match cell {
        Cell::Integer(None) | Cell::Jsonb(Json::Null) => Ok(None),
        Cell::Integer(Some(n)) => Ok(Some(n)),
        Cell::Jsonb(Json::Object(o)) => match some_member(o@) {
            Some(v) => match as_int(Some(v)) {
                None => Err(plain_error(ctx, Problem::WrongType)),
                Some(n) => if i32::MIN <= n <= i32::MAX {
                    Ok(Some(n as i32))
                } else {
                    Err(plain_error(ctx, Problem::OutOfRange))
                },
            },
            None => if member(o@, "none"@) is Some {
                Ok(None)
            } else {
                Err(plain_error(ctx, Problem::UnknownVariant))
            },
        },
        _ => Err(plain_error(ctx, Problem::WrongType)),
    }
}

/// An optional signed 32-bit number.
pub fn cell_opt_i32_sum(cell: &Cell, ctx: &'static str) -> (r: Result<Option<i32>, DecodeError>)
    ensures
        r == opt_i32_in(*cell, ctx),
{
    match cell {
        Cell::Integer(None) => Ok(None),
        Cell::Jsonb(Json::Null) => Ok(None),
        Cell::Integer(Some(n)) => Ok(Some(*n)),
        Cell::Jsonb(Json::Object(o)) => {
            if let Some(v) = get(o.as_slice(), "some") {
                return match int_of(Some(v)) {
                    None => Err(error(ctx, Problem::WrongType)),
                    Some(n) => if i32::MIN as i64 <= n && n <= i32::MAX as i64 {
                        Ok(Some(n as i32))
                    } else {
                        Err(error(ctx, Problem::OutOfRange))
                    },
                };
            }
            if get(o.as_slice(), "none").is_some() {
                return Ok(None);
            }
            Err(error(ctx, Problem::UnknownVariant))
        },
        _ => Err(error(ctx, Problem::WrongType)),
    }
}

/// The variant of a sum, as the row spells it: the first member's name.
pub open spec fn variant_in(cell: Cell, ctx: &'static str) -> Result<Seq<char>, DecodeError> {
    match object_in(cell, ctx) {
        Err(e) => Err(e),
        Ok(o) => if o.len() == 0 {
            Err(plain_error(ctx, Problem::EmptySum))
        } else {
            Ok(o[0].0@)
        },
    }
}

/// The variant of a sum, as the row spells it.
pub fn sum_variant_pascal(cell: &Cell, ctx: &'static str) -> (r: Result<String, DecodeError>)
    ensures
        match r {
            Ok(s) => variant_in(*cell, ctx) == Ok::<Seq<char>, DecodeError>(s@),
            Err(e) => variant_in(*cell, ctx) == Err::<Seq<char>, DecodeError>(e),
        },
{
    let o = cell_object(cell, ctx)?;
    if o.len() == 0 {
        return Err(error(ctx, Problem::EmptySum));
    }
    Ok(o[0].0.clone())
}

/// Whether a character is upper case.
pub uninterp spec fn upper_case(c: char) -> bool;

/// A character in lower case, which may take several characters.
pub uninterp spec fn lower_case(c: char) -> Seq<char>;

/// `char::is_uppercase`: whether a character has the Unicode property
/// Uppercase. In ASCII these are the letters from `A` to `Z`; for other
/// characters the property is left to the name.
#[verifier::external_body]
fn is_uppercase(c: char) -> (r: bool)
    ensures
        r == upper_case(c),
        (c as u32) < 128 ==> r == ('A' <= c <= 'Z'),
{
    c.is_uppercase()
}

/// `char::to_lowercase`: the Unicode lower-case mapping of a character. In
/// ASCII the letters from `A` to `Z` map to their lower-case letter; for
/// other characters the mapping is left to the name.
#[verifier::external_body]
fn to_lowercase(c: char) -> (r: Vec<char>)
    ensures
        r@ == lower_case(c),
        ('A' <= c <= 'Z') ==> r@ == seq![((c as u32) + 32) as char],
{
    c.to_lowercase().collect()
}

/// The first `n` characters of a name in snake case: every upper-case letter
/// becomes an underscore, but at the start, and the letter in lower case.
pub open spec fn snake(s: Seq<char>, n: nat) -> Seq<char>
    decreases n,
{
    if n == 0 {
        Seq::empty()
    } else {
        let before = snake(s, (n - 1) as nat);
        let c = s[n - 1];
        if upper_case(c) {
            (if n > 1 {
                before.push('_')
            } else {
                before
            }) + lower_case(c)
        } else {
            before.push(c)
        }
    }
}

/// A name in snake case.
pub fn pascal_to_snake(s: &str) -> (r: String)
    ensures
        r@ == snake(s@, s@.len()),
{
    let chars = chars_of(s);
    let mut out: Vec<char> = Vec::new();
    let mut i: usize = 0;
    while i < chars.len()
        invariant
            i <= chars@.len(),
            chars@ == s@,
            out@ == snake(s@, i as nat),
        decreases chars.len() - i,
    {
        let c: char = chars[i];
        if is_uppercase(c) {
            if i > 0 {
                out.push('_');
            }
            let mut low = to_lowercase(c);
            out.append(&mut low);
        } else {
            out.push(c);
        }
        i += 1;
    }
    crate::text::text_of(out.as_slice())
}

/// The variant of a sum in snake case.
pub open spec fn snake_variant_in(cell: Cell, ctx: &'static str) -> Result<Seq<char>, DecodeError> {
    match variant_in(cell, ctx) {
        Err(e) => Err(e),
        Ok(s) => Ok(snake(s, s.len())),
    }
}

/// The variant of a sum in snake case.
pub fn sum_variant_snake(cell: &Cell, ctx: &'static str) -> (r: Result<String, DecodeError>)
    ensures
        match r {
            Ok(s) => snake_variant_in(*cell, ctx) == Ok::<Seq<char>, DecodeError>(s@),
            Err(e) => snake_variant_in(*cell, ctx) == Err::<Seq<char>, DecodeError>(e),
        },
{
    let name = sum_variant_pascal(cell, ctx)?;
    Ok(pascal_to_snake(name.as_str()))
}

/// A point in time: microseconds, or an object that wraps them.
pub open spec fn timestamp_in(cell: Cell, ctx: &'static str) -> Result<i64, DecodeError> {
    match cell {
        Cell::Bigint(Some(n)) => Ok(n),
        Cell::Jsonb(Json::Object(o)) => match member(o@, "__timestamp_micros_since_unix_epoch__"@) {
            Some(v) => match as_int(Some(v)) {
                Some(n) => Ok(n),
                None => Err(plain_error(ctx, Problem::WrongType)),
            },
            None => Err(plain_error(ctx, Problem::UnknownVariant)),
        },
        _ => Err(plain_error(ctx, Problem::WrongType)),
    }
}

/// A point in time in microseconds.
pub fn decode_timestamp_micros(cell: &Cell, ctx: &'static str) -> (r: Result<i64, DecodeError>)
    ensures
        r == timestamp_in(*cell, ctx),
{
    match cell {
        Cell::Bigint(Some(n)) => Ok(*n),
        Cell::Jsonb(Json::Object(o)) => match get(o.as_slice(), "__timestamp_micros_since_unix_epoch__") {
            Some(v) => match int_of(Some(v)) {
                Some(n) => Ok(n),
                None => Err(error(ctx, Problem::WrongType)),
            },
            None => Err(error(ctx, Problem::UnknownVariant)),
        },
        _ => Err(error(ctx, Problem::WrongType)),
    }
}

/// The payload of a schedule: the first member of an object, or the second
/// entry of a list.
pub open spec fn schedule_payload(v: Json, ctx: &'static str) -> Result<Json, DecodeError> {
    match v {
        Json::Object(o) => if o@.len() == 0 {
            Err(plain_error(ctx, Problem::EmptySum))
        } else {
            Ok(o@[0].1)
        },
        Json::Array(a) => if a@.len() < 2 {
            Err(plain_error(ctx, Problem::Missing))
        } else {
            Ok(a@[1])
        },
        _ => Err(plain_error(ctx, Problem::WrongType)),
    }
}

/// The point in time of a schedule; `None` for a schedule by interval.
pub open spec fn schedule_in(cell: Cell, ctx: &'static str) -> Result<Option<i64>, DecodeError> {
    match json_in(cell, ctx) {
        Err(e) => Err(e),
        Ok(v) => match schedule_payload(v, ctx) {
            Err(e) => Err(e),
            Ok(Json::Object(o)) => match member(o@, "__timestamp_micros_since_unix_epoch__"@) {
                Some(t) => match as_int(Some(t)) {
                    Some(n) => Ok(Some(n)),
                    None => Err(plain_error(ctx, Problem::WrongType)),
                },
                None => Ok(None),
            },
            Ok(_) => Err(plain_error(ctx, Problem::WrongType)),
        },
    }
}

/// The point in time of a schedule.
pub fn decode_schedule_at_timestamp(cell: &Cell, ctx: &'static str) -> (r: Result<Option<i64>, DecodeError>)
    ensures
        r == schedule_in(*cell, ctx),
{
    let v = cell_json(cell, ctx)?;
    let payload: &Json = match v {
        Json::Object(o) => {
            if o.len() == 0 {
                return Err(error(ctx, Problem::EmptySum));
            }
            &o[0].1
        },
        Json::Array(a) => {
            if a.len() < 2 {
                return Err(error(ctx, Problem::Missing));
            }
            &a[1]
        },
        _ => {
            return Err(error(ctx, Problem::WrongType));
        },
    };
    match payload {
        Json::Object(o) => match get(o.as_slice(), "__timestamp_micros_since_unix_epoch__") {
            Some(t) => match int_of(Some(t)) {
                Some(n) => Ok(Some(n)),
                None => Err(error(ctx, Problem::WrongType)),
            },
            None => Ok(None),
        },
        _ => Err(error(ctx, Problem::WrongType)),
    }
}

/// An optional place: whether there is one, its tile and its dimension.
pub open spec fn location_in(cell: Cell) -> Result<(bool, i32, i32, u32), DecodeError> {
    match cell {
        Cell::Jsonb(Json::Null) => Ok((false, 0i32, 0i32, 0u32)),
        Cell::Jsonb(Json::Object(o)) => match some_member(o@) {
            Some(Json::Object(inner)) => place_of(inner@),
            Some(_) => Err(plain_error("claim_local.location.some", Problem::WrongType)),
            None => if member(o@, "x"@) is Some && member(o@, "z"@) is Some {
                place_of(o@)
            } else {
                Ok((false, 0i32, 0i32, 0u32))
            },
        },
        _ => Err(plain_error("claim_local.location", Problem::WrongType)),
    }
}

/// The place that an object spells.
pub open spec fn place_of(o: Seq<(String, Json)>) -> Result<(bool, i32, i32, u32), DecodeError> {
    match (as_i32(member(o, "x"@)), as_i32(member(o, "z"@)), member(o, "dimension"@)) {
        (None, _, _) => Err(plain_error("location.x", Problem::Missing)),
        (_, None, _) => Err(plain_error("location.z", Problem::Missing)),
        (Some(x), Some(z), Some(Json::Number(n))) => match n.uint {
            None => Err(plain_error("location.dimension", Problem::Missing)),
            Some(d) => if d <= u32::MAX {
                Ok((true, x, z, d as u32))
            } else {
                Err(plain_error("location.dimension", Problem::OutOfRange))
            },
        },
        (Some(_), Some(_), _) => Err(plain_error("location.dimension", Problem::Missing)),
    }
}

/// An optional place. An object with the coordinates, or one that wraps it in
/// `some`; anything else without them is no place.
pub fn decode_optional_location(cell: &Cell) -> (r: Result<(bool, i32, i32, u32), DecodeError>)
    ensures
        r == location_in(*cell),
{
    let o: &[(String, Json)] = match cell {
        Cell::Jsonb(Json::Null) => {
            return Ok((false, 0, 0, 0));
        },
        Cell::Jsonb(Json::Object(o)) => o.as_slice(),
        _ => {
            return Err(error("claim_local.location", Problem::WrongType));
        },
    };
    if let Some(inner) = get(o, "some") {
        return match inner {
            Json::Object(loc) => decode_place(loc.as_slice()),
            _ => Err(error("claim_local.location.some", Problem::WrongType)),
        };
    }
    if get(o, "x").is_some() && get(o, "z").is_some() {
        decode_place(o)
    } else {
        Ok((false, 0, 0, 0))
    }
}

/// The place that an object spells.
fn decode_place(o: &[(String, Json)]) -> (r: Result<(bool, i32, i32, u32), DecodeError>)
    ensures
        r == place_of(o@),
{
    let x: i32 = match i32_of(get(o, "x")) {
        Some(x) => x,
        None => {
            return Err(error("location.x", Problem::Missing));
        },
    };
    let z: i32 = match i32_of(get(o, "z")) {
        Some(z) => z,
        None => {
            return Err(error("location.z", Problem::Missing));
        },
    };
    match get(o, "dimension") {
        Some(Json::Number(n)) => match n.uint {
            None => Err(error("location.dimension", Problem::Missing)),
            Some(d) => if d <= u32::MAX as u64 {
                Ok((true, x, z, d as u32))
            } else {
                Err(error("location.dimension", Problem::OutOfRange))
            },
        },
        _ => Err(error("location.dimension", Problem::Missing)),
    }
}

/// The kind of an item: an object with `Item` or `Cargo`.
pub open spec fn item_type_of(v: Option<Json>) -> Option<u8> {
    match v {
        Some(Json::Object(t)) => if member(t@, "Item"@) is Some {
            Some(ITEM)
        } else if member(t@, "Cargo"@) is Some {
            Some(CARGO)
        } else {
            None
        },
        _ => None,
    }
}

/// The kind of an item.
fn decode_item_type(v: Option<&Json>) -> (r: Option<u8>)
    ensures
        r == item_type_of(match v {
            Some(j) => Some(*j),
            None => None,
        }),
{
    match v {
        Some(Json::Object(t)) => if get(t.as_slice(), "Item").is_some() {
            Some(ITEM)
        } else if get(t.as_slice(), "Cargo").is_some() {
            Some(CARGO)
        } else {
            None
        },
        _ => None,
    }
}

/// Durability of what a pocket holds: whether there is one, and its value,
/// where 0 stands for a value out of range.
pub open spec fn durability_of(v: Option<Json>) -> (bool, i32) {
    match v {
        Some(Json::Object(d)) => match some_member(d@) {
            Some(n) => (true, match as_i32(Some(n)) {
                Some(x) => x,
                None => 0,
            }),
            None => (false, 0),
        },
        _ => (false, 0),
    }
}

/// What a pocket of a given volume with given contents is.
pub open spec fn pocket_with(volume: i32, contents: Seq<(String, Json)>) -> Result<Pocket, DecodeError> {
    match (
        as_i32(member(contents, "item_id"@)),
        as_i32(member(contents, "quantity"@)),
        item_type_of(member(contents, "item_type"@)),
    ) {
        (None, _, _) => Err(plain_error("contents.item_id", Problem::Missing)),
        (_, None, _) => Err(plain_error("contents.quantity", Problem::Missing)),
        (_, _, None) => Err(plain_error("contents.item_type", Problem::UnknownVariant)),
        (Some(item_id), Some(quantity), Some(item_type)) => Ok(
            Pocket {
                volume,
                has_contents: true,
                item_id,
                quantity,
                item_type,
                has_durability: durability_of(member(contents, "durability"@)).0,
                durability: durability_of(member(contents, "durability"@)).1,
            },
        ),
    }
}

/// A pocket as a row spells it. Without contents in `some` it is empty.
pub open spec fn pocket_of(v: Json) -> Result<Pocket, DecodeError> {
    match v {
        Json::Object(o) => match as_i32(member(o@, "volume"@)) {
            None => Err(plain_error("pocket.volume", Problem::Missing)),
            Some(volume) => match member(o@, "contents"@) {
                Some(Json::Object(c)) if some_member(c@) is Some => match some_member(c@)->0 {
                    Json::Object(contents) => pocket_with(volume, contents@),
                    _ => Err(plain_error("contents.some", Problem::WrongType)),
                },
                _ => Ok(
                    Pocket {
                        volume,
                        has_contents: false,
                        item_id: 0,
                        quantity: 0,
                        item_type: ITEM,
                        has_durability: false,
                        durability: 0,
                    },
                ),
            },
        },
        _ => Err(plain_error("pocket", Problem::WrongType)),
    }
}

/// The pockets of an inventory.
pub open spec fn pockets_in(cell: Cell) -> Result<Seq<Pocket>, DecodeError> {
    match list_in(cell, "pockets") {
        Err(e) => Err(e),
        Ok(arr) => each(arr, arr.len(), |i: int, v: Json| pocket_of(v)),
    }
}

/// What a pocket of a given volume with given contents is.
fn decode_pocket_contents(volume: i32, contents: &[(String, Json)]) -> (r: Result<Pocket, DecodeError>)
    ensures
        r == pocket_with(volume, contents@),
{
    let item_id: i32 = match i32_of(get(contents, "item_id")) {
        Some(n) => n,
        None => {
            return Err(error("contents.item_id", Problem::Missing));
        },
    };
    let quantity: i32 = match i32_of(get(contents, "quantity")) {
        Some(n) => n,
        None => {
            return Err(error("contents.quantity", Problem::Missing));
        },
    };
    let item_type: u8 = match decode_item_type(get(contents, "item_type")) {
        Some(t) => t,
        None => {
            return Err(error("contents.item_type", Problem::UnknownVariant));
        },
    };
    let (has_durability, durability): (bool, i32) = match get(contents, "durability") {
        Some(Json::Object(d)) => match get(d.as_slice(), "some") {
            Some(n) => (
                true,
                match i32_of(Some(n)) {
                    Some(x) => x,
                    None => 0,
                },
            ),
            None => (false, 0),
        },
        _ => (false, 0),
    };
    Ok(Pocket { volume, has_contents: true, item_id, quantity, item_type, has_durability, durability })
}

/// A pocket as a row spells it.
fn decode_pocket(v: &Json) -> (r: Result<Pocket, DecodeError>)
    ensures
        r == pocket_of(*v),
{
    let o: &[(String, Json)] = match v {
        Json::Object(o) => o.as_slice(),
        _ => {
            return Err(error("pocket", Problem::WrongType));
        },
    };
    let volume: i32 = match i32_of(get(o, "volume")) {
        Some(n) => n,
        None => {
            return Err(error("pocket.volume", Problem::Missing));
        },
    };
    if let Some(Json::Object(c)) = get(o, "contents") {
        if let Some(inner) = get(c.as_slice(), "some") {
            return match inner {
                Json::Object(contents) => decode_pocket_contents(volume, contents.as_slice()),
                _ => Err(error("contents.some", Problem::WrongType)),
            };
        }
    }
    Ok(
        Pocket {
            volume,
            has_contents: false,
            item_id: 0,
            quantity: 0,
            item_type: ITEM,
            has_durability: false,
            durability: 0,
        },
    )
}

/// The pockets of an inventory.
pub fn decode_pockets(cell: &Cell) -> (r: Result<Vec<Pocket>, DecodeError>)
    ensures
        match r {
            Ok(v) => pockets_in(*cell) == Ok::<Seq<Pocket>, DecodeError>(v@),
            Err(e) => pockets_in(*cell) == Err::<Seq<Pocket>, DecodeError>(e),
        },
{
    let arr = cell_list(cell, "pockets")?;
    let ghost f = |i: int, v: Json| pocket_of(v);
    let mut out: Vec<Pocket> = Vec::new();
    let mut i: usize = 0;
    while i < arr.len()
        invariant
            i <= arr@.len(),
            f == (|i: int, v: Json| pocket_of(v)),
            list_in(*cell, "pockets") == Ok::<Seq<Json>, DecodeError>(arr@),
            each(arr@, i as nat, f) == Ok::<Seq<Pocket>, DecodeError>(out@),
        decreases arr.len() - i,
    {
        match decode_pocket(&arr[i]) {
            Ok(p) => {
                out.push(p);
            },
            Err(e) => {
                proof {
                    assert(each(arr@, (i + 1) as nat, f) == Err::<Seq<Pocket>, DecodeError>(e));
                    lemma_each_stops(arr@, (i + 1) as nat, arr@.len(), f);
                }
                return Err(e);
            },
        }
        i += 1;
    }
    Ok(out)
}

/// A single-precision number of a list.
pub open spec fn single_of(v: Json, at: DecodeError) -> Result<Single, DecodeError> {
    match v {
        Json::Number(n) => Ok(Single { bits: n.single }),
        _ => Err(at),
    }
}

/// The single-precision numbers of a list. `outer` is the position of the list
/// in the one around it.
pub open spec fn singles_of(v: Option<Json>, ctx: &'static str, outer: Option<usize>) -> Result<Seq<Single>, DecodeError> {
    match v {
        Some(Json::Array(arr)) => each(
            arr@,
            arr@.len(),
            |i: int, v: Json|
                single_of(
                    v,
                    DecodeError { context: ctx, outer, inner: Some(i as usize), problem: Problem::WrongType },
                ),
        ),
        _ => Err(DecodeError { context: ctx, outer, inner: None, problem: Problem::WrongType }),
    }
}

/// The single-precision numbers of a list.
pub fn decode_f32_array(v: Option<&Json>, ctx: &'static str, outer: Option<usize>) -> (r: Result<
    Vec<Single>,
    DecodeError,
>)
    ensures
        ({
            let spec = singles_of(
                match v {
                    Some(j) => Some(*j),
                    None => None,
                },
                ctx,
                outer,
            );
            match r {
                Ok(s) => spec == Ok::<Seq<Single>, DecodeError>(s@),
                Err(e) => spec == Err::<Seq<Single>, DecodeError>(e),
            }
        }),
{
    let arr: &[Json] = match v {
        Some(Json::Array(arr)) => arr.as_slice(),
        _ => {
            return Err(DecodeError { context: ctx, outer, inner: None, problem: Problem::WrongType });
        },
    };
    let ghost f = |i: int, v: Json|
        single_of(v, DecodeError { context: ctx, outer, inner: Some(i as usize), problem: Problem::WrongType });
    let mut out: Vec<Single> = Vec::new();
    let mut i: usize = 0;
    while i < arr.len()
        invariant
            i <= arr@.len(),
            f == (|i: int, v: Json|
                single_of(
                    v,
                    DecodeError { context: ctx, outer, inner: Some(i as usize), problem: Problem::WrongType },
                )),
            v matches Some(j) && *j matches Json::Array(a) && a@ == arr@,
            each(arr@, i as nat, f) == Ok::<Seq<Single>, DecodeError>(out@),
        decreases arr.len() - i,
    {
        match &arr[i] {
            Json::Number(n) => {
                out.push(Single { bits: n.single });
            },
            _ => {
                let e = DecodeError { context: ctx, outer, inner: Some(i), problem: Problem::WrongType };
                proof {
                    assert(each(arr@, (i + 1) as nat, f) == Err::<Seq<Single>, DecodeError>(e));
                    lemma_each_stops(arr@, (i + 1) as nat, arr@.len(), f);
                }
                return Err(e);
            },
        }
        i += 1;
    }
    Ok(out)
}

/// The single-precision numbers of a list in a JSON cell.
pub open spec fn singles_in(cell: Cell, ctx: &'static str) -> Result<Seq<Single>, DecodeError> {
    match json_in(cell, ctx) {
        Err(e) => Err(e),
        Ok(v) => singles_of(Some(v), ctx, None),
    }
}

/// The single-precision numbers of a list in a JSON cell.
pub fn cell_f32_array(cell: &Cell, ctx: &'static str) -> (r: Result<Vec<Single>, DecodeError>)
    ensures
        match r {
            Ok(s) => singles_in(*cell, ctx) == Ok::<Seq<Single>, DecodeError>(s@),
            Err(e) => singles_in(*cell, ctx) == Err::<Seq<Single>, DecodeError>(e),
        },
{
    let v = cell_json(cell, ctx)?;
    decode_f32_array(Some(v), ctx, None)
}

/// When a buff started: a number, or an object that wraps it.
pub open spec fn buff_start(v: Option<Json>, i: int) -> Result<i32, DecodeError> {
    match v {
        Some(Json::Object(t)) => match as_i32(member(t@, "value"@)) {
            Some(n) => Ok(n),
            None => Err(entry_error("active_buffs.buff_start_timestamp", i, Problem::Missing)),
        },
        Some(Json::Number(n)) => match n.int {
            Some(x) => Ok(low_i32(x)),
            None => Err(entry_error("active_buffs.buff_start_timestamp", i, Problem::WrongType)),
        },
        _ => Err(entry_error("active_buffs.buff_start_timestamp", i, Problem::WrongType)),
    }
}

/// The signed number in the low 32 bits.
pub open spec fn low_i32(n: i64) -> i32 {
    crate::le_bytes::signed32((n as int % 0x1_0000_0000) as nat) as i32
}

/// A buff as a row spells it.
pub open spec fn buff_of(i: int, v: Json) -> Result<BuffModel, DecodeError> {
    match v {
        Json::Object(o) => match (
            as_i32(member(o@, "buff_id"@)),
            buff_start(member(o@, "buff_start_timestamp"@), i),
            as_i32(member(o@, "buff_duration"@)),
            singles_of(member(o@, "values"@), "active_buffs.values", Some(i as usize)),
        ) {
            (None, _, _, _) => Err(entry_error("active_buffs.buff_id", i, Problem::Missing)),
            (_, Err(e), _, _) => Err(e),
            (_, _, None, _) => Err(entry_error("active_buffs.buff_duration", i, Problem::Missing)),
            (_, _, _, Err(e)) => Err(e),
            (Some(buff_id), Ok(start_timestamp), Some(duration), Ok(values)) => Ok(
                BuffModel { buff_id, start_timestamp, duration, values },
            ),
        },
        _ => Err(entry_error("active_buffs", i, Problem::WrongType)),
    }
}

/// The buffs of an entity.
pub open spec fn buffs_in(cell: Cell) -> Result<Seq<BuffModel>, DecodeError> {
    match list_in(cell, "active_buffs") {
        Err(e) => Err(e),
        Ok(arr) => each(arr, arr.len(), |i: int, v: Json| buff_of(i, v)),
    }
}

/// When a buff started.
fn decode_buff_start(v: Option<&Json>, i: usize) -> (r: Result<i32, DecodeError>)
    ensures
        r == buff_start(
            match v {
                Some(j) => Some(*j),
                None => None,
            },
            i as int,
        ),
{
    match v {
        Some(Json::Object(t)) => match i32_of(get(t.as_slice(), "value")) {
            Some(n) => Ok(n),
            None => Err(error_at("active_buffs.buff_start_timestamp", i, Problem::Missing)),
        },
        Some(Json::Number(n)) => match n.int {
            Some(x) => Ok(
                crate::le_bytes::i32_of_bits(crate::int_math::mod_floor(x, 0x1_0000_0000) as u32),
            ),
            None => Err(error_at("active_buffs.buff_start_timestamp", i, Problem::WrongType)),
        },
        _ => Err(error_at("active_buffs.buff_start_timestamp", i, Problem::WrongType)),
    }
}

/// A buff as a row spells it.
fn decode_buff(i: usize, v: &Json) -> (r: Result<BuffEntry, DecodeError>)
    ensures
        match r {
            Ok(b) => buff_of(i as int, *v) == Ok::<BuffModel, DecodeError>(b@),
            Err(e) => buff_of(i as int, *v) == Err::<BuffModel, DecodeError>(e),
        },
{
    let o: &[(String, Json)] = match v {
        Json::Object(o) => o.as_slice(),
        _ => {
            return Err(error_at("active_buffs", i, Problem::WrongType));
        },
    };
    let buff_id: i32 = match i32_of(get(o, "buff_id")) {
        Some(n) => n,
        None => {
            return Err(error_at("active_buffs.buff_id", i, Problem::Missing));
        },
    };
    let start_timestamp: i32 = decode_buff_start(get(o, "buff_start_timestamp"), i)?;
    let duration: i32 = match i32_of(get(o, "buff_duration")) {
        Some(n) => n,
        None => {
            return Err(error_at("active_buffs.buff_duration", i, Problem::Missing));
        },
    };
    let values = decode_f32_array(get(o, "values"), "active_buffs.values", Some(i))?;
    Ok(BuffEntry { buff_id, start_timestamp, duration, values })
}

/// The models of buffs.
pub open spec fn buff_models(s: Seq<BuffEntry>) -> Seq<BuffModel> {
    s.map_values(|b: BuffEntry| b@)
}

/// The buffs of an entity.
pub fn decode_buff_entries(cell: &Cell) -> (r: Result<Vec<BuffEntry>, DecodeError>)
    ensures
        match r {
            Ok(v) => buffs_in(*cell) == Ok::<Seq<BuffModel>, DecodeError>(buff_models(v@)),
            Err(e) => buffs_in(*cell) == Err::<Seq<BuffModel>, DecodeError>(e),
        },
{
    let arr = cell_list(cell, "active_buffs")?;
    let ghost f = |i: int, v: Json| buff_of(i, v);
    let mut out: Vec<BuffEntry> = Vec::new();
    let mut i: usize = 0;
    assert(buff_models(out@) =~= Seq::<BuffModel>::empty());
    while i < arr.len()
        invariant
            i <= arr@.len(),
            f == (|i: int, v: Json| buff_of(i, v)),
            list_in(*cell, "active_buffs") == Ok::<Seq<Json>, DecodeError>(arr@),
            each(arr@, i as nat, f) == Ok::<Seq<BuffModel>, DecodeError>(buff_models(out@)),
        decreases arr.len() - i,
    {
        let ghost before = out@;
        match decode_buff(i, &arr[i]) {
            Ok(b) => {
                out.push(b);
                assert(buff_models(out@) =~= buff_models(before).push(b@));
            },
            Err(e) => {
                proof {
                    assert(each(arr@, (i + 1) as nat, f) == Err::<Seq<BuffModel>, DecodeError>(e));
                    lemma_each_stops(arr@, (i + 1) as nat, arr@.len(), f);
                }
                return Err(e);
            },
        }
        i += 1;
    }
    Ok(out)
}

/// Something that a recipe makes, as a row spells it.
pub open spec fn crafted_of(i: int, v: Json) -> Result<CraftedItemStack, DecodeError> {
    match v {
        Json::Object(o) => match (
            as_i32(member(o@, "item_id"@)),
            as_i32(member(o@, "quantity"@)),
            item_type_of(member(o@, "item_type"@)),
        ) {
            (None, _, _) => Err(entry_error("crafted_item_stacks.item_id", i, Problem::Missing)),
            (_, None, _) => Err(entry_error("crafted_item_stacks.quantity", i, Problem::Missing)),
            (_, _, None) => Err(entry_error("crafted_item_stacks.item_type", i, Problem::UnknownVariant)),
            (Some(item_id), Some(quantity), Some(item_type)) => Ok(CraftedItemStack { item_id, quantity, item_type }),
        },
        _ => Err(entry_error("crafted_item_stacks", i, Problem::WrongType)),
    }
}

/// What a recipe makes.
pub open spec fn crafted_in(cell: Cell) -> Result<Seq<CraftedItemStack>, DecodeError> {
    match list_in(cell, "crafted_item_stacks") {
        Err(e) => Err(e),
        Ok(arr) => each(arr, arr.len(), |i: int, v: Json| crafted_of(i, v)),
    }
}

/// Something that a recipe makes.
fn decode_crafted(i: usize, v: &Json) -> (r: Result<CraftedItemStack, DecodeError>)
    ensures
        r == crafted_of(i as int, *v),
{
    let o: &[(String, Json)] = match v {
        Json::Object(o) => o.as_slice(),
        _ => {
            return Err(error_at("crafted_item_stacks", i, Problem::WrongType));
        },
    };
    let item_id: i32 = match i32_of(get(o, "item_id")) {
        Some(n) => n,
        None => {
            return Err(error_at("crafted_item_stacks.item_id", i, Problem::Missing));
        },
    };
    let quantity: i32 = match i32_of(get(o, "quantity")) {
        Some(n) => n,
        None => {
            return Err(error_at("crafted_item_stacks.quantity", i, Problem::Missing));
        },
    };
    match decode_item_type(get(o, "item_type")) {
        Some(item_type) => Ok(CraftedItemStack { item_id, quantity, item_type }),
        None => Err(error_at("crafted_item_stacks.item_type", i, Problem::UnknownVariant)),
    }
}

/// What a recipe makes.
pub fn decode_crafted_item_stacks(cell: &Cell) -> (r: Result<Vec<CraftedItemStack>, DecodeError>)
    ensures
        match r {
            Ok(v) => crafted_in(*cell) == Ok::<Seq<CraftedItemStack>, DecodeError>(v@),
            Err(e) => crafted_in(*cell) == Err::<Seq<CraftedItemStack>, DecodeError>(e),
        },
{
    let arr = cell_list(cell, "crafted_item_stacks")?;
    let ghost f = |i: int, v: Json| crafted_of(i, v);
    let mut out: Vec<CraftedItemStack> = Vec::new();
    let mut i: usize = 0;
    while i < arr.len()
        invariant
            i <= arr@.len(),
            f == (|i: int, v: Json| crafted_of(i, v)),
            list_in(*cell, "crafted_item_stacks") == Ok::<Seq<Json>, DecodeError>(arr@),
            each(arr@, i as nat, f) == Ok::<Seq<CraftedItemStack>, DecodeError>(out@),
        decreases arr.len() - i,
    {
        match decode_crafted(i, &arr[i]) {
            Ok(p) => {
                out.push(p);
            },
            Err(e) => {
                proof {
                    assert(each(arr@, (i + 1) as nat, f) == Err::<Seq<CraftedItemStack>, DecodeError>(e));
                    lemma_each_stops(arr@, (i + 1) as nat, arr@.len(), f);
                }
                return Err(e);
            },
        }
        i += 1;
    }
    Ok(out)
}

/// The 64-bit ids of a list, each a hexadecimal text.
pub open spec fn u64s_in(cell: Cell, ctx: &'static str) -> Result<Seq<u64>, DecodeError> {
    match list_in(cell, ctx) {
        Err(e) => Err(e),
        Ok(arr) => each(arr, arr.len(), |i: int, v: Json| hex_u64(v, entry_error(ctx, i, Problem::WrongType))),
    }
}

/// The 64-bit ids of a list.
pub fn decode_u64_array(cell: &Cell, ctx: &'static str) -> (r: Result<Vec<u64>, DecodeError>)
    ensures
        match r {
            Ok(v) => u64s_in(*cell, ctx) == Ok::<Seq<u64>, DecodeError>(v@),
            Err(e) => u64s_in(*cell, ctx) == Err::<Seq<u64>, DecodeError>(e),
        },
{
    let arr = cell_list(cell, ctx)?;
    let ghost f = |i: int, v: Json| hex_u64(v, entry_error(ctx, i, Problem::WrongType));
    let mut out: Vec<u64> = Vec::new();
    let mut i: usize = 0;
    while i < arr.len()
        invariant
            i <= arr@.len(),
            f == (|i: int, v: Json| hex_u64(v, entry_error(ctx, i, Problem::WrongType))),
            list_in(*cell, ctx) == Ok::<Seq<Json>, DecodeError>(arr@),
            each(arr@, i as nat, f) == Ok::<Seq<u64>, DecodeError>(out@),
        decreases arr.len() - i,
    {
        match u64_of_hex(&arr[i], error_at(ctx, i, Problem::WrongType)) {
            Ok(n) => {
                out.push(n);
            },
            Err(e) => {
                proof {
                    assert(each(arr@, (i + 1) as nat, f) == Err::<Seq<u64>, DecodeError>(e));
                    lemma_each_stops(arr@, (i + 1) as nat, arr@.len(), f);
                }
                return Err(e);
            },
        }
        i += 1;
    }
    Ok(out)
}

/// A number of a list between two bounds.
pub open spec fn bounded_of(v: Json, lo: int, hi: int, at: DecodeError) -> Result<i64, DecodeError> {
    match as_int(Some(v)) {
        None => Err(at),
        Some(n) => if lo <= n <= hi {
            Ok(n)
        } else {
            Err(DecodeError { problem: Problem::OutOfRange, ..at })
        },
    }
}

/// The numbers of a list between two bounds.
pub open spec fn bounded_in(cell: Cell, lo: int, hi: int, ctx: &'static str) -> Result<Seq<i64>, DecodeError> {
    match list_in(cell, ctx) {
        Err(e) => Err(e),
        Ok(arr) => each(
            arr,
            arr.len(),
            |i: int, v: Json| bounded_of(v, lo, hi, entry_error(ctx, i, Problem::WrongType)),
        ),
    }
}

/// The numbers of a list between two bounds.
fn decode_bounded(cell: &Cell, lo: i64, hi: i64, ctx: &'static str) -> (r: Result<Vec<i64>, DecodeError>)
    ensures
        match r {
            Ok(v) => {
                &&& bounded_in(*cell, lo as int, hi as int, ctx) == Ok::<Seq<i64>, DecodeError>(v@)
                &&& forall|i: int| 0 <= i < v@.len() ==> lo <= #[trigger] v@[i] <= hi
            },
            Err(e) => bounded_in(*cell, lo as int, hi as int, ctx) == Err::<Seq<i64>, DecodeError>(e),
        },
{
    let arr = cell_list(cell, ctx)?;
    let ghost f = |i: int, v: Json| bounded_of(v, lo as int, hi as int, entry_error(ctx, i, Problem::WrongType));
    let mut out: Vec<i64> = Vec::new();
    let mut i: usize = 0;
    while i < arr.len()
        invariant
            i <= arr@.len(),
            f == (|i: int, v: Json| bounded_of(v, lo as int, hi as int, entry_error(ctx, i, Problem::WrongType))),
            list_in(*cell, ctx) == Ok::<Seq<Json>, DecodeError>(arr@),
            each(arr@, i as nat, f) == Ok::<Seq<i64>, DecodeError>(out@),
            forall|j: int| 0 <= j < out@.len() ==> lo <= #[trigger] out@[j] <= hi,
        decreases arr.len() - i,
    {
        let e: DecodeError = match int_of(Some(&arr[i])) {
            Some(n) => {
                if lo <= n && n <= hi {
                    out.push(n);
                    i += 1;
                    continue;
                }
                error_at(ctx, i, Problem::OutOfRange)
            },
            None => error_at(ctx, i, Problem::WrongType),
        };
        proof {
            assert(each(arr@, (i + 1) as nat, f) == Err::<Seq<i64>, DecodeError>(e));
            lemma_each_stops(arr@, (i + 1) as nat, arr@.len(), f);
        }
        return Err(e);
    }
    Ok(out)
}

/// The signed 32-bit numbers of a list.
pub open spec fn i32s_in(cell: Cell, ctx: &'static str) -> Result<Seq<i32>, DecodeError> {
    match bounded_in(cell, i32::MIN as int, i32::MAX as int, ctx) {
        Err(e) => Err(e),
        Ok(s) => Ok(s.map_values(|n: i64| n as i32)),
    }
}

/// The signed 32-bit numbers of a list.
pub fn decode_i32_array(cell: &Cell, ctx: &'static str) -> (r: Result<Vec<i32>, DecodeError>)
    ensures
        match r {
            Ok(v) => i32s_in(*cell, ctx) == Ok::<Seq<i32>, DecodeError>(v@),
            Err(e) => i32s_in(*cell, ctx) == Err::<Seq<i32>, DecodeError>(e),
        },
{
    let wide = decode_bounded(cell, i32::MIN as i64, i32::MAX as i64, ctx)?;
    let mut out: Vec<i32> = Vec::new();
    let mut i: usize = 0;
    while i < wide.len()
        invariant
            i <= wide@.len(),
            forall|j: int| 0 <= j < wide@.len() ==> i32::MIN <= #[trigger] wide@[j] <= i32::MAX,
            out@ == wide@.take(i as int).map_values(|n: i64| n as i32),
        decreases wide.len() - i,
    {
        out.push(wide[i] as i32);
        assert(out@ =~= wide@.take(i + 1).map_values(|n: i64| n as i32));
        i += 1;
    }
    assert(wide@.take(i as int) =~= wide@);
    Ok(out)
}

/// The signed 16-bit numbers of a list.
pub open spec fn i16s_in(cell: Cell, ctx: &'static str) -> Result<Seq<i16>, DecodeError> {
    match bounded_in(cell, i16::MIN as int, i16::MAX as int, ctx) {
        Err(e) => Err(e),
        Ok(s) => Ok(s.map_values(|n: i64| n as i16)),
    }
}

/// The signed 16-bit numbers of a list.
pub fn decode_i16_array(cell: &Cell, ctx: &'static str) -> (r: Result<Vec<i16>, DecodeError>)
    ensures
        match r {
            Ok(v) => i16s_in(*cell, ctx) == Ok::<Seq<i16>, DecodeError>(v@),
            Err(e) => i16s_in(*cell, ctx) == Err::<Seq<i16>, DecodeError>(e),
        },
{
    let wide = decode_bounded(cell, i16::MIN as i64, i16::MAX as i64, ctx)?;
    let mut out: Vec<i16> = Vec::new();
    let mut i: usize = 0;
    while i < wide.len()
        invariant
            i <= wide@.len(),
            forall|j: int| 0 <= j < wide@.len() ==> i16::MIN <= #[trigger] wide@[j] <= i16::MAX,
            out@ == wide@.take(i as int).map_values(|n: i64| n as i16),
        decreases wide.len() - i,
    {
        out.push(wide[i] as i16);
        assert(out@ =~= wide@.take(i + 1).map_values(|n: i64| n as i16));
        i += 1;
    }
    assert(wide@.take(i as int) =~= wide@);
    Ok(out)
}

/// The unsigned 8-bit numbers of a list.
pub open spec fn u8s_in(cell: Cell, ctx: &'static str) -> Result<Seq<u8>, DecodeError> {
    match bounded_in(cell, 0, u8::MAX as int, ctx) {
        Err(e) => Err(e),
        Ok(s) => Ok(s.map_values(|n: i64| n as u8)),
    }
}

/// The unsigned 8-bit numbers of a list.
pub fn decode_u8_array(cell: &Cell, ctx: &'static str) -> (r: Result<Vec<u8>, DecodeError>)
    ensures
        match r {
            Ok(v) => u8s_in(*cell, ctx) == Ok::<Seq<u8>, DecodeError>(v@),
            Err(e) => u8s_in(*cell, ctx) == Err::<Seq<u8>, DecodeError>(e),
        },
{
    let wide = decode_bounded(cell, 0, u8::MAX as i64, ctx)?;
    let mut out: Vec<u8> = Vec::new();
    let mut i: usize = 0;
    while i < wide.len()
        invariant
            i <= wide@.len(),
            forall|j: int| 0 <= j < wide@.len() ==> 0 <= #[trigger] wide@[j] <= u8::MAX,
            out@ == wide@.take(i as int).map_values(|n: i64| n as u8),
        decreases wide.len() - i,
    {
        out.push(wide[i] as u8);
        assert(out@ =~= wide@.take(i + 1).map_values(|n: i64| n as u8));
        i += 1;
    }
    assert(wide@.take(i as int) =~= wide@);
    Ok(out)
}

/// The experience in a skill, as a row spells it.
pub open spec fn experience_of(v: Json) -> Result<(i32, i32), DecodeError> {
    match v {
        Json::Object(o) => match (as_i32(member(o@, "skill_id"@)), as_i32(member(o@, "quantity"@))) {
            (None, _) => Err(plain_error("stack.skill_id", Problem::Missing)),
            (_, None) => Err(plain_error("stack.quantity", Problem::Missing)),
            (Some(skill_id), Some(quantity)) => Ok((skill_id, quantity)),
        },
        _ => Err(plain_error("experience_stacks", Problem::WrongType)),
    }
}

/// The experience in each skill.
pub open spec fn experiences_in(cell: Cell) -> Result<Seq<(i32, i32)>, DecodeError> {
    match list_in(cell, "experience_stacks") {
        Err(e) => Err(e),
        Ok(arr) => each(arr, arr.len(), |i: int, v: Json| experience_of(v)),
    }
}

/// The experience in a skill.
fn decode_experience_stack(v: &Json) -> (r: Result<(i32, i32), DecodeError>)
    ensures
        r == experience_of(*v),
{
    let o: &[(String, Json)] = match v {
        Json::Object(o) => o.as_slice(),
        _ => {
            return Err(error("experience_stacks", Problem::WrongType));
        },
    };
    let skill_id: i32 = match i32_of(get(o, "skill_id")) {
        Some(n) => n,
        None => {
            return Err(error("stack.skill_id", Problem::Missing));
        },
    };
    match i32_of(get(o, "quantity")) {
        Some(quantity) => Ok((skill_id, quantity)),
        None => Err(error("stack.quantity", Problem::Missing)),
    }
}

/// The experience in each skill.
pub fn decode_experience_stacks(cell: &Cell) -> (r: Result<Vec<(i32, i32)>, DecodeError>)
    ensures
        match r {
            Ok(v) => experiences_in(*cell) == Ok::<Seq<(i32, i32)>, DecodeError>(v@),
            Err(e) => experiences_in(*cell) == Err::<Seq<(i32, i32)>, DecodeError>(e),
        },
{
    let arr = cell_list(cell, "experience_stacks")?;
    let ghost f = |i: int, v: Json| experience_of(v);
    let mut out: Vec<(i32, i32)> = Vec::new();
    let mut i: usize = 0;
    while i < arr.len()
        invariant
            i <= arr@.len(),
            f == (|i: int, v: Json| experience_of(v)),
            list_in(*cell, "experience_stacks") == Ok::<Seq<Json>, DecodeError>(arr@),
            each(arr@, i as nat, f) == Ok::<Seq<(i32, i32)>, DecodeError>(out@),
        decreases arr.len() - i,
    {
        match decode_experience_stack(&arr[i]) {
            Ok(p) => {
                out.push(p);
            },
            Err(e) => {
                proof {
                    assert(each(arr@, (i + 1) as nat, f) == Err::<Seq<(i32, i32)>, DecodeError>(e));
                    lemma_each_stops(arr@, (i + 1) as nat, arr@.len(), f);
                }
                return Err(e);
            },
        }
        i += 1;
    }
    Ok(out)
}

/// Whether a function of a building has slots for items or for cargo.
pub open spec fn has_slots(v: Json) -> bool {
    match v {
        Json::Object(o) => {
            ||| as_int(member(o@, "storage_slots"@)) matches Some(n) && n > 0
            ||| as_int(member(o@, "cargo_slots"@)) matches Some(n) && n > 0
        },
        _ => false,
    }
}

/// Whether some function of a list has slots.
pub open spec fn any_slots(arr: Seq<Json>) -> bool {
    exists|i: int| 0 <= i < arr.len() && has_slots(#[trigger] arr[i])
}

/// Whether a type of building stores anything: some function of it has slots.
pub open spec fn storage_in(cell: Cell) -> Result<bool, DecodeError> {
    match list_in(cell, "building_desc.functions") {
        Err(e) => Err(e),
        Ok(arr) => Ok(any_slots(arr)),
    }
}

/// Whether a type of building stores anything.
pub fn functions_is_storage(cell: &Cell) -> (r: Result<bool, DecodeError>)
    ensures
        r == storage_in(*cell),
{
    let arr = cell_list(cell, "building_desc.functions")?;
    let mut i: usize = 0;
    while i < arr.len()
        invariant
            i <= arr@.len(),
            list_in(*cell, "building_desc.functions") == Ok::<Seq<Json>, DecodeError>(arr@),
            forall|j: int| 0 <= j < i ==> !has_slots(#[trigger] arr@[j]),
        decreases arr.len() - i,
    {
        if let Json::Object(o) = &arr[i] {
            let storage: i64 = match int_of(get(o.as_slice(), "storage_slots")) {
                Some(n) => n,
                None => 0,
            };
            let cargo: i64 = match int_of(get(o.as_slice(), "cargo_slots")) {
                Some(n) => n,
                None => 0,
            };
            if storage > 0 || cargo > 0 {
                assert(has_slots(arr@[i as int]));
                assert(any_slots(arr@));
                return Ok(true);
            }
        }
        i += 1;
    }
    Ok(false)
}

/// What an item is carried by: the first of the known kinds that the object
/// names.
pub open spec fn kind_in(cell: Cell) -> Result<DeployableKind, DecodeError> {
    match object_in(cell, "deployable_type") {
        Err(e) => Err(e),
        Ok(o) => Ok(
            if member(o, "Cart"@) is Some {
                DeployableKind::Cart
            } else if member(o, "Cache"@) is Some {
                DeployableKind::Cache
            } else if member(o, "Mount"@) is Some {
                DeployableKind::Mount
            } else if member(o, "Boat"@) is Some {
                DeployableKind::Boat
            } else {
                DeployableKind::Other
            },
        ),
    }
}

/// What an item is carried by.
pub fn deployable_kind_from_cell(cell: &Cell) -> (r: Result<DeployableKind, DecodeError>)
    ensures
        r == kind_in(*cell),
{
    let o = cell_object(cell, "deployable_type")?;
    if get(o, "Cart").is_some() {
        Ok(DeployableKind::Cart)
    } else if get(o, "Cache").is_some() {
        Ok(DeployableKind::Cache)
    } else if get(o, "Mount").is_some() {
        Ok(DeployableKind::Mount)
    } else if get(o, "Boat").is_some() {
        Ok(DeployableKind::Boat)
    } else {
        Ok(DeployableKind::Other)
    }
}

/// The state of a passive craft.
pub open spec fn craft_status_in(cell: Cell) -> Result<PassiveCraftStatus, DecodeError> {
    match variant_in(cell, "passive_craft.status") {
        Err(e) => Err(e),
        Ok(s) => if s == "Queued"@ {
            Ok(PassiveCraftStatus::Queued)
        } else if s == "Processing"@ {
            Ok(PassiveCraftStatus::Processing)
        } else if s == "Complete"@ {
            Ok(PassiveCraftStatus::Complete)
        } else {
            Err(plain_error("passive_craft.status", Problem::UnknownVariant))
        },
    }
}

/// The state of a passive craft.
pub fn decode_passive_craft_status(cell: &Cell) -> (r: Result<PassiveCraftStatus, DecodeError>)
    ensures
        r == craft_status_in(*cell),
{
    let o = cell_object(cell, "passive_craft.status")?;
    if o.len() == 0 {
        return Err(error("passive_craft.status", Problem::EmptySum));
    }
    let name = o[0].0.as_str();
    if same_text(name, "Queued") {
        Ok(PassiveCraftStatus::Queued)
    } else if same_text(name, "Processing") {
        Ok(PassiveCraftStatus::Processing)
    } else if same_text(name, "Complete") {
        Ok(PassiveCraftStatus::Complete)
    } else {
        Err(error("passive_craft.status", Problem::UnknownVariant))
    }
}

/// An item, its type and its quantity.
pub open spec fn item_stack_of(v: Json, ctx: &'static str) -> Result<(i32, u8, i32), DecodeError> {
    match v {
        Json::Object(o) => match (
            as_i32(member(o@, "item_id"@)),
            as_i32(member(o@, "quantity"@)),
            item_type_of(member(o@, "item_type"@)),
        ) {
            (None, _, _) => Err(plain_error(ctx, Problem::Missing)),
            (_, None, _) => Err(plain_error(ctx, Problem::Missing)),
            (_, _, None) => Err(plain_error(ctx, Problem::UnknownVariant)),
            (Some(item_id), Some(quantity), Some(item_type)) => Ok((item_id, item_type, quantity)),
        },
        _ => Err(plain_error(ctx, Problem::WrongType)),
    }
}

/// An item, its type and its quantity.
fn decode_item_stack(v: &Json, ctx: &'static str) -> (r: Result<(i32, u8, i32), DecodeError>)
    ensures
        r == item_stack_of(*v, ctx),
{
    let o: &[(String, Json)] = match v {
        Json::Object(o) => o.as_slice(),
        _ => {
            return Err(error(ctx, Problem::WrongType));
        },
    };
    let item_id: i32 = match i32_of(get(o, "item_id")) {
        Some(n) => n,
        None => {
            return Err(error(ctx, Problem::Missing));
        },
    };
    let quantity: i32 = match i32_of(get(o, "quantity")) {
        Some(n) => n,
        None => {
            return Err(error(ctx, Problem::Missing));
        },
    };
    match decode_item_type(get(o, "item_type")) {
        Some(item_type) => Ok((item_id, item_type, quantity)),
        None => Err(error(ctx, Problem::UnknownVariant)),
    }
}

/// An action on an item stack.
pub open spec fn action_with(action: u8, stack: Result<(i32, u8, i32), DecodeError>) -> Result<
    (u8, i32, u8, i32),
    DecodeError,
> {
    match stack {
        Ok(s) => Ok((action, s.0, s.1, s.2)),
        Err(e) => Err(e),
    }
}

/// An entry of the storage log: the action, the item, its type and its
/// quantity.
pub open spec fn action_in(cell: Cell) -> Result<(u8, i32, u8, i32), DecodeError> {
    match object_in(cell, "storage_log.data") {
        Err(e) => Err(e),
        Ok(o) => match (member(o, "DepositItem"@), member(o, "WithdrawItem"@), member(o, "Reserved"@)) {
            (Some(v), _, _) => action_with(ACTION_DEPOSIT, item_stack_of(v, "DepositItem")),
            (None, Some(v), _) => action_with(ACTION_WITHDRAW, item_stack_of(v, "WithdrawItem")),
            (None, None, Some(Json::Object(inner))) => match member(inner@, "item1"@) {
                Some(v) => action_with(ACTION_RESERVED, item_stack_of(v, "Reserved.item1")),
                None => Err(plain_error("storage_log.data.Reserved", Problem::Missing)),
            },
            (None, None, Some(_)) => Err(plain_error("storage_log.data.Reserved", Problem::WrongType)),
            (None, None, None) => Err(plain_error("storage_log.data", Problem::UnknownVariant)),
        },
    }
}

/// An entry of the storage log.
pub fn decode_action_log_data(cell: &Cell) -> (r: Result<(u8, i32, u8, i32), DecodeError>)
    ensures
        r == action_in(*cell),
{
    let o = cell_object(cell, "storage_log.data")?;
    if let Some(v) = get(o, "DepositItem") {
        let (item_id, item_type, quantity) = decode_item_stack(v, "DepositItem")?;
        return Ok((ACTION_DEPOSIT, item_id, item_type, quantity));
    }
    if let Some(v) = get(o, "WithdrawItem") {
        let (item_id, item_type, quantity) = decode_item_stack(v, "WithdrawItem")?;
        return Ok((ACTION_WITHDRAW, item_id, item_type, quantity));
    }
    match get(o, "Reserved") {
        Some(Json::Object(inner)) => match get(inner.as_slice(), "item1") {
            Some(v) => {
                let (item_id, item_type, quantity) = decode_item_stack(v, "Reserved.item1")?;
                Ok((ACTION_RESERVED, item_id, item_type, quantity))
            },
            None => Err(error("storage_log.data.Reserved", Problem::Missing)),
        },
        Some(_) => Err(error("storage_log.data.Reserved", Problem::WrongType)),
        None => Err(error("storage_log.data", Problem::UnknownVariant)),
    }
}

/// Whether a name is the word cargo, in any mix of cases.
pub open spec fn names_cargo(s: Seq<char>) -> bool {
    s.len() == 5 && (s[0] == 'c' || s[0] == 'C') && (s[1] == 'a' || s[1] == 'A') && (s[2] == 'r' || s[2] == 'R') && (s[3]
        == 'g' || s[3] == 'G') && (s[4] == 'o' || s[4] == 'O')
}

/// Whether an item type is cargo: its first member names it.
pub open spec fn is_cargo(v: Option<Json>) -> bool {
    match v {
        Some(Json::Object(t)) => t@.len() > 0 && names_cargo(t@[0].0@),
        _ => false,
    }
}

/// Something that a paving uses up: the item, its quantity, and whether it is
/// cargo. An entry that is no object is passed over.
pub open spec fn consumed_upto(arr: Seq<Json>, n: nat, ctx: &'static str) -> Result<Seq<(i32, u32, bool)>, DecodeError>
    decreases n,
{
    if n == 0 {
        Ok(Seq::empty())
    } else {
        match (consumed_upto(arr, (n - 1) as nat, ctx), arr[n - 1]) {
            (Err(e), _) => Err(e),
            (Ok(s), Json::Object(o)) => match (as_int(member(o@, "item_id"@)), as_int(member(o@, "quantity"@))) {
                (None, _) => Err(entry_error(ctx, n - 1, Problem::Missing)),
                (Some(id), _) if !(i32::MIN <= id <= i32::MAX) => Err(entry_error(ctx, n - 1, Problem::OutOfRange)),
                (_, None) => Err(entry_error(ctx, n - 1, Problem::Missing)),
                (_, Some(q)) if !(i32::MIN <= q <= i32::MAX) => Err(entry_error(ctx, n - 1, Problem::OutOfRange)),
                (Some(id), Some(q)) => Ok(
                    s.push(
                        (
                            id as i32,
                            (if q < 0 {
                                0int
                            } else {
                                q as int
                            }) as u32,
                            is_cargo(member(o@, "item_type"@)),
                        ),
                    ),
                ),
            },
            (Ok(s), _) => Ok(s),
        }
    }
}

/// What a paving uses up. A cell with no list uses up nothing.
pub open spec fn consumed_in(cell: Cell, ctx: &'static str) -> Result<Seq<(i32, u32, bool)>, DecodeError> {
    match json_in(cell, ctx) {
        Err(e) => Err(e),
        Ok(Json::Array(arr)) => consumed_upto(arr@, arr@.len(), ctx),
        Ok(_) => Ok(Seq::empty()),
    }
}

/// The first error stays.
proof fn lemma_consumed_stops(arr: Seq<Json>, n: nat, m: nat, ctx: &'static str)
    requires
        n <= m,
        consumed_upto(arr, n, ctx) is Err,
    ensures
        consumed_upto(arr, m, ctx) == consumed_upto(arr, n, ctx),
    decreases m,
{
    if n < m {
        lemma_consumed_stops(arr, n, (m - 1) as nat, ctx);
    }
}

/// Whether a name is the word cargo.
fn spells_cargo(s: &str) -> (r: bool)
    ensures
        r <==> names_cargo(s@),
{
    let c = chars_of(s);
    c.len() == 5 && (c[0] == 'c' || c[0] == 'C') && (c[1] == 'a' || c[1] == 'A') && (c[2] == 'r' || c[2] == 'R') && (c[3]
        == 'g' || c[3] == 'G') && (c[4] == 'o' || c[4] == 'O')
}

/// A signed 32-bit member of a list entry.
fn entry_i32(v: Option<&Json>, i: usize, ctx: &'static str) -> (r: Result<i32, DecodeError>)
    ensures
        r == match as_int(match v {
            Some(j) => Some(*j),
            None => None,
        }) {
            None => Err::<i32, DecodeError>(entry_error(ctx, i as int, Problem::Missing)),
            Some(n) => if i32::MIN <= n <= i32::MAX {
                Ok(n as i32)
            } else {
                Err(entry_error(ctx, i as int, Problem::OutOfRange))
            },
        },
{
    match int_of(v) {
        None => Err(error_at(ctx, i, Problem::Missing)),
        Some(n) => if i32::MIN as i64 <= n && n <= i32::MAX as i64 {
            Ok(n as i32)
        } else {
            Err(error_at(ctx, i, Problem::OutOfRange))
        },
    }
}

/// What a paving uses up.
pub fn decode_consumed_stacks(cell: &Cell, ctx: &'static str) -> (r: Result<Vec<(i32, u32, bool)>, DecodeError>)
    ensures
        match r {
            Ok(v) => consumed_in(*cell, ctx) == Ok::<Seq<(i32, u32, bool)>, DecodeError>(v@),
            Err(e) => consumed_in(*cell, ctx) == Err::<Seq<(i32, u32, bool)>, DecodeError>(e),
        },
{
    let mut out: Vec<(i32, u32, bool)> = Vec::new();
    let arr: &[Json] = match cell_json(cell, ctx) {
        Err(e) => {
            return Err(e);
        },
        Ok(Json::Array(arr)) => arr.as_slice(),
        Ok(_) => {
            assert(out@ =~= Seq::<(i32, u32, bool)>::empty());
            return Ok(out);
        },
    };
    let mut i: usize = 0;
    while i < arr.len()
        invariant
            i <= arr@.len(),
            consumed_in(*cell, ctx) == consumed_upto(arr@, arr@.len(), ctx),
            consumed_upto(arr@, i as nat, ctx) == Ok::<Seq<(i32, u32, bool)>, DecodeError>(out@),
        decreases arr.len() - i,
    {
        if let Json::Object(o) = &arr[i] {
            let item_id: i32 = match entry_i32(get(o.as_slice(), "item_id"), i, ctx) {
                Ok(n) => n,
                Err(e) => {
                    proof {
                        lemma_consumed_stops(arr@, (i + 1) as nat, arr@.len(), ctx);
                    }
                    return Err(e);
                },
            };
            let quantity: i32 = match entry_i32(get(o.as_slice(), "quantity"), i, ctx) {
                Ok(n) => n,
                Err(e) => {
                    proof {
                        lemma_consumed_stops(arr@, (i + 1) as nat, arr@.len(), ctx);
                    }
                    return Err(e);
                },
            };
            let cargo: bool = match get(o.as_slice(), "item_type") {
                Some(Json::Object(t)) => t.len() > 0 && spells_cargo(t[0].0.as_str()),
                _ => false,
            };
            let count: u32 = if quantity < 0 {
                0
            } else {
                quantity as u32
            };
            out.push((item_id, count, cargo));
        }
        i += 1;
    }
    Ok(out)
}

} // verus!
