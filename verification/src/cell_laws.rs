//! Laws of the cells of a row: what is read out of a cell is what stands in it.

use vstd::prelude::*;

use crate::cell::{
    action_in, bounded_in, bounded_of, buff_of, buffs_in, consumed_in, consumed_upto, craft_status_in, crafted_in,
    crafted_of, each, experience_of, experiences_in, has_slots, hex_u64, i16_in, i16s_in, i32s_in, item_type_of,
    kind_in, location_in, low_i32, lower_case, opt_i32_in, opt_u64_in, place_of, pocket_of, pockets_in, schedule_in,
    single_of, singles_in, singles_of, snake, storage_in, timestamp_in, u16_in, u32_in, u64s_in, u8_in, u8s_in,
    upper_case, Cell, DeployableKind, PassiveCraftStatus,
};
use crate::hex_text::{bytes_of_hex, is_hex};
use crate::json::{as_int, has_member, lacks_member, law_members_are_found_by_name, member, Json, JsonNumber};
use crate::le_bytes::from_le;
use crate::schema::{entry_error, DecodeError, Problem};

verus! {

/// Whether a value is an object that gives a whole number under a name.
pub open spec fn says(v: Json, name: Seq<char>, n: int) -> bool {
    exists|m: JsonNumber| #[trigger] has_member(v, name, Json::Number(m)) && m.int == Some(n as i64) && n == n as i64
}

/// Whether a value is an object that has a member of a name.
pub open spec fn names(v: Json, name: Seq<char>) -> bool {
    exists|x: Json| has_member(v, name, x)
}

/// What is said is found.
proof fn lemma_says(v: Json, name: Seq<char>, n: int)
    requires
        says(v, name, n),
    ensures
        v is Object,
        as_int(member(v->Object_0@, name)) == Some(n as i64),
        n == n as i64,
{
    let m = choose|m: JsonNumber| #[trigger]
        has_member(v, name, Json::Number(m)) && m.int == Some(n as i64) && n == n as i64;
    law_members_are_found_by_name(v, name, Json::Number(m));
}

proof fn lemma_named(v: Json, name: Seq<char>)
    ensures
        names(v, name) ==> v is Object && member(v->Object_0@, name) is Some,
        lacks_member(v, name) && v is Object ==> member(v->Object_0@, name) is None,
{
    if names(v, name) {
        let x = choose|x: Json| has_member(v, name, x);
        law_members_are_found_by_name(v, name, x);
    }
    law_members_are_found_by_name(v, name, v);
}

/// A list that was read has an entry for each of the values.
proof fn lemma_each<T>(arr: Seq<Json>, n: nat, f: spec_fn(int, Json) -> Result<T, DecodeError>)
    requires
        n <= arr.len(),
    ensures
        each(arr, n, f) is Ok <==> forall|i: int| 0 <= i < n ==> f(i, #[trigger] arr[i]) is Ok,
        each(arr, n, f) is Ok ==> each(arr, n, f)->Ok_0.len() == n && forall|i: int|
            0 <= i < n ==> #[trigger] each(arr, n, f)->Ok_0[i] == f(i, arr[i])->Ok_0,
    decreases n,
{
    if n > 0 {
        lemma_each(arr, (n - 1) as nat, f);
        if each(arr, n, f) is Ok {
            assert forall|i: int| 0 <= i < n implies f(i, #[trigger] arr[i]) is Ok by {}
        }
        if forall|i: int| 0 <= i < n ==> f(i, #[trigger] arr[i]) is Ok {
            assert(f(n - 1, arr[n - 1]) is Ok);
        }
    }
}

/// A number keeps its value, whatever type it is carried in; a number that does
/// not fit is no number of the smaller type.
pub proof fn law_numbers_keep_their_value(a: i16, b: i32, c: i64, ctx: &'static str)
    ensures
        i16_in(Cell::Smallint(Some(a)), ctx) matches Ok(v) && v == a,
        u8_in(Cell::Smallint(Some(a)), ctx) is Ok <==> 0 <= a < 256,
        u16_in(Cell::Integer(Some(b)), ctx) is Ok <==> 0 <= b < 65_536,
        u32_in(Cell::Bigint(Some(c)), ctx) is Ok <==> 0 <= c < 4_294_967_296,
        u8_in(Cell::Smallint(Some(a)), ctx) matches Ok(v) ==> v == a,
        u16_in(Cell::Integer(Some(b)), ctx) matches Ok(v) ==> v == b,
        u32_in(Cell::Bigint(Some(c)), ctx) matches Ok(v) ==> v == c,
{
}

/// An optional number is the one under `some`; it is none under `none`, and
/// where the cell is null.
pub proof fn law_optional_numbers_are_told(v: Json, ctx: &'static str, n: i32, o: Option<i32>)
    ensures
        opt_i32_in(Cell::Integer(o), ctx) == Ok::<Option<i32>, DecodeError>(o),
        opt_i32_in(Cell::Jsonb(Json::Null), ctx) == Ok::<Option<i32>, DecodeError>(None),
        says(v, "some"@, n as int) ==> opt_i32_in(Cell::Jsonb(v), ctx) == Ok::<Option<i32>, DecodeError>(Some(n)),
        lacks_member(v, "some"@) && names(v, "none"@) ==> opt_i32_in(Cell::Jsonb(v), ctx)
            == Ok::<Option<i32>, DecodeError>(None),
{
    if says(v, "some"@, n as int) {
        lemma_says(v, "some"@, n as int);
    }
    lemma_named(v, "some"@);
    lemma_named(v, "none"@);
}

/// Whether a value is a text of eight bytes in hexadecimal, which are a number,
/// the lowest byte first.
pub open spec fn is_hex_id(v: Json, n: u64) -> bool {
    v matches Json::Text(s) && is_hex(s@) && s@.len() == 16 && n == from_le(bytes_of_hex(s@)) as u64
}

/// An optional id is the one under `some`, or the eight bytes of the cell; it is
/// none under `none`, and where the cell is null.
pub proof fn law_optional_ids_are_told(v: Json, x: Json, b: Vec<u8>, ctx: &'static str, n: u64)
    ensures
        b@.len() == 8 ==> opt_u64_in(Cell::Bytea(Some(b)), ctx) == Ok::<Option<u64>, DecodeError>(
            Some(from_le(b@) as u64),
        ),
        opt_u64_in(Cell::Bytea(None), ctx) == Ok::<Option<u64>, DecodeError>(None),
        opt_u64_in(Cell::Jsonb(Json::Null), ctx) == Ok::<Option<u64>, DecodeError>(None),
        has_member(v, "some"@, x) && is_hex_id(x, n) ==> opt_u64_in(Cell::Jsonb(v), ctx)
            == Ok::<Option<u64>, DecodeError>(Some(n)),
        lacks_member(v, "some"@) && names(v, "none"@) ==> opt_u64_in(Cell::Jsonb(v), ctx)
            == Ok::<Option<u64>, DecodeError>(None),
{
    law_members_are_found_by_name(v, "some"@, x);
    lemma_named(v, "some"@);
    lemma_named(v, "none"@);
}

/// A list of ids has each of them, in its place.
pub proof fn law_id_lists_are_read(arr: Vec<Json>, ctx: &'static str, r: Seq<u64>, i: int)
    requires
        u64s_in(Cell::Jsonb(Json::Array(arr)), ctx) == Ok::<Seq<u64>, DecodeError>(r),
    ensures
        r.len() == arr@.len(),
        0 <= i < r.len() ==> is_hex_id(arr@[i], r[i]),
{
    let f = |i: int, v: Json| hex_u64(v, entry_error(ctx, i, Problem::WrongType));
    lemma_each(arr@, arr@.len(), f);
    if 0 <= i < r.len() {
        assert(f(i, arr@[i]) is Ok);
    }
}

/// A list of numbers has each of them, in its place and with its value.
pub proof fn law_number_lists_are_read(
    arr: Vec<Json>,
    ctx: &'static str,
    a: Seq<i32>,
    b: Seq<i16>,
    c: Seq<u8>,
    i: int,
)
    requires
        0 <= i < arr@.len(),
    ensures
        i32s_in(Cell::Jsonb(Json::Array(arr)), ctx) == Ok::<Seq<i32>, DecodeError>(a) ==> a.len() == arr@.len() && (
        arr@[i] matches Json::Number(m) && m.int == Some(a[i] as i64)),
        i16s_in(Cell::Jsonb(Json::Array(arr)), ctx) == Ok::<Seq<i16>, DecodeError>(b) ==> b.len() == arr@.len() && (
        arr@[i] matches Json::Number(m) && m.int == Some(b[i] as i64)),
        u8s_in(Cell::Jsonb(Json::Array(arr)), ctx) == Ok::<Seq<u8>, DecodeError>(c) ==> c.len() == arr@.len() && (
        arr@[i] matches Json::Number(m) && m.int == Some(c[i] as i64)),
{
    lemma_bounded(arr, i32::MIN as int, i32::MAX as int, ctx, i);
    lemma_bounded(arr, i16::MIN as int, i16::MAX as int, ctx, i);
    lemma_bounded(arr, 0, u8::MAX as int, ctx, i);
}

proof fn lemma_bounded(arr: Vec<Json>, lo: int, hi: int, ctx: &'static str, i: int)
    requires
        0 <= i < arr@.len(),
    ensures
        bounded_in(Cell::Jsonb(Json::Array(arr)), lo, hi, ctx) matches Ok(s) ==> {
            &&& s.len() == arr@.len()
            &&& lo <= s[i] <= hi
            &&& arr@[i] matches Json::Number(m)
            &&& m.int == Some(s[i])
        },
{
    let f = |i: int, v: Json| bounded_of(v, lo, hi, entry_error(ctx, i, Problem::WrongType));
    lemma_each(arr@, arr@.len(), f);
    if bounded_in(Cell::Jsonb(Json::Array(arr)), lo, hi, ctx) is Ok {
        assert(f(i, arr@[i]) is Ok);
    }
}

/// The kind of an item is 0 for an item and 1 for cargo.
pub proof fn law_item_types_are_told(t: Json)
    ensures
        names(t, "Item"@) ==> item_type_of(Some(t)) == Some(0u8),
        lacks_member(t, "Item"@) && names(t, "Cargo"@) ==> item_type_of(Some(t)) == Some(1u8),
{
    lemma_named(t, "Item"@);
    lemma_named(t, "Cargo"@);
}

/// An inventory has a pocket for each entry. Each has the volume of the entry; a
/// pocket with contents has their item, quantity, kind and durability, and one
/// without has none.
pub proof fn law_pockets_hold_what_is_told(arr: Vec<Json>, i: int, c: Json, x: Json, t: Json, d: Json, n: int)
    requires
        pockets_in(Cell::Jsonb(Json::Array(arr))) is Ok,
        0 <= i < arr@.len(),
    ensures
        ({
            let s = pockets_in(Cell::Jsonb(Json::Array(arr)))->Ok_0;
            let p = s[i];
            &&& s.len() == arr@.len()
            &&& says(arr@[i], "volume"@, n) ==> p.volume == n
            &&& lacks_member(arr@[i], "contents"@) ==> !p.has_contents && p.item_id == 0 && p.quantity == 0
            &&& has_member(arr@[i], "contents"@, c) && lacks_member(c, "some"@) ==> !p.has_contents && p.item_id == 0
                && p.quantity == 0
            &&& has_member(arr@[i], "contents"@, c) && has_member(c, "some"@, x) ==> {
                &&& p.has_contents
                &&& says(x, "item_id"@, n) ==> p.item_id == n
                &&& says(x, "quantity"@, n) ==> p.quantity == n
                &&& has_member(x, "item_type"@, t) ==> item_type_of(Some(t)) == Some(p.item_type)
                &&& lacks_member(x, "durability"@) ==> !p.has_durability
                &&& has_member(x, "durability"@, d) && lacks_member(d, "some"@) ==> !p.has_durability
                &&& has_member(x, "durability"@, d) && says(d, "some"@, n) && i32::MIN <= n <= i32::MAX
                    ==> p.has_durability && p.durability == n
            }
        }),
{
    let f = |i: int, v: Json| pocket_of(v);
    lemma_each(arr@, arr@.len(), f);
    let v = arr@[i];
    assert(f(i, v) is Ok);
    law_members_are_found_by_name(v, "contents"@, c);
    law_members_are_found_by_name(c, "some"@, x);
    law_members_are_found_by_name(x, "item_type"@, t);
    law_members_are_found_by_name(x, "durability"@, d);
    lemma_named(v, "contents"@);
    lemma_named(c, "some"@);
    lemma_named(x, "durability"@);
    lemma_named(d, "some"@);
    if says(v, "volume"@, n) {
        lemma_says(v, "volume"@, n);
    }
    if says(x, "item_id"@, n) {
        lemma_says(x, "item_id"@, n);
    }
    if says(x, "quantity"@, n) {
        lemma_says(x, "quantity"@, n);
    }
    if says(d, "some"@, n) {
        lemma_says(d, "some"@, n);
    }
}

/// There is a buff for each entry, with its id, start, duration and values.
pub proof fn law_buffs_are_read(arr: Vec<Json>, i: int, t: Json, m: JsonNumber, a: Vec<Json>, k: int, n: int)
    requires
        buffs_in(Cell::Jsonb(Json::Array(arr))) is Ok,
        0 <= i < arr@.len(),
    ensures
        ({
            let s = buffs_in(Cell::Jsonb(Json::Array(arr)))->Ok_0;
            let b = s[i];
            &&& s.len() == arr@.len()
            &&& says(arr@[i], "buff_id"@, n) ==> b.buff_id == n
            &&& says(arr@[i], "buff_duration"@, n) ==> b.duration == n
            &&& has_member(arr@[i], "buff_start_timestamp"@, t) && says(t, "value"@, n) ==> b.start_timestamp == n
            &&& says(arr@[i], "buff_start_timestamp"@, n) && i32::MIN <= n <= i32::MAX ==> b.start_timestamp == n
            &&& has_member(arr@[i], "values"@, Json::Array(a)) ==> b.values.len() == a@.len() && (0 <= k < a@.len()
                && a@[k] == Json::Number(m) ==> b.values[k].bits == m.single)
        }),
{
    let f = |i: int, v: Json| buff_of(i, v);
    lemma_each(arr@, arr@.len(), f);
    let v = arr@[i];
    assert(f(i, v) is Ok);
    law_members_are_found_by_name(v, "buff_start_timestamp"@, t);
    law_members_are_found_by_name(v, "values"@, Json::Array(a));
    if says(v, "buff_id"@, n) {
        lemma_says(v, "buff_id"@, n);
    }
    if says(v, "buff_duration"@, n) {
        lemma_says(v, "buff_duration"@, n);
    }
    if says(t, "value"@, n) {
        lemma_says(t, "value"@, n);
    }
    if says(v, "buff_start_timestamp"@, n) && i32::MIN <= n <= i32::MAX {
        lemma_says(v, "buff_start_timestamp"@, n);
        lemma_low(n as i64);
    }
    if has_member(v, "values"@, Json::Array(a)) {
        lemma_singles(a, "active_buffs.values", Some(i as usize));
        if 0 <= k < a@.len() {
            assert(a@[k] is Number);
        }
    }
}

/// A number that fits is its own low 32 bits.
proof fn lemma_low(n: i64)
    requires
        i32::MIN <= n <= i32::MAX,
    ensures
        low_i32(n) == n,
{
}

proof fn lemma_singles(a: Vec<Json>, ctx: &'static str, outer: Option<usize>)
    ensures
        singles_of(Some(Json::Array(a)), ctx, outer) matches Ok(s) ==> s.len() == a@.len() && forall|k: int|
            0 <= k < a@.len() ==> (#[trigger] a@[k] matches Json::Number(m) && s[k].bits == m.single),
{
    let f = |i: int, v: Json|
        single_of(v, DecodeError { context: ctx, outer, inner: Some(i as usize), problem: Problem::WrongType });
    lemma_each(a@, a@.len(), f);
    if singles_of(Some(Json::Array(a)), ctx, outer) is Ok {
        assert forall|k: int| 0 <= k < a@.len() implies (#[trigger] a@[k] matches Json::Number(m) && singles_of(
            Some(Json::Array(a)),
            ctx,
            outer,
        )->Ok_0[k].bits == m.single) by {
            assert(f(k, a@[k]) is Ok);
        }
    }
}

/// A list of single-precision numbers has each of them, in its place.
pub proof fn law_single_lists_are_read(arr: Vec<Json>, ctx: &'static str, m: JsonNumber, k: int)
    requires
        singles_in(Cell::Jsonb(Json::Array(arr)), ctx) is Ok,
    ensures
        ({
            let s = singles_in(Cell::Jsonb(Json::Array(arr)), ctx)->Ok_0;
            &&& s.len() == arr@.len()
            &&& 0 <= k < arr@.len() && arr@[k] == Json::Number(m) ==> s[k].bits == m.single
        }),
{
    lemma_singles(arr, ctx, None);
    if 0 <= k < arr@.len() {
        assert(arr@[k] is Number);
    }
}

/// A recipe makes something for each entry: its item, quantity and kind.
pub proof fn law_crafted_stacks_are_read(arr: Vec<Json>, i: int, t: Json, n: int)
    requires
        crafted_in(Cell::Jsonb(Json::Array(arr))) is Ok,
        0 <= i < arr@.len(),
    ensures
        ({
            let s = crafted_in(Cell::Jsonb(Json::Array(arr)))->Ok_0;
            &&& s.len() == arr@.len()
            &&& says(arr@[i], "item_id"@, n) ==> s[i].item_id == n
            &&& says(arr@[i], "quantity"@, n) ==> s[i].quantity == n
            &&& has_member(arr@[i], "item_type"@, t) ==> item_type_of(Some(t)) == Some(s[i].item_type)
        }),
{
    let f = |i: int, v: Json| crafted_of(i, v);
    lemma_each(arr@, arr@.len(), f);
    let v = arr@[i];
    assert(f(i, v) is Ok);
    law_members_are_found_by_name(v, "item_type"@, t);
    if says(v, "item_id"@, n) {
        lemma_says(v, "item_id"@, n);
    }
    if says(v, "quantity"@, n) {
        lemma_says(v, "quantity"@, n);
    }
}

/// There is experience for each entry: its skill and how much.
pub proof fn law_experience_is_read(arr: Vec<Json>, i: int, n: int)
    requires
        experiences_in(Cell::Jsonb(Json::Array(arr))) is Ok,
        0 <= i < arr@.len(),
    ensures
        ({
            let s = experiences_in(Cell::Jsonb(Json::Array(arr)))->Ok_0;
            &&& s.len() == arr@.len()
            &&& says(arr@[i], "skill_id"@, n) ==> s[i].0 == n
            &&& says(arr@[i], "quantity"@, n) ==> s[i].1 == n
        }),
{
    let f = |i: int, v: Json| experience_of(v);
    lemma_each(arr@, arr@.len(), f);
    let v = arr@[i];
    assert(f(i, v) is Ok);
    if says(v, "skill_id"@, n) {
        lemma_says(v, "skill_id"@, n);
    }
    if says(v, "quantity"@, n) {
        lemma_says(v, "quantity"@, n);
    }
}

/// A building stores things if one of its functions has slots for items or for
/// cargo, and not if none names any.
pub proof fn law_buildings_with_slots_store(arr: Vec<Json>, i: int, n: int)
    ensures
        0 <= i < arr@.len() && n > 0 && (says(arr@[i], "storage_slots"@, n) || says(arr@[i], "cargo_slots"@, n))
            ==> storage_in(Cell::Jsonb(Json::Array(arr))) == Ok::<bool, DecodeError>(true),
        (forall|k: int|
            0 <= k < arr@.len() ==> lacks_member(#[trigger] arr@[k], "storage_slots"@) && lacks_member(
                arr@[k],
                "cargo_slots"@,
            )) ==> storage_in(Cell::Jsonb(Json::Array(arr))) == Ok::<bool, DecodeError>(false),
{
    if 0 <= i < arr@.len() {
        if says(arr@[i], "storage_slots"@, n) {
            lemma_says(arr@[i], "storage_slots"@, n);
            assert(n > 0 ==> has_slots(arr@[i]));
        }
        if says(arr@[i], "cargo_slots"@, n) {
            lemma_says(arr@[i], "cargo_slots"@, n);
            assert(n > 0 ==> has_slots(arr@[i]));
        }
    }
    if forall|k: int|
        0 <= k < arr@.len() ==> lacks_member(#[trigger] arr@[k], "storage_slots"@) && lacks_member(
            arr@[k],
            "cargo_slots"@,
        ) {
        assert forall|k: int| 0 <= k < arr@.len() implies !has_slots(#[trigger] arr@[k]) by {
            lemma_named(arr@[k], "storage_slots"@);
            lemma_named(arr@[k], "cargo_slots"@);
        }
    }
}

/// What an item is carried by is the kind that its object names.
pub proof fn law_kinds_are_told(v: Json)
    requires
        v is Object,
    ensures
        ({
            let r = kind_in(Cell::Jsonb(v));
            let (cart, cache) = (lacks_member(v, "Cart"@), lacks_member(v, "Cache"@));
            let (mount, boat) = (lacks_member(v, "Mount"@), lacks_member(v, "Boat"@));
            &&& names(v, "Cart"@) ==> r == Ok::<DeployableKind, DecodeError>(DeployableKind::Cart)
            &&& cart && names(v, "Cache"@) ==> r == Ok::<DeployableKind, DecodeError>(DeployableKind::Cache)
            &&& cart && cache && names(v, "Mount"@) ==> r == Ok::<DeployableKind, DecodeError>(DeployableKind::Mount)
            &&& cart && cache && mount && names(v, "Boat"@) ==> r == Ok::<DeployableKind, DecodeError>(
                DeployableKind::Boat,
            )
            &&& cart && cache && mount && boat ==> r == Ok::<DeployableKind, DecodeError>(DeployableKind::Other)
        }),
{
    lemma_named(v, "Cart"@);
    lemma_named(v, "Cache"@);
    lemma_named(v, "Mount"@);
    lemma_named(v, "Boat"@);
}

/// The state of a passive craft is the one that its object names first.
pub proof fn law_craft_states_are_told(o: Vec<(String, Json)>)
    requires
        o@.len() > 0,
    ensures
        ({
            let (r, name) = (craft_status_in(Cell::Jsonb(Json::Object(o))), o@[0].0@);
            &&& name == "Queued"@ ==> r == Ok::<PassiveCraftStatus, DecodeError>(PassiveCraftStatus::Queued)
            &&& name == "Processing"@ ==> r == Ok::<PassiveCraftStatus, DecodeError>(PassiveCraftStatus::Processing)
            &&& name == "Complete"@ ==> r == Ok::<PassiveCraftStatus, DecodeError>(PassiveCraftStatus::Complete)
            &&& r is Ok ==> name == "Queued"@ || name == "Processing"@ || name == "Complete"@
        }),
{
    reveal_strlit("Queued");
    reveal_strlit("Processing");
    reveal_strlit("Complete");
    assert("Queued"@[0] != "Processing"@[0]);
    assert("Queued"@[0] != "Complete"@[0]);
    assert("Complete"@[0] != "Processing"@[0]);
}

/// An entry of the storage log tells 2 for what was put in, 1 for what was taken
/// out and 0 for what was reserved, with the item, its kind and its quantity.
pub proof fn law_log_entries_are_told(v: Json, x: Json, y: Json, t: Json, n: int, a: (u8, i32, u8, i32))
    requires
        action_in(Cell::Jsonb(v)) == Ok::<(u8, i32, u8, i32), DecodeError>(a),
    ensures
        has_member(v, "DepositItem"@, x) ==> a.0 == 2 && tells_stack(x, t, n, a),
        lacks_member(v, "DepositItem"@) && has_member(v, "WithdrawItem"@, x) ==> a.0 == 1 && tells_stack(x, t, n, a),
        lacks_member(v, "DepositItem"@) && lacks_member(v, "WithdrawItem"@) && has_member(v, "Reserved"@, y)
            && has_member(y, "item1"@, x) ==> a.0 == 0 && tells_stack(x, t, n, a),
{
    law_members_are_found_by_name(v, "DepositItem"@, x);
    law_members_are_found_by_name(v, "WithdrawItem"@, x);
    law_members_are_found_by_name(v, "Reserved"@, y);
    law_members_are_found_by_name(y, "item1"@, x);
    lemma_named(v, "DepositItem"@);
    lemma_named(v, "WithdrawItem"@);
    law_members_are_found_by_name(x, "item_type"@, t);
    if says(x, "item_id"@, n) {
        lemma_says(x, "item_id"@, n);
    }
    if says(x, "quantity"@, n) {
        lemma_says(x, "quantity"@, n);
    }
}

/// Whether an entry of the log has the item, the kind and the quantity of a
/// stack, as far as the stack says them.
pub open spec fn tells_stack(x: Json, t: Json, n: int, a: (u8, i32, u8, i32)) -> bool {
    &&& says(x, "item_id"@, n) ==> a.1 == n
    &&& says(x, "quantity"@, n) ==> a.3 == n
    &&& has_member(x, "item_type"@, t) ==> item_type_of(Some(t)) == Some(a.2)
}

/// A paving uses up something for each entry that is an object, in their order:
/// its item, its quantity, where none is below 0, and whether its kind is cargo.
pub proof fn law_used_up_stacks_are_read(
    arr: Vec<Json>,
    ctx: &'static str,
    i: int,
    t: Vec<(String, Json)>,
    n: int,
)
    requires
        consumed_in(Cell::Jsonb(Json::Array(arr)), ctx) is Ok,
        forall|k: int| 0 <= k < arr@.len() ==> (#[trigger] arr@[k]) is Object,
        0 <= i < arr@.len(),
    ensures
        ({
            let s = consumed_in(Cell::Jsonb(Json::Array(arr)), ctx)->Ok_0;
            &&& s.len() == arr@.len()
            &&& says(arr@[i], "item_id"@, n) ==> s[i].0 == n
            &&& says(arr@[i], "quantity"@, n) ==> s[i].1 == (if n < 0 {
                0
            } else {
                n
            })
            &&& has_member(arr@[i], "item_type"@, Json::Object(t)) && t@.len() > 0 ==> {
                &&& t@[0].0@ == "Cargo"@ ==> s[i].2
                &&& t@[0].0@ == "Item"@ ==> !s[i].2
            }
            &&& lacks_member(arr@[i], "item_type"@) ==> !s[i].2
        }),
{
    lemma_consumed(arr@, arr@.len(), ctx, i, t, n);
}

proof fn lemma_consumed(arr: Seq<Json>, m: nat, ctx: &'static str, i: int, t: Vec<(String, Json)>, n: int)
    requires
        consumed_upto(arr, m, ctx) is Ok,
        forall|k: int| 0 <= k < arr.len() ==> (#[trigger] arr[k]) is Object,
        m <= arr.len(),
    ensures
        consumed_upto(arr, m, ctx)->Ok_0.len() == m,
        0 <= i < m ==> {
            let s = consumed_upto(arr, m, ctx)->Ok_0;
            &&& says(arr[i], "item_id"@, n) ==> s[i].0 == n
            &&& says(arr[i], "quantity"@, n) ==> s[i].1 == (if n < 0 {
                0
            } else {
                n
            })
            &&& has_member(arr[i], "item_type"@, Json::Object(t)) && t@.len() > 0 ==> {
                &&& t@[0].0@ == "Cargo"@ ==> s[i].2
                &&& t@[0].0@ == "Item"@ ==> !s[i].2
            }
            &&& lacks_member(arr[i], "item_type"@) ==> !s[i].2
        },
    decreases m,
{
    if m > 0 {
        lemma_consumed(arr, (m - 1) as nat, ctx, i, t, n);
        let v = arr[m - 1];
        assert(v is Object);
        if i == m - 1 {
            reveal_strlit("Cargo");
            reveal_strlit("Item");
            law_members_are_found_by_name(v, "item_type"@, Json::Object(t));
            lemma_named(v, "item_type"@);
            if says(v, "item_id"@, n) {
                lemma_says(v, "item_id"@, n);
            }
            if says(v, "quantity"@, n) {
                lemma_says(v, "quantity"@, n);
            }
        }
    }
}

/// The place of a claim is the one that its object gives, itself or under
/// `some`; a claim without one has none.
pub proof fn law_places_are_told(v: Json, x: Json, n: int, r: (bool, i32, i32, u32))
    requires
        location_in(Cell::Jsonb(v)) == Ok::<(bool, i32, i32, u32), DecodeError>(r),
        v is Object,
    ensures
        has_member(v, "some"@, x) ==> r.0 && tells_place(x, n, r),
        lacks_member(v, "some"@) && names(v, "x"@) && names(v, "z"@) ==> r.0 && tells_place(v, n, r),
        lacks_member(v, "some"@) && (lacks_member(v, "x"@) || lacks_member(v, "z"@)) ==> !r.0,
{
    law_members_are_found_by_name(v, "some"@, x);
    lemma_named(v, "some"@);
    lemma_named(v, "x"@);
    lemma_named(v, "z"@);
    lemma_place(v, n);
    lemma_place(x, n);
}

/// Whether a place has the tile and the dimension that an object gives, as far
/// as it gives them.
pub open spec fn tells_place(v: Json, n: int, r: (bool, i32, i32, u32)) -> bool {
    &&& says(v, "x"@, n) ==> r.1 == n
    &&& says(v, "z"@, n) ==> r.2 == n
    &&& forall|m: JsonNumber| #[trigger]
        has_member(v, "dimension"@, Json::Number(m)) ==> (m.uint matches Some(d) && r.3 == d)
}

proof fn lemma_place(v: Json, n: int)
    ensures
        v matches Json::Object(o) ==> (place_of(o@) matches Ok(r) ==> tells_place(v, n, r)),
{
    if says(v, "x"@, n) {
        lemma_says(v, "x"@, n);
    }
    if says(v, "z"@, n) {
        lemma_says(v, "z"@, n);
    }
    assert forall|m: JsonNumber| #[trigger] has_member(v, "dimension"@, Json::Number(m)) implies (v matches Json::Object(
        o,
    ) ==> (place_of(o@) matches Ok(r) ==> (m.uint matches Some(d) && r.3 == d))) by {
        law_members_are_found_by_name(v, "dimension"@, Json::Number(m));
    }
}

/// A point in time is the number of the cell, or the one that its object wraps;
/// a schedule is at the point in time of its payload, and at none where the
/// payload gives none.
pub proof fn law_times_are_told(v: Json, ctx: &'static str, n: i64, o: Vec<(String, Json)>, a: Vec<Json>)
    ensures
        timestamp_in(Cell::Bigint(Some(n)), ctx) == Ok::<i64, DecodeError>(n),
        says(v, "__timestamp_micros_since_unix_epoch__"@, n as int) ==> timestamp_in(Cell::Jsonb(v), ctx) == Ok::<
            i64,
            DecodeError,
        >(n),
        o@.len() > 0 && says(o@[0].1, "__timestamp_micros_since_unix_epoch__"@, n as int) ==> schedule_in(
            Cell::Jsonb(Json::Object(o)),
            ctx,
        ) == Ok::<Option<i64>, DecodeError>(Some(n)),
        a@.len() > 1 && says(a@[1], "__timestamp_micros_since_unix_epoch__"@, n as int) ==> schedule_in(
            Cell::Jsonb(Json::Array(a)),
            ctx,
        ) == Ok::<Option<i64>, DecodeError>(Some(n)),
        o@.len() > 0 && o@[0].1 is Object && lacks_member(o@[0].1, "__timestamp_micros_since_unix_epoch__"@)
            ==> schedule_in(Cell::Jsonb(Json::Object(o)), ctx) == Ok::<Option<i64>, DecodeError>(None),
{
    let name = "__timestamp_micros_since_unix_epoch__"@;
    if says(v, name, n as int) {
        lemma_says(v, name, n as int);
    }
    if o@.len() > 0 {
        lemma_named(o@[0].1, name);
        if says(o@[0].1, name, n as int) {
            lemma_says(o@[0].1, name, n as int);
        }
    }
    if a@.len() > 1 && says(a@[1], name, n as int) {
        lemma_says(a@[1], name, n as int);
    }
}

/// A name without capitals is its own snake case, and one capital at its start
/// only becomes small; each further capital is set off by an underscore.
pub proof fn law_snake_case_sets_capitals_off(s: Seq<char>, c: char)
    ensures
        (forall|i: int| 0 <= i < s.len() ==> !upper_case(#[trigger] s[i])) ==> snake(s, s.len()) == s,
        upper_case(c) ==> snake(seq![c], 1) == lower_case(c),
        upper_case(c) && s.len() > 0 ==> snake(s.push(c), s.len() + 1) == snake(s, s.len()) + seq!['_']
            + lower_case(c),
{
    if forall|i: int| 0 <= i < s.len() ==> !upper_case(#[trigger] s[i]) {
        lemma_small(s, s.len());
        assert(s.take(s.len() as int) =~= s);
    }
    reveal_with_fuel(snake, 2);
    assert(Seq::<char>::empty() + lower_case(c) =~= lower_case(c));
    lemma_snake_prefix(s, s.push(c), s.len());
    assert(snake(s, s.len()).push('_') =~= snake(s, s.len()) + seq!['_']);
}

proof fn lemma_small(s: Seq<char>, n: nat)
    requires
        n <= s.len(),
        forall|i: int| 0 <= i < s.len() ==> !upper_case(#[trigger] s[i]),
    ensures
        snake(s, n) == s.take(n as int),
    decreases n,
{
    if n > 0 {
        lemma_small(s, (n - 1) as nat);
        assert(s.take(n as int) =~= s.take(n - 1).push(s[n - 1]));
    } else {
        assert(s.take(0) =~= Seq::<char>::empty());
    }
}

proof fn lemma_snake_prefix(s: Seq<char>, t: Seq<char>, n: nat)
    requires
        n <= s.len(),
        n <= t.len(),
        s.take(n as int) =~= t.take(n as int),
    ensures
        snake(s, n) == snake(t, n),
    decreases n,
{
    if n > 0 {
        assert(s[n - 1] == s.take(n as int)[n - 1]);
        assert(t[n - 1] == t.take(n as int)[n - 1]);
        assert(s.take(n - 1) =~= s.take(n as int).take(n - 1));
        assert(t.take(n - 1) =~= t.take(n as int).take(n - 1));
        lemma_snake_prefix(s, t, (n - 1) as nat);
    }
}

} // verus!
