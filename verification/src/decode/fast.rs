//! Rows read by the position of their columns in the bytes.
//!
//! A row holds its columns one after the other, each in little-endian bytes.
//! Where every column up to the ones that are read has a fixed width, and these
//! have the types that are expected, their positions are known, and nothing
//! else of the row is looked at. Such a reader never changes what a row says.

use vstd::prelude::*;

use crate::cell::Cell;
use crate::decode::columns::{
    ExtractionRecipeCols, LocationCols, ResourceCols, EXTRACTION_RECIPE_TABLE, LOCATION_TABLE, RESOURCE_TABLE,
};
use crate::decode::rows::{ExtractionRecipeRow, LocationRow, ResourceRow};
use crate::le_bytes::{from_le, i32_of_bits, law_from_le_round_trip, pow256, read_le, signed32};
use crate::schema::{
    columns, field_from, fixed_field_offset, offset_in, position_of, span, width, MirroredField, MirroredSchema,
    MirroredType,
};

verus! {

/// Whether a cell holds what the bytes of a column of a type spell. Types that
/// no column read here has are left open.
pub open spec fn cell_spells(ty: MirroredType, cell: Cell, bytes: Seq<u8>) -> bool {
    match ty {
        MirroredType::U64 => cell matches Cell::Bytea(Some(b)) && b@ == bytes,
        MirroredType::I32 => cell matches Cell::Integer(Some(n)) && n == signed32(from_le(bytes)),
        MirroredType::U32 => cell matches Cell::Bigint(Some(n)) && n == from_le(bytes),
        _ => true,
    }
}

/// Whether cells are those that the bytes of a row spell: a column stands
/// directly behind the one before it.
pub open spec fn row_spells(fields: Seq<MirroredField>, row: Seq<u8>, cells: Seq<Cell>) -> bool {
    &&& cells.len() == fields.len()
    &&& forall|k: int|
        0 <= k < fields.len() && span(fields, (k + 1) as nat) is Some ==> {
            &&& span(fields, (k + 1) as nat)->0 <= row.len()
            &&& cell_spells(
                fields[k].ty,
                #[trigger] cells[k],
                row.subrange(span(fields, k as nat)->0 as int, span(fields, (k + 1) as nat)->0 as int),
            )
        }
}

/// Position of a named column of a type in the bytes of a row.
pub open spec fn typed_offset(fields: Seq<MirroredField>, name: Seq<char>, ty: MirroredType) -> Option<nat> {
    match field_from(fields, name, 0) {
        Some(i) => if fields[i].ty == ty {
            offset_in(fields, name)
        } else {
            None
        },
        None => None,
    }
}

/// Finds a named column of a type in the bytes of a row.
fn offset_of(fields: &[MirroredField], name: &str, ty: MirroredType) -> (r: Option<usize>)
    requires
        32 * fields@.len() <= usize::MAX,
    ensures
        match r {
            Some(o) => typed_offset(fields@, name@, ty) == Some(o as nat),
            None => typed_offset(fields@, name@, ty) is None,
        },
{
    match position_of(fields, name) {
        Some(i) => if fields[i].ty == ty {
            fixed_field_offset(fields, name)
        } else {
            None
        },
        None => None,
    }
}

/// The cell of a named column of a type holds what its bytes in the row spell.
proof fn lemma_column_spells(
    fields: Seq<MirroredField>,
    row: Seq<u8>,
    cells: Seq<Cell>,
    name: Seq<char>,
    ty: MirroredType,
    offset: nat,
    at: int,
)
    requires
        row_spells(fields, row, cells),
        typed_offset(fields, name, ty) == Some(offset),
        field_from(fields, name, 0) == Some(at),
        0 <= at < fields.len(),
        width(ty) is Some,
    ensures
        offset + width(ty)->0 <= row.len(),
        cell_spells(ty, cells[at], row.subrange(offset as int, (offset + width(ty)->0) as int)),
        from_le(row.subrange(offset as int, (offset + width(ty)->0) as int)) < pow256(width(ty)->0),
{
    assert(span(fields, (at + 1) as nat) is Some);
    assert(span(fields, at as nat) == Some(offset));
    assert(span(fields, (at + 1) as nat) == Some(offset + width(ty)->0));
    let _ = cells[at];
    law_from_le_round_trip(row.subrange(offset as int, (offset + width(ty)->0) as int));
}

/// The 64-bit number at a position.
fn read_u64(row: &[u8], off: usize) -> (r: Option<u64>)
    ensures
        match r {
            Some(v) => off + 8 <= row@.len() && v == from_le(row@.subrange(off as int, off + 8)),
            None => off + 8 > row@.len(),
        },
{
    read_le(row, off, 8)
}

/// The unsigned 32-bit number at a position.
fn read_u32(row: &[u8], off: usize) -> (r: Option<u32>)
    ensures
        match r {
            Some(v) => off + 4 <= row@.len() && v == from_le(row@.subrange(off as int, off + 4)),
            None => off + 4 > row@.len(),
        },
{
    proof {
        reveal_with_fuel(pow256, 5);
    }
    match read_le(row, off, 4) {
        Some(v) => Some(v as u32),
        None => None,
    }
}

/// The signed 32-bit number at a position.
fn read_i32(row: &[u8], off: usize) -> (r: Option<i32>)
    ensures
        match r {
            Some(v) => off + 4 <= row@.len() && v == signed32(from_le(row@.subrange(off as int, off + 4))),
            None => off + 4 > row@.len(),
        },
{
    match read_u32(row, off) {
        Some(b) => Some(i32_of_bits(b)),
        None => None,
    }
}

/// Reads rows of `location_state` by position.
#[derive(Debug, Clone, Copy)]
pub struct LocationFast {
    pub entity_id: usize,
    pub x: usize,
    pub z: usize,
    pub dimension: usize,
}

impl LocationFast {
    /// The positions of the columns in the bytes of a row.
    pub open spec fn found(self, fields: Seq<MirroredField>) -> bool {
        &&& typed_offset(fields, "entity_id"@, MirroredType::U64) == Some(self.entity_id as nat)
        &&& typed_offset(fields, "x"@, MirroredType::I32) == Some(self.x as nat)
        &&& typed_offset(fields, "z"@, MirroredType::I32) == Some(self.z as nat)
        &&& typed_offset(fields, "dimension"@, MirroredType::U32) == Some(self.dimension as nat)
    }

    /// Whether every column has a fixed position.
    pub open spec fn possible(fields: Seq<MirroredField>) -> bool {
        &&& typed_offset(fields, "entity_id"@, MirroredType::U64) is Some
        &&& typed_offset(fields, "x"@, MirroredType::I32) is Some
        &&& typed_offset(fields, "z"@, MirroredType::I32) is Some
        &&& typed_offset(fields, "dimension"@, MirroredType::U32) is Some
    }

    /// Whether a row of a given length holds the columns.
    pub open spec fn within(self, len: nat) -> bool {
        &&& self.entity_id + 8 <= len
        &&& self.x + 4 <= len
        &&& self.z + 4 <= len
        &&& self.dimension + 4 <= len
    }

    /// The reader of rows with given columns, where their positions are fixed.
    pub fn try_from_fields(fields: &[MirroredField]) -> (r: Option<Self>)
        requires
            32 * fields@.len() <= usize::MAX,
        ensures
            match r {
                Some(f) => f.found(fields@),
                None => !Self::possible(fields@),
            },
    {
        let entity_id: usize = offset_of(fields, "entity_id", MirroredType::U64)?;
        let x: usize = offset_of(fields, "x", MirroredType::I32)?;
        let z: usize = offset_of(fields, "z", MirroredType::I32)?;
        let dimension: usize = offset_of(fields, "dimension", MirroredType::U32)?;
        Some(LocationFast { entity_id, x, z, dimension })
    }

    /// What the bytes of a row say.
    pub open spec fn reads(self, row: Seq<u8>, v: LocationRow) -> bool {
        &&& v.entity_id == from_le(row.subrange(self.entity_id as int, self.entity_id + 8))
        &&& v.x == signed32(from_le(row.subrange(self.x as int, self.x + 4)))
        &&& v.z == signed32(from_le(row.subrange(self.z as int, self.z + 4)))
        &&& v.dimension == from_le(row.subrange(self.dimension as int, self.dimension + 4))
    }

    /// The row that the bytes spell; `None` where they are too few.
    pub fn decode(&self, row: &[u8]) -> (r: Option<LocationRow>)
        ensures
            match r {
                Some(v) => self.within(row@.len()) && self.reads(row@, v),
                None => !self.within(row@.len()),
            },
    {
        let entity_id: u64 = read_u64(row, self.entity_id)?;
        let x: i32 = read_i32(row, self.x)?;
        let z: i32 = read_i32(row, self.z)?;
        let dimension: u32 = read_u32(row, self.dimension)?;
        Some(LocationRow { entity_id, x, z, dimension })
    }
}

/// Reading a row of `location_state` by position gives what reading its cells gives:
/// the row is long enough, the cells can be read, and the bytes say just what
/// the cells say: the one row that is read either way is the same.
pub proof fn law_location_by_position(
    schema: MirroredSchema,
    fast: LocationFast,
    cols: LocationCols,
    row: Seq<u8>,
    cells: Seq<Cell>,
    v: LocationRow,
    w: LocationRow,
)
    requires
        cols.found(schema),
        fast.found(columns(schema, LOCATION_TABLE)->Ok_0),
        row_spells(columns(schema, LOCATION_TABLE)->Ok_0, row, cells),
    ensures
        fast.within(row.len()),
        fast.reads(row, v) <==> v.reads(cells, cols),
        fast.reads(row, v) && w.reads(cells, cols) ==> v == w,
        LocationRow::error(cells, cols) is None,
{
    let fields = columns(schema, LOCATION_TABLE)->Ok_0;
    lemma_column_spells(
        fields,
        row,
        cells,
        "entity_id"@,
        MirroredType::U64,
        fast.entity_id as nat,
        cols.entity_id as int,
    );
    lemma_column_spells(
        fields,
        row,
        cells,
        "x"@,
        MirroredType::I32,
        fast.x as nat,
        cols.x as int,
    );
    lemma_column_spells(
        fields,
        row,
        cells,
        "z"@,
        MirroredType::I32,
        fast.z as nat,
        cols.z as int,
    );
    lemma_column_spells(
        fields,
        row,
        cells,
        "dimension"@,
        MirroredType::U32,
        fast.dimension as nat,
        cols.dimension as int,
    );
    reveal_with_fuel(pow256, 9);
}

/// Reads rows of `resource_state` by position.
#[derive(Debug, Clone, Copy)]
pub struct ResourceFast {
    pub entity_id: usize,
    pub resource_id: usize,
    pub direction_index: usize,
}

impl ResourceFast {
    /// The positions of the columns in the bytes of a row.
    pub open spec fn found(self, fields: Seq<MirroredField>) -> bool {
        &&& typed_offset(fields, "entity_id"@, MirroredType::U64) == Some(self.entity_id as nat)
        &&& typed_offset(fields, "resource_id"@, MirroredType::I32) == Some(self.resource_id as nat)
        &&& typed_offset(fields, "direction_index"@, MirroredType::I32) == Some(self.direction_index as nat)
    }

    /// Whether every column has a fixed position.
    pub open spec fn possible(fields: Seq<MirroredField>) -> bool {
        &&& typed_offset(fields, "entity_id"@, MirroredType::U64) is Some
        &&& typed_offset(fields, "resource_id"@, MirroredType::I32) is Some
        &&& typed_offset(fields, "direction_index"@, MirroredType::I32) is Some
    }

    /// Whether a row of a given length holds the columns.
    pub open spec fn within(self, len: nat) -> bool {
        &&& self.entity_id + 8 <= len
        &&& self.resource_id + 4 <= len
        &&& self.direction_index + 4 <= len
    }

    /// The reader of rows with given columns, where their positions are fixed.
    pub fn try_from_fields(fields: &[MirroredField]) -> (r: Option<Self>)
        requires
            32 * fields@.len() <= usize::MAX,
        ensures
            match r {
                Some(f) => f.found(fields@),
                None => !Self::possible(fields@),
            },
    {
        let entity_id: usize = offset_of(fields, "entity_id", MirroredType::U64)?;
        let resource_id: usize = offset_of(fields, "resource_id", MirroredType::I32)?;
        let direction_index: usize = offset_of(fields, "direction_index", MirroredType::I32)?;
        Some(ResourceFast { entity_id, resource_id, direction_index })
    }

    /// What the bytes of a row say.
    pub open spec fn reads(self, row: Seq<u8>, v: ResourceRow) -> bool {
        &&& v.entity_id == from_le(row.subrange(self.entity_id as int, self.entity_id + 8))
        &&& v.resource_id == signed32(from_le(row.subrange(self.resource_id as int, self.resource_id + 4)))
        &&& v.direction_index == signed32(from_le(row.subrange(self.direction_index as int, self.direction_index + 4)))
    }

    /// The row that the bytes spell; `None` where they are too few.
    pub fn decode(&self, row: &[u8]) -> (r: Option<ResourceRow>)
        ensures
            match r {
                Some(v) => self.within(row@.len()) && self.reads(row@, v),
                None => !self.within(row@.len()),
            },
    {
        let entity_id: u64 = read_u64(row, self.entity_id)?;
        let resource_id: i32 = read_i32(row, self.resource_id)?;
        let direction_index: i32 = read_i32(row, self.direction_index)?;
        Some(ResourceRow { entity_id, resource_id, direction_index })
    }
}

/// Reading a row of `resource_state` by position gives what reading its cells gives:
/// the row is long enough, the cells can be read, and the bytes say just what
/// the cells say: the one row that is read either way is the same.
pub proof fn law_resource_by_position(
    schema: MirroredSchema,
    fast: ResourceFast,
    cols: ResourceCols,
    row: Seq<u8>,
    cells: Seq<Cell>,
    v: ResourceRow,
    w: ResourceRow,
)
    requires
        cols.found(schema),
        fast.found(columns(schema, RESOURCE_TABLE)->Ok_0),
        row_spells(columns(schema, RESOURCE_TABLE)->Ok_0, row, cells),
    ensures
        fast.within(row.len()),
        fast.reads(row, v) <==> v.reads(cells, cols),
        fast.reads(row, v) && w.reads(cells, cols) ==> v == w,
        ResourceRow::error(cells, cols) is None,
{
    let fields = columns(schema, RESOURCE_TABLE)->Ok_0;
    lemma_column_spells(
        fields,
        row,
        cells,
        "entity_id"@,
        MirroredType::U64,
        fast.entity_id as nat,
        cols.entity_id as int,
    );
    lemma_column_spells(
        fields,
        row,
        cells,
        "resource_id"@,
        MirroredType::I32,
        fast.resource_id as nat,
        cols.resource_id as int,
    );
    lemma_column_spells(
        fields,
        row,
        cells,
        "direction_index"@,
        MirroredType::I32,
        fast.direction_index as nat,
        cols.direction_index as int,
    );
    reveal_with_fuel(pow256, 9);
}

/// Reads rows of `extraction_recipe_desc` by position.
#[derive(Debug, Clone, Copy)]
pub struct ExtractionRecipeFast {
    pub id: usize,
    pub resource_id: usize,
}

impl ExtractionRecipeFast {
    /// The positions of the columns in the bytes of a row.
    pub open spec fn found(self, fields: Seq<MirroredField>) -> bool {
        &&& typed_offset(fields, "id"@, MirroredType::I32) == Some(self.id as nat)
        &&& typed_offset(fields, "resource_id"@, MirroredType::I32) == Some(self.resource_id as nat)
    }

    /// Whether every column has a fixed position.
    pub open spec fn possible(fields: Seq<MirroredField>) -> bool {
        &&& typed_offset(fields, "id"@, MirroredType::I32) is Some
        &&& typed_offset(fields, "resource_id"@, MirroredType::I32) is Some
    }

    /// Whether a row of a given length holds the columns.
    pub open spec fn within(self, len: nat) -> bool {
        &&& self.id + 4 <= len
        &&& self.resource_id + 4 <= len
    }

    /// The reader of rows with given columns, where their positions are fixed.
    pub fn try_from_fields(fields: &[MirroredField]) -> (r: Option<Self>)
        requires
            32 * fields@.len() <= usize::MAX,
        ensures
            match r {
                Some(f) => f.found(fields@),
                None => !Self::possible(fields@),
            },
    {
        let id: usize = offset_of(fields, "id", MirroredType::I32)?;
        let resource_id: usize = offset_of(fields, "resource_id", MirroredType::I32)?;
        Some(ExtractionRecipeFast { id, resource_id })
    }

    /// What the bytes of a row say.
    pub open spec fn reads(self, row: Seq<u8>, v: ExtractionRecipeRow) -> bool {
        &&& v.id == signed32(from_le(row.subrange(self.id as int, self.id + 4)))
        &&& v.resource_id == signed32(from_le(row.subrange(self.resource_id as int, self.resource_id + 4)))
    }

    /// The row that the bytes spell; `None` where they are too few.
    pub fn decode(&self, row: &[u8]) -> (r: Option<ExtractionRecipeRow>)
        ensures
            match r {
                Some(v) => self.within(row@.len()) && self.reads(row@, v),
                None => !self.within(row@.len()),
            },
    {
        let id: i32 = read_i32(row, self.id)?;
        let resource_id: i32 = read_i32(row, self.resource_id)?;
        Some(ExtractionRecipeRow { id, resource_id })
    }
}

/// Reading a row of `extraction_recipe_desc` by position gives what reading its cells gives:
/// the row is long enough, the cells can be read, and the bytes say just what
/// the cells say: the one row that is read either way is the same.
pub proof fn law_extraction_recipe_by_position(
    schema: MirroredSchema,
    fast: ExtractionRecipeFast,
    cols: ExtractionRecipeCols,
    row: Seq<u8>,
    cells: Seq<Cell>,
    v: ExtractionRecipeRow,
    w: ExtractionRecipeRow,
)
    requires
        cols.found(schema),
        fast.found(columns(schema, EXTRACTION_RECIPE_TABLE)->Ok_0),
        row_spells(columns(schema, EXTRACTION_RECIPE_TABLE)->Ok_0, row, cells),
    ensures
        fast.within(row.len()),
        fast.reads(row, v) <==> v.reads(cells, cols),
        fast.reads(row, v) && w.reads(cells, cols) ==> v == w,
        ExtractionRecipeRow::error(cells, cols) is None,
{
    let fields = columns(schema, EXTRACTION_RECIPE_TABLE)->Ok_0;
    lemma_column_spells(
        fields,
        row,
        cells,
        "id"@,
        MirroredType::I32,
        fast.id as nat,
        cols.id as int,
    );
    lemma_column_spells(
        fields,
        row,
        cells,
        "resource_id"@,
        MirroredType::I32,
        fast.resource_id as nat,
        cols.resource_id as int,
    );
    reveal_with_fuel(pow256, 9);
}

} // verus!
