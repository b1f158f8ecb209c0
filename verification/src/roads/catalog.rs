//! What is known of the whole world: paving and terraforming, the names of the
//! regions, and the state of the regions that are mirrored.

use vstd::prelude::*;

use crate::id_table::IdTable;
use crate::roads::apply::RowInput;
use crate::roads::coords::{map_region, region_cell, region_corner, region_origin, region_rx_rz, CHUNKS_PER_SIDE};
use crate::roads::decode::{
    decode_paving_desc, decode_region_name, decode_terraform_recipe, decode_world_region, PavingDescRow, RegionNameRow,
    TerraformRecipeRow, WorldRegionRow, PAVING_TILE_DESC_TABLE, REGION_NAME_TABLE, TERRAFORM_RECIPE_DESC_TABLE,
    WORLD_REGION_STATE_TABLE,
};
use crate::roads::join::known;
use crate::roads::meta::RoadsTableMeta;
use crate::roads::store::{RegionRoadStatus, REGION_STATE_READY};
use crate::schema::{error, plain_error, DecodeError, Problem};
use crate::sorted::{is_stable_order, positions, stable_order};
use crate::text::{chars_of, decimal, push_chars, push_decimal, same_text};

verus! {

/// The catalogues of the world.
pub struct GlobalRoadsCatalog {
    pub region_width_chunks: u32,
    pub region_height_chunks: u32,
    pub region_count_sqrt: u8,
    /// Names of regions by their number.
    pub region_names: IdTable<String>,
    pub paving: Vec<PavingDescRow>,
    pub terraform: Vec<TerraformRecipeRow>,
    pub ready: bool,
}

/// What the catalogues of the world hold.
#[verifier::ext_equal]
pub struct CatalogModel {
    pub width: u32,
    pub height: u32,
    pub side: u8,
    pub names: Map<u64, String>,
    pub paving: Seq<PavingDescRow>,
    pub terraform: Seq<TerraformRecipeRow>,
    pub ready: bool,
}

impl View for GlobalRoadsCatalog {
    type V = CatalogModel;

    open spec fn view(&self) -> CatalogModel {
        CatalogModel {
            width: self.region_width_chunks,
            height: self.region_height_chunks,
            side: self.region_count_sqrt,
            names: self.region_names@,
            paving: self.paving@,
            terraform: self.terraform@,
            ready: self.ready,
        }
    }
}

/// Position of the first paving with an id, from `i` on.
pub open spec fn paving_from(s: Seq<PavingDescRow>, id: i32, i: int) -> Option<int>
    decreases s.len() - i,
{
    if i < 0 || i >= s.len() {
        None
    } else if s[i].id == id {
        Some(i)
    } else {
        paving_from(s, id, i + 1)
    }
}

/// A row of a catalogue.
#[derive(Debug)]
pub enum GlobalRow {
    Paving(PavingDescRow),
    Terraform(TerraformRecipeRow),
    RegionName(RegionNameRow),
    WorldRegion(WorldRegionRow),
    /// A row of a table that the catalogues do not show, or that the database
    /// does not have.
    Other,
}

impl CatalogModel {
    /// Catalogues without entries, for a world of the usual size.
    pub open spec fn unknown() -> CatalogModel {
        CatalogModel {
            width: CHUNKS_PER_SIDE as u32,
            height: CHUNKS_PER_SIDE as u32,
            side: 5,
            names: Map::<u64, String>::empty(),
            paving: Seq::<PavingDescRow>::empty(),
            terraform: Seq::<TerraformRecipeRow>::empty(),
            ready: false,
        }
    }

    /// The catalogues after a row came. A paving takes the place of the one
    /// with its id.
    pub open spec fn with_row(self, row: GlobalRow) -> CatalogModel {
        match row {
            GlobalRow::Paving(r) => CatalogModel {
                paving: match paving_from(self.paving, r.id, 0) {
                    Some(i) => self.paving.update(i, r),
                    None => self.paving.push(r),
                },
                ..self
            },
            GlobalRow::Terraform(r) => CatalogModel { terraform: self.terraform.push(r), ..self },
            GlobalRow::RegionName(r) => CatalogModel { names: self.names.insert(r.id as u64, r.name), ..self },
            GlobalRow::WorldRegion(r) => CatalogModel {
                width: r.region_width_chunks as u32,
                height: r.region_height_chunks as u32,
                side: r.region_count_sqrt,
                ..self
            },
            GlobalRow::Other => self,
        }
    }

    /// The catalogues after a row went. Only pavings and names go.
    pub open spec fn without_row(self, row: GlobalRow) -> CatalogModel {
        match row {
            GlobalRow::Paving(r) => CatalogModel {
                paving: self.paving.filter(|p: PavingDescRow| p.id != r.id),
                ..self
            },
            GlobalRow::RegionName(r) => CatalogModel { names: self.names.remove(r.id as u64), ..self },
            _ => self,
        }
    }
}

impl GlobalRoadsCatalog {
    /// The name map is well formed.
    pub open spec fn wf(&self) -> bool {
        self.region_names.wf()
    }

    /// Catalogues without entries, for a world of the usual size.
    pub fn new() -> (r: Self)
        ensures
            r.wf(),
            r@ == CatalogModel::unknown(),
    {
        GlobalRoadsCatalog {
            region_width_chunks: CHUNKS_PER_SIDE as u32,
            region_height_chunks: CHUNKS_PER_SIDE as u32,
            region_count_sqrt: 5,
            region_names: IdTable::new(),
            paving: Vec::new(),
            terraform: Vec::new(),
            ready: false,
        }
    }

    /// The catalogues can be read from now on.
    pub fn mark_ready(&mut self)
        ensures
            final(self)@ == (CatalogModel { ready: true, ..old(self)@ }),
            old(self).wf() ==> final(self).wf(),
    {
        self.ready = true;
    }

    /// A row came.
    pub fn insert_row(&mut self, row: GlobalRow)
        requires
            old(self).wf(),
        ensures
            final(self).wf(),
            final(self)@ == old(self)@.with_row(row),
    {
        let ghost given = row;
        match row {
            GlobalRow::Paving(r) => {
                let mut i: usize = 0;
                while i < self.paving.len()
                    invariant
                        self.wf(),
                        *self == *old(self),
                        given == row,
                        given == GlobalRow::Paving(r),
                        i <= self.paving@.len(),
                        paving_from(self.paving@, r.id, 0) == paving_from(self.paving@, r.id, i as int),
                    decreases self.paving.len() - i,
                {
                    if self.paving[i].id == r.id {
                        self.paving.set(i, r);
                        return ;
                    }
                    i += 1;
                }
                self.paving.push(r);
            },
            GlobalRow::Terraform(r) => {
                self.terraform.push(r);
            },
            GlobalRow::RegionName(r) => {
                let _ = self.region_names.insert(r.id as u64, r.name);
            },
            GlobalRow::WorldRegion(r) => {
                self.region_width_chunks = r.region_width_chunks as u32;
                self.region_height_chunks = r.region_height_chunks as u32;
                self.region_count_sqrt = r.region_count_sqrt;
            },
            GlobalRow::Other => {},
        }
    }

    /// A row went.
    pub fn delete_row(&mut self, row: &GlobalRow)
        requires
            old(self).wf(),
        ensures
            final(self).wf(),
            final(self)@ == old(self)@.without_row(*row),
    {
        match row {
            GlobalRow::Paving(r) => {
                self.drop_paving(r.id);
            },
            GlobalRow::RegionName(r) => {
                let _ = self.region_names.remove(r.id as u64);
            },
            _ => {},
        }
    }

    /// Takes out every paving with an id.
    fn drop_paving(&mut self, id: i32)
        requires
            old(self).wf(),
        ensures
            final(self).wf(),
            final(self)@ == (CatalogModel {
                paving: old(self)@.paving.filter(|p: PavingDescRow| p.id != id),
                ..old(self)@
            }),
    {
        let ghost all = self.paving@;
        let ghost keep = |p: PavingDescRow| p.id != id;
        let mut i: usize = 0;
        let ghost mut k: int = 0;
        proof {
            assert(all.take(0).filter(keep) =~= Seq::<PavingDescRow>::empty());
            assert(self.paving@ =~= all.take(0).filter(keep) + all.skip(0));
        }
        while i < self.paving.len()
            invariant
                self.wf(),
                keep == (|p: PavingDescRow| p.id != id),
                0 <= k <= all.len(),
                i == all.take(k).filter(keep).len(),
                self.paving@ == all.take(k).filter(keep) + all.skip(k),
                self@ == (CatalogModel { paving: self.paving@, ..old(self)@ }),
                all == old(self)@.paving,
            decreases all.len() - k,
        {
            let ghost done = all.take(k).filter(keep);
            proof {
                assert(self.paving@[i as int] == all[k]);
                assert(all.take(k + 1).drop_last() =~= all.take(k));
                assert(all.take(k + 1).last() == all[k]);
                reveal(Seq::filter);
            }
            if self.paving[i].id == id {
                let _ = self.paving.remove(i);
                assert(self.paving@ =~= done + all.skip(k + 1));
                assert(all.take(k + 1).filter(keep) =~= done);
            } else {
                i += 1;
                assert(all.take(k + 1).filter(keep) =~= done.push(all[k]));
                assert(self.paving@ =~= done.push(all[k]) + all.skip(k + 1));
            }
            proof {
                k = k + 1;
            }
        }
        proof {
            assert(all.take(k) =~= all);
            assert(self.paving@ =~= all.filter(keep));
        }
    }
}

impl Default for GlobalRoadsCatalog {
    fn default() -> (r: Self)
        ensures
            r.wf(),
            r@ == CatalogModel::unknown(),
    {
        GlobalRoadsCatalog::new()
    }
}

/// What a row of a table says.
pub open spec fn reads_global(meta: RoadsTableMeta, table: Seq<char>, input: RowInput, row: GlobalRow) -> bool {
    if table == PAVING_TILE_DESC_TABLE@ {
        match meta.paving_desc {
            None => row is Other,
            Some(cols) => row matches GlobalRow::Paving(r) && input.cells matches Some(c) && r.reads(c@, cols),
        }
    } else if table == TERRAFORM_RECIPE_DESC_TABLE@ {
        match meta.terraform_recipe {
            None => row is Other,
            Some(cols) => row matches GlobalRow::Terraform(r) && input.cells matches Some(c) && r.reads(c@, cols),
        }
    } else if table == REGION_NAME_TABLE@ {
        match meta.region_name {
            None => row is Other,
            Some(cols) => row matches GlobalRow::RegionName(r) && input.cells matches Some(c) && r.reads(c@, cols),
        }
    } else if table == WORLD_REGION_STATE_TABLE@ {
        match meta.world_region {
            None => row is Other,
            Some(cols) => row matches GlobalRow::WorldRegion(r) && input.cells matches Some(c) && r.reads(c@, cols),
        }
    } else {
        row is Other
    }
}

/// Why a row of a table cannot be read.
pub open spec fn global_error(meta: RoadsTableMeta, table: Seq<char>, input: RowInput) -> Option<DecodeError> {
    if table == PAVING_TILE_DESC_TABLE@ {
        match (meta.paving_desc, input.cells) {
            (None, _) => None,
            (Some(_), None) => Some(plain_error(PAVING_TILE_DESC_TABLE, Problem::Unreadable)),
            (Some(cols), Some(c)) => PavingDescRow::error(c@, cols),
        }
    } else if table == TERRAFORM_RECIPE_DESC_TABLE@ {
        match (meta.terraform_recipe, input.cells) {
            (None, _) => None,
            (Some(_), None) => Some(plain_error(TERRAFORM_RECIPE_DESC_TABLE, Problem::Unreadable)),
            (Some(cols), Some(c)) => TerraformRecipeRow::error(c@, cols),
        }
    } else if table == REGION_NAME_TABLE@ {
        match (meta.region_name, input.cells) {
            (None, _) => None,
            (Some(_), None) => Some(plain_error(REGION_NAME_TABLE, Problem::Unreadable)),
            (Some(cols), Some(c)) => RegionNameRow::error(c@, cols),
        }
    } else if table == WORLD_REGION_STATE_TABLE@ {
        match (meta.world_region, input.cells) {
            (None, _) => None,
            (Some(_), None) => Some(plain_error(WORLD_REGION_STATE_TABLE, Problem::Unreadable)),
            (Some(cols), Some(c)) => WorldRegionRow::error(c@, cols),
        }
    } else {
        None
    }
}

/// Whether a row has the columns of its table.
pub open spec fn global_fits(meta: RoadsTableMeta, table: Seq<char>, input: RowInput) -> bool {
    match input.cells {
        None => true,
        Some(c) => if table == PAVING_TILE_DESC_TABLE@ {
            meta.paving_desc matches Some(cols) ==> cols.fit(c@.len())
        } else if table == TERRAFORM_RECIPE_DESC_TABLE@ {
            meta.terraform_recipe matches Some(cols) ==> cols.fit(c@.len())
        } else if table == REGION_NAME_TABLE@ {
            meta.region_name matches Some(cols) ==> cols.fit(c@.len())
        } else if table == WORLD_REGION_STATE_TABLE@ {
            meta.world_region matches Some(cols) ==> cols.fit(c@.len())
        } else {
            true
        },
    }
}

/// Reads a row of a table.
pub fn decode_global_row(meta: &RoadsTableMeta, table: &str, input: &RowInput) -> (r: Result<GlobalRow, DecodeError>)
    requires
        global_fits(*meta, table@, *input),
    ensures
        match r {
            Ok(row) => reads_global(*meta, table@, *input, row) && global_error(*meta, table@, *input) is None,
            Err(e) => global_error(*meta, table@, *input) == Some(e),
        },
{
    if same_text(table, PAVING_TILE_DESC_TABLE) {
        return match (&meta.paving_desc, &input.cells) {
            (None, _) => Ok(GlobalRow::Other),
            (Some(_), None) => Err(error(PAVING_TILE_DESC_TABLE, Problem::Unreadable)),
            (Some(cols), Some(c)) => match decode_paving_desc(c.as_slice(), *cols) {
                Ok(r) => Ok(GlobalRow::Paving(r)),
                Err(e) => Err(e),
            },
        };
    }
    if same_text(table, TERRAFORM_RECIPE_DESC_TABLE) {
        return match (&meta.terraform_recipe, &input.cells) {
            (None, _) => Ok(GlobalRow::Other),
            (Some(_), None) => Err(error(TERRAFORM_RECIPE_DESC_TABLE, Problem::Unreadable)),
            (Some(cols), Some(c)) => match decode_terraform_recipe(c.as_slice(), *cols) {
                Ok(r) => Ok(GlobalRow::Terraform(r)),
                Err(e) => Err(e),
            },
        };
    }
    if same_text(table, REGION_NAME_TABLE) {
        return match (&meta.region_name, &input.cells) {
            (None, _) => Ok(GlobalRow::Other),
            (Some(_), None) => Err(error(REGION_NAME_TABLE, Problem::Unreadable)),
            (Some(cols), Some(c)) => match decode_region_name(c.as_slice(), *cols) {
                Ok(r) => Ok(GlobalRow::RegionName(r)),
                Err(e) => Err(e),
            },
        };
    }
    if same_text(table, WORLD_REGION_STATE_TABLE) {
        return match (&meta.world_region, &input.cells) {
            (None, _) => Ok(GlobalRow::Other),
            (Some(_), None) => Err(error(WORLD_REGION_STATE_TABLE, Problem::Unreadable)),
            (Some(cols), Some(c)) => match decode_world_region(c.as_slice(), *cols) {
                Ok(r) => Ok(GlobalRow::WorldRegion(r)),
                Err(e) => Err(e),
            },
        };
    }
    Ok(GlobalRow::Other)
}

/// A row of a table came.
pub fn apply_global_insert(catalog: &mut GlobalRoadsCatalog, meta: &RoadsTableMeta, table: &str, input: &RowInput) -> (r:
    Result<(), DecodeError>)
    requires
        old(catalog).wf(),
        global_fits(*meta, table@, *input),
    ensures
        final(catalog).wf(),
        match r {
            Ok(_) => global_error(*meta, table@, *input) is None && exists|row: GlobalRow|
                reads_global(*meta, table@, *input, row) && final(catalog)@ == #[trigger] old(catalog)@.with_row(row),
            Err(e) => global_error(*meta, table@, *input) == Some(e) && final(catalog)@ == old(catalog)@,
        },
{
    let row = decode_global_row(meta, table, input)?;
    catalog.insert_row(row);
    Ok(())
}

/// Whether the rows of a table go from the catalogues.
pub open spec fn rows_go(table: Seq<char>) -> bool {
    table == PAVING_TILE_DESC_TABLE@ || table == REGION_NAME_TABLE@
}

/// A row of a table went. Rows of tables that only grow are not looked at.
pub fn apply_global_delete(catalog: &mut GlobalRoadsCatalog, meta: &RoadsTableMeta, table: &str, input: &RowInput) -> (r:
    Result<(), DecodeError>)
    requires
        old(catalog).wf(),
        global_fits(*meta, table@, *input),
    ensures
        final(catalog).wf(),
        match r {
            Ok(_) => if rows_go(table@) {
                global_error(*meta, table@, *input) is None && exists|row: GlobalRow|
                    reads_global(*meta, table@, *input, row) && final(catalog)@ == #[trigger] old(
                        catalog,
                    )@.without_row(row)
            } else {
                final(catalog)@ == old(catalog)@
            },
            Err(e) => rows_go(table@) && global_error(*meta, table@, *input) == Some(e) && final(catalog)@ == old(
                catalog,
            )@,
        },
{
    if !same_text(table, PAVING_TILE_DESC_TABLE) && !same_text(table, REGION_NAME_TABLE) {
        return Ok(());
    }
    let row = decode_global_row(meta, table, input)?;
    catalog.delete_row(&row);
    Ok(())
}

/// The state of all regions.
#[derive(Debug)]
pub struct RoadsFleetHealth {
    pub ready: bool,
    pub regions_ready: u32,
    pub regions_total: u32,
    pub total_memory_bytes: u64,
    pub regions: Vec<RegionRoadStatus>,
}

/// Number of regions that can be read, among the first `n`.
pub open spec fn ready_count(s: Seq<RegionRoadStatus>, n: nat) -> nat
    decreases n,
{
    if n == 0 {
        0
    } else {
        ready_count(s, (n - 1) as nat) + if s[n - 1].state == REGION_STATE_READY {
            1nat
        } else {
            0nat
        }
    }
}

/// Memory of the first `n` regions.
pub open spec fn memory_of(s: Seq<RegionRoadStatus>, n: nat) -> nat
    decreases n,
{
    if n == 0 {
        0
    } else {
        memory_of(s, (n - 1) as nat) + s[n - 1].memory_bytes as nat
    }
}

/// Fewer regions take no more memory.
proof fn lemma_memory_grows(s: Seq<RegionRoadStatus>, a: nat, b: nat)
    requires
        a <= b,
    ensures
        memory_of(s, a) <= memory_of(s, b),
    decreases b,
{
    if a < b {
        lemma_memory_grows(s, a, (b - 1) as nat);
    }
}

/// The state of all regions: the fleet is ready when it has regions and all of
/// them are.
pub fn fleet_health(regions: Vec<RegionRoadStatus>) -> (r: RoadsFleetHealth)
    requires
        regions@.len() <= u32::MAX,
        memory_of(regions@, regions@.len()) <= u64::MAX,
    ensures
        r.regions == regions,
        r.regions_total == regions@.len(),
        r.regions_ready == ready_count(regions@, regions@.len()),
        r.total_memory_bytes == memory_of(regions@, regions@.len()),
        r.ready <==> regions@.len() > 0 && ready_count(regions@, regions@.len()) == regions@.len(),
{
    let n: usize = regions.len();
    let mut regions_ready: u32 = 0;
    let mut total_memory_bytes: u64 = 0;
    let mut i: usize = 0;
    while i < n
        invariant
            i <= n == regions@.len(),
            n <= u32::MAX,
            regions_ready <= i,
            regions_ready == ready_count(regions@, i as nat),
            total_memory_bytes == memory_of(regions@, i as nat),
            memory_of(regions@, regions@.len()) <= u64::MAX,
        decreases n - i,
    {
        proof {
            lemma_memory_grows(regions@, (i + 1) as nat, regions@.len());
        }
        total_memory_bytes = total_memory_bytes + regions[i].memory_bytes;
        if regions[i].state == REGION_STATE_READY {
            regions_ready = regions_ready + 1;
        }
        i += 1;
    }
    let regions_total: u32 = n as u32;
    RoadsFleetHealth {
        ready: regions_total > 0 && regions_ready == regions_total,
        regions_ready,
        regions_total,
        total_memory_bytes,
        regions,
    }
}

/// What is told of a region in the list of regions.
#[derive(Debug)]
pub struct RegionEntry {
    pub id: u32,
    pub name: String,
    pub live: bool,
    pub rx: i32,
    pub rz: i32,
    pub origin_x: i32,
    pub origin_z: i32,
}

/// The list of regions.
#[derive(Debug)]
pub struct RegionsResponseData {
    pub regions: Vec<RegionEntry>,
    pub region_width_chunks: u32,
    pub region_height_chunks: u32,
}

/// The name of a region: the one in the catalogue, or one made of its number.
pub open spec fn region_title(names: Map<u64, String>, region: u32) -> Seq<char> {
    match known(names, map_region(region) as u64) {
        Some(name) => name@,
        None => "Region "@ + decimal(region as nat),
    }
}

/// Whether an entry tells of a region.
pub open spec fn tells_of(e: RegionEntry, m: CatalogModel, region: u32, live: bool) -> bool {
    &&& e.id == region
    &&& e.name@ == region_title(m.names, region)
    &&& e.live == live
    &&& (e.rx as int, e.rz as int) == region_cell(map_region(region) as int)
    &&& (e.origin_x as int, e.origin_z as int) == region_corner(map_region(region) as int)
}

/// The regions in the order of their ids.
pub open spec fn regions_in_order(
    asked: Seq<(u32, bool)>,
    m: CatalogModel,
    entries: Seq<RegionEntry>,
    p: Seq<int>,
) -> bool {
    &&& is_stable_order(asked.map_values(|a: (u32, bool)| a.0), p)
    &&& entries.len() == asked.len()
    &&& forall|k: int|
        0 <= k < entries.len() ==> tells_of(#[trigger] entries[k], m, asked[p[k]].0, asked[p[k]].1)
}

impl GlobalRoadsCatalog {
    /// The list of the regions that are mirrored, each with whether it can be
    /// read.
    pub fn regions_response(&self, regions: &[(u32, bool)]) -> (r: RegionsResponseData)
        requires
            self.wf(),
            regions@.len() <= 0xffff_ffff,
        ensures
            r.region_width_chunks == self@.width,
            r.region_height_chunks == self@.height,
            exists|p: Seq<int>| regions_in_order(regions@, self@, r.regions@, p),
    {
        let mut keys: Vec<u32> = Vec::new();
        let mut i: usize = 0;
        while i < regions.len()
            invariant
                i <= regions@.len(),
                keys@ == regions@.take(i as int).map_values(|a: (u32, bool)| a.0),
            decreases regions.len() - i,
        {
            keys.push(regions[i].0);
            assert(keys@ =~= regions@.take(i + 1).map_values(|a: (u32, bool)| a.0));
            i += 1;
        }
        assert(regions@.take(i as int) =~= regions@);
        let order = stable_order(keys.as_slice());
        let ghost p = positions(order@);
        let mut entries: Vec<RegionEntry> = Vec::new();
        let mut k: usize = 0;
        while k < order.len()
            invariant
                self.wf(),
                k <= order@.len() == regions@.len(),
                p == positions(order@),
                is_stable_order(regions@.map_values(|a: (u32, bool)| a.0), p),
                entries@.len() == k,
                forall|l: int|
                    0 <= l < k ==> tells_of(#[trigger] entries@[l], self@, regions@[p[l]].0, regions@[p[l]].1),
            decreases order.len() - k,
        {
            assert(p[k as int] == order@[k as int]);
            let (region, live): (u32, bool) = regions[order[k]];
            let number: u16 = (region % 0x1_0000) as u16;
            let name: String = match self.region_names.get(number as u64) {
                Some(n) => n.clone(),
                None => {
                    let mut text = String::new();
                    push_chars(&mut text, chars_of("Region ").as_slice());
                    push_decimal(&mut text, region as u64);
                    text
                },
            };
            let (rx, rz): (i32, i32) = region_rx_rz(number);
            let origin = region_origin(number);
            entries.push(RegionEntry { id: region, name, live, rx, rz, origin_x: origin.x, origin_z: origin.z });
            k += 1;
        }
        let r = RegionsResponseData {
            regions: entries,
            region_width_chunks: self.region_width_chunks,
            region_height_chunks: self.region_height_chunks,
        };
        assert(regions_in_order(regions@, self@, r.regions@, p));
        r
    }
}

/// Whether no two pavings have the same id.
pub open spec fn distinct_pavings(s: Seq<PavingDescRow>) -> bool {
    forall|i: int, j: int| 0 <= i < j < s.len() ==> (#[trigger] s[i]).id != (#[trigger] s[j]).id
}

/// A paving that came is the one of its id, and no other has that id; once it
/// went, none has. Pavings of other ids stay.
pub proof fn law_pavings_are_shown_until_they_go(m: CatalogModel, r: PavingDescRow, other: PavingDescRow)
    requires
        distinct_pavings(m.paving),
    ensures
        ({
            let came = m.with_row(GlobalRow::Paving(r)).paving;
            let gone = m.without_row(GlobalRow::Paving(r)).paving;
            &&& distinct_pavings(came)
            &&& distinct_pavings(gone)
            &&& came.contains(r)
            &&& forall|i: int| 0 <= i < came.len() && (#[trigger] came[i]).id == r.id ==> came[i] == r
            &&& forall|i: int| 0 <= i < gone.len() ==> (#[trigger] gone[i]).id != r.id
            &&& other.id != r.id ==> (came.contains(other) <==> m.paving.contains(other)) && (gone.contains(other)
                <==> m.paving.contains(other))
        }),
{
    let came = m.with_row(GlobalRow::Paving(r)).paving;
    let keep = |p: PavingDescRow| p.id != r.id;
    let gone = m.paving.filter(keep);
    lemma_paving_from(m.paving, r.id, 0);
    match paving_from(m.paving, r.id, 0) {
        Some(at) => {
            assert(came[at] == r);
            assert(came == m.paving.update(at, r));
            if other.id != r.id && m.paving.contains(other) {
                let i = choose|i: int| 0 <= i < m.paving.len() && m.paving[i] == other;
                assert(came[i] == other);
            }
            if other.id != r.id && came.contains(other) {
                let i = choose|i: int| 0 <= i < came.len() && came[i] == other;
                assert(m.paving[i] == other);
            }
        },
        None => {
            assert(came == m.paving.push(r));
            assert(came[m.paving.len() as int] == r);
            if other.id != r.id && m.paving.contains(other) {
                let i = choose|i: int| 0 <= i < m.paving.len() && m.paving[i] == other;
                assert(came[i] == other);
            }
            if other.id != r.id && came.contains(other) {
                let i = choose|i: int| 0 <= i < came.len() && came[i] == other;
                assert(m.paving[i] == other);
            }
        },
    }
    assert forall|i: int| 0 <= i < gone.len() implies (#[trigger] gone[i]).id != r.id by {
        m.paving.lemma_filter_pred(keep, i);
    }
    if other.id != r.id && gone.contains(other) {
        m.paving.lemma_filter_contains_rev(keep, other);
    }
    if other.id != r.id && m.paving.contains(other) {
        let i = choose|i: int| 0 <= i < m.paving.len() && m.paving[i] == other;
        m.paving.lemma_filter_contains(keep, i);
    }
    lemma_kept_pavings_are_distinct(m.paving, keep);
}

proof fn lemma_paving_from(s: Seq<PavingDescRow>, id: i32, from: int)
    requires
        0 <= from <= s.len(),
    ensures
        match paving_from(s, id, from) {
            Some(i) => from <= i < s.len() && s[i].id == id,
            None => forall|i: int| from <= i < s.len() ==> (#[trigger] s[i]).id != id,
        },
    decreases s.len() - from,
{
    if from < s.len() && s[from].id != id {
        lemma_paving_from(s, id, from + 1);
    }
}

proof fn lemma_kept_pavings_are_distinct(s: Seq<PavingDescRow>, keep: spec_fn(PavingDescRow) -> bool)
    requires
        distinct_pavings(s),
    ensures
        distinct_pavings(s.filter(keep)),
    decreases s.len(),
{
    reveal(Seq::filter);
    if s.len() > 0 {
        let short = s.drop_last();
        assert(distinct_pavings(short)) by {
            assert forall|i: int, j: int| 0 <= i < j < short.len() implies (#[trigger] short[i]).id != (
            #[trigger] short[j]).id by {
                assert(short[i] == s[i] && short[j] == s[j]);
            }
        }
        lemma_kept_pavings_are_distinct(short, keep);
        let rest = short.filter(keep);
        assert forall|i: int| 0 <= i < rest.len() implies (#[trigger] rest[i]).id != s.last().id by {
            assert(rest.contains(rest[i]));
            short.lemma_filter_contains_rev(keep, rest[i]);
            let k = choose|k: int| 0 <= k < short.len() && short[k] == rest[i];
            assert(s[k] == rest[i]);
            assert(s[k].id != s[s.len() - 1].id);
        }
    }
}

/// The name of a region is the last one that came, until it goes; names of
/// others stay.
pub proof fn law_region_names_are_known_until_they_go(m: CatalogModel, r: RegionNameRow, other: u64)
    ensures
        ({
            let came = m.with_row(GlobalRow::RegionName(r)).names;
            let gone = m.without_row(GlobalRow::RegionName(r)).names;
            &&& known(came, r.id as u64) == Some(r.name)
            &&& known(gone, r.id as u64) is None
            &&& other != r.id ==> known(came, other) == known(m.names, other) && known(gone, other) == known(
                m.names,
                other,
            )
        }),
{
}

/// A recipe that came is among the recipes, and the size of the world is the
/// last that came; both outlast their rows.
pub proof fn law_recipes_and_sizes_stay(m: CatalogModel, t: TerraformRecipeRow, w: WorldRegionRow)
    ensures
        ({
            let came = m.with_row(GlobalRow::Terraform(t));
            let sized = m.with_row(GlobalRow::WorldRegion(w));
            &&& came.terraform.len() == m.terraform.len() + 1
            &&& came.terraform.last() == t
            &&& forall|i: int| 0 <= i < m.terraform.len() ==> #[trigger] came.terraform[i] == m.terraform[i]
            &&& sized.width == w.region_width_chunks
            &&& sized.height == w.region_height_chunks
            &&& sized.side == w.region_count_sqrt
            &&& came.without_row(GlobalRow::Terraform(t)) == came
            &&& sized.without_row(GlobalRow::WorldRegion(w)) == sized
        }),
{
}

/// Whether two catalogues tell the same of the size of the world, and of whether
/// they can be read.
pub open spec fn same_frame(a: CatalogModel, b: CatalogModel) -> bool {
    a.width == b.width && a.height == b.height && a.side == b.side && a.ready == b.ready
}

/// A row changes only the catalogue that it belongs to.
pub proof fn law_rows_change_their_catalogue_only(m: CatalogModel, row: GlobalRow)
    ensures
        ({
            let (came, gone) = (m.with_row(row), m.without_row(row));
            &&& came.ready == m.ready && same_frame(gone, m)
            &&& gone.terraform == m.terraform
            &&& row !is Paving ==> came.paving == m.paving && gone.paving == m.paving
            &&& row !is Terraform ==> came.terraform == m.terraform
            &&& row !is RegionName ==> came.names == m.names && gone.names == m.names
            &&& row !is WorldRegion ==> same_frame(came, m)
        }),
{
}

/// A row is read by the table it stands in: it is a paving, a recipe, a name or
/// the size of the world where it stands in the table of these.
pub proof fn law_rows_are_read_by_their_table(meta: RoadsTableMeta, table: Seq<char>, input: RowInput, row: GlobalRow)
    requires
        reads_global(meta, table, input, row),
    ensures
        row is Paving <==> table == "paving_tile_desc"@ && meta.paving_desc is Some,
        row is Terraform <==> table == "terraform_recipe_desc"@ && meta.terraform_recipe is Some,
        row is RegionName <==> table == "region_name_state"@ && meta.region_name is Some,
        row is WorldRegion <==> table == "world_region_state"@ && meta.world_region is Some,
{
    reveal_strlit("paving_tile_desc");
    reveal_strlit("terraform_recipe_desc");
    reveal_strlit("region_name_state");
    reveal_strlit("world_region_state");
    assert("paving_tile_desc"@.len() == 16);
    assert("terraform_recipe_desc"@.len() == 21);
    assert("region_name_state"@.len() == 17);
    assert("world_region_state"@.len() == 18);
}

/// Only pavings and names of regions go from the catalogues.
pub proof fn law_tables_whose_rows_go(table: Seq<char>)
    ensures
        rows_go(table) <==> table == "paving_tile_desc"@ || table == "region_name_state"@,
{
}

/// All regions are ready if each of them is, and their memory is that of one and
/// of all the others.
pub proof fn law_the_fleet_is_ready_if_all_are(s: Seq<RegionRoadStatus>, r: RegionRoadStatus)
    ensures
        ready_count(s, s.len()) == s.len() <==> forall|i: int| 0 <= i < s.len() ==> (#[trigger] s[i]).state == 3,
        ready_count(s, s.len()) == 0 <==> forall|i: int| 0 <= i < s.len() ==> (#[trigger] s[i]).state != 3,
        memory_of(s.push(r), s.push(r).len()) == memory_of(s, s.len()) + r.memory_bytes,
        memory_of(Seq::empty(), 0) == 0,
{
    lemma_ready(s, s.len());
    lemma_memory_prefix(s, s.push(r), s.len());
}

proof fn lemma_ready(s: Seq<RegionRoadStatus>, n: nat)
    requires
        n <= s.len(),
    ensures
        ready_count(s, n) <= n,
        ready_count(s, n) == n <==> forall|i: int| 0 <= i < n ==> (#[trigger] s[i]).state == 3,
        ready_count(s, n) == 0 <==> forall|i: int| 0 <= i < n ==> (#[trigger] s[i]).state != 3,
    decreases n,
{
    if n > 0 {
        lemma_ready(s, (n - 1) as nat);
        let last = s[n - 1];
        if forall|i: int| 0 <= i < n ==> (#[trigger] s[i]).state == 3 {
            assert(s[n - 1].state == 3);
        }
        if forall|i: int| 0 <= i < n ==> (#[trigger] s[i]).state != 3 {
            assert(s[n - 1].state != 3);
        }
        assert forall|i: int| 0 <= i < n && last.state == 3 && ready_count(s, n) == n implies (
        #[trigger] s[i]).state == 3 by {}
    }
}

proof fn lemma_memory_prefix(s: Seq<RegionRoadStatus>, t: Seq<RegionRoadStatus>, n: nat)
    requires
        n <= s.len() <= t.len(),
        forall|i: int| 0 <= i < s.len() ==> s[i] == #[trigger] t[i],
    ensures
        memory_of(s, n) == memory_of(t, n),
    decreases n,
{
    if n > 0 {
        lemma_memory_prefix(s, t, (n - 1) as nat);
        assert(s[n - 1] == t[n - 1]);
    }
}

/// The list of regions has each region that is mirrored, and no other, in the
/// order of their numbers; each has whether it can be read, and the name that is
/// known, or one made of its number.
pub proof fn law_regions_are_listed_by_number(
    asked: Seq<(u32, bool)>,
    m: CatalogModel,
    entries: Seq<RegionEntry>,
    p: Seq<int>,
    i: int,
)
    requires
        regions_in_order(asked, m, entries, p),
        0 <= i < entries.len(),
    ensures
        entries.len() == asked.len(),
        asked.contains((entries[i].id, entries[i].live)),
        exists|k: int|
            0 <= k < entries.len() && (#[trigger] entries[k]).id == asked[i].0 && entries[k].live == asked[i].1,
        i > 0 ==> entries[i - 1].id <= entries[i].id,
        entries[i].id < 0x1_0000 ==> entries[i].name@ == (match known(m.names, entries[i].id as u64) {
            Some(name) => name@,
            None => "Region "@ + decimal(entries[i].id as nat),
        }),
{
    let keys = asked.map_values(|a: (u32, bool)| a.0);
    assert(tells_of(entries[i], m, asked[p[i]].0, asked[p[i]].1));
    assert(asked[p[i]] == (entries[i].id, entries[i].live));
    assert(p.contains(i));
    let k = choose|k: int| 0 <= k < p.len() && p[k] == i;
    assert(tells_of(entries[k], m, asked[p[k]].0, asked[p[k]].1));
    if i > 0 {
        assert(tells_of(entries[i - 1], m, asked[p[i - 1]].0, asked[p[i - 1]].1));
        assert(keys[p[i - 1]] == asked[p[i - 1]].0);
        assert(keys[p[i]] == asked[p[i]].0);
    }
}

} // verus!
