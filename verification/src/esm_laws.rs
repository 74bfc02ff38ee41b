//! Properties of the plugin writer that hold for every spec.

use vstd::prelude::*;
use crate::record::{lemma_group_len, group_bytes, grup_tag};
use crate::le::{le16, le32, u16_le, u32_le, i32_le, lemma_u32_le_of_le32, lemma_i32_le_of_le32};
use crate::record::{record_bytes, subrecord_bytes, cstring_bytes};
use crate::tags::{full_tag, modl_tag, fnam_tag, door_tag, edid_tag, cell_tag, xclc_tag, refr_tag, name_tag, data_tag, xtel_tag};
use crate::text::{printable_ascii, valid_asset_path, starts_component, is_separator};
use crate::esm::{
    Plugin, Interior, Cell, cell_form, cell_block_bytes, cell_door_bytes, world_children_bytes,
    leading_records_bytes, interior_part_bytes, interior_group_bytes,
    plugin_bytes, door_reference_record_bytes, WRLD_FORM_ID, door_record_bytes, has_cell, first_index,
    cell_record_bytes, land_record_bytes, reference_record_bytes,
    is_first_index, MAX_CELLS, DOOR_REF_OFFSET, CELL_FORM_STRIDE, INTERIOR_CELL_FORM_ID,
    EXTERIOR_DOOR_FORM_ID, INTERIOR_DOOR_FORM_ID, INTERIOR_DOOR_REF_FORM_ID, Door, STAT_FORM_ID,
    floats_bytes, placement_data, xtel_data, lemma_fixed_editor_ids, interior_cell_record_bytes,
    INTERIOR_CELL_FLAG, finite_bits, plugin_problem,
};

verus! {

broadcast use lemma_group_len;

/// Every FormID the exterior cells hand out lies below the interior block,
/// and each cell's block of FormIDs lies past the block of every earlier
/// cell.
pub proof fn lemma_exterior_form_ids_below_interior(j: int, k: int)
    requires
        0 <= j < k < MAX_CELLS,
    ensures
        cell_form(j) + CELL_FORM_STRIDE <= cell_form(k),
        cell_form(k) + DOOR_REF_OFFSET < INTERIOR_CELL_FORM_ID,
        cell_form(j) + DOOR_REF_OFFSET < INTERIOR_CELL_FORM_ID,
{
}

/// The door reference the exterior cell at `k` holds with `interior`.
pub open spec fn outside_door_bytes(interior: &Interior, k: int) -> Seq<u8> {
    door_reference_record_bytes(
        cell_form(k) + DOOR_REF_OFFSET,
        EXTERIOR_DOOR_FORM_ID as int,
        interior.outside,
        INTERIOR_DOOR_REF_FORM_ID as int,
    )
}

/// `k` is the one index at which `cells` holds `cell`.
pub open spec fn only_index(cells: Seq<Cell>, cell: Cell, k: int) -> bool {
    &&& 0 <= k < cells.len()
    &&& cells[k] == cell
    &&& forall|j: int| 0 <= j < cells.len() && j != k ==> cells[j] != cell
}

/// A cell block with an interior is the block without it, followed by the
/// door reference the cell holds.
#[verifier::spinoff_prover]
proof fn lemma_block_with_interior(
    cells: Seq<Cell>,
    centers: Seq<[u32; 2]>,
    interior: &Interior,
    j: int,
)
    ensures
        cell_block_bytes(cells, centers, Some(interior), j) == cell_block_bytes(
            cells,
            centers,
            None,
            j,
        ) + cell_door_bytes(cells[j], cell_form(j), Some(interior)),
        cells[j] != interior.exterior_cell ==> cell_door_bytes(
            cells[j],
            cell_form(j),
            Some(interior),
        ) == Seq::<u8>::empty(),
        cells[j] == interior.exterior_cell ==> cell_door_bytes(
            cells[j],
            cell_form(j),
            Some(interior),
        ) == outside_door_bytes(interior, j),
{
    reveal(cell_block_bytes);
    let form = cell_form(j);
    let front = cell_record_bytes(form, cells[j]) + group_bytes(
        8,
        form,
        land_record_bytes(form + 1) + reference_record_bytes(form + 2, centers[j]),
    );
    assert(cell_block_bytes(cells, centers, None, j) =~= front);
}

/// Ahead of the interior's exterior cell, the cells are written as without
/// the interior.
#[verifier::spinoff_prover]
proof fn lemma_children_before_door(
    cells: Seq<Cell>,
    centers: Seq<[u32; 2]>,
    interior: &Interior,
    k: int,
    n: int,
)
    requires
        only_index(cells, interior.exterior_cell, k),
        0 <= n <= k,
    ensures
        world_children_bytes(cells, centers, Some(interior), n) == world_children_bytes(
            cells,
            centers,
            None,
            n,
        ),
    decreases n,
{
    if n > 0 {
        lemma_children_before_door(cells, centers, interior, k, n - 1);
        lemma_block_with_interior(cells, centers, interior, n - 1);
        assert(cell_block_bytes(cells, centers, Some(interior), n - 1) =~= cell_block_bytes(
            cells,
            centers,
            None,
            n - 1,
        ));
    }
}

/// From the interior's exterior cell on, the cells are written as without
/// the interior, with the outside door's reference right after that cell's
/// block.
#[verifier::spinoff_prover]
proof fn lemma_children_from_door(
    cells: Seq<Cell>,
    centers: Seq<[u32; 2]>,
    interior: &Interior,
    k: int,
    n: int,
)
    requires
        only_index(cells, interior.exterior_cell, k),
        k < n <= cells.len(),
    ensures
        ({
            let head = world_children_bytes(cells, centers, None, k + 1);
            let without = world_children_bytes(cells, centers, None, n);
            &&& head.len() <= without.len()
            &&& without.take(head.len() as int) == head
            &&& world_children_bytes(cells, centers, Some(interior), n) == head
                + outside_door_bytes(interior, k) + without.skip(head.len() as int)
        }),
    decreases n,
{
    let head = world_children_bytes(cells, centers, None, k + 1);
    if n == k + 1 {
        lemma_children_before_door(cells, centers, interior, k, k);
        lemma_block_with_interior(cells, centers, interior, k);
        assert(head.take(head.len() as int) =~= head);
        assert(head.skip(head.len() as int) =~= Seq::<u8>::empty());
        assert(world_children_bytes(cells, centers, Some(interior), n) =~= head
            + outside_door_bytes(interior, k) + Seq::<u8>::empty());
    } else {
        lemma_children_from_door(cells, centers, interior, k, n - 1);
        let before = world_children_bytes(cells, centers, None, n - 1);
        let block = cell_block_bytes(cells, centers, None, n - 1);
        lemma_block_with_interior(cells, centers, interior, n - 1);
        assert(cell_block_bytes(cells, centers, Some(interior), n - 1) =~= block);
        assert(world_children_bytes(cells, centers, None, n) == before + block);
        assert((before + block).take(head.len() as int) =~= before.take(head.len() as int));
        assert((before + block).skip(head.len() as int) =~= before.skip(head.len() as int)
            + block);
        assert(world_children_bytes(cells, centers, Some(interior), n) =~= head
            + outside_door_bytes(interior, k) + (before.skip(head.len() as int) + block));
    }
}

/// Against the plugin without the interior, the plugin with it changes
/// nothing but this: the outside door's reference stands right after the
/// block of its exterior cell, the world group's size field grows by that
/// reference's length, and the interior part follows the world group. Every
/// other byte of the plugin without the interior stays, in order.
#[verifier::spinoff_prover]
pub proof fn lemma_interior_appended_after_exterior_world(
    spec: Plugin,
    interior: &Interior,
    centers: Seq<[u32; 2]>,
    k: int,
)
    requires
        only_index(spec.cells@, interior.exterior_cell, k),
    ensures
        ({
            let without = plugin_bytes(spec, None, centers);
            let with = plugin_bytes(spec, Some(interior), centers);
            let lead = leading_records_bytes(spec).len() as int;
            let world = world_children_bytes(spec.cells@, centers, None, spec.cells@.len() as int);
            let at = lead + 24 + world_children_bytes(spec.cells@, centers, None, k + 1).len() as int;
            let door = outside_door_bytes(interior, k);
            &&& without.len() == lead + 24 + world.len()
            &&& lead + 24 <= at <= without.len()
            &&& without.subrange(lead + 4, lead + 8) == le32(world.len() + 24int)
            &&& with == without.take(lead + 4) + le32(world.len() + door.len() + 24int)
                + without.subrange(lead + 8, at) + door + without.skip(at)
                + interior_part_bytes(spec, *interior)
        }),
{
    let cells = spec.cells@;
    let n = cells.len() as int;
    let world = world_children_bytes(cells, centers, None, n);
    let head = world_children_bytes(cells, centers, None, k + 1);
    let door = outside_door_bytes(interior, k);
    let rest = world.skip(head.len() as int);
    lemma_children_from_door(cells, centers, interior, k, n);
    assert(world =~= head + rest);
    lemma_group_insert(
        leading_records_bytes(spec),
        WRLD_FORM_ID as int,
        head,
        door,
        rest,
        interior_part_bytes(spec, *interior),
    );
}

/// Inserting `door` into a group's content between `head` and `rest` moves
/// only the group's size field, which grows by the door's length.
#[verifier::spinoff_prover]
proof fn lemma_group_insert(
    lead: Seq<u8>,
    label: int,
    head: Seq<u8>,
    door: Seq<u8>,
    rest: Seq<u8>,
    tail: Seq<u8>,
)
    ensures
        ({
            let without = lead + group_bytes(1, label, head + rest);
            let with = lead + group_bytes(1, label, head + door + rest) + tail;
            let l = lead.len() as int;
            let at = l + 24 + head.len();
            &&& without.len() == l + 24 + head.len() + rest.len()
            &&& without.subrange(l + 4, l + 8) == le32(head.len() + rest.len() + 24int)
            &&& with == without.take(l + 4) + le32(head.len() + rest.len() + door.len() + 24int)
                + without.subrange(l + 8, at) + door + without.skip(at) + tail
        }),
{
    reveal(group_bytes);
    let l = lead.len() as int;
    let at = l + 24 + head.len();
    let header_tail = le32(label) + le32(1) + Seq::new(8, |_i: int| 0u8);
    let without = lead + group_bytes(1, label, head + rest);
    assert(without =~= lead + grup_tag() + le32(head.len() + rest.len() + 24int) + header_tail
        + head + rest);
    assert(without.take(l + 4) =~= lead + grup_tag());
    assert(without.subrange(l + 4, l + 8) =~= le32(head.len() + rest.len() + 24int));
    assert(without.subrange(l + 8, at) =~= header_tail + head);
    assert(without.skip(at) =~= rest);
    assert(lead + group_bytes(1, label, head + door + rest) + tail =~= without.take(l + 4) + le32(
        head.len() + rest.len() + door.len() + 24int,
    ) + without.subrange(l + 8, at) + door + without.skip(at) + tail);
}

/// The two doors name each other: the door reference standing in the first
/// cell equal to the interior's exterior cell leads to the interior door's
/// reference, and the interior door's reference, placed in the interior cell,
/// leads back to that door reference.
pub proof fn lemma_doors_are_reciprocal(spec: Plugin, interior: &Interior, centers: Seq<[u32; 2]>)
    requires
        has_cell(spec.cells@, interior.exterior_cell),
    ensures
        ({
            let i = first_index(spec.cells@, interior.exterior_cell);
            let outside_ref = cell_form(i) + DOOR_REF_OFFSET;
            &&& 0 <= i < spec.cells@.len()
            &&& cell_door_bytes(spec.cells@[i], cell_form(i), Some(interior))
                == door_reference_record_bytes(
                outside_ref,
                EXTERIOR_DOOR_FORM_ID as int,
                interior.outside,
                INTERIOR_DOOR_REF_FORM_ID as int,
            )
            &&& interior_part_bytes(spec, *interior) == door_record_bytes(
                EXTERIOR_DOOR_FORM_ID as int,
                interior.outside,
            ) + door_record_bytes(INTERIOR_DOOR_FORM_ID as int, interior.inside)
                + interior_group_bytes(*interior, outside_ref)
        }),
{
    let k = choose|k: int| 0 <= k < spec.cells@.len() && spec.cells@[k] == interior.exterior_cell;
    lemma_first_index_exists(spec.cells@, interior.exterior_cell, k);
}

/// A cell that occurs has a first index.
proof fn lemma_first_index_exists(cells: Seq<Cell>, cell: Cell, k: int)
    requires
        0 <= k < cells.len(),
        cells[k] == cell,
    ensures
        is_first_index(cells, cell, first_index(cells, cell)),
    decreases k,
{
    if exists|j: int| 0 <= j < k && cells[j] == cell {
        let j = choose|j: int| 0 <= j < k && cells[j] == cell;
        lemma_first_index_exists(cells, cell, j);
    } else {
        assert(is_first_index(cells, cell, k));
    }
}

// ---------------------------------------------------------------------------
// What a record reads back as

/// A record is its 24-byte header, holding its tag and FormID, then its
/// payload.
#[verifier::spinoff_prover]
proof fn lemma_record_layout(tag: Seq<u8>, form_id: int, payload: Seq<u8>)
    requires
        tag.len() == 4,
        0 <= form_id < 0x1_0000_0000,
    ensures
        ({
            let r = record_bytes(tag, form_id, payload);
            &&& r.len() == 24 + payload.len()
            &&& r.subrange(0, 4) == tag
            &&& u32_le(r, 12) == form_id
            &&& r.skip(24) == payload
        }),
{
    reveal(record_bytes);
    let r = record_bytes(tag, form_id, payload);
    assert(r.subrange(0, 4) =~= tag);
    assert(r.subrange(12, 16) =~= le32(form_id));
    lemma_u32_le_of_le32(form_id, r, 12);
    assert(r.skip(24) =~= payload);
}

/// What stands at `a..b` of `t` stands at `at + a..at + b` of `s` when `t`
/// is what follows `at` in `s`.
proof fn lemma_inner(s: Seq<u8>, at: int, t: Seq<u8>, a: int, b: int)
    requires
        0 <= at <= s.len(),
        s.skip(at) == t,
        0 <= a <= b <= t.len(),
    ensures
        s.subrange(at + a, at + b) == t.subrange(a, b),
{
    assert(s.subrange(at + a, at + b) =~= t.subrange(a, b));
}

/// The three `u32` values of `floats_bytes(v)`, stored at `offset`, read back.
proof fn lemma_floats_read_back(s: Seq<u8>, offset: int, v: [u32; 3])
    requires
        0 <= offset,
        offset + 12 <= s.len(),
        s.subrange(offset, offset + 12) == floats_bytes(v),
    ensures
        u32_le(s, offset) == v@[0],
        u32_le(s, offset + 4) == v@[1],
        u32_le(s, offset + 8) == v@[2],
{
    let f = floats_bytes(v);
    assert(f.subrange(0, 4) =~= le32(v@[0] as int));
    assert(f.subrange(4, 8) =~= le32(v@[1] as int));
    assert(f.subrange(8, 12) =~= le32(v@[2] as int));
    assert(s.subrange(offset, offset + 4) =~= f.subrange(0, 4));
    assert(s.subrange(offset + 4, offset + 8) =~= f.subrange(4, 8));
    assert(s.subrange(offset + 8, offset + 12) =~= f.subrange(8, 12));
    lemma_u32_le_of_le32(v@[0] as int, s, offset);
    lemma_u32_le_of_le32(v@[1] as int, s, offset + 4);
    lemma_u32_le_of_le32(v@[2] as int, s, offset + 8);
}

/// The `CELL` record of an exterior cell is 58 bytes: its header carries
/// the FormID, and its `XCLC` subrecord, at 44, holds the cell's grid square
/// as two little-endian `i32` values, negative coordinates included.
#[verifier::spinoff_prover]
pub proof fn lemma_cell_record_holds_its_grid(form_id: int, cell: Cell)
    requires
        0 <= form_id < 0x1_0000_0000,
    ensures
        ({
            let r = cell_record_bytes(form_id, cell);
            &&& r.len() == 58
            &&& r.subrange(0, 4) == cell_tag()
            &&& u32_le(r, 12) == form_id
            &&& r.subrange(44, 48) == xclc_tag()
            &&& u16_le(r, 48) == 8
            &&& i32_le(r, 50) == cell.grid_x
            &&& i32_le(r, 54) == cell.grid_y
        }),
{
    lemma_fixed_editor_ids();
    let grid = le32(cell.grid_x as int) + le32(cell.grid_y as int);
    let p = subrecord_bytes(edid_tag(), cstring_bytes("GeneratedCell")) + subrecord_bytes(
        xclc_tag(),
        grid,
    );
    lemma_record_layout(cell_tag(), form_id, p);
    let r = cell_record_bytes(form_id, cell);
    assert(p.len() == 34);
    assert(p.subrange(20, 24) =~= xclc_tag());
    assert(p.subrange(24, 26) =~= le16(8));
    assert(p.subrange(26, 30) =~= le32(cell.grid_x as int));
    assert(p.subrange(30, 34) =~= le32(cell.grid_y as int));
    lemma_inner(r, 24, p, 20, 24);
    lemma_inner(r, 24, p, 24, 26);
    lemma_inner(r, 24, p, 26, 30);
    lemma_inner(r, 24, p, 30, 34);
    assert(r[48] == le16(8)[0] && r[49] == le16(8)[1]) by {
        assert(r.subrange(48, 50)[0] == r[48]);
        assert(r.subrange(48, 50)[1] == r[49]);
    }
    lemma_i32_le_of_le32(cell.grid_x as int, r, 50);
    lemma_i32_le_of_le32(cell.grid_y as int, r, 54);
}

/// The `REFR` placing the static in a cell names the static and stands at
/// the given centre, at zero height and with zero rotation.
#[verifier::spinoff_prover]
pub proof fn lemma_static_reference_stands_at_center(form_id: int, center: [u32; 2])
    requires
        0 <= form_id < 0x1_0000_0000,
    ensures
        ({
            let r = reference_record_bytes(form_id, center);
            &&& r.len() == 64
            &&& r.subrange(0, 4) == refr_tag()
            &&& u32_le(r, 12) == form_id
            &&& r.subrange(24, 28) == name_tag()
            &&& u32_le(r, 30) == STAT_FORM_ID
            &&& r.subrange(34, 38) == data_tag()
            &&& u16_le(r, 38) == 24
            &&& u32_le(r, 40) == center@[0]
            &&& u32_le(r, 44) == center@[1]
            &&& forall|j: int| 48 <= j < 64 ==> r[j] == 0
        }),
{
    let d = placement_data(center);
    let p = subrecord_bytes(name_tag(), le32(STAT_FORM_ID as int)) + subrecord_bytes(data_tag(), d);
    lemma_record_layout(refr_tag(), form_id, p);
    let r = reference_record_bytes(form_id, center);
    assert(d.len() == 24);
    assert(p.len() == 40);
    assert(p.subrange(0, 4) =~= name_tag());
    assert(p.subrange(6, 10) =~= le32(STAT_FORM_ID as int));
    assert(p.subrange(10, 14) =~= data_tag());
    assert(p.subrange(14, 16) =~= le16(24));
    assert(p.subrange(16, 20) =~= le32(center@[0] as int));
    assert(p.subrange(20, 24) =~= le32(center@[1] as int));
    lemma_inner(r, 24, p, 0, 4);
    lemma_inner(r, 24, p, 6, 10);
    lemma_inner(r, 24, p, 10, 14);
    lemma_inner(r, 24, p, 14, 16);
    lemma_inner(r, 24, p, 16, 20);
    lemma_inner(r, 24, p, 20, 24);
    assert(r[38] == le16(24)[0] && r[39] == le16(24)[1]) by {
        assert(r.subrange(38, 40)[0] == r[38]);
        assert(r.subrange(38, 40)[1] == r[39]);
    }
    lemma_u32_le_of_le32(STAT_FORM_ID as int, r, 30);
    lemma_u32_le_of_le32(center@[0] as int, r, 40);
    lemma_u32_le_of_le32(center@[1] as int, r, 44);
    assert forall|j: int| 48 <= j < 64 implies r[j] == 0 by {
        assert(r[j] == r.skip(24)[j - 24]);
        assert(p[j - 24] == d[j - 40]);
    }
}

/// The `REFR` placing a door names the door's base record, stands where the
/// door stands (its `DATA`: position, then rotation), and crosses, by its
/// `XTEL`, to `destination` at the door's arrival position and rotation.
#[verifier::spinoff_prover]
pub proof fn lemma_door_reference_places_the_door(
    form_id: int,
    base_form_id: int,
    door: Door,
    destination: int,
)
    requires
        0 <= form_id < 0x1_0000_0000,
        0 <= base_form_id < 0x1_0000_0000,
        0 <= destination < 0x1_0000_0000,
    ensures
        ({
            let r = door_reference_record_bytes(form_id, base_form_id, door, destination);
            &&& r.len() == 102
            &&& r.subrange(0, 4) == refr_tag()
            &&& u32_le(r, 12) == form_id
            &&& r.subrange(24, 28) == name_tag()
            &&& u32_le(r, 30) == base_form_id
            &&& r.subrange(34, 38) == data_tag()
            &&& u16_le(r, 38) == 24
            &&& u32_le(r, 40) == door.position@[0]
            &&& u32_le(r, 44) == door.position@[1]
            &&& u32_le(r, 48) == door.position@[2]
            &&& u32_le(r, 52) == door.rotation@[0]
            &&& u32_le(r, 56) == door.rotation@[1]
            &&& u32_le(r, 60) == door.rotation@[2]
            &&& r.subrange(64, 68) == xtel_tag()
            &&& u16_le(r, 68) == 32
            &&& u32_le(r, 70) == destination
            &&& u32_le(r, 74) == door.arrival_position@[0]
            &&& u32_le(r, 78) == door.arrival_position@[1]
            &&& u32_le(r, 82) == door.arrival_position@[2]
            &&& u32_le(r, 86) == door.arrival_rotation@[0]
            &&& u32_le(r, 90) == door.arrival_rotation@[1]
            &&& u32_le(r, 94) == door.arrival_rotation@[2]
            &&& u32_le(r, 98) == 0
        }),
{
    let x = xtel_data(door, destination);
    let d = floats_bytes(door.position) + floats_bytes(door.rotation);
    let p = subrecord_bytes(name_tag(), le32(base_form_id)) + subrecord_bytes(data_tag(), d)
        + subrecord_bytes(xtel_tag(), x);
    lemma_record_layout(refr_tag(), form_id, p);
    let r = door_reference_record_bytes(form_id, base_form_id, door, destination);
    assert(x.len() == 32);
    assert(d.len() == 24);
    assert(p.len() == 78);
    assert(p.subrange(0, 4) =~= name_tag());
    assert(p.subrange(6, 10) =~= le32(base_form_id));
    assert(p.subrange(10, 14) =~= data_tag());
    assert(p.subrange(14, 16) =~= le16(24));
    assert(p.subrange(16, 28) =~= floats_bytes(door.position));
    assert(p.subrange(28, 40) =~= floats_bytes(door.rotation));
    assert(p.subrange(40, 44) =~= xtel_tag());
    assert(p.subrange(44, 46) =~= le16(32));
    assert(p.subrange(46, 50) =~= le32(destination));
    assert(p.subrange(50, 62) =~= floats_bytes(door.arrival_position));
    assert(p.subrange(62, 74) =~= floats_bytes(door.arrival_rotation));
    assert(p.subrange(74, 78) =~= le32(0));
    lemma_inner(r, 24, p, 0, 4);
    lemma_inner(r, 24, p, 6, 10);
    lemma_inner(r, 24, p, 10, 14);
    lemma_inner(r, 24, p, 14, 16);
    lemma_inner(r, 24, p, 16, 28);
    lemma_inner(r, 24, p, 28, 40);
    lemma_inner(r, 24, p, 40, 44);
    lemma_inner(r, 24, p, 44, 46);
    lemma_inner(r, 24, p, 46, 50);
    lemma_inner(r, 24, p, 50, 62);
    lemma_inner(r, 24, p, 62, 74);
    lemma_inner(r, 24, p, 74, 78);
    assert(r[38] == le16(24)[0] && r[39] == le16(24)[1]) by {
        assert(r.subrange(38, 40)[0] == r[38]);
        assert(r.subrange(38, 40)[1] == r[39]);
    }
    assert(r[68] == le16(32)[0] && r[69] == le16(32)[1]) by {
        assert(r.subrange(68, 70)[0] == r[68]);
        assert(r.subrange(68, 70)[1] == r[69]);
    }
    lemma_u32_le_of_le32(base_form_id, r, 30);
    lemma_floats_read_back(r, 40, door.position);
    lemma_floats_read_back(r, 52, door.rotation);
    lemma_u32_le_of_le32(destination, r, 70);
    lemma_floats_read_back(r, 74, door.arrival_position);
    lemma_floats_read_back(r, 86, door.arrival_rotation);
    lemma_u32_le_of_le32(0, r, 98);
}

/// `s` ends with `x`.
pub open spec fn ends_with(s: Seq<u8>, x: Seq<u8>) -> bool {
    s.len() >= x.len() && s.skip(s.len() - x.len()) == x
}

/// A group ends with what its content ends with.
proof fn lemma_group_ends_with(group_type: int, label: int, content: Seq<u8>, x: Seq<u8>)
    requires
        ends_with(content, x),
    ensures
        ends_with(group_bytes(group_type, label, content), x),
{
    reveal(group_bytes);
    let g = group_bytes(group_type, label, content);
    assert(g.skip(g.len() - x.len()) =~= content.skip(content.len() - x.len()));
}

/// The interior cell group ends with the reference placing the interior
/// door, the last record of the cell's children: it names the interior
/// `DOOR` base record and crosses to `exterior_door_ref`.
pub proof fn lemma_interior_group_ends_with_return_door(interior: Interior, exterior_door_ref: int)
    ensures
        ends_with(
            interior_group_bytes(interior, exterior_door_ref),
            door_reference_record_bytes(
                INTERIOR_DOOR_REF_FORM_ID as int,
                INTERIOR_DOOR_FORM_ID as int,
                interior.inside,
                exterior_door_ref,
            ),
        ),
{
    let d = door_reference_record_bytes(
        INTERIOR_DOOR_REF_FORM_ID as int,
        INTERIOR_DOOR_FORM_ID as int,
        interior.inside,
        exterior_door_ref,
    );
    assert(d.skip(0) =~= d);
    lemma_group_ends_with(8, INTERIOR_CELL_FORM_ID as int, d, d);
    let g8 = group_bytes(8, INTERIOR_CELL_FORM_ID as int, d);
    lemma_group_ends_with(6, INTERIOR_CELL_FORM_ID as int, g8, d);
    let g6 = group_bytes(6, INTERIOR_CELL_FORM_ID as int, g8);
    let c = interior_cell_record_bytes(interior) + g6;
    assert(c.skip(c.len() - d.len()) =~= g6.skip(g6.len() - d.len()));
    lemma_group_ends_with(3, 0, c, d);
    lemma_group_ends_with(2, 0, group_bytes(3, 0, c), d);
}

/// The interior `CELL` record ends with its `DATA` subrecord, one byte that
/// marks the cell an interior.
pub proof fn lemma_interior_cell_is_marked_interior(interior: Interior)
    ensures
        ({
            let r = interior_cell_record_bytes(interior);
            &&& r.len() >= 31
            &&& r.subrange(0, 4) == cell_tag()
            &&& u32_le(r, 12) == INTERIOR_CELL_FORM_ID
            &&& r.subrange(r.len() - 7, r.len() - 3) == data_tag()
            &&& u16_le(r, r.len() - 3) == 1
            &&& r[r.len() - 1] == INTERIOR_CELL_FLAG
        }),
{
    let p = subrecord_bytes(edid_tag(), cstring_bytes(interior.editor_id)) + subrecord_bytes(
        full_tag(),
        cstring_bytes(interior.full_name),
    ) + subrecord_bytes(data_tag(), seq![INTERIOR_CELL_FLAG]);
    lemma_record_layout(cell_tag(), INTERIOR_CELL_FORM_ID as int, p);
    let r = interior_cell_record_bytes(interior);
    let n = p.len() as int;
    assert(p.subrange(n - 7, n - 3) =~= data_tag());
    assert(p.subrange(n - 3, n - 1) =~= le16(1));
    assert(p[n - 1] == INTERIOR_CELL_FLAG);
    lemma_inner(r, 24, p, n - 7, n - 3);
    lemma_inner(r, 24, p, n - 3, n - 1);
    lemma_inner(r, 24, p, n - 1, n);
    assert(r[r.len() - 1] == r.subrange(24 + n - 1, 24 + n)[0]);
    assert(r[r.len() - 3] == r.subrange(24 + n - 3, 24 + n - 1)[0]);
    assert(r[r.len() - 2] == r.subrange(24 + n - 3, 24 + n - 1)[1]);
}

/// A `DOOR` base record carries the door's editor id first and ends with
/// its `FNAM` subrecord, the door's one byte of flags.
pub proof fn lemma_door_record_holds_its_flags(form_id: int, door: Door)
    requires
        0 <= form_id < 0x1_0000_0000,
    ensures
        ({
            let r = door_record_bytes(form_id, door);
            let id = cstring_bytes(door.editor_id);
            &&& r.len() >= 37 + id.len()
            &&& r.subrange(0, 4) == door_tag()
            &&& u32_le(r, 12) == form_id
            &&& r.subrange(24, 28) == edid_tag()
            &&& u16_le(r, 28) == id.len() % 0x10000
            &&& r.subrange(30, 30 + id.len() as int) == id
            &&& r.subrange(r.len() - 7, r.len() - 3) == fnam_tag()
            &&& u16_le(r, r.len() - 3) == 1
            &&& r[r.len() - 1] == door.flags
        }),
{
    let id = cstring_bytes(door.editor_id);
    let p = subrecord_bytes(edid_tag(), id) + subrecord_bytes(
        modl_tag(),
        cstring_bytes(door.model_path),
    ) + subrecord_bytes(fnam_tag(), seq![door.flags]);
    lemma_record_layout(door_tag(), form_id, p);
    let r = door_record_bytes(form_id, door);
    let n = p.len() as int;
    let k = id.len() as int;
    assert(p.subrange(0, 4) =~= edid_tag());
    assert(p.subrange(4, 6) =~= le16(k));
    assert(p.subrange(6, 6 + k) =~= id);
    assert(p.subrange(n - 7, n - 3) =~= fnam_tag());
    assert(p.subrange(n - 3, n - 1) =~= le16(1));
    assert(p[n - 1] == door.flags);
    lemma_inner(r, 24, p, 0, 4);
    lemma_inner(r, 24, p, 4, 6);
    lemma_inner(r, 24, p, 6, 6 + k);
    lemma_inner(r, 24, p, n - 7, n - 3);
    lemma_inner(r, 24, p, n - 3, n - 1);
    lemma_inner(r, 24, p, n - 1, n);
    assert(r[r.len() - 1] == r.subrange(24 + n - 1, 24 + n)[0]);
    assert(r[r.len() - 3] == r.subrange(24 + n - 3, 24 + n - 1)[0]);
    assert(r[r.len() - 2] == r.subrange(24 + n - 3, 24 + n - 1)[1]);
    assert(r[28] == r.subrange(28, 30)[0]);
    assert(r[29] == r.subrange(28, 30)[1]);
    assert(le16(k)[0] as int + 256 * (le16(k)[1] as int) == k % 0x10000) by {
        assert(k >= 0);
    }
}

// ---------------------------------------------------------------------------
// What a valid spec holds

/// Every character of `s` is printable ASCII, space to tilde.
pub open spec fn all_printable(s: Seq<char>) -> bool {
    forall|i: int| 0 <= i < s.len() ==> 0x20 <= #[trigger] (s[i] as u32) <= 0x7e
}

/// `s` is a relative path that stays inside the directory it is joined to:
/// non-empty printable ASCII that starts with no `/` or `\`, has no two
/// separators in a row, and has no component `.` or `..`.
pub open spec fn stays_inside(s: Seq<char>) -> bool {
    &&& s.len() > 0
    &&& all_printable(s)
    &&& s[0] != '/' && s[0] != '\\'
    &&& forall|i: int|
        0 <= i < s.len() - 1 && (s[i] == '/' || s[i] == '\\') ==> #[trigger] s[i + 1] != '/'
            && s[i + 1] != '\\'
    &&& forall|i: int|
        0 <= i < s.len() && (i == 0 || s[i - 1] == '/' || s[i - 1] == '\\') && #[trigger] s[i]
            == '.' ==> {
            &&& i + 1 < s.len()
            &&& s[i + 1] != '/' && s[i + 1] != '\\'
            &&& s[i + 1] == '.' ==> i + 2 < s.len() && s[i + 2] != '/' && s[i + 2] != '\\'
        }
}

/// Every component of the three values is a finite `f32`: its exponent
/// bits are not all set.
pub open spec fn all_finite(v: [u32; 3]) -> bool {
    forall|j: int| 0 <= j < 3 ==> #[trigger] v@[j] & 0x7f80_0000u32 != 0x7f80_0000u32
}

/// A bit pattern is a finite `f32` exactly when its exponent bits are not
/// all set, whatever its sign and mantissa.
pub proof fn lemma_finite_bits_is_exponent_test(b: u32)
    ensures
        finite_bits(b) == (b & 0x7f80_0000u32 != 0x7f80_0000u32),
{
    assert(finite_bits(b) == (b & 0x7f80_0000u32 != 0x7f80_0000u32)) by (bit_vector);
}

/// A spec the writer accepts has a non-empty printable author and
/// worldspace, one to [`MAX_CELLS`] cells, and asset paths that stay inside
/// the data directory; with an interior, its exterior cell is one of the
/// cells, its texts are non-empty and printable, its two doors have
/// different editor ids, model paths that stay inside, and finite values.
pub proof fn lemma_accepted_spec_is_sound(spec: Plugin, interior: Option<&Interior>)
    requires
        plugin_problem(spec, interior) is None,
    ensures
        spec.author@.len() > 0 && all_printable(spec.author@),
        spec.worldspace@.len() > 0 && all_printable(spec.worldspace@),
        1 <= spec.cells@.len() <= MAX_CELLS,
        stays_inside(spec.model_path@),
        stays_inside(spec.diffuse@),
        stays_inside(spec.normal_texture@),
        interior matches Some(i) ==> {
            &&& exists|k: int| 0 <= k < spec.cells@.len() && spec.cells@[k] == i.exterior_cell
            &&& i.editor_id@.len() > 0 && all_printable(i.editor_id@)
            &&& i.full_name@.len() > 0 && all_printable(i.full_name@)
            &&& i.outside.editor_id@.len() > 0 && all_printable(i.outside.editor_id@)
            &&& i.inside.editor_id@.len() > 0 && all_printable(i.inside.editor_id@)
            &&& i.outside.editor_id@ != i.inside.editor_id@
            &&& stays_inside(i.outside.model_path@)
            &&& stays_inside(i.inside.model_path@)
            &&& all_finite(i.outside.position) && all_finite(i.outside.rotation)
            &&& all_finite(i.outside.arrival_position) && all_finite(i.outside.arrival_rotation)
            &&& all_finite(i.inside.position) && all_finite(i.inside.rotation)
            &&& all_finite(i.inside.arrival_position) && all_finite(i.inside.arrival_rotation)
        },
{
    assert forall|s: Seq<char>| #[trigger] printable_ascii(s) implies all_printable(s) by {
        assert forall|i: int| 0 <= i < s.len() implies 0x20 <= #[trigger] (s[i] as u32) <= 0x7e by {
            assert(0x20 <= (s[i] as u32) < 0x7f);
        }
    }
    assert forall|s: Seq<char>| #[trigger] valid_asset_path(s) implies stays_inside(s) by {
        assert(all_printable(s));
        assert forall|i: int|
            0 <= i < s.len() && (i == 0 || s[i - 1] == '/' || s[i - 1] == '\\') && #[trigger] s[i]
                == '.' implies {
            &&& i + 1 < s.len()
            &&& s[i + 1] != '/' && s[i + 1] != '\\'
            &&& s[i + 1] == '.' ==> i + 2 < s.len() && s[i + 2] != '/' && s[i + 2] != '\\'
        } by {
            assert(starts_component(s, i));
        }
        assert forall|i: int|
            0 <= i < s.len() - 1 && (s[i] == '/' || s[i] == '\\') implies #[trigger] s[i + 1]
                != '/' && s[i + 1] != '\\' by {
            assert(is_separator(s[i]));
        }
    }
    assert forall|v: [u32; 3]|
        finite_bits(v@[0]) && finite_bits(v@[1]) && finite_bits(v@[2]) implies #[trigger] all_finite(v) by {
        lemma_finite_bits_is_exponent_test(v@[0]);
        lemma_finite_bits_is_exponent_test(v@[1]);
        lemma_finite_bits_is_exponent_test(v@[2]);
        assert forall|j: int| 0 <= j < 3 implies #[trigger] v@[j] & 0x7f80_0000u32 != 0x7f80_0000u32 by {
            if j == 0 {
            } else if j == 1 {
            } else {
            }
        }
    }
}

} // verus!
