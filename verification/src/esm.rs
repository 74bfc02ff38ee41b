//! Deterministic Skyrim SE plugin (`.esm`) fixtures.
//!
//! The writer emits a minimal worldspace with exterior cells, terrain, a
//! static, a texture set and landscape texture, plus one placement reference
//! per cell. A spec can also carry one interior cell joined to an exterior
//! cell by a reciprocal pair of load doors: each door's `XTEL` names the
//! other door's reference.
//!
//! Every `f32` a record carries is given as its IEEE-754 bit pattern. The
//! static placed in each exterior cell stands at the cell's centre, which the
//! caller supplies as the bit patterns of `grid * 4096.0 + 2048.0` on each
//! axis.

use vstd::prelude::*;
use crate::le::{le16, le32, push_u16_le, push_u32_le, push_i32_le};
use crate::record::{
    lemma_record_len, lemma_group_len,
    cstring_bytes, subrecord_bytes, record_bytes, group_bytes, cstring, push_subrecord,
    record, group, append_bytes, MAX_SUBRECORD_SIZE,
};
use crate::tags::{
    tes4_tag, tag_tes4, hedr_tag, tag_hedr, cnam_tag, tag_cnam, txst_tag, tag_txst, edid_tag,
    tag_edid, tx00_tag, tag_tx00, tx01_tag, tag_tx01, stat_tag, tag_stat, modl_tag, tag_modl,
    door_tag, tag_door, fnam_tag, tag_fnam, ltex_tag, tag_ltex, tnam_tag, tag_tnam, hnam_tag,
    tag_hnam, wrld_tag, tag_wrld, cell_tag, tag_cell, xclc_tag, tag_xclc, full_tag, tag_full,
    data_tag, tag_data, land_tag, tag_land, vhgt_tag, tag_vhgt, btxt_tag, tag_btxt, refr_tag,
    tag_refr, name_tag, tag_name, xtel_tag, tag_xtel,
};
use crate::text::{
    printable_ascii, valid_asset_path, chars_of, is_printable_ascii, is_valid_asset_path,
    same_chars,
};

verus! {

broadcast use {lemma_record_len, lemma_group_len};

pub const TES4_FORM_ID: u32 = 0;
pub const WRLD_FORM_ID: u32 = 1;
pub const TXST_FORM_ID: u32 = 2;
pub const STAT_FORM_ID: u32 = 3;
pub const LTEX_FORM_ID: u32 = 4;
/// The `DOOR` base record the exterior door of an [`Interior`] places.
pub const EXTERIOR_DOOR_FORM_ID: u32 = 5;
/// The `DOOR` base record the interior door of an [`Interior`] places.
pub const INTERIOR_DOOR_FORM_ID: u32 = 6;
/// FormID of the first exterior cell.
pub const CELL_BASE_FORM_ID: u32 = 16;
/// FormIDs each exterior cell owns: the cell, its `LAND`, the static
/// reference and, in the door's cell, the door reference.
pub const CELL_FORM_STRIDE: u32 = 16;
/// A door reference's offset inside its cell's block of FormIDs.
pub const DOOR_REF_OFFSET: u32 = 3;
/// The interior cell's FormID, past every id [`MAX_CELLS`] exterior cells can
/// hand out.
pub const INTERIOR_CELL_FORM_ID: u32 = 65536;
/// The FormID of the interior door's reference.
pub const INTERIOR_DOOR_REF_FORM_ID: u32 = INTERIOR_CELL_FORM_ID + 1;
/// Side of the square height grid of a `LAND` record.
pub const LAND_SIDE: usize = 33;
/// Most exterior cells a plugin may hold.
pub const MAX_CELLS: usize = 3840;
/// `CELL` `DATA` flag: the cell is an interior.
pub const INTERIOR_CELL_FLAG: u8 = 1;
/// `DOOR` `FNAM` flag of an auto-load door.
pub const AUTO_LOAD_FLAG: u8 = 2;
/// `HEDR` version: the bit pattern of the `f32` `1.7`.
pub const HEDR_VERSION_BITS: u32 = 0x3fd9_999a;

/// `TES4` author of the generated plugin.
pub const GENERATED_AUTHOR: &'static str = "OpenSkyrim dummy-content";
/// Editor id of the generated worldspace.
pub const GENERATED_WORLDSPACE: &'static str = "GeneratedWorld";
/// Model path of the generated static, which both preset doors draw too.
pub const GENERATED_MODEL_PATH: &'static str = "meshes/generated.nif";
/// Diffuse texture path of the generated texture set.
pub const GENERATED_DIFFUSE_PATH: &'static str = "textures/generated_color.dds";
/// Normal texture path of the generated texture set.
pub const GENERATED_NORMAL_PATH: &'static str = "textures/generated_normal.dds";

/// One exterior cell of the generated worldspace.
#[derive(Debug, Clone, Copy, PartialEq, Eq, Structural)]
pub struct Cell {
    /// Grid X coordinate.
    pub grid_x: i32,
    /// Grid Y coordinate.
    pub grid_y: i32,
}

/// A load door: the `DOOR` base record a reference places, where that
/// reference stands, and the arrival frame the door's own `XTEL` carries.
/// Positions and rotations are `f32` bit patterns.
#[derive(Debug, Clone, Copy)]
pub struct Door<'a> {
    /// `EDID` of the `DOOR` base record.
    pub editor_id: &'a str,
    /// `MODL` model path of the `DOOR` base record.
    pub model_path: &'a str,
    /// `FNAM` flags of the `DOOR` base record.
    pub flags: u8,
    /// `DATA` position of the reference, in Creation units.
    pub position: [u32; 3],
    /// `DATA` rotation of the reference, in radians.
    pub rotation: [u32; 3],
    /// Arrival position this door's `XTEL` stores, in the destination cell.
    pub arrival_position: [u32; 3],
    /// Arrival rotation this door's `XTEL` stores, in radians.
    pub arrival_rotation: [u32; 3],
}

/// An interior cell joined to one exterior cell of the worldspace by a
/// reciprocal pair of load doors.
#[derive(Debug, Clone, Copy)]
pub struct Interior<'a> {
    /// `EDID` of the interior cell.
    pub editor_id: &'a str,
    /// `FULL` display name of the interior cell.
    pub full_name: &'a str,
    /// The exterior cell the outside door stands in; one of [`Plugin::cells`].
    pub exterior_cell: Cell,
    /// The door in the exterior cell, leading in.
    pub outside: Door<'a>,
    /// The door in the interior cell, leading back out.
    pub inside: Door<'a>,
}

/// Description of a generated plugin.
#[derive(Debug, Clone, Copy)]
pub struct Plugin<'a> {
    /// Author string stored in the `TES4` header.
    pub author: &'a str,
    /// Editor id of the generated worldspace.
    pub worldspace: &'a str,
    /// Exterior cells to generate; all get flat terrain.
    pub cells: &'a [Cell],
    /// Model path referenced by the generated static.
    pub model_path: &'a str,
    /// Diffuse texture path referenced by the generated texture set.
    pub diffuse: &'a str,
    /// Normal texture path referenced by the generated texture set.
    pub normal_texture: &'a str,
}

/// A text field of a plugin spec.
#[derive(Debug, Clone, Copy, PartialEq, Eq, Structural)]
pub enum TextField {
    Author,
    Worldspace,
    InteriorEditorId,
    InteriorDisplayName,
    ExteriorDoorEditorId,
    InteriorDoorEditorId,
}

/// An asset path of a plugin spec.
#[derive(Debug, Clone, Copy, PartialEq, Eq, Structural)]
pub enum AssetField {
    Model,
    Diffuse,
    Normal,
    ExteriorDoorModel,
    InteriorDoorModel,
}

/// One of the two doors of an interior.
#[derive(Debug, Clone, Copy, PartialEq, Eq, Structural)]
pub enum DoorSide {
    Exterior,
    Interior,
}

/// A three-component value of a door.
#[derive(Debug, Clone, Copy, PartialEq, Eq, Structural)]
pub enum DoorValue {
    Position,
    Rotation,
    ArrivalPosition,
    ArrivalRotation,
}

/// Why a plugin could not be written.
#[derive(Debug, Clone, Copy, PartialEq, Eq, Structural)]
pub enum EsmError {
    /// The text is empty.
    EmptyText(TextField),
    /// The text holds a byte outside printable ASCII.
    NotPrintable(TextField),
    /// The worldspace has no cells.
    NoCells,
    /// The worldspace has more than [`MAX_CELLS`] cells.
    TooManyCells,
    /// The asset path is not a relative path below the data directory.
    InvalidAsset(AssetField),
    /// The interior's exterior cell is none of the generated cells.
    DetachedInterior,
    /// Both doors have the same editor id.
    DuplicateDoorEditorId,
    /// A component of a door value is infinite or NaN.
    NotFinite(DoorSide, DoorValue),
    /// A cell index does not fit 32 bits once scaled.
    CellIndexOverflow,
    /// A cell FormID does not fit 32 bits.
    CellFormIdOverflow,
    /// A subrecord holds more than [`MAX_SUBRECORD_SIZE`] bytes.
    SubrecordTooLong,
    /// A record payload does not fit a 32-bit size.
    RecordTooLong,
    /// A group does not fit a 32-bit size.
    GroupTooLong,
}


// ---------------------------------------------------------------------------
// Validation

/// The first of two findings.
pub open spec fn first_of(a: Option<EsmError>, b: Option<EsmError>) -> Option<EsmError> {
    if a is Some {
        a
    } else {
        b
    }
}

/// What is wrong with a text field: it must be non-empty printable ASCII.
pub open spec fn text_problem(s: Seq<char>, field: TextField) -> Option<EsmError> {
    if s.len() == 0 {
        Some(EsmError::EmptyText(field))
    } else if !printable_ascii(s) {
        Some(EsmError::NotPrintable(field))
    } else {
        None
    }
}

/// What is wrong with an asset path.
pub open spec fn asset_problem(s: Seq<char>, field: AssetField) -> Option<EsmError> {
    if valid_asset_path(s) {
        None
    } else {
        Some(EsmError::InvalidAsset(field))
    }
}

/// The `f32` with bit pattern `bits` is finite: its exponent bits are not
/// all set.
pub open spec fn finite_bits(bits: u32) -> bool {
    bits % 0x8000_0000 < 0x7f80_0000
}

/// What is wrong with a door value: every component must be finite.
pub open spec fn value_problem(v: [u32; 3], side: DoorSide, which: DoorValue) -> Option<EsmError> {
    if finite_bits(v@[0]) && finite_bits(v@[1]) && finite_bits(v@[2]) {
        None
    } else {
        Some(EsmError::NotFinite(side, which))
    }
}

/// What is wrong with a door: its model path, then its four values.
pub open spec fn door_problem(door: Door, side: DoorSide, model: AssetField) -> Option<EsmError> {
    first_of(
        asset_problem(door.model_path@, model),
        first_of(
            value_problem(door.position, side, DoorValue::Position),
            first_of(
                value_problem(door.rotation, side, DoorValue::Rotation),
                first_of(
                    value_problem(door.arrival_position, side, DoorValue::ArrivalPosition),
                    value_problem(door.arrival_rotation, side, DoorValue::ArrivalRotation),
                ),
            ),
        ),
    )
}

/// `cell` is one of `cells`.
pub open spec fn has_cell(cells: Seq<Cell>, cell: Cell) -> bool {
    exists|i: int| 0 <= i < cells.len() && cells[i] == cell
}

/// `i` is the first index of `cell` in `cells`.
pub open spec fn is_first_index(cells: Seq<Cell>, cell: Cell, i: int) -> bool {
    &&& 0 <= i < cells.len()
    &&& cells[i] == cell
    &&& forall|j: int| 0 <= j < i ==> cells[j] != cell
}

/// The first index of `cell` in `cells`, when it is there.
pub open spec fn first_index(cells: Seq<Cell>, cell: Cell) -> int {
    choose|i: int| is_first_index(cells, cell, i)
}

/// What is wrong with an interior: its exterior cell must be generated, its
/// texts valid, its doors distinct, and each door valid.
pub open spec fn interior_problem(spec: Plugin, interior: Interior) -> Option<EsmError> {
    if !has_cell(spec.cells@, interior.exterior_cell) {
        Some(EsmError::DetachedInterior)
    } else {
        first_of(
            text_problem(interior.editor_id@, TextField::InteriorEditorId),
            first_of(
                text_problem(interior.full_name@, TextField::InteriorDisplayName),
                first_of(
                    text_problem(interior.outside.editor_id@, TextField::ExteriorDoorEditorId),
                    first_of(
                        text_problem(interior.inside.editor_id@, TextField::InteriorDoorEditorId),
                        if interior.outside.editor_id@ == interior.inside.editor_id@ {
                            Some(EsmError::DuplicateDoorEditorId)
                        } else {
                            first_of(
                                door_problem(
                                    interior.outside,
                                    DoorSide::Exterior,
                                    AssetField::ExteriorDoorModel,
                                ),
                                door_problem(
                                    interior.inside,
                                    DoorSide::Interior,
                                    AssetField::InteriorDoorModel,
                                ),
                            )
                        },
                    ),
                ),
            ),
        )
    }
}

/// The first thing wrong with a plugin spec and its optional interior, in
/// the order the writer checks them; `None` when the spec is valid.
pub open spec fn plugin_problem(spec: Plugin, interior: Option<&Interior>) -> Option<EsmError> {
    first_of(
        text_problem(spec.author@, TextField::Author),
        first_of(
            text_problem(spec.worldspace@, TextField::Worldspace),
            first_of(
                if spec.cells@.len() == 0 {
                    Some(EsmError::NoCells)
                } else if spec.cells@.len() > MAX_CELLS {
                    Some(EsmError::TooManyCells)
                } else {
                    None
                },
                first_of(
                    asset_problem(spec.model_path@, AssetField::Model),
                    first_of(
                        asset_problem(spec.diffuse@, AssetField::Diffuse),
                        first_of(
                            asset_problem(spec.normal_texture@, AssetField::Normal),
                            match interior {
                                None => None,
                                Some(i) => interior_problem(spec, *i),
                            },
                        ),
                    ),
                ),
            ),
        ),
    )
}

/// Checks a text field.
fn check_text(value: &str, field: TextField) -> (r: Result<(), EsmError>)
    ensures
        match text_problem(value@, field) {
            Some(e) => r == Err::<(), EsmError>(e),
            None => r is Ok,
        },
{
    let chars = chars_of(value);
    if chars.len() == 0 {
        return Err(EsmError::EmptyText(field));
    }
    if !is_printable_ascii(&chars) {
        return Err(EsmError::NotPrintable(field));
    }
    Ok(())
}

/// Checks an asset path.
fn check_asset(value: &str, field: AssetField) -> (r: Result<(), EsmError>)
    ensures
        match asset_problem(value@, field) {
            Some(e) => r == Err::<(), EsmError>(e),
            None => r is Ok,
        },
{
    if is_valid_asset_path(&chars_of(value)) {
        Ok(())
    } else {
        Err(EsmError::InvalidAsset(field))
    }
}

/// Whether the `f32` with bit pattern `bits` is finite.
fn is_finite_bits(bits: u32) -> (r: bool)
    ensures
        r == finite_bits(bits),
{
    bits % 0x8000_0000 < 0x7f80_0000
}

/// Checks a door value.
fn check_value(v: [u32; 3], side: DoorSide, which: DoorValue) -> (r: Result<(), EsmError>)
    ensures
        match value_problem(v, side, which) {
            Some(e) => r == Err::<(), EsmError>(e),
            None => r is Ok,
        },
{
    if is_finite_bits(v[0]) && is_finite_bits(v[1]) && is_finite_bits(v[2]) {
        Ok(())
    } else {
        Err(EsmError::NotFinite(side, which))
    }
}

/// Checks a door.
fn check_door(door: &Door, side: DoorSide, model: AssetField) -> (r: Result<(), EsmError>)
    ensures
        match door_problem(*door, side, model) {
            Some(e) => r == Err::<(), EsmError>(e),
            None => r is Ok,
        },
{
    check_asset(door.model_path, model)?;
    check_value(door.position, side, DoorValue::Position)?;
    check_value(door.rotation, side, DoorValue::Rotation)?;
    check_value(door.arrival_position, side, DoorValue::ArrivalPosition)?;
    check_value(door.arrival_rotation, side, DoorValue::ArrivalRotation)
}

/// The index of the exterior cell an interior's door stands in: the first
/// cell equal to it.
fn exterior_cell_index(spec: &Plugin, interior: &Interior) -> (r: Result<usize, EsmError>)
    ensures
        r is Ok <==> has_cell(spec.cells@, interior.exterior_cell),
        r matches Ok(i) ==> is_first_index(spec.cells@, interior.exterior_cell, i as int),
        r matches Err(e) ==> e == EsmError::DetachedInterior,
{
    let mut i: usize = 0;
    while i < spec.cells.len()
        invariant
            i <= spec.cells@.len(),
            forall|j: int| 0 <= j < i ==> spec.cells@[j] != interior.exterior_cell,
        decreases spec.cells@.len() - i,
    {
        if spec.cells[i] == interior.exterior_cell {
            return Ok(i);
        }
        i += 1;
    }
    Err(EsmError::DetachedInterior)
}

/// Checks the parts of an interior.
fn check_interior(spec: &Plugin, interior: &Interior) -> (r: Result<(), EsmError>)
    ensures
        match interior_problem(*spec, *interior) {
            Some(e) => r == Err::<(), EsmError>(e),
            None => r is Ok,
        },
{
    exterior_cell_index(spec, interior)?;
    check_text(interior.editor_id, TextField::InteriorEditorId)?;
    check_text(interior.full_name, TextField::InteriorDisplayName)?;
    check_text(interior.outside.editor_id, TextField::ExteriorDoorEditorId)?;
    check_text(interior.inside.editor_id, TextField::InteriorDoorEditorId)?;
    if same_chars(&chars_of(interior.outside.editor_id), &chars_of(interior.inside.editor_id)) {
        return Err(EsmError::DuplicateDoorEditorId);
    }
    check_door(&interior.outside, DoorSide::Exterior, AssetField::ExteriorDoorModel)?;
    check_door(&interior.inside, DoorSide::Interior, AssetField::InteriorDoorModel)
}

/// Checks a plugin spec and its optional interior.
fn validate(spec: &Plugin, interior: Option<&Interior>) -> (r: Result<(), EsmError>)
    ensures
        match plugin_problem(*spec, interior) {
            Some(e) => r == Err::<(), EsmError>(e),
            None => r is Ok,
        },
{
    check_text(spec.author, TextField::Author)?;
    check_text(spec.worldspace, TextField::Worldspace)?;
    if spec.cells.len() == 0 {
        return Err(EsmError::NoCells);
    }
    if spec.cells.len() > MAX_CELLS {
        return Err(EsmError::TooManyCells);
    }
    check_asset(spec.model_path, AssetField::Model)?;
    check_asset(spec.diffuse, AssetField::Diffuse)?;
    check_asset(spec.normal_texture, AssetField::Normal)?;
    match interior {
        None => Ok(()),
        Some(i) => check_interior(spec, i),
    }
}


// ---------------------------------------------------------------------------
// Records

/// `n` zero bytes.
pub open spec fn zeros(n: nat) -> Seq<u8> {
    Seq::new(n, |_i: int| 0u8)
}

/// The bytes of three `f32` bit patterns.
pub open spec fn floats_bytes(v: [u32; 3]) -> Seq<u8> {
    le32(v@[0] as int) + le32(v@[1] as int) + le32(v@[2] as int)
}

/// `HEDR`: version `1.7`, zero records, next object id zero.
pub open spec fn hedr_data() -> Seq<u8> {
    le32(HEDR_VERSION_BITS as int) + le32(0) + le32(0)
}

/// The `TES4` header record.
pub open spec fn header_record_bytes(author: &str) -> Seq<u8> {
    record_bytes(
        tes4_tag(),
        TES4_FORM_ID as int,
        subrecord_bytes(hedr_tag(), hedr_data()) + subrecord_bytes(cnam_tag(), cstring_bytes(author)),
    )
}

/// The `TXST` texture set.
pub open spec fn texture_set_record_bytes(diffuse: &str, normal: &str) -> Seq<u8> {
    record_bytes(
        txst_tag(),
        TXST_FORM_ID as int,
        subrecord_bytes(edid_tag(), cstring_bytes("GeneratedTextures")) + subrecord_bytes(
            tx00_tag(),
            cstring_bytes(diffuse),
        ) + subrecord_bytes(tx01_tag(), cstring_bytes(normal)),
    )
}

/// The `STAT` static.
pub open spec fn static_record_bytes(model: &str) -> Seq<u8> {
    record_bytes(
        stat_tag(),
        STAT_FORM_ID as int,
        subrecord_bytes(edid_tag(), cstring_bytes("GeneratedStatic")) + subrecord_bytes(
            modl_tag(),
            cstring_bytes(model),
        ),
    )
}

/// A `DOOR` base record: editor id, model and one byte of flags.
pub open spec fn door_record_bytes(form_id: int, door: Door) -> Seq<u8> {
    record_bytes(
        door_tag(),
        form_id,
        subrecord_bytes(edid_tag(), cstring_bytes(door.editor_id)) + subrecord_bytes(
            modl_tag(),
            cstring_bytes(door.model_path),
        ) + subrecord_bytes(fnam_tag(), seq![door.flags]),
    )
}

/// The `LTEX` landscape texture, which points at the texture set.
pub open spec fn landscape_texture_record_bytes() -> Seq<u8> {
    record_bytes(
        ltex_tag(),
        LTEX_FORM_ID as int,
        subrecord_bytes(edid_tag(), cstring_bytes("GeneratedLandscape")) + subrecord_bytes(
            tnam_tag(),
            le32(TXST_FORM_ID as int),
        ) + subrecord_bytes(hnam_tag(), le16(0)),
    )
}

/// The `WRLD` worldspace.
pub open spec fn worldspace_record_bytes(worldspace: &str) -> Seq<u8> {
    record_bytes(
        wrld_tag(),
        WRLD_FORM_ID as int,
        subrecord_bytes(edid_tag(), cstring_bytes(worldspace)),
    )
}

/// An exterior `CELL` with its grid square.
pub open spec fn cell_record_bytes(form_id: int, cell: Cell) -> Seq<u8> {
    record_bytes(
        cell_tag(),
        form_id,
        subrecord_bytes(edid_tag(), cstring_bytes("GeneratedCell")) + subrecord_bytes(
            xclc_tag(),
            le32(cell.grid_x as int) + le32(cell.grid_y as int),
        ),
    )
}

/// The interior `CELL`: editor id, display name and the interior flag; no
/// grid square.
pub open spec fn interior_cell_record_bytes(interior: Interior) -> Seq<u8> {
    record_bytes(
        cell_tag(),
        INTERIOR_CELL_FORM_ID as int,
        subrecord_bytes(edid_tag(), cstring_bytes(interior.editor_id)) + subrecord_bytes(
            full_tag(),
            cstring_bytes(interior.full_name),
        ) + subrecord_bytes(data_tag(), seq![INTERIOR_CELL_FLAG]),
    )
}

/// `VHGT`: a zero offset, a flat height grid and three padding bytes.
pub open spec fn vhgt_data() -> Seq<u8> {
    zeros((4 + LAND_SIDE * LAND_SIDE + 3) as nat)
}

/// `BTXT`: the landscape texture on quadrant zero, layer zero.
pub open spec fn btxt_data() -> Seq<u8> {
    le32(LTEX_FORM_ID as int) + seq![0u8, 0u8] + le16(0)
}

/// A flat `LAND` record.
pub open spec fn land_record_bytes(form_id: int) -> Seq<u8> {
    record_bytes(
        land_tag(),
        form_id,
        subrecord_bytes(vhgt_tag(), vhgt_data()) + subrecord_bytes(btxt_tag(), btxt_data()),
    )
}

/// `DATA` of a static reference: the cell's centre, zero height and zero
/// rotation.
pub open spec fn placement_data(center: [u32; 2]) -> Seq<u8> {
    le32(center@[0] as int) + le32(center@[1] as int) + zeros(16)
}

/// A `REFR` placing the static at a cell's centre.
pub open spec fn reference_record_bytes(form_id: int, center: [u32; 2]) -> Seq<u8> {
    record_bytes(
        refr_tag(),
        form_id,
        subrecord_bytes(name_tag(), le32(STAT_FORM_ID as int)) + subrecord_bytes(
            data_tag(),
            placement_data(center),
        ),
    )
}

/// `XTEL`: the destination reference, the arrival position and rotation,
/// and a zero flag word.
pub open spec fn xtel_data(door: Door, destination: int) -> Seq<u8> {
    le32(destination) + floats_bytes(door.arrival_position) + floats_bytes(door.arrival_rotation)
        + le32(0)
}

/// A `REFR` placing a door, with the `XTEL` it crosses on.
pub open spec fn door_reference_record_bytes(
    form_id: int,
    base_form_id: int,
    door: Door,
    destination: int,
) -> Seq<u8> {
    record_bytes(
        refr_tag(),
        form_id,
        subrecord_bytes(name_tag(), le32(base_form_id)) + subrecord_bytes(
            data_tag(),
            floats_bytes(door.position) + floats_bytes(door.rotation),
        ) + subrecord_bytes(xtel_tag(), xtel_data(door, destination)),
    )
}

/// The interior cell group: an interior block around a sub-block around the
/// cell and its children, which hold the return door.
pub open spec fn interior_group_bytes(interior: Interior, exterior_door_ref: int) -> Seq<u8> {
    group_bytes(
        2,
        0,
        group_bytes(
            3,
            0,
            interior_cell_record_bytes(interior) + group_bytes(
                6,
                INTERIOR_CELL_FORM_ID as int,
                group_bytes(
                    8,
                    INTERIOR_CELL_FORM_ID as int,
                    door_reference_record_bytes(
                        INTERIOR_DOOR_REF_FORM_ID as int,
                        INTERIOR_DOOR_FORM_ID as int,
                        interior.inside,
                        exterior_door_ref,
                    ),
                ),
            ),
        ),
    )
}

/// The lengths of the fixed editor ids.
pub(crate) proof fn lemma_fixed_editor_ids()
    ensures
        cstring_bytes("GeneratedTextures").len() == 18,
        cstring_bytes("GeneratedStatic").len() == 16,
        cstring_bytes("GeneratedLandscape").len() == 19,
        cstring_bytes("GeneratedCell").len() == 14,
{
    reveal_strlit("GeneratedTextures");
    reveal_strlit("GeneratedStatic");
    reveal_strlit("GeneratedLandscape");
    reveal_strlit("GeneratedCell");
    broadcast use vstd::string::is_ascii_spec_bytes;

    assert(vstd::string::is_ascii("GeneratedTextures"));
    assert(vstd::string::is_ascii("GeneratedStatic"));
    assert(vstd::string::is_ascii("GeneratedLandscape"));
    assert(vstd::string::is_ascii("GeneratedCell"));
}

/// A text fits one subrecord once NUL-terminated.
pub open spec fn fits(s: &str) -> bool {
    cstring_bytes(s).len() <= MAX_SUBRECORD_SIZE
}

fn header_record(spec: &Plugin) -> (r: Result<Vec<u8>, EsmError>)
    ensures
        r is Ok <==> fits(spec.author),
        r matches Ok(b) ==> b@ == header_record_bytes(spec.author),
        r matches Err(e) ==> e == EsmError::SubrecordTooLong,
{
    let mut hedr: Vec<u8> = Vec::new();
    push_u32_le(&mut hedr, HEDR_VERSION_BITS);
    push_u32_le(&mut hedr, 0);
    push_u32_le(&mut hedr, 0);
    let mut payload: Vec<u8> = Vec::new();
    push_subrecord(&mut payload, tag_hedr(), hedr.as_slice())?;
    push_subrecord(&mut payload, tag_cnam(), cstring(spec.author).as_slice())?;
    record(tag_tes4(), TES4_FORM_ID, payload.as_slice())
}


fn texture_set_record(spec: &Plugin) -> (r: Result<Vec<u8>, EsmError>)
    ensures
        r is Ok <==> fits(spec.diffuse) && fits(spec.normal_texture),
        r matches Ok(b) ==> b@ == texture_set_record_bytes(spec.diffuse, spec.normal_texture),
        r matches Err(e) ==> e == EsmError::SubrecordTooLong,
{
    proof {
        lemma_fixed_editor_ids();
    }
    let mut payload: Vec<u8> = Vec::new();
    push_subrecord(&mut payload, tag_edid(), cstring("GeneratedTextures").as_slice())?;
    push_subrecord(&mut payload, tag_tx00(), cstring(spec.diffuse).as_slice())?;
    push_subrecord(&mut payload, tag_tx01(), cstring(spec.normal_texture).as_slice())?;
    record(tag_txst(), TXST_FORM_ID, payload.as_slice())
}

fn static_record(spec: &Plugin) -> (r: Result<Vec<u8>, EsmError>)
    ensures
        r is Ok <==> fits(spec.model_path),
        r matches Ok(b) ==> b@ == static_record_bytes(spec.model_path),
        r matches Err(e) ==> e == EsmError::SubrecordTooLong,
{
    proof {
        lemma_fixed_editor_ids();
    }
    let mut payload: Vec<u8> = Vec::new();
    push_subrecord(&mut payload, tag_edid(), cstring("GeneratedStatic").as_slice())?;
    push_subrecord(&mut payload, tag_modl(), cstring(spec.model_path).as_slice())?;
    record(tag_stat(), STAT_FORM_ID, payload.as_slice())
}

/// A `DOOR` base record: its editor id, the model a reference of it draws,
/// and its one-byte `FNAM` flags.
fn door_record(form_id: u32, door: &Door) -> (r: Result<Vec<u8>, EsmError>)
    ensures
        r is Ok <==> fits(door.editor_id) && fits(door.model_path),
        r matches Ok(b) ==> b@ == door_record_bytes(form_id as int, *door),
        r matches Err(e) ==> e == EsmError::SubrecordTooLong,
{
    let mut payload: Vec<u8> = Vec::new();
    push_subrecord(&mut payload, tag_edid(), cstring(door.editor_id).as_slice())?;
    push_subrecord(&mut payload, tag_modl(), cstring(door.model_path).as_slice())?;
    let flags: Vec<u8> = vec![door.flags];
    assert(flags@ =~= seq![door.flags]);
    push_subrecord(&mut payload, tag_fnam(), flags.as_slice())?;
    record(tag_door(), form_id, payload.as_slice())
}

fn landscape_texture_record() -> (r: Result<Vec<u8>, EsmError>)
    ensures
        r matches Ok(b) && b@ == landscape_texture_record_bytes(),
{
    proof {
        lemma_fixed_editor_ids();
    }
    let mut tnam: Vec<u8> = Vec::new();
    push_u32_le(&mut tnam, TXST_FORM_ID);
    let mut hnam: Vec<u8> = Vec::new();
    push_u16_le(&mut hnam, 0);
    let mut payload: Vec<u8> = Vec::new();
    push_subrecord(&mut payload, tag_edid(), cstring("GeneratedLandscape").as_slice())?;
    push_subrecord(&mut payload, tag_tnam(), tnam.as_slice())?;
    push_subrecord(&mut payload, tag_hnam(), hnam.as_slice())?;
    record(tag_ltex(), LTEX_FORM_ID, payload.as_slice())
}

fn worldspace_record(spec: &Plugin) -> (r: Result<Vec<u8>, EsmError>)
    ensures
        r is Ok <==> fits(spec.worldspace),
        r matches Ok(b) ==> b@ == worldspace_record_bytes(spec.worldspace),
        r matches Err(e) ==> e == EsmError::SubrecordTooLong,
{
    let mut payload: Vec<u8> = Vec::new();
    push_subrecord(&mut payload, tag_edid(), cstring(spec.worldspace).as_slice())?;
    record(tag_wrld(), WRLD_FORM_ID, payload.as_slice())
}

fn cell_record(form_id: u32, cell: &Cell) -> (r: Result<Vec<u8>, EsmError>)
    ensures
        r matches Ok(b) && b@ == cell_record_bytes(form_id as int, *cell),
{
    proof {
        lemma_fixed_editor_ids();
    }
    let mut xclc: Vec<u8> = Vec::new();
    push_i32_le(&mut xclc, cell.grid_x);
    push_i32_le(&mut xclc, cell.grid_y);
    let mut payload: Vec<u8> = Vec::new();
    push_subrecord(&mut payload, tag_edid(), cstring("GeneratedCell").as_slice())?;
    push_subrecord(&mut payload, tag_xclc(), xclc.as_slice())?;
    record(tag_cell(), form_id, payload.as_slice())
}

/// The interior `CELL`: an editor id, a display name and the interior flag.
fn interior_cell_record(interior: &Interior) -> (r: Result<Vec<u8>, EsmError>)
    ensures
        r is Ok <==> fits(interior.editor_id) && fits(interior.full_name),
        r matches Ok(b) ==> b@ == interior_cell_record_bytes(*interior),
        r matches Err(e) ==> e == EsmError::SubrecordTooLong,
{
    let mut payload: Vec<u8> = Vec::new();
    push_subrecord(&mut payload, tag_edid(), cstring(interior.editor_id).as_slice())?;
    push_subrecord(&mut payload, tag_full(), cstring(interior.full_name).as_slice())?;
    let flags: Vec<u8> = vec![INTERIOR_CELL_FLAG];
    assert(flags@ =~= seq![INTERIOR_CELL_FLAG]);
    push_subrecord(&mut payload, tag_data(), flags.as_slice())?;
    record(tag_cell(), INTERIOR_CELL_FORM_ID, payload.as_slice())
}

/// Appends `n` zero bytes.
fn push_zeros(out: &mut Vec<u8>, n: usize)
    ensures
        final(out)@ == old(out)@ + zeros(n as nat),
{
    let mut i: usize = 0;
    while i < n
        invariant
            i <= n,
            out@ == old(out)@ + zeros(i as nat),
        decreases n - i,
    {
        out.push(0);
        i += 1;
        assert(out@ =~= old(out)@ + zeros(i as nat));
    }
}

fn land_record(form_id: u32) -> (r: Result<Vec<u8>, EsmError>)
    ensures
        r matches Ok(b) && b@ == land_record_bytes(form_id as int),
{
    let mut vhgt: Vec<u8> = Vec::new();
    push_zeros(&mut vhgt, 4 + LAND_SIDE * LAND_SIDE + 3);
    let mut btxt: Vec<u8> = Vec::new();
    push_u32_le(&mut btxt, LTEX_FORM_ID);
    btxt.push(0);
    btxt.push(0);
    push_u16_le(&mut btxt, 0);
    assert(btxt@ =~= btxt_data());
    let mut payload: Vec<u8> = Vec::new();
    push_subrecord(&mut payload, tag_vhgt(), vhgt.as_slice())?;
    push_subrecord(&mut payload, tag_btxt(), btxt.as_slice())?;
    record(tag_land(), form_id, payload.as_slice())
}

/// A `REFR` placing the static at `center`, given as `f32` bit patterns.
fn reference_record(form_id: u32, center: [u32; 2]) -> (r: Result<Vec<u8>, EsmError>)
    ensures
        r matches Ok(b) && b@ == reference_record_bytes(form_id as int, center),
{
    let mut name: Vec<u8> = Vec::new();
    push_u32_le(&mut name, STAT_FORM_ID);
    let mut data: Vec<u8> = Vec::new();
    push_u32_le(&mut data, center[0]);
    push_u32_le(&mut data, center[1]);
    push_zeros(&mut data, 16);
    let mut payload: Vec<u8> = Vec::new();
    push_subrecord(&mut payload, tag_name(), name.as_slice())?;
    push_subrecord(&mut payload, tag_data(), data.as_slice())?;
    record(tag_refr(), form_id, payload.as_slice())
}

/// The bytes of three `f32` bit patterns.
fn floats(values: &[u32; 3]) -> (r: Vec<u8>)
    ensures
        r@ == floats_bytes(*values),
{
    let mut bytes: Vec<u8> = Vec::new();
    push_u32_le(&mut bytes, values[0]);
    push_u32_le(&mut bytes, values[1]);
    push_u32_le(&mut bytes, values[2]);
    bytes
}

/// A `REFR` that places `base_form_id`'s `DOOR` record with `door`'s
/// transform and the `XTEL` the door crosses on.
#[verifier::spinoff_prover]
#[verifier::rlimit(60)]
fn door_reference_record(
    form_id: u32,
    base_form_id: u32,
    door: &Door,
    destination_ref_id: u32,
) -> (r: Result<Vec<u8>, EsmError>)
    ensures
        r matches Ok(b) && b@ == door_reference_record_bytes(
            form_id as int,
            base_form_id as int,
            *door,
            destination_ref_id as int,
        ),
{
    let mut name: Vec<u8> = Vec::new();
    push_u32_le(&mut name, base_form_id);
    let mut data = floats(&door.position);
    append_bytes(&mut data, floats(&door.rotation).as_slice());
    let mut xtel: Vec<u8> = Vec::new();
    push_u32_le(&mut xtel, destination_ref_id);
    append_bytes(&mut xtel, floats(&door.arrival_position).as_slice());
    append_bytes(&mut xtel, floats(&door.arrival_rotation).as_slice());
    push_u32_le(&mut xtel, 0);
    assert(data@ == floats_bytes(door.position) + floats_bytes(door.rotation));
    assert(xtel@ == xtel_data(*door, destination_ref_id as int));
    let mut payload: Vec<u8> = Vec::new();
    push_subrecord(&mut payload, tag_name(), name.as_slice())?;
    push_subrecord(&mut payload, tag_data(), data.as_slice())?;
    push_subrecord(&mut payload, tag_xtel(), xtel.as_slice())?;
    record(tag_refr(), form_id, payload.as_slice())
}

/// The interior cell group around the interior cell, whose children hold
/// the return door.
#[verifier::spinoff_prover]
#[verifier::rlimit(60)]
fn interior_group(interior: &Interior, exterior_door_ref_form_id: u32) -> (r: Result<
    Vec<u8>,
    EsmError,
>)
    ensures
        r is Ok <==> fits(interior.editor_id) && fits(interior.full_name),
        r matches Ok(b) ==> b@ == interior_group_bytes(*interior, exterior_door_ref_form_id as int),
        r matches Err(e) ==> e == EsmError::SubrecordTooLong,
{
    let cell_children = door_reference_record(
        INTERIOR_DOOR_REF_FORM_ID,
        INTERIOR_DOOR_FORM_ID,
        &interior.inside,
        exterior_door_ref_form_id,
    )?;
    assert(cell_children@.len() == 102);
    let mut sub_block = interior_cell_record(interior)?;
    assert(sub_block@.len() <= 24 + 6 + MAX_SUBRECORD_SIZE + 6 + MAX_SUBRECORD_SIZE + 7);
    let children_group = group(8, INTERIOR_CELL_FORM_ID, cell_children.as_slice())?;
    let cell_group = group(6, INTERIOR_CELL_FORM_ID, children_group.as_slice())?;
    assert(cell_group@.len() == 150);
    let ghost cell_bytes = sub_block@;
    append_bytes(&mut sub_block, cell_group.as_slice());
    assert(sub_block@ == cell_bytes + cell_group@);
    let block = group(3, 0, sub_block.as_slice())?;
    group(2, 0, block.as_slice())
}

/// The FormID of the exterior cell at `index`.
pub open spec fn cell_form(index: int) -> int {
    CELL_BASE_FORM_ID + index * CELL_FORM_STRIDE
}

/// The FormID of the exterior cell at `index`, when it fits 32 bits.
pub fn cell_form_id(index: usize) -> (r: Result<u32, EsmError>)
    ensures
        r is Ok <==> cell_form(index as int) <= u32::MAX,
        r matches Ok(id) ==> id == cell_form(index as int),
        r matches Err(e) ==> e == (if index * CELL_FORM_STRIDE <= u32::MAX {
            EsmError::CellFormIdOverflow
        } else {
            EsmError::CellIndexOverflow
        }),
{
    if index > 0xffff_ffff / 16 {
        return Err(EsmError::CellIndexOverflow);
    }
    let offset = index as u32 * CELL_FORM_STRIDE;
    if offset > 0xffff_ffff - CELL_BASE_FORM_ID {
        return Err(EsmError::CellFormIdOverflow);
    }
    Ok(CELL_BASE_FORM_ID + offset)
}


// ---------------------------------------------------------------------------
// The plugin

/// The door reference an exterior cell holds: the outside door, in every
/// cell equal to the interior's exterior cell.
pub open spec fn cell_door_bytes(cell: Cell, form: int, interior: Option<&Interior>) -> Seq<u8> {
    match interior {
        Some(i) => if i.exterior_cell == cell {
            door_reference_record_bytes(
                form + DOOR_REF_OFFSET,
                EXTERIOR_DOOR_FORM_ID as int,
                i.outside,
                INTERIOR_DOOR_REF_FORM_ID as int,
            )
        } else {
            Seq::empty()
        },
        None => Seq::empty(),
    }
}

/// Exterior cell `k`: its `CELL` record and its children group holding its
/// `LAND` and the static reference; in the door's cell the door reference
/// follows that group, so that the group is the one the plugin without the
/// interior writes.
#[verifier::opaque]
pub open spec fn cell_block_bytes(
    cells: Seq<Cell>,
    centers: Seq<[u32; 2]>,
    interior: Option<&Interior>,
    k: int,
) -> Seq<u8> {
    let form = cell_form(k);
    cell_record_bytes(form, cells[k]) + group_bytes(
        8,
        form,
        land_record_bytes(form + 1) + reference_record_bytes(form + 2, centers[k]),
    ) + cell_door_bytes(cells[k], form, interior)
}

/// The first `n` exterior cells, in order.
pub open spec fn world_children_bytes(
    cells: Seq<Cell>,
    centers: Seq<[u32; 2]>,
    interior: Option<&Interior>,
    n: int,
) -> Seq<u8>
    decreases n,
{
    if n <= 0 {
        Seq::empty()
    } else {
        world_children_bytes(cells, centers, interior, n - 1) + cell_block_bytes(
            cells,
            centers,
            interior,
            n - 1,
        )
    }
}

/// The records ahead of the world group: header, texture set, static,
/// landscape texture and worldspace.
pub open spec fn leading_records_bytes(spec: Plugin) -> Seq<u8> {
    header_record_bytes(spec.author) + texture_set_record_bytes(spec.diffuse, spec.normal_texture)
        + static_record_bytes(spec.model_path) + landscape_texture_record_bytes()
        + worldspace_record_bytes(spec.worldspace)
}

/// The world group: the exterior cells.
pub open spec fn world_group_bytes(
    spec: Plugin,
    interior: Option<&Interior>,
    centers: Seq<[u32; 2]>,
) -> Seq<u8> {
    group_bytes(
        1,
        WRLD_FORM_ID as int,
        world_children_bytes(spec.cells@, centers, interior, spec.cells@.len() as int),
    )
}

/// What follows the world group for an interior: the two `DOOR` records and
/// the interior cell group, whose door leads to the outside door standing in
/// the first cell equal to the interior's exterior cell.
pub open spec fn interior_part_bytes(spec: Plugin, interior: Interior) -> Seq<u8> {
    door_record_bytes(EXTERIOR_DOOR_FORM_ID as int, interior.outside) + door_record_bytes(
        INTERIOR_DOOR_FORM_ID as int,
        interior.inside,
    ) + interior_group_bytes(
        interior,
        cell_form(first_index(spec.cells@, interior.exterior_cell)) + DOOR_REF_OFFSET,
    )
}

/// The whole plugin.
pub open spec fn plugin_bytes(
    spec: Plugin,
    interior: Option<&Interior>,
    centers: Seq<[u32; 2]>,
) -> Seq<u8> {
    leading_records_bytes(spec) + world_group_bytes(spec, interior, centers) + match interior {
        None => Seq::empty(),
        Some(i) => interior_part_bytes(spec, *i),
    }
}

/// Every text the plugin writes fits a subrecord.
pub open spec fn strings_fit(spec: Plugin, interior: Option<&Interior>) -> bool {
    &&& fits(spec.author)
    &&& fits(spec.worldspace)
    &&& fits(spec.model_path)
    &&& fits(spec.diffuse)
    &&& fits(spec.normal_texture)
    &&& interior matches Some(i) ==> {
        &&& fits(i.editor_id)
        &&& fits(i.full_name)
        &&& fits(i.outside.editor_id)
        &&& fits(i.outside.model_path)
        &&& fits(i.inside.editor_id)
        &&& fits(i.inside.model_path)
    }
}

/// A cell has one first index.
proof fn lemma_first_index_unique(cells: Seq<Cell>, cell: Cell, i: int)
    requires
        is_first_index(cells, cell, i),
    ensures
        first_index(cells, cell) == i,
{
    let j = first_index(cells, cell);
    assert(is_first_index(cells, cell, j));
    if j < i {
        assert(cells[j] != cell);
    } else if i < j {
        assert(cells[i] != cell);
    }
}

/// Largest block one exterior cell takes.
pub const MAX_CELL_BLOCK_SIZE: usize = 1388;

/// The fixed sizes of the records every exterior cell holds.
#[verifier::spinoff_prover]
#[verifier::rlimit(60)]
proof fn lemma_fixed_record_lens(form: int, cell: Cell, center: [u32; 2], door: Door, base: int, dest: int)
    ensures
        cell_record_bytes(form, cell).len() == 58,
        land_record_bytes(form).len() == 1140,
        reference_record_bytes(form, center).len() == 64,
        door_reference_record_bytes(form, base, door, dest).len() == 102,
{
    assert(cell_record_bytes(form, cell).len() == 58) by {
        lemma_fixed_editor_ids();
    }
    assert(land_record_bytes(form).len() == 1140) by {
        assert(vhgt_data().len() == 1096);
        assert(btxt_data().len() == 8);
    }
    assert(reference_record_bytes(form, center).len() == 64) by {
        assert(placement_data(center).len() == 24);
    }
    assert(door_reference_record_bytes(form, base, door, dest).len() == 102) by {
        assert(xtel_data(door, dest).len() == 32);
    }
}

/// An exterior cell block is small.
#[verifier::spinoff_prover]
#[verifier::rlimit(60)]
proof fn lemma_cell_block_len(
    cells: Seq<Cell>,
    centers: Seq<[u32; 2]>,
    interior: Option<&Interior>,
    k: int,
)
    ensures
        cell_block_bytes(cells, centers, interior, k).len() <= MAX_CELL_BLOCK_SIZE,
{
    reveal(cell_block_bytes);
    let form = cell_form(k);
    let c = cell_record_bytes(form, cells[k]);
    let l = land_record_bytes(form + 1);
    let r = reference_record_bytes(form + 2, centers[k]);
    let d = cell_door_bytes(cells[k], form, interior);
    lemma_fixed_record_lens(form, cells[k], centers[k], arbitrary(), 0, 0);
    lemma_fixed_record_lens(form + 1, cells[k], centers[k], arbitrary(), 0, 0);
    lemma_fixed_record_lens(form + 2, cells[k], centers[k], arbitrary(), 0, 0);
    if let Some(i) = interior {
        lemma_fixed_record_lens(
            form + DOOR_REF_OFFSET,
            cells[k],
            centers[k],
            i.outside,
            EXTERIOR_DOOR_FORM_ID as int,
            INTERIOR_DOOR_REF_FORM_ID as int,
        );
    }
    assert(d.len() <= 102);
    assert(group_bytes(8, form, l + r).len() == 24 + l.len() + r.len());
}

/// The exterior cells take at most [`MAX_CELL_BLOCK_SIZE`] bytes each.
proof fn lemma_world_children_len(
    cells: Seq<Cell>,
    centers: Seq<[u32; 2]>,
    interior: Option<&Interior>,
    n: int,
)
    requires
        n >= 0,
    ensures
        world_children_bytes(cells, centers, interior, n).len() <= MAX_CELL_BLOCK_SIZE * n,
    decreases n,
{
    if n > 0 {
        lemma_world_children_len(cells, centers, interior, n - 1);
        lemma_cell_block_len(cells, centers, interior, n - 1);
    }
}


/// Exterior cell `index`: its `CELL` record, its children group and, in the
/// interior's exterior cell, the outside door's reference.
#[verifier::spinoff_prover]
#[verifier::rlimit(60)]
fn cell_block(
    cells: &[Cell],
    centers: &[[u32; 2]],
    interior: Option<&Interior>,
    index: usize,
) -> (r: Result<Vec<u8>, EsmError>)
    requires
        index < cells@.len(),
        index < centers@.len(),
        index < MAX_CELLS,
    ensures
        r matches Ok(b) && b@ == cell_block_bytes(cells@, centers@, interior, index as int),
{
    let cell = &cells[index];
    let cell_form_id = cell_form_id(index)?;
    let mut block = cell_record(cell_form_id, cell)?;
    let mut children = land_record(cell_form_id + 1)?;
    append_bytes(&mut children, reference_record(cell_form_id + 2, centers[index])?.as_slice());
    proof {
        lemma_fixed_record_lens(cell_form_id as int, *cell, centers@[index as int], arbitrary(), 0, 0);
        lemma_fixed_record_lens(cell_form_id + 1, *cell, centers@[index as int], arbitrary(), 0, 0);
        lemma_fixed_record_lens(cell_form_id + 2, *cell, centers@[index as int], arbitrary(), 0, 0);
    }
    append_bytes(&mut block, group(8, cell_form_id, children.as_slice())?.as_slice());
    let ghost exterior = block@;
    match interior {
        Some(i) => {
            if i.exterior_cell == *cell {
                append_bytes(
                    &mut block,
                    door_reference_record(
                        cell_form_id + DOOR_REF_OFFSET,
                        EXTERIOR_DOOR_FORM_ID,
                        &i.outside,
                        INTERIOR_DOOR_REF_FORM_ID,
                    )?.as_slice(),
                );
            }
        },
        None => {},
    }
    assert(block@ == exterior + cell_door_bytes(*cell, cell_form_id as int, interior));
    proof {
        reveal(cell_block_bytes);
    }
    Ok(block)
}

/// The exterior cells, in order.
#[verifier::spinoff_prover]
#[verifier::rlimit(60)]
fn world_children(cells: &[Cell], centers: &[[u32; 2]], interior: Option<&Interior>) -> (r: Result<
    Vec<u8>,
    EsmError,
>)
    requires
        centers@.len() == cells@.len(),
        cells@.len() <= MAX_CELLS,
    ensures
        r matches Ok(b) && b@ == world_children_bytes(cells@, centers@, interior, cells@.len() as int)
            && b@.len() <= MAX_CELL_BLOCK_SIZE * MAX_CELLS,
{
    let mut children: Vec<u8> = Vec::new();
    let mut index: usize = 0;
    while index < cells.len()
        invariant
            centers@.len() == cells@.len(),
            cells@.len() <= MAX_CELLS,
            index <= cells@.len(),
            children@ == world_children_bytes(cells@, centers@, interior, index as int),
            children@.len() <= MAX_CELL_BLOCK_SIZE * index,
        decreases cells@.len() - index,
    {
        proof {
            lemma_cell_block_len(cells@, centers@, interior, index as int);
        }
        append_bytes(&mut children, cell_block(cells, centers, interior, index)?.as_slice());
        index += 1;
    }
    Ok(children)
}

/// What follows the world group for an interior.
#[verifier::spinoff_prover]
#[verifier::rlimit(60)]
fn interior_part(spec: &Plugin, interior: &Interior) -> (r: Result<Vec<u8>, EsmError>)
    requires
        has_cell(spec.cells@, interior.exterior_cell),
        spec.cells@.len() <= MAX_CELLS,
    ensures
        r is Ok <==> fits(interior.editor_id) && fits(interior.full_name) && fits(
            interior.outside.editor_id,
        ) && fits(interior.outside.model_path) && fits(interior.inside.editor_id) && fits(
            interior.inside.model_path,
        ),
        r matches Ok(b) ==> b@ == interior_part_bytes(*spec, *interior),
        r matches Err(e) ==> e == EsmError::SubrecordTooLong,
{
    let index = exterior_cell_index(spec, interior)?;
    proof {
        lemma_first_index_unique(spec.cells@, interior.exterior_cell, index as int);
    }
    let exterior_door_ref = cell_form_id(index)? + DOOR_REF_OFFSET;
    let mut bytes = door_record(EXTERIOR_DOOR_FORM_ID, &interior.outside)?;
    append_bytes(&mut bytes, door_record(INTERIOR_DOOR_FORM_ID, &interior.inside)?.as_slice());
    append_bytes(&mut bytes, interior_group(interior, exterior_door_ref)?.as_slice());
    Ok(bytes)
}

/// Writes the plugin `spec` describes, with `interior` when there is one.
/// `centers` holds, for each cell, the `f32` bit patterns of its centre.
#[verifier::spinoff_prover]
#[verifier::rlimit(60)]
fn write_plugin(spec: &Plugin, interior: Option<&Interior>, centers: &[[u32; 2]]) -> (r: Result<
    Vec<u8>,
    EsmError,
>)
    requires
        centers@.len() == spec.cells@.len(),
    ensures
        r is Ok <==> plugin_problem(*spec, interior) is None && strings_fit(*spec, interior),
        r matches Ok(b) ==> b@ == plugin_bytes(*spec, interior, centers@),
        r matches Err(e) ==> e == match plugin_problem(*spec, interior) {
            Some(p) => p,
            None => EsmError::SubrecordTooLong,
        },
{
    validate(spec, interior)?;

    let mut bytes = header_record(spec)?;
    append_bytes(&mut bytes, texture_set_record(spec)?.as_slice());
    append_bytes(&mut bytes, static_record(spec)?.as_slice());
    append_bytes(&mut bytes, landscape_texture_record()?.as_slice());
    append_bytes(&mut bytes, worldspace_record(spec)?.as_slice());
    assert(bytes@ == leading_records_bytes(*spec));

    let world = world_children(spec.cells, centers, interior)?;
    append_bytes(&mut bytes, group(1, WRLD_FORM_ID, world.as_slice())?.as_slice());
    assert(bytes@ == leading_records_bytes(*spec) + world_group_bytes(*spec, interior, centers@));

    match interior {
        Some(i) => {
            let ghost before = bytes@;
            append_bytes(&mut bytes, interior_part(spec, i)?.as_slice());
            assert(bytes@ =~= before + interior_part_bytes(*spec, *i));
        },
        None => {
            assert(bytes@ =~= plugin_bytes(*spec, interior, centers@));
        },
    }
    Ok(bytes)
}

/// Generates a minimal Skyrim SE plugin. `centers` holds, for each of
/// `spec.cells`, the `f32` bit patterns of `grid_x * 4096.0 + 2048.0` and
/// `grid_y * 4096.0 + 2048.0`, where the static reference of the cell stands.
pub fn plugin(spec: &Plugin, centers: &[[u32; 2]]) -> (r: Result<Vec<u8>, EsmError>)
    requires
        centers@.len() == spec.cells@.len(),
    ensures
        r is Ok <==> plugin_problem(*spec, None) is None && strings_fit(*spec, None),
        r matches Ok(b) ==> b@ == plugin_bytes(*spec, None, centers@),
        r matches Err(e) ==> e == match plugin_problem(*spec, None) {
            Some(p) => p,
            None => EsmError::SubrecordTooLong,
        },
{
    write_plugin(spec, None, centers)
}

/// Generates the same plugin as [`plugin`], with `interior` and its two load
/// doors.
///
/// The interior part is written after the exterior world, and the exterior
/// records are exactly the ones [`plugin`] writes: the outside door's
/// reference stands right after the block of the exterior cell it is in, and
/// the only field the interior changes is the world group's own size,
/// which grows by that reference's length.
pub fn plugin_with_interior(spec: &Plugin, interior: &Interior, centers: &[[u32; 2]]) -> (r: Result<
    Vec<u8>,
    EsmError,
>)
    requires
        centers@.len() == spec.cells@.len(),
    ensures
        r is Ok <==> plugin_problem(*spec, Some(interior)) is None && strings_fit(
            *spec,
            Some(interior),
        ),
        r matches Ok(b) ==> b@ == plugin_bytes(*spec, Some(interior), centers@),
        r matches Err(e) ==> e == match plugin_problem(*spec, Some(interior)) {
            Some(p) => p,
            None => EsmError::SubrecordTooLong,
        },
{
    write_plugin(spec, Some(interior), centers)
}

/// The exterior cell the interior preset hangs its door on: grid (0, 0).
pub fn preset_exterior_cell() -> (c: Cell)
    ensures
        c == (Cell { grid_x: 0, grid_y: 0 }),
{
    Cell { grid_x: 0, grid_y: 0 }
}

/// The interior cell and reciprocal load door pair of the interior preset.
///
/// The outside door is an auto-load door with editor id `AutoLoadDoor01`,
/// standing at (2048, 1024, 0) and landing at (128, 256, 0); the inside
/// door is an ordinary one, `GeneratedDoor01`, standing at (128, 512, 0) and
/// landing at (2048, 512, 0). Rotations are zero, and both draw
/// [`GENERATED_MODEL_PATH`].
pub fn preset_interior() -> (i: Interior<'static>)
    ensures
        i.editor_id@ == "GeneratedInterior"@,
        i.full_name@ == "Generated Interior"@,
        i.exterior_cell == (Cell { grid_x: 0, grid_y: 0 }),
        i.outside.editor_id@ == "AutoLoadDoor01"@,
        i.outside.model_path@ == GENERATED_MODEL_PATH@,
        i.outside.flags == AUTO_LOAD_FLAG,
        i.outside.position@ == seq![0x4500_0000u32, 0x4480_0000, 0],
        i.outside.rotation@ == seq![0u32, 0, 0],
        i.outside.arrival_position@ == seq![0x4300_0000u32, 0x4380_0000, 0],
        i.outside.arrival_rotation@ == seq![0u32, 0, 0],
        i.inside.editor_id@ == "GeneratedDoor01"@,
        i.inside.model_path@ == GENERATED_MODEL_PATH@,
        i.inside.flags == 0,
        i.inside.position@ == seq![0x4300_0000u32, 0x4400_0000, 0],
        i.inside.rotation@ == seq![0u32, 0, 0],
        i.inside.arrival_position@ == seq![0x4500_0000u32, 0x4400_0000, 0],
        i.inside.arrival_rotation@ == seq![0u32, 0, 0],
{
    let zero: [u32; 3] = [0, 0, 0];
    let i = Interior {
        editor_id: "GeneratedInterior",
        full_name: "Generated Interior",
        exterior_cell: preset_exterior_cell(),
        outside: Door {
            editor_id: "AutoLoadDoor01",
            model_path: GENERATED_MODEL_PATH,
            flags: AUTO_LOAD_FLAG,
            position: [0x4500_0000, 0x4480_0000, 0],
            rotation: zero,
            arrival_position: [0x4300_0000, 0x4380_0000, 0],
            arrival_rotation: zero,
        },
        inside: Door {
            editor_id: "GeneratedDoor01",
            model_path: GENERATED_MODEL_PATH,
            flags: 0,
            position: [0x4300_0000, 0x4400_0000, 0],
            rotation: zero,
            arrival_position: [0x4500_0000, 0x4400_0000, 0],
            arrival_rotation: zero,
        },
    };
    assert(i.outside.position@ =~= seq![0x4500_0000u32, 0x4480_0000, 0]);
    assert(i.outside.rotation@ =~= seq![0u32, 0, 0]);
    assert(i.outside.arrival_position@ =~= seq![0x4300_0000u32, 0x4380_0000, 0]);
    assert(i.inside.position@ =~= seq![0x4300_0000u32, 0x4400_0000, 0]);
    assert(i.inside.arrival_position@ =~= seq![0x4500_0000u32, 0x4400_0000, 0]);
    i
}

} // verus!
