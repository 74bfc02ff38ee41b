use skyrim_formats::esm::{
    cell_form_id, plugin, plugin_with_interior, preset_interior, preset_exterior_cell, AssetField, Cell,
    DoorSide, DoorValue, EsmError, Interior, Plugin, TextField, AUTO_LOAD_FLAG,
    GENERATED_AUTHOR, GENERATED_DIFFUSE_PATH, GENERATED_MODEL_PATH, GENERATED_NORMAL_PATH,
    GENERATED_WORLDSPACE, HEDR_VERSION_BITS, MAX_CELLS,
};

const HEADER_RECORD_SIZE: usize = 24;
const GROUP_HEADER_SIZE: usize = 24;

const CELLS: [Cell; 4] = [
    Cell {
        grid_x: 0,
        grid_y: 0,
    },
    Cell {
        grid_x: 1,
        grid_y: 0,
    },
    Cell {
        grid_x: 0,
        grid_y: 1,
    },
    Cell {
        grid_x: 1,
        grid_y: 1,
    },
];

fn spec() -> Plugin<'static> {
    Plugin {
        author: GENERATED_AUTHOR,
        worldspace: GENERATED_WORLDSPACE,
        cells: &CELLS,
        model_path: GENERATED_MODEL_PATH,
        diffuse: GENERATED_DIFFUSE_PATH,
        normal_texture: GENERATED_NORMAL_PATH,
    }
}

/// The `f32` bits of each cell's centre.
fn centers(cells: &[Cell]) -> Vec<[u32; 2]> {
    cells
        .iter()
        .map(|cell| {
            [
                (cell.grid_x as f32 * 4096.0 + 4096.0 * 0.5).to_bits(),
                (cell.grid_y as f32 * 4096.0 + 4096.0 * 0.5).to_bits(),
            ]
        })
        .collect()
}

fn write(spec: &Plugin<'_>) -> Result<Vec<u8>, EsmError> {
    plugin(spec, &centers(spec.cells))
}

fn write_with(spec: &Plugin<'_>, interior: &Interior<'_>) -> Result<Vec<u8>, EsmError> {
    plugin_with_interior(spec, interior, &centers(spec.cells))
}

/// Every group, record and subrecord tag in `bytes`, in file order.
fn tags(bytes: &[u8]) -> Vec<[u8; 4]> {
    fn subrecords(payload: &[u8], found: &mut Vec<[u8; 4]>) {
        let mut offset = 0;
        while offset + 6 <= payload.len() {
            let tag: [u8; 4] = payload[offset..offset + 4].try_into().unwrap();
            let length =
                u16::from_le_bytes(payload[offset + 4..offset + 6].try_into().unwrap()) as usize;
            found.push(tag);
            offset += 6 + length;
        }
    }

    fn walk(bytes: &[u8], found: &mut Vec<[u8; 4]>) {
        let mut offset = 0;
        while offset + HEADER_RECORD_SIZE <= bytes.len() {
            let tag: [u8; 4] = bytes[offset..offset + 4].try_into().unwrap();
            let size =
                u32::from_le_bytes(bytes[offset + 4..offset + 8].try_into().unwrap()) as usize;
            found.push(tag);
            if tag == *b"GRUP" {
                let children = bytes.get(offset + GROUP_HEADER_SIZE..offset + size);
                let Some(children) = children else { return };
                walk(children, found);
                offset += size;
            } else {
                let payload =
                    bytes.get(offset + HEADER_RECORD_SIZE..offset + HEADER_RECORD_SIZE + size);
                if let Some(payload) = payload {
                    subrecords(payload, found);
                }
                offset += HEADER_RECORD_SIZE + size;
            }
        }
    }

    let mut found = Vec::new();
    walk(bytes, &mut found);
    found
}

fn count(bytes: &[u8], tag: &[u8; 4]) -> usize {
    tags(bytes).iter().filter(|found| *found == tag).count()
}

#[test]
fn writes_tes4_header_and_groups() {
    let bytes = write(&spec()).unwrap();
    assert_eq!(&bytes[..4], b"TES4");
    let tags = tags(&bytes);
    for tag in [b"GRUP", b"WRLD", b"LAND"] {
        assert!(tags.contains(tag), "{tag:?} is missing from {tags:?}");
    }
}

#[test]
fn output_is_deterministic() {
    assert_eq!(write(&spec()).unwrap(), write(&spec()).unwrap());
    assert_eq!(
        write_with(&spec(), &preset_interior()).unwrap(),
        write_with(&spec(), &preset_interior()).unwrap()
    );
}

const EXTERIOR_ONLY_HASH: u64 = 0xECE9_D84B_E35F_6B24;

fn fnv1a(bytes: &[u8]) -> u64 {
    let mut hash = 0xcbf2_9ce4_8422_2325u64;
    for byte in bytes {
        hash ^= u64::from(*byte);
        hash = hash.wrapping_mul(0x0000_0100_0000_01b3);
    }
    hash
}

#[test]
fn exterior_only_output_is_unchanged() {
    assert_eq!(
        fnv1a(&write(&spec()).unwrap()),
        EXTERIOR_ONLY_HASH,
        "the exterior-only bytes moved; if that is intended, refresh the constant"
    );
}

#[test]
fn an_interior_is_appended_after_the_exterior_world() {
    let exterior_only = write(&spec()).unwrap();
    let with_interior = write_with(&spec(), &preset_interior()).unwrap();
    assert_eq!(count(&exterior_only, b"DOOR"), 0);
    assert_eq!(count(&exterior_only, b"XTEL"), 0);
    let world = with_interior
        .windows(4)
        .position(|window| window == b"WRLD")
        .expect("the WRLD record");
    assert_eq!(&with_interior[..world], &exterior_only[..world]);
    let doors = with_interior
        .windows(4)
        .position(|window| window == b"DOOR")
        .expect("the DOOR records");
    assert!(doors >= exterior_only.len());
    assert_eq!(count(&with_interior, b"DOOR"), 2, "one record per door");
    assert_eq!(count(&with_interior, b"XTEL"), 2, "one link per door");
    assert_eq!(count(&with_interior, b"FNAM"), 2, "one FNAM per door");
    assert_eq!(count(&with_interior, b"FULL"), 1, "the interior's name");
}

#[test]
fn rejects_invalid_specs() {
    let mut invalid = spec();
    invalid.cells = &[];
    assert!(write(&invalid).is_err());
    let mut invalid = spec();
    invalid.model_path = "../escape.nif";
    assert!(write(&invalid).is_err());
    let mut invalid = spec();
    invalid.worldspace = "";
    assert!(write(&invalid).is_err());
}

#[test]
fn rejects_invalid_interiors() {
    for mutate in [
        (|interior: &mut Interior<'_>| interior.editor_id = "") as fn(&mut Interior<'_>),
        |interior| interior.full_name = "",
        |interior| interior.inside.editor_id = interior.outside.editor_id,
        |interior| interior.outside.model_path = "../escape.nif",
        |interior| interior.inside.position = [f32::NAN.to_bits(), 0, 0],
        |interior| interior.outside.arrival_rotation = [0, f32::INFINITY.to_bits(), 0],
        |interior| {
            interior.exterior_cell = Cell {
                grid_x: 7,
                grid_y: 7,
            }
        },
    ] {
        let mut invalid = preset_interior();
        mutate(&mut invalid);
        assert!(
            write_with(&spec(), &invalid).is_err(),
            "invalid interior {invalid:?} was accepted"
        );
    }
}

#[test]
fn validation_errors_name_the_first_fault() {
    let mut invalid = spec();
    invalid.author = "";
    assert_eq!(write(&invalid), Err(EsmError::EmptyText(TextField::Author)));
    let mut invalid = spec();
    invalid.worldspace = "World\u{e9}";
    assert_eq!(write(&invalid), Err(EsmError::NotPrintable(TextField::Worldspace)));
    let mut invalid = spec();
    invalid.cells = &[];
    assert_eq!(write(&invalid), Err(EsmError::NoCells));
    let many = vec![Cell { grid_x: 0, grid_y: 0 }; MAX_CELLS + 1];
    let mut invalid = spec();
    invalid.cells = &many;
    assert_eq!(write(&invalid), Err(EsmError::TooManyCells));
    let mut invalid = spec();
    invalid.diffuse = "textures//a.dds";
    assert_eq!(write(&invalid), Err(EsmError::InvalidAsset(AssetField::Diffuse)));
    let mut invalid = spec();
    invalid.normal_texture = "/abs.dds";
    assert_eq!(write(&invalid), Err(EsmError::InvalidAsset(AssetField::Normal)));
    let mut invalid = spec();
    invalid.model_path = "meshes/./a.nif";
    assert_eq!(write(&invalid), Err(EsmError::InvalidAsset(AssetField::Model)));

    let mut interior = preset_interior();
    interior.exterior_cell = Cell { grid_x: 9, grid_y: 9 };
    interior.editor_id = "";
    assert_eq!(write_with(&spec(), &interior), Err(EsmError::DetachedInterior));
    let mut interior = preset_interior();
    interior.full_name = "Tab\there";
    assert_eq!(
        write_with(&spec(), &interior),
        Err(EsmError::NotPrintable(TextField::InteriorDisplayName))
    );
    let mut interior = preset_interior();
    interior.inside.editor_id = interior.outside.editor_id;
    assert_eq!(write_with(&spec(), &interior), Err(EsmError::DuplicateDoorEditorId));
    let mut interior = preset_interior();
    interior.inside.model_path = "meshes\\..\\x.nif";
    assert_eq!(
        write_with(&spec(), &interior),
        Err(EsmError::InvalidAsset(AssetField::InteriorDoorModel))
    );
    let mut interior = preset_interior();
    interior.outside.rotation = [0, 0, f32::NEG_INFINITY.to_bits()];
    assert_eq!(
        write_with(&spec(), &interior),
        Err(EsmError::NotFinite(DoorSide::Exterior, DoorValue::Rotation))
    );
    let mut interior = preset_interior();
    interior.inside.arrival_position = [f32::NAN.to_bits(), 0, 0];
    assert_eq!(
        write_with(&spec(), &interior),
        Err(EsmError::NotFinite(DoorSide::Interior, DoorValue::ArrivalPosition))
    );
}

#[test]
fn long_texts_do_not_fit_a_subrecord() {
    let long = "a".repeat(65535);
    let mut invalid = spec();
    invalid.author = &long;
    assert_eq!(write(&invalid), Err(EsmError::SubrecordTooLong));
    let fits = "a".repeat(65534);
    let mut valid = spec();
    valid.author = &fits;
    assert!(write(&valid).is_ok());
}

#[test]
fn preset_values_are_the_documented_floats() {
    let interior = preset_interior();
    assert_eq!(interior.outside.flags, AUTO_LOAD_FLAG);
    assert_eq!(interior.inside.flags, 0);
    assert_eq!(interior.exterior_cell, preset_exterior_cell());
    let floats = |v: [u32; 3]| v.map(f32::from_bits);
    assert_eq!(floats(interior.outside.position), [2048.0, 1024.0, 0.0]);
    assert_eq!(floats(interior.outside.arrival_position), [128.0, 256.0, 0.0]);
    assert_eq!(floats(interior.inside.position), [128.0, 512.0, 0.0]);
    assert_eq!(floats(interior.inside.arrival_position), [2048.0, 512.0, 0.0]);
    assert_eq!(interior.outside.editor_id, "AutoLoadDoor01");
    assert_eq!(interior.inside.editor_id, "GeneratedDoor01");
    assert_eq!(interior.outside.model_path, GENERATED_MODEL_PATH);
    assert_eq!(HEDR_VERSION_BITS, 1.7_f32.to_bits());
}

#[test]
fn sizes_in_headers_describe_what_follows() {
    let bytes = write_with(&spec(), &preset_interior()).unwrap();
    // The walker lands exactly on the end of the file.
    let mut offset = 0;
    while offset < bytes.len() {
        let tag = &bytes[offset..offset + 4];
        let size = u32::from_le_bytes(bytes[offset + 4..offset + 8].try_into().unwrap()) as usize;
        offset += if tag == b"GRUP" { size } else { HEADER_RECORD_SIZE + size };
    }
    assert_eq!(offset, bytes.len());
    let top: Vec<&[u8]> = {
        let mut found = Vec::new();
        let mut offset = 0;
        while offset < bytes.len() {
            let tag = &bytes[offset..offset + 4];
            let size =
                u32::from_le_bytes(bytes[offset + 4..offset + 8].try_into().unwrap()) as usize;
            found.push(tag);
            offset += if tag == b"GRUP" { size } else { HEADER_RECORD_SIZE + size };
        }
        found
    };
    let names: Vec<&[u8]> = vec![b"TES4", b"TXST", b"STAT", b"LTEX", b"WRLD", b"GRUP", b"DOOR", b"DOOR", b"GRUP"];
    assert_eq!(top, names);
}

#[test]
fn doors_are_reciprocal_on_the_preset() {
    let bytes = write_with(&spec(), &preset_interior()).unwrap();
    let xtels: Vec<u32> = bytes
        .windows(4)
        .enumerate()
        .filter(|(_, w)| *w == b"XTEL")
        .map(|(i, _)| u32::from_le_bytes(bytes[i + 6..i + 10].try_into().unwrap()))
        .collect();
    // The exterior door (in cell 0, FormID 0x10 + 3) leads to the interior
    // door's reference 0x10001, which leads back.
    assert_eq!(xtels, vec![0x0001_0001, 0x13]);
}

#[test]
fn cells_other_than_the_door_cell_are_unchanged() {
    let exterior_only = write(&spec()).unwrap();
    let with_interior = write_with(&spec(), &preset_interior()).unwrap();
    // The door reference is one 102-byte record in cell (0, 0).
    let door_ref = 102;
    let world = exterior_only.windows(4).position(|w| w == b"GRUP").unwrap();
    assert!(with_interior.len() > exterior_only.len() + door_ref);
    // The last three cells follow the first and are byte-identical.
    let tail_without = &exterior_only[exterior_only.len() - 3 * 1286..];
    let start = world + 24 + 1286 + door_ref;
    assert_eq!(&with_interior[start..start + 3 * 1286], tail_without);
}

#[test]
fn an_interior_moves_only_the_world_group_size() {
    let without = write(&spec()).unwrap();
    let with = write_with(&spec(), &preset_interior()).unwrap();
    let size = |bytes: &[u8], at: usize| u32::from_le_bytes(bytes[at..at + 4].try_into().unwrap());
    let world = without.windows(4).position(|w| w == b"GRUP").unwrap();
    let door_ref = 102;
    // Cell (0, 0): its 58-byte CELL record, then its children group of LAND
    // and the static reference, unchanged at 24 + 1140 + 64 bytes.
    let first_cell = world + 24;
    let cell_end = first_cell + 1286;
    assert_eq!(&with[first_cell + 58..first_cell + 62], b"GRUP");
    assert_eq!(size(&with, first_cell + 62), 1228);
    assert_eq!(size(&without, world + 4) as usize, without.len() - world);
    assert_eq!(size(&with, world + 4) as usize, without.len() - world + door_ref);
    assert_eq!(&with[..world + 4], &without[..world + 4]);
    assert_eq!(&with[world + 8..cell_end], &without[world + 8..cell_end]);
    assert_eq!(&with[cell_end..cell_end + 4], b"REFR");
    assert_eq!(size(&with, cell_end + 4) as usize, door_ref - HEADER_RECORD_SIZE);
    assert_eq!(&with[cell_end + door_ref..without.len() + door_ref], &without[cell_end..]);
    assert_eq!(&with[without.len() + door_ref..without.len() + door_ref + 4], b"DOOR");
}

#[test]
fn cell_form_ids_step_by_sixteen_and_overflow() {
    assert_eq!(cell_form_id(0), Ok(0x10));
    assert_eq!(cell_form_id(1), Ok(0x20));
    assert_eq!(cell_form_id(MAX_CELLS - 1), Ok(0x10 + 0x10 * (MAX_CELLS as u32 - 1)));
    assert!(cell_form_id(MAX_CELLS - 1).unwrap() + 3 < 0x0001_0000);
    assert_eq!(cell_form_id(0x0fff_ffff), Err(EsmError::CellFormIdOverflow));
    assert_eq!(cell_form_id(0x1000_0000), Err(EsmError::CellIndexOverflow));
    assert_eq!(cell_form_id(usize::MAX), Err(EsmError::CellIndexOverflow));
}
