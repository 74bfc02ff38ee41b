use skyrim_formats::layout::{generated_files, FormatError, Formats};

#[test]
fn parses_format_lists() {
    assert_eq!(
        Formats::parse("dds").unwrap(),
        Formats {
            dds: true,
            pex: false,
            nif: false,
            bsa: false,
            ba2: false,
            esm: false,
        }
    );
    assert_eq!(
        Formats::parse("dds, pex,nif,bsa ,ba2,esm").unwrap(),
        Formats::all()
    );
    for value in ["", "dds,", "foo", "dds,foo"] {
        assert!(Formats::parse(value).is_err(), "{value:?} was accepted");
    }
}

#[test]
fn format_errors_name_the_fault() {
    assert_eq!(Formats::parse(""), Err(FormatError::EmptyName));
    assert_eq!(Formats::parse("dds,"), Err(FormatError::EmptyName));
    assert_eq!(Formats::parse(" , dds"), Err(FormatError::EmptyName));
    assert_eq!(
        Formats::parse("dds, foo ,bar"),
        Err(FormatError::UnknownName("foo".to_string()))
    );
    assert_eq!(
        Formats::parse("DDS"),
        Err(FormatError::UnknownName("DDS".to_string()))
    );
}

#[test]
fn format_names_trim_unicode_whitespace_and_repeat() {
    let parsed = Formats::parse("\u{3000}esm\t,\u{a0}esm\n").unwrap();
    assert_eq!(
        parsed,
        Formats {
            dds: false,
            pex: false,
            nif: false,
            bsa: false,
            ba2: false,
            esm: true,
        }
    );
    assert_eq!(Formats::parse("ba2,bsa").unwrap().ba2, true);
}

#[test]
fn default_formats_are_all() {
    assert_eq!(Formats::default(), Formats::all());
    let all = Formats::all();
    assert!(all.dds && all.pex && all.nif && all.bsa && all.ba2 && all.esm);
}

#[test]
fn parsed_list_selects_a_format_law_on_values() {
    for value in ["dds", "pex ,nif", "esm,esm", " bsa"] {
        let f = Formats::parse(value).unwrap();
        assert!(f.dds || f.pex || f.nif || f.bsa || f.ba2 || f.esm);
    }
}

const EXPECTED_FILES: [&str; 12] = [
    "scripts/generated.pex",
    "scripts/second.pex",
    "textures/generated_color.dds",
    "textures/generated_normal.dds",
    "textures/generated_color_x8.dds",
    "textures/generated_cube.dds",
    "textures/generated_volume.dds",
    "meshes/generated.nif",
    "Skyrim - Misc.bsa",
    "Skyrim - Meshes.bsa",
    "Skyrim - Textures.ba2",
    "Skyrim.esm",
];

#[test]
fn every_format_lists_the_whole_tree() {
    assert_eq!(generated_files(Formats::all()), EXPECTED_FILES.to_vec());
}

#[test]
fn formats_filter_the_listed_tree() {
    let formats = Formats {
        dds: false,
        pex: true,
        nif: false,
        bsa: true,
        ba2: false,
        esm: false,
    };
    assert_eq!(
        generated_files(formats),
        vec![
            "scripts/generated.pex",
            "scripts/second.pex",
            "Skyrim - Misc.bsa",
            "Skyrim - Meshes.bsa"
        ]
    );
    let only_plugin = Formats::parse("esm").unwrap();
    assert_eq!(generated_files(only_plugin), vec!["Skyrim.esm"]);
}

#[test]
fn joined_lists_or_their_flags_law_on_values() {
    let a = "dds, nif";
    let b = "esm,nif";
    let fa = Formats::parse(a).unwrap();
    let fb = Formats::parse(b).unwrap();
    let joined = Formats {
        dds: fa.dds || fb.dds,
        pex: fa.pex || fb.pex,
        nif: fa.nif || fb.nif,
        bsa: fa.bsa || fb.bsa,
        ba2: fa.ba2 || fb.ba2,
        esm: fa.esm || fb.esm,
    };
    assert_eq!(Formats::parse(&format!("{a},{b}")).unwrap(), joined);
    assert_eq!(Formats::parse(&format!("{b},{a}")).unwrap(), joined);
    assert_eq!(Formats::parse(&format!("{a},{a}")).unwrap(), fa);
    assert_eq!(
        joined,
        Formats { dds: true, pex: false, nif: true, bsa: false, ba2: false, esm: true }
    );
}
