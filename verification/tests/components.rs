use interchange_device::cells;
use interchange_device::document::{
    BelCategory, ConstantKind, ConstantSource, Direction, NodeRecord, PipKind, PipRecord,
    Placement, TileRecord, WireRecord,
};
use interchange_device::error::WriteError;
use interchange_device::fabric::{
    alike_lists, Alike, Bel, BelClass, BelPin, Node, Pad, PadTable, PinDir, PinMap, PinPair,
    SiteInstance, SitePin, SitePip, SiteType, SiteWire, Tile, TileType, WireCategory, WireRef,
};
use interchange_device::interner::Interner;
use interchange_device::luts;
use interchange_device::nodes;
use interchange_device::packages;
use interchange_device::site_records;
use interchange_device::site_types::SiteTypeTable;
use interchange_device::text;
use interchange_device::tile_types;
use interchange_device::tiles;
use interchange_device::tiles::SiteNames;
use interchange_device::widths::{is_list_narrow, Narrow};

fn s(text: &str) -> String {
    text.to_string()
}

fn site_type(name: &str, inputs: usize) -> SiteType {
    SiteType {
        name: s(name),
        input_pins: inputs,
        bels: vec![Bel { name: s("B0"), bel_type: s("OXIDE_COMB"), class: BelClass::Logic, pins: vec![0] }],
        bel_pins: vec![BelPin { name: s("A"), dir: PinDir::Input, bel: s("B0") }],
        wires: vec![SiteWire { name: s("W"), bel_pins: vec![0] }],
        pips: vec![SitePip { in_pin: 0, out_pin: 0 }],
        pins: vec![SitePin { name: s("W"), dir: PinDir::Input, bel_pin: 0 }],
    }
}

fn site(name: &str, def: SiteType) -> SiteInstance {
    SiteInstance { name: s(name), rel_x: 0, rel_y: 0, site_type: def, pin_wires: vec![] }
}

#[test]
fn interning_twice_gives_the_same_handle() {
    let mut ids = Interner::new();
    assert_eq!(ids.len(), 0);
    let a = ids.intern("alpha");
    let b = ids.intern("beta");
    assert_eq!((a, b), (0, 1));
    assert_eq!(ids.intern("alpha"), 0);
    assert_eq!(ids.intern("beta"), 1);
    assert_eq!(ids.intern(""), 2);
    assert_eq!(ids.len(), 3);
    assert_eq!(ids.strings(), vec![s("alpha"), s("beta"), s("")]);
}

#[test]
fn handles_resolve_to_their_names() {
    let mut ids = Interner::new();
    let handles = ids.intern_all(&vec![s("x"), s("y"), s("x"), s("z")]);
    assert_eq!(handles, vec![0, 1, 0, 2]);
    assert_eq!(ids.get(1), Some("y"));
    assert_eq!(ids.get(3), None);
    assert_eq!(ids.lookup("z"), Some(2));
    assert_eq!(ids.lookup("w"), None);
    assert_eq!(ids.len(), 3);
}

#[test]
fn names_that_share_a_prefix_are_different_names() {
    let mut ids = Interner::new();
    let a = ids.intern("R1C2_PLC");
    let b = ids.intern("R1C2_PL");
    let c = ids.intern("R1C2_PLCX");
    let d = ids.intern("r1c2_plc");
    assert_eq!(vec![a, b, c, d], vec![0, 1, 2, 3]);
}

#[test]
fn names_compare_by_their_bytes() {
    assert!(text::same_name("abc", "abc"));
    assert!(!text::same_name("abc", "abd"));
    assert!(!text::same_name("abc", "ab"));
    assert!(text::same_name("", ""));
    assert!(text::sorts_before("", "a"));
    assert!(!text::sorts_before("a", ""));
    assert!(!text::sorts_before("a", "a"));
    assert!(text::sorts_before("ab", "abc"));
    assert!(text::sorts_before("abc", "abd"));
    assert!(!text::sorts_before("abd", "abc"));
    assert!(text::sorts_before("B", "a"));
    assert!(text::sorts_before("LUT4", "LUT4A"));
    assert!(text::sorts_before("z", "é"));
    for (a, b) in [("DCC", "FD1P3BX"), ("x", "x"), ("é", "e"), ("ab", "a")] {
        assert_eq!(text::sorts_before(a, b), a < b);
    }
}

#[test]
fn decimals_are_written_without_leading_zeros() {
    let mut out = s("n=");
    text::push_decimal(&mut out, 0);
    out.push(',');
    text::push_decimal(&mut out, 7);
    out.push(',');
    text::push_decimal(&mut out, 10);
    out.push(',');
    text::push_decimal(&mut out, 4096);
    out.push(',');
    text::push_decimal(&mut out, -1);
    out.push(',');
    text::push_decimal(&mut out, -120);
    assert_eq!(out, "n=0,7,10,4096,-1,-120");
    let mut extreme = String::new();
    text::push_decimal(&mut extreme, i64::MIN);
    assert_eq!(extreme, "-9223372036854775808");
    let mut top = String::new();
    text::push_decimal(&mut top, i64::MAX);
    assert_eq!(top, "9223372036854775807");
}

#[test]
fn site_and_tile_type_names_follow_their_formulas() {
    assert_eq!(text::make_site_name(0, 3, "PIOA"), "R0C3_PIOA");
    assert_eq!(text::make_site_name(12, 105, "PLC"), "R12C105_PLC");
    assert_eq!(text::make_site_name(-1, 0, ""), "R-1C0_");
    assert_eq!(text::make_tile_type_name(0), "tiletype_0");
    assert_eq!(text::make_tile_type_name(37), "tiletype_37");
}

#[test]
fn colons_become_two_underscores() {
    assert_eq!(text::escaped("PLC_R3C4:PLC"), "PLC_R3C4__PLC");
    assert_eq!(text::escaped("plain"), "plain");
    assert_eq!(text::escaped(""), "");
    assert_eq!(text::escaped(":"), "__");
    assert_eq!(text::escaped("a::b:"), "a____b__");
    assert_eq!(text::escaped("é:ü"), "é__ü");
}

#[test]
fn definitions_are_alike_when_every_part_is() {
    let a = site_type("PLC", 1);
    let mut b = site_type("PLC", 1);
    assert!(a.alike(&b));
    b.bels[0].pins.push(1);
    assert!(!a.alike(&b));
    let mut c = site_type("PLC", 1);
    c.wires[0].name = s("V");
    assert!(!a.alike(&c));
    let mut d = site_type("PLC", 1);
    d.pips[0].out_pin = 1;
    assert!(!a.alike(&d));
    let mut e = site_type("PLC", 1);
    e.pins[0].dir = PinDir::Inout;
    assert!(!a.alike(&e));
    assert!(!a.alike(&site_type("PLC", 2)));
    assert!(!a.alike(&site_type("PLD", 1)));
    assert!(alike_lists(&vec![1usize, 2], &vec![1, 2]));
    assert!(!alike_lists(&vec![1usize, 2], &vec![1]));
    assert!(!alike_lists(&vec![s("a")], &vec![s("b")]));
}

#[test]
fn canonicalize_returns_the_first_equal_entry() {
    let a = site_type("PLC", 1);
    let b = site_type("PIO", 1);
    let a_again = site_type("PLC", 1);
    let same_name_other_shape = site_type("PLC", 3);
    let mut table = SiteTypeTable::new();
    assert_eq!(table.len(), 0);
    assert_eq!(table.find(&a), None);
    assert_eq!(table.canonicalize(&a), 0);
    assert_eq!(table.canonicalize(&b), 1);
    assert_eq!(table.canonicalize(&a_again), 0);
    assert_eq!(table.canonicalize(&same_name_other_shape), 2);
    assert_eq!(table.canonicalize(&b), 1);
    assert_eq!(table.len(), 3);
    assert_eq!(table.find(&a_again), Some(0));
    assert_eq!(table.get(1).map(|d| d.name.as_str()), Some("PIO"));
    assert_eq!(table.get(2).map(|d| d.input_pins), Some(3));
    assert!(table.get(3).is_none());
}

#[test]
fn canonical_entries_are_pairwise_different() {
    let tile_types = vec![
        TileType {
            sites: vec![site("a", site_type("PLC", 1)), site("b", site_type("PIO", 1))],
            wires: vec![],
            pips: vec![],
        },
        TileType { sites: vec![], wires: vec![], pips: vec![] },
        TileType {
            sites: vec![
                site("c", site_type("PIO", 1)),
                site("d", site_type("EBR", 1)),
                site("e", site_type("PLC", 1)),
            ],
            wires: vec![],
            pips: vec![],
        },
    ];
    let table = SiteTypeTable::collect(&tile_types);
    assert_eq!(table.len(), 3);
    let names: Vec<&str> = (0..3).map(|i| table.get(i).unwrap().name.as_str()).collect();
    assert_eq!(names, vec!["PLC", "PIO", "EBR"]);
    for i in 0..3 {
        for j in 0..3 {
            assert_eq!(table.get(i).unwrap().alike(table.get(j).unwrap()), i == j);
        }
    }
    for tile_type in &tile_types {
        for instance in &tile_type.sites {
            let index = table.find(&instance.site_type).unwrap();
            assert!(table.get(index).unwrap().alike(&instance.site_type));
        }
    }
}

#[test]
fn flattening_a_node_appends_to_the_wire_list() {
    let mut ids = Interner::new();
    let mut wires = vec![WireRecord { tile: 9, wire: 9, wire_type: 0 }];
    let node = Node {
        wires: vec![
            WireRef { tile: s("t1"), wire: s("a") },
            WireRef { tile: s("t0"), wire: s("a") },
            WireRef { tile: s("t1"), wire: s("b") },
        ],
        root: WireRef { tile: s("t0"), wire: s("a") },
        category: WireCategory::Special,
    };
    let record = nodes::flatten_node(&node, &mut ids, &mut wires);
    assert_eq!(record, NodeRecord { wires: vec![1, 2, 3] });
    assert_eq!(wires.len(), 4);
    assert_eq!(wires[0], WireRecord { tile: 9, wire: 9, wire_type: 0 });
    let t0 = ids.lookup("t0").unwrap();
    let t1 = ids.lookup("t1").unwrap();
    let a = ids.lookup("a").unwrap();
    let b = ids.lookup("b").unwrap();
    assert_eq!(wires[1], WireRecord { tile: t0, wire: a, wire_type: 1 });
    assert_eq!(wires[2], WireRecord { tile: t1, wire: a, wire_type: 1 });
    assert_eq!(wires[3], WireRecord { tile: t1, wire: b, wire_type: 1 });
}

#[test]
fn root_outside_the_members_still_comes_first() {
    let mut ids = Interner::new();
    let node = Node {
        wires: vec![WireRef { tile: s("t1"), wire: s("a") }],
        root: WireRef { tile: s("t0"), wire: s("r") },
        category: WireCategory::General,
    };
    let (wires, records) = nodes::flatten_nodes(&vec![node], &mut ids);
    assert_eq!(records, vec![NodeRecord { wires: vec![0, 1] }]);
    assert_eq!(ids.get(wires[0].wire), Some("r"));
    assert_eq!(ids.get(wires[1].wire), Some("a"));
}

#[test]
fn every_wire_belongs_to_one_node_and_every_index_is_in_range() {
    let mut ids = Interner::new();
    let mut list = Vec::new();
    for n in 0..5usize {
        let mut members = Vec::new();
        for k in 0..n {
            members.push(WireRef { tile: format!("t{}", k), wire: format!("w{}", n) });
        }
        let root = WireRef { tile: s("t0"), wire: format!("w{}", n) };
        list.push(Node { wires: members, root, category: WireCategory::Global });
    }
    let (wires, records) = nodes::flatten_nodes(&list, &mut ids);
    assert_eq!(wires.len(), 1 + 1 + 2 + 3 + 4);
    let mut seen = vec![0usize; wires.len()];
    for (n, record) in records.iter().enumerate() {
        let root = &list[n].root;
        for (k, index) in record.wires.iter().enumerate() {
            assert!(*index < wires.len());
            seen[*index] += 1;
            let is_root = ids.get(wires[*index].tile) == Some(root.tile.as_str())
                && ids.get(wires[*index].wire) == Some(root.wire.as_str());
            assert_eq!(is_root, k == 0);
            assert_eq!(wires[*index].wire_type, 2);
        }
    }
    assert!(seen.iter().all(|count| *count == 1));
    assert_eq!(nodes::wire_type_index(WireCategory::General), 0);
    assert_eq!(nodes::wire_type_index(WireCategory::Special), 1);
    assert_eq!(nodes::wire_type_index(WireCategory::Global), 2);
}

fn pad(side: &str, offset: i32, io_index: i32) -> Pad {
    Pad { pins: vec![s("PIN1")], side: s(side), offset, io_index }
}

#[test]
fn pad_site_is_a_function_of_side_offset_index_and_size() {
    let site = |side: &str, offset: i32, io: i32, w: u32, h: u32| {
        packages::pad_site_name(&pad(side, offset, io), w, h)
    };
    assert_eq!(site("T", 3, 0, 10, 8), Ok(Some(s("R0C3_PIOA"))));
    assert_eq!(site("T", 3, 1, 10, 8), Ok(Some(s("R0C3_PIOB"))));
    assert_eq!(site("B", 3, 0, 10, 8), Ok(Some(s("R7C3_PIOA"))));
    assert_eq!(site("L", 3, 1, 10, 8), Ok(Some(s("R3C0_PIOB"))));
    assert_eq!(site("R", 3, 0, 10, 8), Ok(Some(s("R3C9_PIOA"))));
    assert_eq!(site("", 3, 0, 10, 8), Ok(None));
    assert_eq!(site("", -1, -1, 0, 0), Ok(None));
    assert_eq!(site("B", 0, 0, 0, 0), Ok(Some(s("R-1C0_PIOA"))));
    assert_eq!(site("R", -2, 1, 0, 0), Ok(Some(s("R-2C-1_PIOB"))));
    assert_eq!(site("B", 5, 1, u32::MAX, u32::MAX), Ok(Some(s("R4294967294C5_PIOB"))));
    for side in ["T", "B", "L", "R", ""] {
        for io in [0, 1] {
            let first = site(side, 17, io, 40, 30);
            assert!(first.is_ok());
            assert_eq!(first, site(side, 17, io, 40, 30));
        }
    }
    assert_eq!(site("X", 3, 0, 10, 8), Err(WriteError::UnknownSide { side: s("X") }));
    assert_eq!(site("TT", 3, 0, 10, 8), Err(WriteError::UnknownSide { side: s("TT") }));
    assert_eq!(site("t", 3, 0, 10, 8), Err(WriteError::UnknownSide { side: s("t") }));
    assert_eq!(site("L", 3, 2, 10, 8), Err(WriteError::BadIoIndex { io_index: 2 }));
    assert_eq!(site("X", 3, 2, 10, 8), Err(WriteError::UnknownSide { side: s("X") }));
    assert_eq!(packages::check_pad(&pad("", 0, 5)), Ok(()));
    assert_eq!(packages::check_pad(&pad("R", 0, 1)), Ok(()));
}

#[test]
fn pin_is_placed_only_where_the_device_has_the_site() {
    let sites = SiteNames::from_list(&vec![s("R0C3_PIOA"), s("R3C0_PIOB"), s("R0C3_PIOA")]);
    assert!(sites.contains("R3C0_PIOB"));
    assert!(sites.contains("R0C3_PIOA"));
    assert!(!sites.contains("R3C0_PIOA"));
    assert!(!SiteNames::new().contains("R3C0_PIOB"));
    let mut ids = Interner::new();
    let placed = packages::resolve_pin("A1", &pad("T", 3, 0), &sites, 10, 8, &mut ids).unwrap();
    assert_eq!(ids.get(placed.package_pin), Some("A1"));
    match placed.placement {
        Placement::Placed { site, bel } => {
            assert_eq!(ids.get(site), Some("R0C3_PIOA"));
            assert_eq!(ids.get(bel), Some("PAD_B"));
        }
        Placement::Unplaced => panic!("the site is there"),
    }
    let before = ids.len();
    let unplaced = packages::resolve_pin("A2", &pad("T", 3, 1), &sites, 10, 8, &mut ids).unwrap();
    assert_eq!(unplaced.placement, Placement::Unplaced);
    assert_eq!(ids.len(), before + 1);
    let special = packages::resolve_pin("A3", &pad("", 0, 0), &sites, 10, 8, &mut ids).unwrap();
    assert_eq!(special.placement, Placement::Unplaced);
    let before = ids.strings();
    let refused = packages::resolve_pin("A4", &pad("U", 0, 0), &sites, 10, 8, &mut ids);
    assert_eq!(refused, Err(WriteError::UnknownSide { side: s("U") }));
    assert_eq!(ids.strings(), before);
}

#[test]
fn first_faulty_bonded_pad_is_reported() {
    let table = PadTable {
        packages: vec![s("PKG0"), s("PKG1")],
        pads: vec![
            Pad { pins: vec![s("-"), s("1")], side: s("Q"), offset: 0, io_index: 0 },
            Pad { pins: vec![s("2"), s("2")], side: s("T"), offset: 0, io_index: 4 },
            Pad { pins: vec![s("-"), s("-")], side: s("W"), offset: 0, io_index: 0 },
        ],
    };
    assert_eq!(packages::check_pads(&table), Err(WriteError::BadIoIndex { io_index: 4 }));
    assert!(!packages::is_bonded(&table.pads[0], 0));
    assert!(packages::is_bonded(&table.pads[0], 1));
    assert!(!packages::is_bonded(&table.pads[0], 2));
    let mut ids = Interner::new();
    let refused = packages::resolve_packages(&table, &SiteNames::new(), 4, 4, &mut ids);
    assert_eq!(refused, Err(WriteError::BadIoIndex { io_index: 4 }));
    assert_eq!(ids.len(), 0);
    let mut mended = table.clone();
    mended.pads[1].io_index = 0;
    assert_eq!(packages::check_pads(&mended), Err(WriteError::UnknownSide { side: s("Q") }));
    mended.pads[0].side = s("L");
    assert_eq!(packages::check_pads(&mended), Ok(()));
    let mut sites = SiteNames::new();
    sites.insert(s("R0C0_PIOA"));
    let records = packages::resolve_packages(&mended, &sites, 4, 4, &mut ids).unwrap();
    assert_eq!(records.len(), 2);
    assert_eq!(records[0].pins.len(), 1);
    assert_eq!(records[1].pins.len(), 2);
    assert_eq!(ids.get(records[1].name), Some("PKG1"));
    assert!(matches!(records[0].pins[0].placement, Placement::Placed { .. }));
    assert!(matches!(records[1].pins[0].placement, Placement::Placed { .. }));
    assert!(matches!(records[1].pins[1].placement, Placement::Placed { .. }));
}

#[test]
fn constant_sources_are_the_first_wires_of_their_names() {
    let wires = vec![s("A"), s("G:GND"), s("G:VCC"), s("G:GND"), s("G:VCC")];
    assert_eq!(
        tile_types::find_constant_sources(&wires),
        vec![
            ConstantSource { wire: 2, kind: ConstantKind::Vcc },
            ConstantSource { wire: 1, kind: ConstantKind::Gnd },
        ]
    );
    assert_eq!(
        tile_types::find_constant_sources(&vec![s("G:GND")]),
        vec![ConstantSource { wire: 0, kind: ConstantKind::Gnd }]
    );
    assert_eq!(
        tile_types::find_constant_sources(&vec![s("G:VCC")]),
        vec![ConstantSource { wire: 0, kind: ConstantKind::Vcc }]
    );
    assert!(tile_types::find_constant_sources(&vec![s("g:vcc"), s("VCC")]).is_empty());
    assert_eq!(tile_types::find_wire(&wires, "G:VCC"), Some(2));
    assert_eq!(tile_types::find_wire(&wires, "B"), None);
}

#[test]
fn tile_type_record_canonicalizes_the_site_types_as_they_come() {
    let tile_type = TileType {
        sites: vec![
            site("a", site_type("PIO", 1)),
            site("b", site_type("PLC", 1)),
            site("c", site_type("PIO", 1)),
        ],
        wires: vec![s("w0")],
        pips: vec![],
    };
    let mut ids = Interner::new();
    let mut table = SiteTypeTable::new();
    let record = tile_types::tile_type_record(&tile_type, 4, Some(3), &mut table, &mut ids);
    assert_eq!(ids.get(record.name), Some("tiletype_4"));
    let indices: Vec<usize> = record.site_types.iter().map(|t| t.primary_type).collect();
    assert_eq!(indices, vec![0, 1, 0]);
    assert_eq!(table.len(), 2);
    let null = tile_types::tile_type_record(&tile_type, 3, Some(3), &mut table, &mut ids);
    assert_eq!(ids.get(null.name), Some("NULL"));
    assert_eq!(table.len(), 2);
    let unnamed = tile_types::tile_type_record(&tile_type, 0, None, &mut table, &mut ids);
    assert_eq!(ids.get(unnamed.name), Some("tiletype_0"));
}

#[test]
fn site_type_record_needs_an_input_pin() {
    let mut ids = Interner::new();
    let refused = site_records::site_type_record(&site_type("DCC", 0), &mut ids);
    assert_eq!(refused, Err(WriteError::NoInputPins { site_type: s("DCC") }));
    assert_eq!(ids.len(), 0);
    let one = site_records::site_type_record(&site_type("DCC", 1), &mut ids).unwrap();
    assert_eq!(one.last_input, 0);
    let five = site_records::site_type_record(&site_type("DCC", 5), &mut ids).unwrap();
    assert_eq!(five.last_input, 4);
    assert_eq!(site_records::bel_category(BelClass::Logic), BelCategory::Logic);
    assert_eq!(site_records::bel_category(BelClass::Routing), BelCategory::Routing);
    assert_eq!(site_records::bel_category(BelClass::Port), BelCategory::SitePort);
    assert_eq!(site_records::pin_direction(PinDir::Input), Direction::Input);
    assert_eq!(site_records::pin_direction(PinDir::Output), Direction::Output);
    assert_eq!(site_records::pin_direction(PinDir::Inout), Direction::Inout);
    assert_eq!(site_records::copy_indices(&vec![3, 1, 2]), vec![3, 1, 2]);
}

#[test]
fn first_site_type_without_inputs_is_the_one_reported() {
    let a = site_type("A", 1);
    let b = site_type("B", 0);
    let c = site_type("C", 0);
    let mut table = SiteTypeTable::new();
    table.canonicalize(&a);
    table.canonicalize(&b);
    table.canonicalize(&c);
    assert_eq!(
        site_records::check_site_types(&table),
        Err(WriteError::NoInputPins { site_type: s("B") })
    );
    let mut ids = Interner::new();
    assert_eq!(
        site_records::site_type_records(&table, &mut ids),
        Err(WriteError::NoInputPins { site_type: s("B") })
    );
    assert_eq!(ids.len(), 0);
}

#[test]
fn tile_sites_are_collected_from_every_tile() {
    let shape = TileType {
        sites: vec![
            SiteInstance { name: s("P"), rel_x: 1, rel_y: -1, site_type: site_type("PLC", 1), pin_wires: vec![] },
            SiteInstance { name: s("Q"), rel_x: 0, rel_y: 0, site_type: site_type("PLC", 1), pin_wires: vec![] },
        ],
        wires: vec![],
        pips: vec![],
    };
    let empty = TileType { sites: vec![], wires: vec![], pips: vec![] };
    let list = vec![
        Tile { name: s("t0"), row: 1, col: 1, tile_type: 1, sub_tiles: vec![] },
        Tile { name: s("t1"), row: 0, col: 0, tile_type: 0, sub_tiles: vec![] },
        Tile { name: s("t2"), row: 5, col: 7, tile_type: 1, sub_tiles: vec![s("X:Y")] },
    ];
    let mut ids = Interner::new();
    let (records, sites) = tiles::tile_records(&list, &vec![empty, shape], &mut ids).unwrap();
    for name in ["R0C2_P", "R1C1_Q", "R4C8_P", "R5C7_Q"] {
        assert!(sites.contains(name));
    }
    for name in ["R1C1_P", "R0C0_Q", "R5C7_P", "P", ""] {
        assert!(!sites.contains(name));
    }
    assert_eq!(records.len(), 3);
    assert!(records[1].sites.is_empty());
    assert_eq!(ids.get(records[2].sites[0].name), Some("R4C8_P"));
    assert_eq!(ids.get(records[2].sub_tile_prefixes[0]), Some("X__Y"));
    assert_eq!(tiles::check_tiles(&list, 2), Ok(()));
    assert_eq!(tiles::check_tiles(&list, 1), Err(WriteError::UnknownTileType { tile: s("t0") }));
    assert_eq!(tiles::check_tiles(&list, 0), Err(WriteError::UnknownTileType { tile: s("t0") }));
}

fn map(site_type: &str, cell_type: &str) -> PinMap {
    PinMap {
        site_type: s(site_type),
        cell_type: s(cell_type),
        bels: vec![],
        pins: vec![PinPair { cell_pin: s("c"), bel_pin: s("b") }],
    }
}

#[test]
fn cell_types_are_ordered_by_name_and_listed_once() {
    let maps = vec![map("S0", "b"), map("S0", "a"), map("S1", "b"), map("S1", "B"), map("S2", "ab")];
    assert_eq!(cells::sorted_cell_types(&maps), vec![3, 1, 4, 0]);
    assert!(cells::sorted_cell_types(&vec![]).is_empty());
    let mut ids = Interner::new();
    let records = cells::cell_bel_map(&maps, &mut ids);
    let names: Vec<&str> = records.iter().map(|r| ids.get(r.cell).unwrap()).collect();
    assert_eq!(names, vec!["VLO", "VHI", "B", "a", "ab", "b"]);
    let sites: Vec<&str> =
        records[5].common_pins.iter().map(|c| ids.get(c.site_type).unwrap()).collect();
    assert_eq!(sites, vec!["S0", "S1"]);
    let none = cells::cell_bel_map(&vec![], &mut ids);
    assert_eq!(none.len(), 2);
}

#[test]
fn cell_type_named_like_a_constant_cell_gets_its_own_record() {
    let mut ids = Interner::new();
    let records = cells::cell_bel_map(&vec![map("S0", "VLO")], &mut ids);
    assert_eq!(records.len(), 3);
    assert_eq!(records[0].cell, records[2].cell);
    assert!(records[0].common_pins.is_empty());
    assert_eq!(records[2].common_pins.len(), 1);
}

#[test]
fn lookup_bels_are_those_of_the_first_logic_site_type() {
    let mut other = site_type("PLC", 2);
    other.bels[0].name = s("OTHER");
    let mut logic = site_type("PLC", 1);
    logic.bels = vec![
        Bel { name: s("L0"), bel_type: s("OXIDE_COMB"), class: BelClass::Logic, pins: vec![] },
        Bel { name: s("F0"), bel_type: s("OXIDE_FF"), class: BelClass::Logic, pins: vec![] },
        Bel { name: s("L1"), bel_type: s("OXIDE_COMB"), class: BelClass::Logic, pins: vec![] },
    ];
    let io = site_type("PIO", 1);
    let mut table = SiteTypeTable::new();
    table.canonicalize(&io);
    table.canonicalize(&logic);
    table.canonicalize(&other);
    assert_eq!(luts::lookup_bel_names(&logic.bels), vec![s("L0"), s("L1")]);
    assert_eq!(luts::find_site_type(&table, "PLC").map(|d| d.input_pins), Some(1));
    assert!(luts::find_site_type(&table, "EBR").is_none());
    let defs = luts::lut_definitions(&table);
    let names: Vec<&str> = defs.elements[0].luts.iter().map(|l| l.bels[0].name.as_str()).collect();
    assert_eq!(names, vec!["L0", "L1"]);
}

#[test]
fn values_fit_their_fields_up_to_the_last_one() {
    assert!(0xffff_ffffusize.is_narrow());
    assert!(!0x1_0000_0000usize.is_narrow());
    assert!(is_list_narrow(&vec![0usize, 7, 0xffff_ffff]));
    assert!(!is_list_narrow(&vec![0usize, 0x1_0000_0000, 1]));
    assert!(is_list_narrow(&Vec::<usize>::new()));
    let pip = PipRecord {
        wire0: 1,
        wire1: 2,
        directional: true,
        buffered20: true,
        buffered21: false,
        sub_tile: 0xffff,
        kind: PipKind::Conventional,
    };
    assert!(pip.is_narrow());
    assert!(!PipRecord { sub_tile: 0x1_0000, ..pip.clone() }.is_narrow());
    assert!(!PipRecord { wire1: 0x1_0000_0000, ..pip.clone() }.is_narrow());
    let tile = TileRecord {
        name: 0,
        tile_type: 0,
        row: 0xffff,
        col: 0xffff,
        sites: vec![],
        sub_tile_prefixes: vec![0xffff_ffff],
    };
    assert!(tile.is_narrow());
    assert!(!TileRecord { row: 0x1_0000, ..tile.clone() }.is_narrow());
    assert!(!TileRecord { sub_tile_prefixes: vec![0x1_0000_0000], ..tile.clone() }.is_narrow());
}

#[test]
fn node_whose_members_form_a_set_adds_one_wire_for_each() {
    let members = vec![
        WireRef { tile: s("t0"), wire: s("a") },
        WireRef { tile: s("t0"), wire: s("b") },
        WireRef { tile: s("t1"), wire: s("a") },
        WireRef { tile: s("t1"), wire: s("b") },
    ];
    for root in 0..members.len() {
        let node = Node {
            wires: members.clone(),
            root: members[root].clone(),
            category: WireCategory::General,
        };
        let mut ids = Interner::new();
        let (wires, records) = nodes::flatten_nodes(&vec![node], &mut ids);
        assert_eq!(wires.len(), members.len());
        assert_eq!(records[0].wires, vec![0, 1, 2, 3]);
        for (i, a) in wires.iter().enumerate() {
            for b in &wires[i + 1..] {
                assert_ne!(a, b);
            }
        }
        assert_eq!(ids.get(wires[0].tile), Some(members[root].tile.as_str()));
        assert_eq!(ids.get(wires[0].wire), Some(members[root].wire.as_str()));
    }
}
