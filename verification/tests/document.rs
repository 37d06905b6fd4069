use interchange_device::document::{
    BelCategory, ConstantKind, ConstantSource, Direction, PipKind, Placement, SiteRecord,
    WireRecord,
};
use interchange_device::error::WriteError;
use interchange_device::fabric::{
    Bel, BelClass, BelPin, Fabric, Node, Pad, PadTable, PinDir, PinMap, PinPair, Pip, PseudoCell,
    SiteInstance, SitePin, SitePip, SiteType, SiteWire, Tile, TileType, WireCategory, WireRef,
};
use interchange_device::interner::Interner;
use interchange_device::device;

fn s(text: &str) -> String {
    text.to_string()
}

fn plc() -> SiteType {
    SiteType {
        name: s("PLC"),
        input_pins: 2,
        bels: vec![
            Bel { name: s("LUT0"), bel_type: s("OXIDE_COMB"), class: BelClass::Logic, pins: vec![0, 1, 2] },
            Bel { name: s("A_IN"), bel_type: s("A_IN"), class: BelClass::Port, pins: vec![3] },
            Bel { name: s("MUX0"), bel_type: s("MUX"), class: BelClass::Routing, pins: vec![] },
            Bel { name: s("LUT1"), bel_type: s("OXIDE_COMB"), class: BelClass::Logic, pins: vec![] },
        ],
        bel_pins: vec![
            BelPin { name: s("A"), dir: PinDir::Input, bel: s("LUT0") },
            BelPin { name: s("B"), dir: PinDir::Input, bel: s("LUT0") },
            BelPin { name: s("F"), dir: PinDir::Output, bel: s("LUT0") },
            BelPin { name: s("A_IN"), dir: PinDir::Inout, bel: s("A_IN") },
        ],
        wires: vec![SiteWire { name: s("A_W"), bel_pins: vec![0, 3] }],
        pips: vec![SitePip { in_pin: 0, out_pin: 2 }],
        pins: vec![
            SitePin { name: s("A_W"), dir: PinDir::Input, bel_pin: 3 },
            SitePin { name: s("B_W"), dir: PinDir::Input, bel_pin: 1 },
            SitePin { name: s("F_W"), dir: PinDir::Output, bel_pin: 2 },
        ],
    }
}

fn pio(letter: &str) -> SiteType {
    SiteType {
        name: s("PIO"),
        input_pins: 1,
        bels: vec![Bel { name: s("PAD_B"), bel_type: s("PAD"), class: BelClass::Logic, pins: vec![0] }],
        bel_pins: vec![BelPin { name: s(letter), dir: PinDir::Inout, bel: s("PAD_B") }],
        wires: vec![],
        pips: vec![],
        pins: vec![SitePin { name: s("PAD"), dir: PinDir::Input, bel_pin: 0 }],
    }
}

fn plc_site(name: &str) -> SiteInstance {
    SiteInstance {
        name: s(name),
        rel_x: 0,
        rel_y: 0,
        site_type: plc(),
        pin_wires: vec![s("JA"), s("JB"), s("JF")],
    }
}

fn logic_tile_type() -> TileType {
    TileType {
        sites: vec![plc_site("PLC")],
        wires: vec![s("JA"), s("G:GND"), s("JB"), s("JF"), s("G:VCC")],
        pips: vec![
            Pip { src_wire: 0, dst_wire: 3, sub_tile: 0, pseudo_cells: vec![] },
            Pip {
                src_wire: 2,
                dst_wire: 3,
                sub_tile: 1,
                pseudo_cells: vec![PseudoCell { bel: s("LUT0"), pins: vec![s("A"), s("F")] }],
            },
        ],
    }
}

fn empty_tile_type() -> TileType {
    TileType { sites: vec![], wires: vec![], pips: vec![] }
}

fn tile(name: &str, row: u32, col: u32, tile_type: usize) -> Tile {
    Tile { name: s(name), row, col, tile_type, sub_tiles: vec![format!("{}:PLC", name)] }
}

fn two_tile_fabric() -> Fabric {
    Fabric {
        device: s("LIFCL-40"),
        width: 6,
        height: 4,
        tile_types: vec![empty_tile_type(), logic_tile_type()],
        tiles: vec![tile("NULL_R0C0", 0, 0, 0), tile("tileA", 1, 2, 1), tile("tileB", 1, 3, 1)],
        nodes: vec![],
    }
}

fn no_pads() -> PadTable {
    PadTable { packages: vec![], pads: vec![] }
}

fn name_of(strings: &[String], handle: usize) -> &str {
    strings[handle].as_str()
}

#[test]
fn same_site_type_in_two_tiles_is_one_canonical_entry() {
    let fabric = two_tile_fabric();
    let mut ids = Interner::new();
    let doc = device::write(&fabric, &no_pads(), &vec![], &mut ids).unwrap();
    assert_eq!(doc.site_types.len(), 1);
    assert_eq!(name_of(&doc.strings, doc.site_types[0].name), "PLC");
    assert_eq!(doc.tile_types[1].site_types.len(), 1);
    assert_eq!(doc.tile_types[1].site_types[0].primary_type, 0);
    assert_eq!(doc.tiles[1].tile_type, 1);
    assert_eq!(doc.tiles[2].tile_type, 1);
    assert_eq!(doc.tiles[1].sites, vec![SiteRecord { name: doc.tiles[1].sites[0].name, site_type: 0 }]);
    assert_eq!(name_of(&doc.strings, doc.tiles[1].sites[0].name), "R1C2_PLC");
    assert_eq!(name_of(&doc.strings, doc.tiles[2].sites[0].name), "R1C3_PLC");
}

#[test]
fn equal_site_types_of_two_tile_types_share_their_index() {
    let mut fabric = two_tile_fabric();
    let mut other = logic_tile_type();
    other.sites = vec![plc_site("PLC_LEFT"), SiteInstance {
        name: s("PIOA"),
        rel_x: -1,
        rel_y: 1,
        site_type: pio("B"),
        pin_wires: vec![s("JPAD")],
    }, plc_site("PLC_RIGHT")];
    fabric.tile_types.push(other);
    let mut ids = Interner::new();
    let doc = device::write(&fabric, &no_pads(), &vec![], &mut ids).unwrap();
    assert_eq!(doc.site_types.len(), 2);
    let in_tile: Vec<usize> = doc.tile_types[2].site_types.iter().map(|t| t.primary_type).collect();
    assert_eq!(in_tile, vec![0, 1, 0]);
    assert_eq!(name_of(&doc.strings, doc.site_types[1].name), "PIO");
}

#[test]
fn site_types_that_differ_in_one_pin_are_kept_apart() {
    let mut fabric = two_tile_fabric();
    let mut changed = plc_site("PLC");
    changed.site_type.bel_pins[1].dir = PinDir::Output;
    fabric.tile_types.push(TileType { sites: vec![changed], wires: vec![], pips: vec![] });
    let mut ids = Interner::new();
    let doc = device::write(&fabric, &no_pads(), &vec![], &mut ids).unwrap();
    assert_eq!(doc.site_types.len(), 2);
    assert_eq!(doc.tile_types[2].site_types[0].primary_type, 1);
    assert_eq!(doc.site_types[0].bel_pins[1].dir, Direction::Input);
    assert_eq!(doc.site_types[1].bel_pins[1].dir, Direction::Output);
}

#[test]
fn node_with_two_wires_gives_two_wire_entries_and_one_node() {
    let mut fabric = two_tile_fabric();
    fabric.nodes = vec![Node {
        wires: vec![
            WireRef { tile: s("tileA"), wire: s("X0") },
            WireRef { tile: s("tileB"), wire: s("X1") },
        ],
        root: WireRef { tile: s("tileA"), wire: s("X0") },
        category: WireCategory::General,
    }];
    let mut ids = Interner::new();
    let doc = device::write(&fabric, &no_pads(), &vec![], &mut ids).unwrap();
    assert_eq!(doc.wires.len(), 2);
    assert_eq!(doc.nodes.len(), 1);
    assert_eq!(doc.nodes[0].wires, vec![0, 1]);
    assert_ne!(doc.wires[0], doc.wires[1]);
    assert_eq!(name_of(&doc.strings, doc.wires[0].tile), "tileA");
    assert_eq!(name_of(&doc.strings, doc.wires[0].wire), "X0");
    assert_eq!(name_of(&doc.strings, doc.wires[1].tile), "tileB");
    assert_eq!(name_of(&doc.strings, doc.wires[1].wire), "X1");
    assert_eq!(doc.wires[0].wire_type, 0);
}

#[test]
fn root_comes_first_wherever_it_stands_among_the_members() {
    let mut fabric = two_tile_fabric();
    let root = WireRef { tile: s("tileB"), wire: s("Q") };
    fabric.nodes = vec![
        Node {
            wires: vec![WireRef { tile: s("tileA"), wire: s("P") }],
            root: WireRef { tile: s("tileA"), wire: s("P") },
            category: WireCategory::Special,
        },
        Node {
            wires: vec![
                WireRef { tile: s("tileA"), wire: s("Q") },
                root.clone(),
                WireRef { tile: s("tileB"), wire: s("R") },
            ],
            root,
            category: WireCategory::Global,
        },
    ];
    let mut ids = Interner::new();
    let doc = device::write(&fabric, &no_pads(), &vec![], &mut ids).unwrap();
    assert_eq!(doc.nodes[0].wires, vec![0]);
    assert_eq!(doc.nodes[1].wires, vec![1, 2, 3]);
    assert_eq!(doc.wires.len(), 4);
    let named: Vec<(&str, &str, usize)> = doc
        .wires
        .iter()
        .map(|w| (name_of(&doc.strings, w.tile), name_of(&doc.strings, w.wire), w.wire_type))
        .collect();
    assert_eq!(
        named,
        vec![("tileA", "P", 1), ("tileB", "Q", 2), ("tileA", "Q", 2), ("tileB", "R", 2)]
    );
    for node in &doc.nodes {
        for index in &node.wires {
            assert!(*index < doc.wires.len());
        }
    }
}

#[test]
fn same_wire_name_in_unconnected_tiles_keeps_two_entries() {
    let mut fabric = two_tile_fabric();
    fabric.nodes = vec![
        Node {
            wires: vec![WireRef { tile: s("tileA"), wire: s("X0") }],
            root: WireRef { tile: s("tileA"), wire: s("X0") },
            category: WireCategory::General,
        },
        Node {
            wires: vec![WireRef { tile: s("tileB"), wire: s("X0") }],
            root: WireRef { tile: s("tileB"), wire: s("X0") },
            category: WireCategory::General,
        },
    ];
    let mut ids = Interner::new();
    let doc = device::write(&fabric, &no_pads(), &vec![], &mut ids).unwrap();
    assert_eq!(doc.wires.len(), 2);
    assert_eq!(doc.wires[0].wire, doc.wires[1].wire);
    assert_ne!(doc.wires[0].tile, doc.wires[1].tile);
    assert_eq!(doc.nodes[0].wires, vec![0]);
    assert_eq!(doc.nodes[1].wires, vec![1]);
}

fn io_fabric() -> Fabric {
    let io_type = TileType {
        sites: vec![
            SiteInstance { name: s("PIOA"), rel_x: 0, rel_y: 0, site_type: pio("B"), pin_wires: vec![] },
            SiteInstance { name: s("PIOB"), rel_x: 0, rel_y: 0, site_type: pio("B"), pin_wires: vec![] },
        ],
        wires: vec![],
        pips: vec![],
    };
    Fabric {
        device: s("LIFCL-40"),
        width: 10,
        height: 8,
        tile_types: vec![empty_tile_type(), io_type],
        tiles: vec![
            tile("NULL", 0, 0, 0),
            tile("TOP3", 0, 3, 1),
            tile("BOT5", 7, 5, 1),
            tile("LEFT2", 2, 0, 1),
            tile("RIGHT4", 4, 9, 1),
        ],
        nodes: vec![],
    }
}

fn pad(label: &str, side: &str, offset: i32, io_index: i32) -> Pad {
    Pad { pins: vec![s(label)], side: s(side), offset, io_index }
}

fn one_package(pads: Vec<Pad>) -> PadTable {
    PadTable { packages: vec![s("QFN72")], pads }
}

#[test]
fn pad_on_top_resolves_to_its_site_and_the_pad_bel() {
    let mut ids = Interner::new();
    let pads = one_package(vec![pad("A1", "T", 3, 0)]);
    let doc = device::write(&io_fabric(), &pads, &vec![], &mut ids).unwrap();
    assert_eq!(doc.packages.len(), 1);
    assert_eq!(name_of(&doc.strings, doc.packages[0].name), "QFN72");
    assert_eq!(doc.packages[0].pins.len(), 1);
    let pin = doc.packages[0].pins[0];
    assert_eq!(name_of(&doc.strings, pin.package_pin), "A1");
    match pin.placement {
        Placement::Placed { site, bel } => {
            assert_eq!(name_of(&doc.strings, site), "R0C3_PIOA");
            assert_eq!(name_of(&doc.strings, bel), "PAD_B");
        }
        Placement::Unplaced => panic!("the pad has a site"),
    }
}

#[test]
fn pad_without_realized_site_is_unplaced() {
    let mut ids = Interner::new();
    let pads = one_package(vec![pad("A1", "T", 3, 0)]);
    let mut fabric = io_fabric();
    fabric.tiles.remove(1);
    let doc = device::write(&fabric, &pads, &vec![], &mut ids).unwrap();
    assert_eq!(doc.packages[0].pins[0].placement, Placement::Unplaced);
    assert!(!doc.strings.contains(&s("R0C3_PIOA")));
}

#[test]
fn each_side_has_its_own_site_name() {
    let mut ids = Interner::new();
    let pads = one_package(vec![
        pad("T0", "T", 3, 1),
        pad("B0", "B", 5, 0),
        pad("L0", "L", 2, 1),
        pad("R0", "R", 4, 0),
        pad("VCC", "", -1, -1),
        pad("NC", "R", 5, 0),
    ]);
    let doc = device::write(&io_fabric(), &pads, &vec![], &mut ids).unwrap();
    let sites: Vec<Option<&str>> = doc.packages[0]
        .pins
        .iter()
        .map(|p| match p.placement {
            Placement::Placed { site, .. } => Some(name_of(&doc.strings, site)),
            Placement::Unplaced => None,
        })
        .collect();
    assert_eq!(
        sites,
        vec![Some("R0C3_PIOB"), Some("R7C5_PIOA"), Some("R2C0_PIOB"), Some("R4C9_PIOA"), None, None]
    );
}

#[test]
fn unbonded_pads_are_left_out_of_a_package() {
    let mut ids = Interner::new();
    let pads = PadTable {
        packages: vec![s("QFN72"), s("BGA256")],
        pads: vec![
            Pad { pins: vec![s("1"), s("A1")], side: s("T"), offset: 3, io_index: 0 },
            Pad { pins: vec![s("-"), s("A2")], side: s("T"), offset: 3, io_index: 1 },
            Pad { pins: vec![s("2")], side: s("L"), offset: 2, io_index: 0 },
            Pad { pins: vec![s("-"), s("-")], side: s("X"), offset: 0, io_index: 7 },
        ],
    };
    let doc = device::write(&io_fabric(), &pads, &vec![], &mut ids).unwrap();
    let labels = |i: usize| -> Vec<&str> {
        doc.packages[i].pins.iter().map(|p| name_of(&doc.strings, p.package_pin)).collect()
    };
    assert_eq!(labels(0), vec!["1", "2"]);
    assert_eq!(labels(1), vec!["A1", "A2"]);
}

#[test]
fn site_type_without_inputs_is_refused_by_name() {
    let mut fabric = two_tile_fabric();
    let mut broken = plc_site("EBR");
    broken.site_type.name = s("EBR_CORE");
    broken.site_type.input_pins = 0;
    fabric.tile_types[1].sites.push(broken);
    let mut ids = Interner::new();
    ids.intern("kept");
    let result = device::write(&fabric, &no_pads(), &vec![], &mut ids);
    assert_eq!(result, Err(WriteError::NoInputPins { site_type: s("EBR_CORE") }));
    assert_eq!(result.unwrap_err().message(), "site type EBR_CORE has no inputs");
    assert_eq!(ids.strings(), vec![s("kept")]);
}

#[test]
fn unknown_side_is_refused() {
    let mut ids = Interner::new();
    let pads = one_package(vec![pad("A1", "T", 3, 0), pad("A2", "Q", 1, 0), pad("A3", "T", 1, 5)]);
    let result = device::write(&io_fabric(), &pads, &vec![], &mut ids);
    assert_eq!(result, Err(WriteError::UnknownSide { side: s("Q") }));
    assert_eq!(result.unwrap_err().message(), "pad side Q is not implemented");
    assert_eq!(ids.len(), 0);
}

#[test]
fn io_index_other_than_0_and_1_is_refused_on_an_edge() {
    let mut ids = Interner::new();
    let pads = one_package(vec![pad("A1", "", 3, 9), pad("A3", "B", 1, -2)]);
    let result = device::write(&io_fabric(), &pads, &vec![], &mut ids);
    assert_eq!(result, Err(WriteError::BadIoIndex { io_index: -2 }));
    assert_eq!(result.unwrap_err().message(), "pad I/O index -2 is neither 0 nor 1");
}

#[test]
fn tile_with_unknown_tile_type_is_refused() {
    let mut fabric = two_tile_fabric();
    fabric.tiles.push(tile("stray", 2, 2, 2));
    let mut ids = Interner::new();
    let result = device::write(&fabric, &no_pads(), &vec![], &mut ids);
    assert_eq!(result, Err(WriteError::UnknownTileType { tile: s("stray") }));
    assert_eq!(result.unwrap_err().message(), "tile stray has an unknown tile type");
}

#[test]
fn site_type_fault_comes_before_tile_and_pad_faults() {
    let mut fabric = io_fabric();
    fabric.tile_types[1].sites[1].site_type.input_pins = 0;
    fabric.tiles.push(tile("stray", 2, 2, 9));
    let pads = one_package(vec![pad("A2", "Q", 1, 0)]);
    let mut ids = Interner::new();
    assert_eq!(
        device::write(&fabric, &pads, &vec![], &mut ids),
        Err(WriteError::NoInputPins { site_type: s("PIO") })
    );
    fabric.tile_types[1].sites[1].site_type.input_pins = 1;
    assert_eq!(
        device::write(&fabric, &pads, &vec![], &mut ids),
        Err(WriteError::UnknownTileType { tile: s("stray") })
    );
}

#[test]
fn tile_type_records_carry_wires_pips_and_constants() {
    let fabric = two_tile_fabric();
    let mut ids = Interner::new();
    let doc = device::write(&fabric, &no_pads(), &vec![], &mut ids).unwrap();
    assert_eq!(name_of(&doc.strings, doc.tile_types[0].name), "NULL");
    assert_eq!(name_of(&doc.strings, doc.tile_types[1].name), "tiletype_1");
    let tt = &doc.tile_types[1];
    let wires: Vec<&str> = tt.wires.iter().map(|w| name_of(&doc.strings, *w)).collect();
    assert_eq!(wires, vec!["JA", "G:GND", "JB", "JF", "G:VCC"]);
    assert_eq!(
        tt.constants,
        vec![
            ConstantSource { wire: 4, kind: ConstantKind::Vcc },
            ConstantSource { wire: 1, kind: ConstantKind::Gnd },
        ]
    );
    assert!(doc.tile_types[0].constants.is_empty());
    assert_eq!(tt.pips.len(), 2);
    assert_eq!((tt.pips[0].wire0, tt.pips[0].wire1, tt.pips[0].sub_tile), (0, 3, 0));
    assert!(tt.pips[0].directional && tt.pips[0].buffered20 && !tt.pips[0].buffered21);
    assert_eq!(tt.pips[0].kind, PipKind::Conventional);
    assert_eq!((tt.pips[1].wire0, tt.pips[1].wire1, tt.pips[1].sub_tile), (2, 3, 1));
    match &tt.pips[1].kind {
        PipKind::PseudoCells(cells) => {
            assert_eq!(cells.len(), 1);
            assert_eq!(name_of(&doc.strings, cells[0].bel), "LUT0");
            let pins: Vec<&str> = cells[0].pins.iter().map(|p| name_of(&doc.strings, *p)).collect();
            assert_eq!(pins, vec!["A", "F"]);
        }
        PipKind::Conventional => panic!("the pip occupies a cell"),
    }
    let pin_wires: Vec<&str> =
        tt.site_types[0].pin_wires.iter().map(|w| name_of(&doc.strings, *w)).collect();
    assert_eq!(pin_wires, vec!["JA", "JB", "JF"]);
}

#[test]
fn site_type_record_carries_bels_pins_and_last_input() {
    let fabric = two_tile_fabric();
    let mut ids = Interner::new();
    let doc = device::write(&fabric, &no_pads(), &vec![], &mut ids).unwrap();
    let st = &doc.site_types[0];
    assert_eq!(st.last_input, 1);
    let categories: Vec<BelCategory> = st.bels.iter().map(|b| b.category).collect();
    assert_eq!(
        categories,
        vec![BelCategory::Logic, BelCategory::SitePort, BelCategory::Routing, BelCategory::Logic]
    );
    assert!(st.bels.iter().all(|b| b.non_inverting));
    assert_eq!(st.bels[0].pins, vec![0, 1, 2]);
    assert_eq!(name_of(&doc.strings, st.bels[0].bel_type), "OXIDE_COMB");
    let dirs: Vec<Direction> = st.bel_pins.iter().map(|p| p.dir).collect();
    assert_eq!(dirs, vec![Direction::Input, Direction::Input, Direction::Output, Direction::Inout]);
    assert_eq!(name_of(&doc.strings, st.bel_pins[3].bel), "A_IN");
    assert_eq!(st.site_wires[0].pins, vec![0, 3]);
    assert_eq!((st.site_pips[0].in_pin, st.site_pips[0].out_pin), (0, 2));
    assert_eq!(st.pins.len(), 3);
    assert_eq!(name_of(&doc.strings, st.pins[2].name), "F_W");
    assert_eq!(st.pins[2].dir, Direction::Output);
    assert_eq!(st.pins[2].bel_pin, 2);
}

#[test]
fn tile_records_carry_position_sites_and_prefixes() {
    let mut fabric = io_fabric();
    fabric.tile_types[1].sites[0].rel_x = -1;
    fabric.tile_types[1].sites[0].rel_y = 2;
    fabric.tiles[3].sub_tiles = vec![s("SYSIO_B3_0:R2C0"), s("plain"), s("a::b")];
    let mut ids = Interner::new();
    let doc = device::write(&fabric, &no_pads(), &vec![], &mut ids).unwrap();
    let t = &doc.tiles[3];
    assert_eq!((t.row, t.col, t.tile_type), (2, 0, 1));
    assert_eq!(name_of(&doc.strings, t.name), "LEFT2");
    let sites: Vec<(&str, usize)> =
        t.sites.iter().map(|r| (name_of(&doc.strings, r.name), r.site_type)).collect();
    assert_eq!(sites, vec![("R4C-1_PIOA", 0), ("R2C0_PIOB", 1)]);
    let prefixes: Vec<&str> =
        t.sub_tile_prefixes.iter().map(|p| name_of(&doc.strings, *p)).collect();
    assert_eq!(prefixes, vec!["SYSIO_B3_0__R2C0", "plain", "a____b"]);
    assert_eq!(doc.name, "LIFCL-40");
}

fn pin_map(site_type: &str, cell_type: &str, bel: &str) -> PinMap {
    PinMap {
        site_type: s(site_type),
        cell_type: s(cell_type),
        bels: vec![s(bel)],
        pins: vec![PinPair { cell_pin: s("I"), bel_pin: s("A") }],
    }
}

#[test]
fn pin_maps_are_grouped_by_cell_type_in_name_order() {
    let maps = vec![
        pin_map("PLC", "LUT4", "LUT0"),
        pin_map("PLC", "FD1P3BX", "FF0"),
        pin_map("PLC", "LUT4", "LUT1"),
        pin_map("PIO", "IB", "PAD_B"),
        pin_map("EBR", "FD1P3BX", "REG"),
    ];
    let mut ids = Interner::new();
    let doc = device::write(&two_tile_fabric(), &no_pads(), &maps, &mut ids).unwrap();
    let cells: Vec<&str> = doc.cell_bel_map.iter().map(|m| name_of(&doc.strings, m.cell)).collect();
    assert_eq!(cells, vec!["VLO", "VHI", "FD1P3BX", "IB", "LUT4"]);
    assert!(doc.cell_bel_map[0].common_pins.is_empty());
    assert!(doc.cell_bel_map[1].common_pins.is_empty());
    let of = |k: usize| -> Vec<(&str, &str)> {
        doc.cell_bel_map[k]
            .common_pins
            .iter()
            .map(|c| (name_of(&doc.strings, c.site_type), name_of(&doc.strings, c.bels[0])))
            .collect()
    };
    assert_eq!(of(2), vec![("PLC", "FF0"), ("EBR", "REG")]);
    assert_eq!(of(3), vec![("PIO", "PAD_B")]);
    assert_eq!(of(4), vec![("PLC", "LUT0"), ("PLC", "LUT1")]);
    let pair = doc.cell_bel_map[3].common_pins[0].pins[0];
    assert_eq!(name_of(&doc.strings, pair.cell_pin), "I");
    assert_eq!(name_of(&doc.strings, pair.bel_pin), "A");
}

#[test]
fn lookup_definitions_list_the_lookup_bels_of_the_logic_site() {
    let mut ids = Interner::new();
    let doc = device::write(&two_tile_fabric(), &no_pads(), &vec![], &mut ids).unwrap();
    let luts = &doc.lut_definitions;
    assert_eq!(luts.cells.len(), 1);
    assert_eq!(luts.cells[0].cell, "LUT4");
    assert_eq!(luts.cells[0].input_pins, vec!["A", "B", "C", "D"]);
    assert_eq!(luts.cells[0].init_param, "INIT");
    assert_eq!(luts.elements.len(), 1);
    assert_eq!(luts.elements[0].site, "PLC");
    let names: Vec<&str> = luts.elements[0].luts.iter().map(|l| l.bels[0].name.as_str()).collect();
    assert_eq!(names, vec!["LUT0", "LUT1"]);
    let lut = &luts.elements[0].luts[1];
    assert_eq!(lut.width, 16);
    assert_eq!(lut.bels.len(), 1);
    assert_eq!(lut.bels[0].input_pins, vec!["A", "B", "C", "D"]);
    assert_eq!(lut.bels[0].output_pin, "F");
    assert_eq!((lut.bels[0].low_bit, lut.bels[0].high_bit), (0, 15));
}

#[test]
fn device_without_logic_site_has_no_lookup_elements() {
    let mut ids = Interner::new();
    let doc = device::write(&io_fabric(), &no_pads(), &vec![], &mut ids).unwrap();
    assert_eq!(doc.lut_definitions.elements.len(), 1);
    assert!(doc.lut_definitions.elements[0].luts.is_empty());
}

#[test]
fn fixed_parts_are_always_there() {
    let mut ids = Interner::new();
    let doc = device::write(&io_fabric(), &no_pads(), &vec![], &mut ids).unwrap();
    let types: Vec<(&str, WireCategory)> =
        doc.wire_types.iter().map(|t| (name_of(&doc.strings, t.name), t.category)).collect();
    assert_eq!(
        types,
        vec![
            ("GENERAL", WireCategory::General),
            ("SPECIAL", WireCategory::Special),
            ("GLOBAL", WireCategory::Global)
        ]
    );
    let c = &doc.constants;
    assert_eq!(name_of(&doc.strings, c.gnd_cell_type), "VLO");
    assert_eq!(name_of(&doc.strings, c.gnd_cell_pin), "Z");
    assert_eq!(name_of(&doc.strings, c.vcc_cell_type), "VHI");
    assert_eq!(name_of(&doc.strings, c.vcc_cell_pin), "Z");
    assert_eq!(c.default_conns.len(), 1);
    assert_eq!(name_of(&doc.strings, c.default_conns[0].cell_type), "LUT4");
    let pins: Vec<&str> =
        c.default_conns[0].pins.iter().map(|p| name_of(&doc.strings, p.name)).collect();
    assert_eq!(pins, vec!["A", "B", "C", "D"]);
    assert_eq!(doc.parameter_defs.len(), 1);
    assert_eq!(name_of(&doc.strings, doc.parameter_defs[0].cell_type), "LUT4");
    let p = doc.parameter_defs[0].parameters[0];
    assert_eq!(name_of(&doc.strings, p.name), "INIT");
    assert_eq!(name_of(&doc.strings, p.default_key), "INIT");
    assert_eq!(name_of(&doc.strings, p.default_text), "0x0000");
}

#[test]
fn string_table_has_no_duplicates_and_keeps_earlier_handles() {
    let mut fabric = two_tile_fabric();
    fabric.nodes = vec![Node {
        wires: vec![WireRef { tile: s("tileA"), wire: s("JA") }],
        root: WireRef { tile: s("tileA"), wire: s("JA") },
        category: WireCategory::General,
    }];
    let mut ids = Interner::new();
    let tile_a = ids.intern("tileA");
    let ja = ids.intern("JA");
    let doc = device::write(&fabric, &no_pads(), &vec![pin_map("PLC", "LUT4", "LUT0")], &mut ids).unwrap();
    assert_eq!(doc.strings, ids.strings());
    assert_eq!(doc.wires[0], WireRecord { tile: tile_a, wire: ja, wire_type: 0 });
    assert_eq!(doc.strings[0], "tileA");
    assert_eq!(doc.strings[1], "JA");
    for (i, a) in doc.strings.iter().enumerate() {
        for b in &doc.strings[i + 1..] {
            assert_ne!(a, b);
        }
    }
}

#[test]
fn every_handle_and_index_of_a_document_is_in_range() {
    let mut fabric = io_fabric();
    fabric.tile_types.push(logic_tile_type());
    fabric.tiles.push(tile("logic", 3, 3, 2));
    fabric.nodes = vec![Node {
        wires: vec![
            WireRef { tile: s("logic"), wire: s("JA") },
            WireRef { tile: s("TOP3"), wire: s("JPAD") },
        ],
        root: WireRef { tile: s("logic"), wire: s("JA") },
        category: WireCategory::Special,
    }];
    let pads = one_package(vec![pad("A1", "T", 3, 0), pad("A2", "B", 1, 1)]);
    let maps = vec![pin_map("PLC", "LUT4", "LUT0"), pin_map("PIO", "IB", "PAD_B")];
    let mut ids = Interner::new();
    let doc = device::write(&fabric, &pads, &maps, &mut ids).unwrap();
    let n = doc.strings.len();
    assert_eq!(n, ids.len());
    for tt in &doc.tile_types {
        assert!(tt.name < n);
        assert!(tt.wires.iter().all(|h| *h < n));
        for site in &tt.site_types {
            assert!(site.primary_type < doc.site_types.len());
            assert!(site.pin_wires.iter().all(|h| *h < n));
        }
        for pip in &tt.pips {
            if let PipKind::PseudoCells(cells) = &pip.kind {
                assert!(!cells.is_empty());
                assert!(cells.iter().all(|c| c.bel < n && c.pins.iter().all(|h| *h < n)));
            }
        }
    }
    for st in &doc.site_types {
        assert!(st.name < n);
        assert!(st.bels.iter().all(|b| b.name < n && b.bel_type < n));
        assert!(st.bel_pins.iter().all(|p| p.name < n && p.bel < n));
        assert!(st.site_wires.iter().all(|w| w.name < n));
        assert!(st.pins.iter().all(|p| p.name < n));
    }
    assert!(doc.wires.iter().all(|w| w.tile < n && w.wire < n && w.wire_type < doc.wire_types.len()));
    assert!(doc.nodes.iter().all(|node| node.wires.iter().all(|i| *i < doc.wires.len())));
    for t in &doc.tiles {
        assert!(t.name < n && t.tile_type < doc.tile_types.len());
        let shape = &doc.tile_types[t.tile_type];
        assert!(t.sites.iter().all(|r| r.name < n && r.site_type < shape.site_types.len()));
        assert!(t.sub_tile_prefixes.iter().all(|h| *h < n));
    }
    for m in &doc.cell_bel_map {
        assert!(m.cell < n);
        for c in &m.common_pins {
            assert!(c.site_type < n && c.bels.iter().all(|h| *h < n));
            assert!(c.pins.iter().all(|p| p.cell_pin < n && p.bel_pin < n));
        }
    }
    for p in &doc.packages {
        assert!(p.name < n);
        for pin in &p.pins {
            assert!(pin.package_pin < n);
            if let Placement::Placed { site, bel } = pin.placement {
                assert!(site < n && bel < n);
            }
        }
    }
    let mut sorted = doc.strings.clone();
    sorted.sort();
    sorted.dedup();
    assert_eq!(sorted.len(), n);
}

#[test]
fn writing_twice_gives_the_same_document() {
    let fabric = io_fabric();
    let pads = one_package(vec![pad("A1", "T", 3, 0)]);
    let mut first_ids = Interner::new();
    let first = device::write(&fabric, &pads, &vec![], &mut first_ids).unwrap();
    let mut second_ids = Interner::new();
    let second = device::write(&fabric, &pads, &vec![], &mut second_ids).unwrap();
    assert_eq!(first, second);
    let again = device::write(&fabric, &pads, &vec![], &mut first_ids).unwrap();
    assert_eq!(first, again);
}

#[test]
fn index_beyond_32_bits_is_refused() {
    let mut fabric = two_tile_fabric();
    fabric.tile_types[1].pips[0].src_wire = 0x1_0000_0000;
    let mut ids = Interner::new();
    let result = device::write(&fabric, &no_pads(), &vec![], &mut ids);
    assert_eq!(result, Err(WriteError::IndexOverflow));
    assert_eq!(
        result.unwrap_err().message(),
        "an index does not fit its field in the document"
    );
    fabric.tile_types[1].pips[0].src_wire = 0xffff_ffff;
    assert!(device::write(&fabric, &no_pads(), &vec![], &mut ids).is_ok());
}

#[test]
fn row_column_and_sub_tile_have_16_bits() {
    let mut fabric = two_tile_fabric();
    fabric.tiles[1].row = 0xffff;
    fabric.tiles[1].col = 0xffff;
    fabric.tile_types[1].pips[1].sub_tile = 0xffff;
    let mut ids = Interner::new();
    assert!(device::write(&fabric, &no_pads(), &vec![], &mut ids).is_ok());
    fabric.tiles[1].row = 0x1_0000;
    assert_eq!(
        device::write(&fabric, &no_pads(), &vec![], &mut ids),
        Err(WriteError::IndexOverflow)
    );
    fabric.tiles[1].row = 0;
    fabric.tiles[1].col = 0x1_0000;
    assert_eq!(
        device::write(&fabric, &no_pads(), &vec![], &mut ids),
        Err(WriteError::IndexOverflow)
    );
    fabric.tiles[1].col = 0;
    fabric.tile_types[1].pips[1].sub_tile = 0x1_0000;
    assert_eq!(
        device::write(&fabric, &no_pads(), &vec![], &mut ids),
        Err(WriteError::IndexOverflow)
    );
}

#[test]
fn only_names_of_the_document_enter_the_string_table() {
    let mut fabric = two_tile_fabric();
    fabric.nodes = vec![Node {
        wires: vec![WireRef { tile: s("tileB"), wire: s("X1") }],
        root: WireRef { tile: s("tileA"), wire: s("X0") },
        category: WireCategory::General,
    }];
    let pads = one_package(vec![pad("A1", "T", 3, 0), pad("-", "Q", 0, 0)]);
    let mut ids = Interner::new();
    ids.intern("before");
    let doc = device::write(&fabric, &pads, &vec![pin_map("PLC", "LUT4", "LUT0")], &mut ids).unwrap();
    let mut expected = vec![
        "before", "NULL", "tiletype_1", "JA", "JB", "JF", "G:GND", "G:VCC", "LUT0", "A", "F",
        "PLC", "OXIDE_COMB", "A_IN", "MUX0", "MUX", "LUT1", "B", "A_W", "B_W", "F_W", "tileA",
        "X0", "tileB", "X1", "GENERAL", "SPECIAL", "GLOBAL", "NULL_R0C0", "NULL_R0C0__PLC",
        "R1C2_PLC", "tileA__PLC", "R1C3_PLC", "tileB__PLC", "VLO", "Z", "VHI", "LUT4", "C", "D",
        "I", "QFN72", "A1", "INIT", "0x0000",
    ];
    let mut found: Vec<&str> = doc.strings.iter().map(|t| t.as_str()).collect();
    assert_eq!(found[0], "before");
    expected.sort();
    found.sort();
    assert_eq!(found, expected);
}
