//! The device-resources document: the normalized output of the pass. Names are
//! handles into the document's string table; other references are indices into
//! the document's own lists.

use vstd::prelude::*;
use crate::fabric::WireCategory;

verus! {

/// The category of a bel in the document.
#[derive(Clone, Copy, Debug, PartialEq, Eq, Structural)]
pub enum BelCategory {
    Logic,
    Routing,
    SitePort,
}

/// The direction of a pin in the document.
#[derive(Clone, Copy, Debug, PartialEq, Eq, Structural)]
pub enum Direction {
    Input,
    Output,
    Inout,
}

/// The constant that a wire is a source of.
#[derive(Clone, Copy, Debug, PartialEq, Eq, Structural)]
pub enum ConstantKind {
    Vcc,
    Gnd,
}

/// The value that an unconnected cell pin is tied to.
#[derive(Clone, Copy, Debug, PartialEq, Eq, Structural)]
pub enum PinValue {
    Gnd,
}

/// How the value of a cell parameter is written.
#[derive(Clone, Copy, Debug, PartialEq, Eq, Structural)]
pub enum ParameterFormat {
    CHex,
}

/// A site of a tile type: its canonical site type and, for each site pin, the
/// name of the tile wire that it connects to.
#[derive(Clone, Debug, PartialEq, Eq)]
pub struct SiteTypeInTile {
    pub primary_type: usize,
    pub pin_wires: Vec<usize>,
}

/// A cell that a pip occupies: the name of its bel and of its pins.
#[derive(Clone, Debug, PartialEq, Eq)]
pub struct PseudoCellRecord {
    pub bel: usize,
    pub pins: Vec<usize>,
}

/// Whether a pip is a plain one or routes through bels.
#[derive(Clone, Debug, PartialEq, Eq)]
pub enum PipKind {
    /// No cell is occupied.
    Conventional,
    /// The cells that the pip occupies; never empty.
    PseudoCells(Vec<PseudoCellRecord>),
}

/// A pip of a tile type, between two wires of the tile type's own wire list.
#[derive(Clone, Debug, PartialEq, Eq)]
pub struct PipRecord {
    pub wire0: usize,
    pub wire1: usize,
    pub directional: bool,
    pub buffered20: bool,
    pub buffered21: bool,
    pub sub_tile: usize,
    pub kind: PipKind,
}

/// A wire of a tile type that is a source of a constant.
#[derive(Clone, Copy, Debug, PartialEq, Eq, Structural)]
pub struct ConstantSource {
    pub wire: usize,
    pub kind: ConstantKind,
}

/// A tile type.
#[derive(Clone, Debug, PartialEq, Eq)]
pub struct TileTypeRecord {
    pub name: usize,
    pub site_types: Vec<SiteTypeInTile>,
    pub wires: Vec<usize>,
    pub pips: Vec<PipRecord>,
    pub constants: Vec<ConstantSource>,
}

/// A bel of a site type.
#[derive(Clone, Debug, PartialEq, Eq)]
pub struct BelRecord {
    pub name: usize,
    pub bel_type: usize,
    pub category: BelCategory,
    pub non_inverting: bool,
    pub pins: Vec<usize>,
}

/// A bel pin of a site type.
#[derive(Clone, Copy, Debug, PartialEq, Eq, Structural)]
pub struct BelPinRecord {
    pub name: usize,
    pub dir: Direction,
    pub bel: usize,
}

/// A site wire of a site type.
#[derive(Clone, Debug, PartialEq, Eq)]
pub struct SiteWireRecord {
    pub name: usize,
    pub pins: Vec<usize>,
}

/// A site pip of a site type.
#[derive(Clone, Copy, Debug, PartialEq, Eq, Structural)]
pub struct SitePipRecord {
    pub in_pin: usize,
    pub out_pin: usize,
}

/// A site pin of a site type.
#[derive(Clone, Copy, Debug, PartialEq, Eq, Structural)]
pub struct SitePinRecord {
    pub name: usize,
    pub dir: Direction,
    pub bel_pin: usize,
}

/// A canonical site type.
#[derive(Clone, Debug, PartialEq, Eq)]
pub struct SiteTypeRecord {
    pub name: usize,
    pub last_input: usize,
    pub bels: Vec<BelRecord>,
    pub bel_pins: Vec<BelPinRecord>,
    pub site_wires: Vec<SiteWireRecord>,
    pub site_pips: Vec<SitePipRecord>,
    pub pins: Vec<SitePinRecord>,
}

/// A wire of the device: the names of its tile and of the wire, and the index
/// of its wire type.
#[derive(Clone, Copy, Debug, PartialEq, Eq, Structural)]
pub struct WireRecord {
    pub tile: usize,
    pub wire: usize,
    pub wire_type: usize,
}

/// A node: indices into the device's wire list, the root wire first.
#[derive(Clone, Debug, PartialEq, Eq)]
pub struct NodeRecord {
    pub wires: Vec<usize>,
}

/// A wire type.
#[derive(Clone, Copy, Debug, PartialEq, Eq, Structural)]
pub struct WireTypeRecord {
    pub name: usize,
    pub category: WireCategory,
}

/// A site of a tile: its name and its index in the site list of the tile's type.
#[derive(Clone, Copy, Debug, PartialEq, Eq, Structural)]
pub struct SiteRecord {
    pub name: usize,
    pub site_type: usize,
}

/// A tile of the device.
#[derive(Clone, Debug, PartialEq, Eq)]
pub struct TileRecord {
    pub name: usize,
    pub tile_type: usize,
    pub row: u32,
    pub col: u32,
    pub sites: Vec<SiteRecord>,
    pub sub_tile_prefixes: Vec<usize>,
}

/// What an unconnected pin of a cell is tied to.
#[derive(Clone, Copy, Debug, PartialEq, Eq, Structural)]
pub struct DefaultPin {
    pub name: usize,
    pub value: PinValue,
}

/// The default connections of the pins of a cell type.
#[derive(Clone, Debug, PartialEq, Eq)]
pub struct DefaultCellConn {
    pub cell_type: usize,
    pub pins: Vec<DefaultPin>,
}

/// The cells that stand for the constants, and the default pin connections.
#[derive(Clone, Debug, PartialEq, Eq)]
pub struct ConstantsRecord {
    pub gnd_cell_type: usize,
    pub gnd_cell_pin: usize,
    pub vcc_cell_type: usize,
    pub vcc_cell_pin: usize,
    pub default_conns: Vec<DefaultCellConn>,
}

/// A cell pin and the bel pin that it maps to.
#[derive(Clone, Copy, Debug, PartialEq, Eq, Structural)]
pub struct PinPairRecord {
    pub cell_pin: usize,
    pub bel_pin: usize,
}

/// One site type that can hold a cell: the bels for it and the pin mapping.
#[derive(Clone, Debug, PartialEq, Eq)]
pub struct CommonPins {
    pub site_type: usize,
    pub bels: Vec<usize>,
    pub pins: Vec<PinPairRecord>,
}

/// A cell type with every site type that can hold it.
#[derive(Clone, Debug, PartialEq, Eq)]
pub struct CellBelMapping {
    pub cell: usize,
    pub common_pins: Vec<CommonPins>,
}

/// Where a package pin is on the fabric.
#[derive(Clone, Copy, Debug, PartialEq, Eq, Structural)]
pub enum Placement {
    /// The pin has a pad site: the names of the site and of its pad bel.
    Placed { site: usize, bel: usize },
    /// The pin has no site and no bel.
    Unplaced,
}

/// A pin of a package.
#[derive(Clone, Copy, Debug, PartialEq, Eq, Structural)]
pub struct PackagePinRecord {
    pub package_pin: usize,
    pub placement: Placement,
}

/// A package and its pins.
#[derive(Clone, Debug, PartialEq, Eq)]
pub struct PackageRecord {
    pub name: usize,
    pub pins: Vec<PackagePinRecord>,
}

/// A lookup cell: its input pins and the parameter that holds its truth table.
#[derive(Clone, Debug, PartialEq, Eq)]
pub struct LutCell {
    pub cell: String,
    pub input_pins: Vec<String>,
    pub init_param: String,
}

/// A bel that implements a lookup element, and the bits of the truth table
/// that it reads.
#[derive(Clone, Debug, PartialEq, Eq)]
pub struct LutBel {
    pub name: String,
    pub input_pins: Vec<String>,
    pub output_pin: String,
    pub low_bit: u8,
    pub high_bit: u8,
}

/// A lookup element of a site type.
#[derive(Clone, Debug, PartialEq, Eq)]
pub struct LutElement {
    pub width: u8,
    pub bels: Vec<LutBel>,
}

/// The lookup elements of a site type.
#[derive(Clone, Debug, PartialEq, Eq)]
pub struct LutSite {
    pub site: String,
    pub luts: Vec<LutElement>,
}

/// The lookup cells and the lookup elements of the device.
#[derive(Clone, Debug, PartialEq, Eq)]
pub struct LutDefinitions {
    pub cells: Vec<LutCell>,
    pub elements: Vec<LutSite>,
}

/// A parameter of a cell type, with its default.
#[derive(Clone, Copy, Debug, PartialEq, Eq, Structural)]
pub struct ParameterDef {
    pub name: usize,
    pub format: ParameterFormat,
    pub default_key: usize,
    pub default_text: usize,
}

/// The parameters of a cell type.
#[derive(Clone, Debug, PartialEq, Eq)]
pub struct CellParameters {
    pub cell_type: usize,
    pub parameters: Vec<ParameterDef>,
}

/// The whole document.
#[derive(Clone, Debug, PartialEq, Eq)]
pub struct Document {
    pub name: String,
    pub tile_types: Vec<TileTypeRecord>,
    pub site_types: Vec<SiteTypeRecord>,
    pub wires: Vec<WireRecord>,
    pub nodes: Vec<NodeRecord>,
    pub wire_types: Vec<WireTypeRecord>,
    pub tiles: Vec<TileRecord>,
    pub constants: ConstantsRecord,
    pub cell_bel_map: Vec<CellBelMapping>,
    pub packages: Vec<PackageRecord>,
    pub lut_definitions: LutDefinitions,
    pub parameter_defs: Vec<CellParameters>,
    pub strings: Vec<String>,
}

/// Every one of `handles` is below `bound`.
pub open spec fn all_below(handles: Seq<usize>, bound: nat) -> bool {
    forall|i: int| 0 <= i < handles.len() ==> (#[trigger] handles[i]) < bound
}

impl PipRecord {
    /// Every name of the pip is a handle below `names`.
    pub open spec fn within(&self, names: nat) -> bool {
        match self.kind {
            PipKind::Conventional => true,
            PipKind::PseudoCells(cells) => forall|i: int|
                0 <= i < cells@.len() ==> (#[trigger] cells@[i]).bel < names && all_below(
                    cells@[i].pins@,
                    names,
                ),
        }
    }
}

impl TileTypeRecord {
    /// Every name of the tile type is a handle below `names`, and every site
    /// has a site type below `site_types`.
    pub open spec fn within(&self, names: nat, site_types: nat) -> bool {
        &&& self.name < names
        &&& forall|i: int|
            0 <= i < self.site_types@.len() ==> (#[trigger] self.site_types@[i]).primary_type
                < site_types && all_below(self.site_types@[i].pin_wires@, names)
        &&& all_below(self.wires@, names)
        &&& forall|i: int| 0 <= i < self.pips@.len() ==> (#[trigger] self.pips@[i]).within(names)
    }
}

impl SiteTypeRecord {
    /// Every name of the site type is a handle below `names`.
    pub open spec fn within(&self, names: nat) -> bool {
        &&& self.name < names
        &&& forall|i: int|
            0 <= i < self.bels@.len() ==> (#[trigger] self.bels@[i]).name < names
                && self.bels@[i].bel_type < names
        &&& forall|i: int|
            0 <= i < self.bel_pins@.len() ==> (#[trigger] self.bel_pins@[i]).name < names
                && self.bel_pins@[i].bel < names
        &&& forall|i: int|
            0 <= i < self.site_wires@.len() ==> (#[trigger] self.site_wires@[i]).name < names
        &&& forall|i: int| 0 <= i < self.pins@.len() ==> (#[trigger] self.pins@[i]).name < names
    }
}

impl TileRecord {
    /// Every name of the tile is a handle below `names`, its tile type is one
    /// of `tile_types`, and each of its sites is a site of that tile type.
    pub open spec fn within(&self, names: nat, tile_types: Seq<TileTypeRecord>) -> bool {
        &&& self.name < names
        &&& self.tile_type < tile_types.len()
        &&& forall|i: int|
            0 <= i < self.sites@.len() ==> (#[trigger] self.sites@[i]).name < names
                && self.sites@[i].site_type < tile_types[self.tile_type as int].site_types@.len()
        &&& all_below(self.sub_tile_prefixes@, names)
    }
}

impl ConstantsRecord {
    /// Every name of the constants is a handle below `names`.
    pub open spec fn within(&self, names: nat) -> bool {
        &&& self.gnd_cell_type < names
        &&& self.gnd_cell_pin < names
        &&& self.vcc_cell_type < names
        &&& self.vcc_cell_pin < names
        &&& forall|i: int|
            0 <= i < self.default_conns@.len() ==> (#[trigger] self.default_conns@[i]).cell_type
                < names && forall|j: int|
                0 <= j < self.default_conns@[i].pins@.len() ==> (
                #[trigger] self.default_conns@[i].pins@[j]).name < names
    }
}

impl CellBelMapping {
    /// Every name of the mapping is a handle below `names`.
    pub open spec fn within(&self, names: nat) -> bool {
        &&& self.cell < names
        &&& forall|i: int|
            0 <= i < self.common_pins@.len() ==> (#[trigger] self.common_pins@[i]).within(names)
    }
}

impl CommonPins {
    /// Every name of the pin map is a handle below `names`.
    pub open spec fn within(&self, names: nat) -> bool {
        &&& self.site_type < names
        &&& all_below(self.bels@, names)
        &&& forall|i: int|
            0 <= i < self.pins@.len() ==> (#[trigger] self.pins@[i]).cell_pin < names
                && self.pins@[i].bel_pin < names
    }
}

impl PackageRecord {
    /// Every name of the package is a handle below `names`.
    pub open spec fn within(&self, names: nat) -> bool {
        &&& self.name < names
        &&& forall|i: int|
            0 <= i < self.pins@.len() ==> (#[trigger] self.pins@[i]).package_pin < names && (
            self.pins@[i].placement matches Placement::Placed { site, bel } ==> site < names && bel
                < names)
    }
}

impl CellParameters {
    /// Every name of the parameters is a handle below `names`.
    pub open spec fn within(&self, names: nat) -> bool {
        &&& self.cell_type < names
        &&& forall|i: int|
            0 <= i < self.parameters@.len() ==> (#[trigger] self.parameters@[i]).name < names
                && self.parameters@[i].default_key < names && self.parameters@[i].default_text
                < names
    }
}

impl Document {
    /// The document is consistent in itself: no string stands twice in its
    /// string table; every name in it is a handle of that table; every wire
    /// has one of the wire types; every node refers to wires of the wire
    /// list; every site of a tile type has one of the canonical site types;
    /// every tile has one of the tile types, and its sites are sites of that
    /// tile type.
    pub open spec fn well_formed(&self) -> bool {
        let names = self.strings@.len();
        &&& self.strings.deep_view().no_duplicates()
        &&& forall|i: int|
            0 <= i < self.tile_types@.len() ==> (#[trigger] self.tile_types@[i]).within(
                names,
                self.site_types@.len(),
            )
        &&& forall|i: int|
            0 <= i < self.site_types@.len() ==> (#[trigger] self.site_types@[i]).within(names)
        &&& forall|i: int|
            0 <= i < self.wires@.len() ==> (#[trigger] self.wires@[i]).tile < names
                && self.wires@[i].wire < names && self.wires@[i].wire_type < self.wire_types@.len()
        &&& forall|n: int|
            0 <= n < self.nodes@.len() ==> all_below(
                (#[trigger] self.nodes@[n]).wires@,
                self.wires@.len(),
            )
        &&& forall|i: int|
            0 <= i < self.wire_types@.len() ==> (#[trigger] self.wire_types@[i]).name < names
        &&& forall|i: int|
            0 <= i < self.tiles@.len() ==> (#[trigger] self.tiles@[i]).within(
                names,
                self.tile_types@,
            )
        &&& self.constants.within(names)
        &&& forall|i: int|
            0 <= i < self.cell_bel_map@.len() ==> (#[trigger] self.cell_bel_map@[i]).within(names)
        &&& forall|i: int|
            0 <= i < self.packages@.len() ==> (#[trigger] self.packages@[i]).within(names)
        &&& forall|i: int|
            0 <= i < self.parameter_defs@.len() ==> (#[trigger] self.parameter_defs@[i]).within(
                names,
            )
    }
}

} // verus!
