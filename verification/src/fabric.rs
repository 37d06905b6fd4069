//! The fabric model that the consolidation pass reads: site types, tile types,
//! tile instances, routing nodes, the pad table and the cell pin maps. Each
//! type has a deep view over sequences of characters, and the types that make
//! up a site type can be compared by that view.

use vstd::prelude::*;
use crate::text::same_name;

verus! {

/// What a bel is for.
#[derive(Clone, Copy, Debug, PartialEq, Eq, Structural)]
pub enum BelClass {
    /// A placeable logic element.
    Logic,
    /// A routing element inside the site.
    Routing,
    /// A port on the site's boundary.
    Port,
}

/// The direction of a pin.
#[derive(Clone, Copy, Debug, PartialEq, Eq, Structural)]
pub enum PinDir {
    Input,
    Output,
    Inout,
}

/// The category that a node gives to its wires.
#[derive(Clone, Copy, Debug, PartialEq, Eq, Structural)]
pub enum WireCategory {
    General,
    Special,
    Global,
}

/// A bel of a site type; its pins are indices into the site type's bel pins.
#[derive(Clone, Debug)]
pub struct Bel {
    pub name: String,
    pub bel_type: String,
    pub class: BelClass,
    pub pins: Vec<usize>,
}

/// The deep view of a [`Bel`].
pub struct BelView {
    pub name: Seq<char>,
    pub bel_type: Seq<char>,
    pub class: BelClass,
    pub pins: Seq<usize>,
}

impl DeepView for Bel {
    type V = BelView;

    open spec fn deep_view(&self) -> BelView {
        BelView {
            name: self.name@,
            bel_type: self.bel_type@,
            class: self.class,
            pins: self.pins@,
        }
    }
}

/// A pin of a bel.
#[derive(Clone, Debug)]
pub struct BelPin {
    pub name: String,
    pub dir: PinDir,
    pub bel: String,
}

/// The deep view of a [`BelPin`].
pub struct BelPinView {
    pub name: Seq<char>,
    pub dir: PinDir,
    pub bel: Seq<char>,
}

impl DeepView for BelPin {
    type V = BelPinView;

    open spec fn deep_view(&self) -> BelPinView {
        BelPinView { name: self.name@, dir: self.dir, bel: self.bel@ }
    }
}

/// A wire inside a site, connecting some of the site type's bel pins.
#[derive(Clone, Debug)]
pub struct SiteWire {
    pub name: String,
    pub bel_pins: Vec<usize>,
}

/// The deep view of a [`SiteWire`].
pub struct SiteWireView {
    pub name: Seq<char>,
    pub bel_pins: Seq<usize>,
}

impl DeepView for SiteWire {
    type V = SiteWireView;

    open spec fn deep_view(&self) -> SiteWireView {
        SiteWireView { name: self.name@, bel_pins: self.bel_pins@ }
    }
}

/// A pip inside a site, from one bel pin to another.
#[derive(Clone, Copy, Debug, PartialEq, Eq, Structural)]
pub struct SitePip {
    pub in_pin: usize,
    pub out_pin: usize,
}

impl DeepView for SitePip {
    type V = SitePip;

    open spec fn deep_view(&self) -> SitePip {
        *self
    }
}

/// A pin on the boundary of a site type, named after its site wire.
#[derive(Clone, Debug)]
pub struct SitePin {
    pub name: String,
    pub dir: PinDir,
    pub bel_pin: usize,
}

/// The deep view of a [`SitePin`].
pub struct SitePinView {
    pub name: Seq<char>,
    pub dir: PinDir,
    pub bel_pin: usize,
}

impl DeepView for SitePin {
    type V = SitePinView;

    open spec fn deep_view(&self) -> SitePinView {
        SitePinView { name: self.name@, dir: self.dir, bel_pin: self.bel_pin }
    }
}

/// The reusable shape of a site. The site pins come inputs first, and
/// `input_pins` says how many of them are inputs.
#[derive(Clone, Debug)]
pub struct SiteType {
    pub name: String,
    pub input_pins: usize,
    pub bels: Vec<Bel>,
    pub bel_pins: Vec<BelPin>,
    pub wires: Vec<SiteWire>,
    pub pips: Vec<SitePip>,
    pub pins: Vec<SitePin>,
}

/// The deep view of a [`SiteType`].
pub struct SiteTypeView {
    pub name: Seq<char>,
    pub input_pins: usize,
    pub bels: Seq<BelView>,
    pub bel_pins: Seq<BelPinView>,
    pub wires: Seq<SiteWireView>,
    pub pips: Seq<SitePip>,
    pub pins: Seq<SitePinView>,
}

impl DeepView for SiteType {
    type V = SiteTypeView;

    open spec fn deep_view(&self) -> SiteTypeView {
        SiteTypeView {
            name: self.name@,
            input_pins: self.input_pins,
            bels: self.bels.deep_view(),
            bel_pins: self.bel_pins.deep_view(),
            wires: self.wires.deep_view(),
            pips: self.pips.deep_view(),
            pins: self.pins.deep_view(),
        }
    }
}

/// A site of a tile type: a site type placed at an offset from the tile, with
/// the tile wire that each of its site pins connects to.
#[derive(Clone, Debug)]
pub struct SiteInstance {
    pub name: String,
    pub rel_x: i32,
    pub rel_y: i32,
    pub site_type: SiteType,
    pub pin_wires: Vec<String>,
}

/// The deep view of a [`SiteInstance`].
pub struct SiteInstanceView {
    pub name: Seq<char>,
    pub rel_x: i32,
    pub rel_y: i32,
    pub site_type: SiteTypeView,
    pub pin_wires: Seq<Seq<char>>,
}

impl DeepView for SiteInstance {
    type V = SiteInstanceView;

    open spec fn deep_view(&self) -> SiteInstanceView {
        SiteInstanceView {
            name: self.name@,
            rel_x: self.rel_x,
            rel_y: self.rel_y,
            site_type: self.site_type.deep_view(),
            pin_wires: self.pin_wires.deep_view(),
        }
    }
}

/// A cell that a pip occupies when it routes through a bel.
#[derive(Clone, Debug)]
pub struct PseudoCell {
    pub bel: String,
    pub pins: Vec<String>,
}

/// The deep view of a [`PseudoCell`].
pub struct PseudoCellView {
    pub bel: Seq<char>,
    pub pins: Seq<Seq<char>>,
}

impl DeepView for PseudoCell {
    type V = PseudoCellView;

    open spec fn deep_view(&self) -> PseudoCellView {
        PseudoCellView { bel: self.bel@, pins: self.pins.deep_view() }
    }
}

/// A pip of a tile type, between two of its wires by their index.
#[derive(Clone, Debug)]
pub struct Pip {
    pub src_wire: usize,
    pub dst_wire: usize,
    pub sub_tile: usize,
    pub pseudo_cells: Vec<PseudoCell>,
}

/// The deep view of a [`Pip`].
pub struct PipView {
    pub src_wire: usize,
    pub dst_wire: usize,
    pub sub_tile: usize,
    pub pseudo_cells: Seq<PseudoCellView>,
}

impl DeepView for Pip {
    type V = PipView;

    open spec fn deep_view(&self) -> PipView {
        PipView {
            src_wire: self.src_wire,
            dst_wire: self.dst_wire,
            sub_tile: self.sub_tile,
            pseudo_cells: self.pseudo_cells.deep_view(),
        }
    }
}

/// The reusable shape of a tile: its sites, the names of its wires and its pips.
#[derive(Clone, Debug)]
pub struct TileType {
    pub sites: Vec<SiteInstance>,
    pub wires: Vec<String>,
    pub pips: Vec<Pip>,
}

/// The deep view of a [`TileType`].
pub struct TileTypeView {
    pub sites: Seq<SiteInstanceView>,
    pub wires: Seq<Seq<char>>,
    pub pips: Seq<PipView>,
}

impl DeepView for TileType {
    type V = TileTypeView;

    open spec fn deep_view(&self) -> TileTypeView {
        TileTypeView {
            sites: self.sites.deep_view(),
            wires: self.wires.deep_view(),
            pips: self.pips.deep_view(),
        }
    }
}

/// A tile of the device: where it is, which tile type it has, and the names of
/// the chip tiles that it is made of.
#[derive(Clone, Debug)]
pub struct Tile {
    pub name: String,
    pub row: u32,
    pub col: u32,
    pub tile_type: usize,
    pub sub_tiles: Vec<String>,
}

/// The deep view of a [`Tile`].
pub struct TileView {
    pub name: Seq<char>,
    pub row: u32,
    pub col: u32,
    pub tile_type: usize,
    pub sub_tiles: Seq<Seq<char>>,
}

impl DeepView for Tile {
    type V = TileView;

    open spec fn deep_view(&self) -> TileView {
        TileView {
            name: self.name@,
            row: self.row,
            col: self.col,
            tile_type: self.tile_type,
            sub_tiles: self.sub_tiles.deep_view(),
        }
    }
}

/// A wire of a tile, by the names of both.
#[derive(Clone, Debug)]
pub struct WireRef {
    pub tile: String,
    pub wire: String,
}

/// The deep view of a [`WireRef`].
pub struct WireRefView {
    pub tile: Seq<char>,
    pub wire: Seq<char>,
}

impl DeepView for WireRef {
    type V = WireRefView;

    open spec fn deep_view(&self) -> WireRefView {
        WireRefView { tile: self.tile@, wire: self.wire@ }
    }
}

/// A routing node: wires that form one net, one of them its root. The member
/// wires are a set, held as a list in the order in which they are gone
/// through: no wire is meant to occur twice among them.
#[derive(Clone, Debug)]
pub struct Node {
    pub wires: Vec<WireRef>,
    pub root: WireRef,
    pub category: WireCategory,
}

/// The deep view of a [`Node`].
pub struct NodeView {
    pub wires: Seq<WireRefView>,
    pub root: WireRefView,
    pub category: WireCategory,
}

impl DeepView for Node {
    type V = NodeView;

    open spec fn deep_view(&self) -> NodeView {
        NodeView {
            wires: self.wires.deep_view(),
            root: self.root.deep_view(),
            category: self.category,
        }
    }
}

/// The fabric of one device.
#[derive(Clone, Debug)]
pub struct Fabric {
    pub device: String,
    pub width: u32,
    pub height: u32,
    pub tile_types: Vec<TileType>,
    pub tiles: Vec<Tile>,
    pub nodes: Vec<Node>,
}

/// The deep view of a [`Fabric`].
pub struct FabricView {
    pub device: Seq<char>,
    pub width: u32,
    pub height: u32,
    pub tile_types: Seq<TileTypeView>,
    pub tiles: Seq<TileView>,
    pub nodes: Seq<NodeView>,
}

impl DeepView for Fabric {
    type V = FabricView;

    open spec fn deep_view(&self) -> FabricView {
        FabricView {
            device: self.device@,
            width: self.width,
            height: self.height,
            tile_types: self.tile_types.deep_view(),
            tiles: self.tiles.deep_view(),
            nodes: self.nodes.deep_view(),
        }
    }
}

/// A pad of the die: its pin label in each package (`-` where the package does
/// not bond it), the side of the die it sits on, its offset along that side and
/// its I/O index.
#[derive(Clone, Debug)]
pub struct Pad {
    pub pins: Vec<String>,
    pub side: String,
    pub offset: i32,
    pub io_index: i32,
}

/// The deep view of a [`Pad`].
pub struct PadView {
    pub pins: Seq<Seq<char>>,
    pub side: Seq<char>,
    pub offset: i32,
    pub io_index: i32,
}

impl DeepView for Pad {
    type V = PadView;

    open spec fn deep_view(&self) -> PadView {
        PadView {
            pins: self.pins.deep_view(),
            side: self.side@,
            offset: self.offset,
            io_index: self.io_index,
        }
    }
}

/// The packages of a device and its pads.
#[derive(Clone, Debug)]
pub struct PadTable {
    pub packages: Vec<String>,
    pub pads: Vec<Pad>,
}

/// The deep view of a [`PadTable`].
pub struct PadTableView {
    pub packages: Seq<Seq<char>>,
    pub pads: Seq<PadView>,
}

impl DeepView for PadTable {
    type V = PadTableView;

    open spec fn deep_view(&self) -> PadTableView {
        PadTableView { packages: self.packages.deep_view(), pads: self.pads.deep_view() }
    }
}

/// A pin of a cell and the bel pin that it maps to.
#[derive(Clone, Debug)]
pub struct PinPair {
    pub cell_pin: String,
    pub bel_pin: String,
}

/// The deep view of a [`PinPair`].
pub struct PinPairView {
    pub cell_pin: Seq<char>,
    pub bel_pin: Seq<char>,
}

impl DeepView for PinPair {
    type V = PinPairView;

    open spec fn deep_view(&self) -> PinPairView {
        PinPairView { cell_pin: self.cell_pin@, bel_pin: self.bel_pin@ }
    }
}

/// One way to place a cell type in a site type: the bels that can hold it and
/// how the cell's pins map to bel pins.
#[derive(Clone, Debug)]
pub struct PinMap {
    pub site_type: String,
    pub cell_type: String,
    pub bels: Vec<String>,
    pub pins: Vec<PinPair>,
}

/// The deep view of a [`PinMap`].
pub struct PinMapView {
    pub site_type: Seq<char>,
    pub cell_type: Seq<char>,
    pub bels: Seq<Seq<char>>,
    pub pins: Seq<PinPairView>,
}

impl DeepView for PinMap {
    type V = PinMapView;

    open spec fn deep_view(&self) -> PinMapView {
        PinMapView {
            site_type: self.site_type@,
            cell_type: self.cell_type@,
            bels: self.bels.deep_view(),
            pins: self.pins.deep_view(),
        }
    }
}

/// Values that can be compared by their deep view.
pub trait Alike: DeepView {
    /// Whether both values have the same deep view.
    fn alike(&self, other: &Self) -> (same: bool)
        ensures
            same == (self.deep_view() == other.deep_view()),
    ;
}

/// Whether two lists hold, position by position, values with the same deep view.
pub fn alike_lists<T: Alike>(a: &Vec<T>, b: &Vec<T>) -> (same: bool)
    ensures
        same == (a.deep_view() == b.deep_view()),
{
    if a.len() != b.len() {
        assert(a.deep_view().len() != b.deep_view().len());
        return false;
    }
    let mut i: usize = 0;
    while i < a.len()
        invariant
            i <= a.len(),
            a.len() == b.len(),
            forall|j: int| 0 <= j < i ==> a@[j].deep_view() == b@[j].deep_view(),
        decreases a.len() - i,
    {
        if !a[i].alike(&b[i]) {
            assert(a.deep_view()[i as int] != b.deep_view()[i as int]);
            return false;
        }
        i += 1;
    }
    assert(a.deep_view() =~= b.deep_view());
    true
}

/// The deep view of a list of indices is the list itself.
pub proof fn lemma_plain_list(list: Vec<usize>)
    ensures
        list.deep_view() == list@,
{
    assert(list.deep_view() =~= list@);
}

impl Alike for usize {
    fn alike(&self, other: &usize) -> (same: bool) {
        *self == *other
    }
}

impl Alike for String {
    fn alike(&self, other: &String) -> (same: bool) {
        same_name(self.as_str(), other.as_str())
    }
}

impl Alike for SitePip {
    fn alike(&self, other: &SitePip) -> (same: bool) {
        self.in_pin == other.in_pin && self.out_pin == other.out_pin
    }
}

impl Alike for Bel {
    fn alike(&self, other: &Bel) -> (same: bool) {
        proof {
            lemma_plain_list(self.pins);
            lemma_plain_list(other.pins);
        }
        same_name(self.name.as_str(), other.name.as_str()) && same_name(
            self.bel_type.as_str(),
            other.bel_type.as_str(),
        ) && self.class == other.class && alike_lists(&self.pins, &other.pins)
    }
}

impl Alike for BelPin {
    fn alike(&self, other: &BelPin) -> (same: bool) {
        same_name(self.name.as_str(), other.name.as_str()) && self.dir == other.dir && same_name(
            self.bel.as_str(),
            other.bel.as_str(),
        )
    }
}

impl Alike for SiteWire {
    fn alike(&self, other: &SiteWire) -> (same: bool) {
        proof {
            lemma_plain_list(self.bel_pins);
            lemma_plain_list(other.bel_pins);
        }
        same_name(self.name.as_str(), other.name.as_str()) && alike_lists(
            &self.bel_pins,
            &other.bel_pins,
        )
    }
}

impl Alike for SitePin {
    fn alike(&self, other: &SitePin) -> (same: bool) {
        same_name(self.name.as_str(), other.name.as_str()) && self.dir == other.dir
            && self.bel_pin == other.bel_pin
    }
}

impl Alike for SiteType {
    fn alike(&self, other: &SiteType) -> (same: bool) {
        same_name(self.name.as_str(), other.name.as_str()) && self.input_pins == other.input_pins
            && alike_lists(&self.bels, &other.bels) && alike_lists(&self.bel_pins, &other.bel_pins)
            && alike_lists(&self.wires, &other.wires) && alike_lists(&self.pips, &other.pips)
            && alike_lists(&self.pins, &other.pins)
    }
}

impl Alike for WireRef {
    fn alike(&self, other: &WireRef) -> (same: bool) {
        same_name(self.tile.as_str(), other.tile.as_str()) && same_name(
            self.wire.as_str(),
            other.wire.as_str(),
        )
    }
}

} // verus!
