//! The widths of the document's fields. In the encoded document an index, a
//! handle or the length of a list has 32 bits, and a row, a column or a
//! sub-tile has 16. A document fits if each of its values fits its field.

use vstd::prelude::*;
use crate::document::{
    BelPinRecord,
    BelRecord,
    CellBelMapping,
    CellParameters,
    CommonPins,
    ConstantSource,
    ConstantsRecord,
    DefaultCellConn,
    DefaultPin,
    Document,
    LutBel,
    LutCell,
    LutDefinitions,
    LutElement,
    LutSite,
    NodeRecord,
    PackagePinRecord,
    PackageRecord,
    ParameterDef,
    PinPairRecord,
    PipKind,
    PipRecord,
    Placement,
    PseudoCellRecord,
    SitePinRecord,
    SitePipRecord,
    SiteRecord,
    SiteTypeInTile,
    SiteTypeRecord,
    SiteWireRecord,
    TileRecord,
    TileTypeRecord,
    WireRecord,
    WireTypeRecord,
};

verus! {

/// The largest value of a field of 32 bits.
pub const MAX_INDEX: usize = 0xffff_ffff;

/// The largest value of a field of 16 bits.
pub const MAX_SMALL: usize = 0xffff;

/// Values that have a place in the encoded document.
pub trait Narrow {
    /// Every part of the value fits its field.
    spec fn narrow(&self) -> bool;

    /// Whether every part of the value fits its field.
    fn is_narrow(&self) -> (fits: bool)
        ensures
            fits == self.narrow(),
    ;
}

/// The list is no longer than a length field can say, and each of its items
/// fits.
pub open spec fn list_narrow<T: Narrow>(list: Seq<T>) -> bool {
    &&& list.len() <= MAX_INDEX
    &&& forall|i: int| 0 <= i < list.len() ==> (#[trigger] list[i]).narrow()
}

/// Whether a list is no longer than a length field can say and each of its
/// items fits.
pub fn is_list_narrow<T: Narrow>(list: &Vec<T>) -> (fits: bool)
    ensures
        fits == list_narrow(list@),
{
    if list.len() > MAX_INDEX {
        return false;
    }
    let mut i: usize = 0;
    while i < list.len()
        invariant
            i <= list.len(),
            list.len() <= MAX_INDEX,
            forall|j: int| 0 <= j < i ==> (#[trigger] list@[j]).narrow(),
        decreases list.len() - i,
    {
        if !list[i].is_narrow() {
            return false;
        }
        i += 1;
    }
    true
}

impl Narrow for usize {
    open spec fn narrow(&self) -> bool {
        *self <= MAX_INDEX
    }

    fn is_narrow(&self) -> (fits: bool) {
        *self <= MAX_INDEX
    }
}

impl Narrow for String {
    open spec fn narrow(&self) -> bool {
        true
    }

    fn is_narrow(&self) -> (fits: bool) {
        true
    }
}

impl Narrow for SiteTypeInTile {
    open spec fn narrow(&self) -> bool {
        self.primary_type.narrow() && list_narrow(self.pin_wires@)
    }

    fn is_narrow(&self) -> (fits: bool) {
        self.primary_type.is_narrow() && is_list_narrow(&self.pin_wires)
    }
}

impl Narrow for PseudoCellRecord {
    open spec fn narrow(&self) -> bool {
        self.bel.narrow() && list_narrow(self.pins@)
    }

    fn is_narrow(&self) -> (fits: bool) {
        self.bel.is_narrow() && is_list_narrow(&self.pins)
    }
}

impl Narrow for PipRecord {
    open spec fn narrow(&self) -> bool {
        &&& self.wire0.narrow()
        &&& self.wire1.narrow()
        &&& self.sub_tile <= MAX_SMALL
        &&& match self.kind {
            PipKind::Conventional => true,
            PipKind::PseudoCells(cells) => list_narrow(cells@),
        }
    }

    fn is_narrow(&self) -> (fits: bool) {
        self.wire0.is_narrow() && self.wire1.is_narrow() && self.sub_tile <= MAX_SMALL && match &self.kind {
            PipKind::Conventional => true,
            PipKind::PseudoCells(cells) => is_list_narrow(cells),
        }
    }
}

impl Narrow for ConstantSource {
    open spec fn narrow(&self) -> bool {
        self.wire.narrow()
    }

    fn is_narrow(&self) -> (fits: bool) {
        self.wire.is_narrow()
    }
}

impl Narrow for TileTypeRecord {
    open spec fn narrow(&self) -> bool {
        &&& self.name.narrow()
        &&& list_narrow(self.site_types@)
        &&& list_narrow(self.wires@)
        &&& list_narrow(self.pips@)
        &&& list_narrow(self.constants@)
    }

    fn is_narrow(&self) -> (fits: bool) {
        self.name.is_narrow() && is_list_narrow(&self.site_types) && is_list_narrow(&self.wires)
            && is_list_narrow(&self.pips) && is_list_narrow(&self.constants)
    }
}

impl Narrow for BelRecord {
    open spec fn narrow(&self) -> bool {
        self.name.narrow() && self.bel_type.narrow() && list_narrow(self.pins@)
    }

    fn is_narrow(&self) -> (fits: bool) {
        self.name.is_narrow() && self.bel_type.is_narrow() && is_list_narrow(&self.pins)
    }
}

impl Narrow for BelPinRecord {
    open spec fn narrow(&self) -> bool {
        self.name.narrow() && self.bel.narrow()
    }

    fn is_narrow(&self) -> (fits: bool) {
        self.name.is_narrow() && self.bel.is_narrow()
    }
}

impl Narrow for SiteWireRecord {
    open spec fn narrow(&self) -> bool {
        self.name.narrow() && list_narrow(self.pins@)
    }

    fn is_narrow(&self) -> (fits: bool) {
        self.name.is_narrow() && is_list_narrow(&self.pins)
    }
}

impl Narrow for SitePipRecord {
    open spec fn narrow(&self) -> bool {
        self.in_pin.narrow() && self.out_pin.narrow()
    }

    fn is_narrow(&self) -> (fits: bool) {
        self.in_pin.is_narrow() && self.out_pin.is_narrow()
    }
}

impl Narrow for SitePinRecord {
    open spec fn narrow(&self) -> bool {
        self.name.narrow() && self.bel_pin.narrow()
    }

    fn is_narrow(&self) -> (fits: bool) {
        self.name.is_narrow() && self.bel_pin.is_narrow()
    }
}

impl Narrow for SiteTypeRecord {
    open spec fn narrow(&self) -> bool {
        &&& self.name.narrow()
        &&& self.last_input.narrow()
        &&& list_narrow(self.bels@)
        &&& list_narrow(self.bel_pins@)
        &&& list_narrow(self.site_wires@)
        &&& list_narrow(self.site_pips@)
        &&& list_narrow(self.pins@)
    }

    fn is_narrow(&self) -> (fits: bool) {
        self.name.is_narrow() && self.last_input.is_narrow() && is_list_narrow(&self.bels)
            && is_list_narrow(&self.bel_pins) && is_list_narrow(&self.site_wires) && is_list_narrow(
            &self.site_pips,
        ) && is_list_narrow(&self.pins)
    }
}

impl Narrow for WireRecord {
    open spec fn narrow(&self) -> bool {
        self.tile.narrow() && self.wire.narrow() && self.wire_type.narrow()
    }

    fn is_narrow(&self) -> (fits: bool) {
        self.tile.is_narrow() && self.wire.is_narrow() && self.wire_type.is_narrow()
    }
}

impl Narrow for NodeRecord {
    open spec fn narrow(&self) -> bool {
        list_narrow(self.wires@)
    }

    fn is_narrow(&self) -> (fits: bool) {
        is_list_narrow(&self.wires)
    }
}

impl Narrow for WireTypeRecord {
    open spec fn narrow(&self) -> bool {
        self.name.narrow()
    }

    fn is_narrow(&self) -> (fits: bool) {
        self.name.is_narrow()
    }
}

impl Narrow for SiteRecord {
    open spec fn narrow(&self) -> bool {
        self.name.narrow() && self.site_type.narrow()
    }

    fn is_narrow(&self) -> (fits: bool) {
        self.name.is_narrow() && self.site_type.is_narrow()
    }
}

impl Narrow for TileRecord {
    open spec fn narrow(&self) -> bool {
        &&& self.name.narrow()
        &&& self.tile_type.narrow()
        &&& self.row <= MAX_SMALL
        &&& self.col <= MAX_SMALL
        &&& list_narrow(self.sites@)
        &&& list_narrow(self.sub_tile_prefixes@)
    }

    fn is_narrow(&self) -> (fits: bool) {
        self.name.is_narrow() && self.tile_type.is_narrow() && self.row <= 0xffff && self.col
            <= 0xffff && is_list_narrow(&self.sites) && is_list_narrow(&self.sub_tile_prefixes)
    }
}

impl Narrow for DefaultPin {
    open spec fn narrow(&self) -> bool {
        self.name.narrow()
    }

    fn is_narrow(&self) -> (fits: bool) {
        self.name.is_narrow()
    }
}

impl Narrow for DefaultCellConn {
    open spec fn narrow(&self) -> bool {
        self.cell_type.narrow() && list_narrow(self.pins@)
    }

    fn is_narrow(&self) -> (fits: bool) {
        self.cell_type.is_narrow() && is_list_narrow(&self.pins)
    }
}

impl Narrow for ConstantsRecord {
    open spec fn narrow(&self) -> bool {
        &&& self.gnd_cell_type.narrow()
        &&& self.gnd_cell_pin.narrow()
        &&& self.vcc_cell_type.narrow()
        &&& self.vcc_cell_pin.narrow()
        &&& list_narrow(self.default_conns@)
    }

    fn is_narrow(&self) -> (fits: bool) {
        self.gnd_cell_type.is_narrow() && self.gnd_cell_pin.is_narrow()
            && self.vcc_cell_type.is_narrow() && self.vcc_cell_pin.is_narrow() && is_list_narrow(
            &self.default_conns,
        )
    }
}

impl Narrow for PinPairRecord {
    open spec fn narrow(&self) -> bool {
        self.cell_pin.narrow() && self.bel_pin.narrow()
    }

    fn is_narrow(&self) -> (fits: bool) {
        self.cell_pin.is_narrow() && self.bel_pin.is_narrow()
    }
}

impl Narrow for CommonPins {
    open spec fn narrow(&self) -> bool {
        self.site_type.narrow() && list_narrow(self.bels@) && list_narrow(self.pins@)
    }

    fn is_narrow(&self) -> (fits: bool) {
        self.site_type.is_narrow() && is_list_narrow(&self.bels) && is_list_narrow(&self.pins)
    }
}

impl Narrow for CellBelMapping {
    open spec fn narrow(&self) -> bool {
        self.cell.narrow() && list_narrow(self.common_pins@)
    }

    fn is_narrow(&self) -> (fits: bool) {
        self.cell.is_narrow() && is_list_narrow(&self.common_pins)
    }
}

impl Narrow for PackagePinRecord {
    open spec fn narrow(&self) -> bool {
        &&& self.package_pin.narrow()
        &&& match self.placement {
            Placement::Placed { site, bel } => site.narrow() && bel.narrow(),
            Placement::Unplaced => true,
        }
    }

    fn is_narrow(&self) -> (fits: bool) {
        self.package_pin.is_narrow() && match self.placement {
            Placement::Placed { site, bel } => site.is_narrow() && bel.is_narrow(),
            Placement::Unplaced => true,
        }
    }
}

impl Narrow for PackageRecord {
    open spec fn narrow(&self) -> bool {
        self.name.narrow() && list_narrow(self.pins@)
    }

    fn is_narrow(&self) -> (fits: bool) {
        self.name.is_narrow() && is_list_narrow(&self.pins)
    }
}

impl Narrow for LutCell {
    open spec fn narrow(&self) -> bool {
        list_narrow(self.input_pins@)
    }

    fn is_narrow(&self) -> (fits: bool) {
        is_list_narrow(&self.input_pins)
    }
}

impl Narrow for LutBel {
    open spec fn narrow(&self) -> bool {
        list_narrow(self.input_pins@)
    }

    fn is_narrow(&self) -> (fits: bool) {
        is_list_narrow(&self.input_pins)
    }
}

impl Narrow for LutElement {
    open spec fn narrow(&self) -> bool {
        list_narrow(self.bels@)
    }

    fn is_narrow(&self) -> (fits: bool) {
        is_list_narrow(&self.bels)
    }
}

impl Narrow for LutSite {
    open spec fn narrow(&self) -> bool {
        list_narrow(self.luts@)
    }

    fn is_narrow(&self) -> (fits: bool) {
        is_list_narrow(&self.luts)
    }
}

impl Narrow for LutDefinitions {
    open spec fn narrow(&self) -> bool {
        list_narrow(self.cells@) && list_narrow(self.elements@)
    }

    fn is_narrow(&self) -> (fits: bool) {
        is_list_narrow(&self.cells) && is_list_narrow(&self.elements)
    }
}

impl Narrow for ParameterDef {
    open spec fn narrow(&self) -> bool {
        self.name.narrow() && self.default_key.narrow() && self.default_text.narrow()
    }

    fn is_narrow(&self) -> (fits: bool) {
        self.name.is_narrow() && self.default_key.is_narrow() && self.default_text.is_narrow()
    }
}

impl Narrow for CellParameters {
    open spec fn narrow(&self) -> bool {
        self.cell_type.narrow() && list_narrow(self.parameters@)
    }

    fn is_narrow(&self) -> (fits: bool) {
        self.cell_type.is_narrow() && is_list_narrow(&self.parameters)
    }
}

impl Narrow for Document {
    open spec fn narrow(&self) -> bool {
        &&& list_narrow(self.tile_types@)
        &&& list_narrow(self.site_types@)
        &&& list_narrow(self.wires@)
        &&& list_narrow(self.nodes@)
        &&& list_narrow(self.wire_types@)
        &&& list_narrow(self.tiles@)
        &&& self.constants.narrow()
        &&& list_narrow(self.cell_bel_map@)
        &&& list_narrow(self.packages@)
        &&& self.lut_definitions.narrow()
        &&& list_narrow(self.parameter_defs@)
        &&& list_narrow(self.strings@)
    }

    fn is_narrow(&self) -> (fits: bool) {
        is_list_narrow(&self.tile_types) && is_list_narrow(&self.site_types) && is_list_narrow(
            &self.wires,
        ) && is_list_narrow(&self.nodes) && is_list_narrow(&self.wire_types) && is_list_narrow(
            &self.tiles,
        ) && self.constants.is_narrow() && is_list_narrow(&self.cell_bel_map) && is_list_narrow(
            &self.packages,
        ) && self.lut_definitions.is_narrow() && is_list_narrow(&self.parameter_defs)
            && is_list_narrow(&self.strings)
    }
}

} // verus!
