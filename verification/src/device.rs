//! The pass itself: one fabric model, its pad table and its pin maps in, one
//! device-resources document out.

use vstd::prelude::*;
use crate::cells::{cell_bel_map, cell_map_encodes, cell_map_names, lemma_cell_map_extends};
use crate::document::{
    all_below,
    Document,
    NodeRecord,
    PipKind,
    Placement,
    SiteTypeRecord,
    TileRecord,
    TileTypeRecord,
    WireRecord,
};
use crate::error::{WriteError, WriteErrorView};
use crate::fabric::{
    Fabric,
    FabricView,
    NodeView,
    PadTable,
    PadTableView,
    PinMap,
    PinMapView,
    SiteTypeView,
    TileTypeView,
    TileView,
};
use crate::interner::{extends, grown_by, lemma_grown_by_chain, names_in, resolves, Interner};
use crate::luts::{
    constants_names,
    constants_record,
    parameter_names,
    wire_type_names,
    lemma_constants_extend,
    lut_bel_names,
    lut_definitions,
    parameter_records,
    parameters_fixed,
    wire_type_records,
    wire_types_fixed,
};
use crate::nodes::{flatten_nodes, nodes_flattened, nodes_names};
use crate::packages::{
    check_pads,
    fault_free,
    first_fault_at,
    lemma_package_record_extends,
    packages_encode,
    packages_names,
    pad_fault_in,
    resolve_packages,
};
use crate::site_records::{
    all_have_inputs,
    check_site_types,
    first_without_inputs,
    lemma_site_type_record_extends,
    site_type_records,
    site_types_encode,
    site_types_names,
};
use crate::site_types::{canonical_site_types, lemma_canonical_is_settled, SiteTypeTable};
use crate::widths::Narrow;
use crate::tile_types::{
    lemma_tile_type_record_extends,
    tile_type_records,
    tile_types_encode,
    tile_types_names,
};
use crate::tiles::{
    check_tiles,
    device_site_names,
    first_untyped,
    lemma_tile_record_extends,
    tile_records,
    tiles_encode,
    tiles_names,
    tiles_typed,
};

verus! {

/// The tile type that stands for an absent tile: that of the first tile.
pub open spec fn null_tile_type(tiles: Seq<TileView>) -> Option<usize> {
    if tiles.len() > 0 {
        Some(tiles[0].tile_type)
    } else {
        None
    }
}

/// The model is fit for a document: every canonical site type has an input
/// pin, every tile has a tile type of the fabric, and every bonded pad is
/// without fault.
pub open spec fn model_sound(fabric: FabricView, pads: PadTableView) -> bool {
    &&& all_have_inputs(canonical_site_types(fabric.tile_types))
    &&& tiles_typed(fabric.tiles, fabric.tile_types.len() as int)
    &&& fault_free(pads)
}

/// `error` is the fault that ends the pass: that of the first canonical site
/// type without input pins; if there is none, that of the first tile without a
/// tile type; if there is none either, that of the first bonded pad with a
/// fault.
pub open spec fn model_fault(fabric: FabricView, pads: PadTableView, error: WriteErrorView) -> bool {
    let canon = canonical_site_types(fabric.tile_types);
    if !all_have_inputs(canon) {
        exists|i: int|
            first_without_inputs(canon, i) && error == (WriteErrorView::NoInputPins {
                site_type: (#[trigger] canon[i]).name,
            })
    } else if !tiles_typed(fabric.tiles, fabric.tile_types.len() as int) {
        exists|i: int|
            first_untyped(fabric.tiles, fabric.tile_types.len() as int, i) && error == (
            WriteErrorView::UnknownTileType { tile: (#[trigger] fabric.tiles[i]).name })
    } else {
        exists|i: int, p: int|
            first_fault_at(pads, i, p) && #[trigger] pad_fault_in(pads, i, p) == Some(error)
    }
}

/// The names in the document of a model: those in its tile types, in its
/// canonical site types, in its nodes and in its tiles, those in the pin maps
/// and in the packages, and those of the fixed parts.
pub open spec fn document_names(
    fabric: FabricView,
    pads: PadTableView,
    maps: Seq<PinMapView>,
) -> Set<Seq<char>> {
    tile_types_names(fabric.tile_types, null_tile_type(fabric.tiles)).union(
        site_types_names(canonical_site_types(fabric.tile_types)),
    ).union(nodes_names(fabric.nodes)).union(wire_type_names()).union(
        tiles_names(fabric.tiles, fabric.tile_types),
    ).union(constants_names()).union(cell_map_names(maps)).union(
        packages_names(
            pads,
            pads.packages.len() as int,
            names_in(device_site_names(fabric.tiles, fabric.tile_types)),
            fabric.width,
            fabric.height,
        ),
    ).union(parameter_names())
}

impl Document {
    /// The document is that of the fabric, the pad table and the pin maps,
    /// with `table` as its string table: every part encodes its part of the
    /// model, and every name in it is a handle of `table`.
    pub open spec fn encodes(
        &self,
        table: Seq<Seq<char>>,
        fabric: FabricView,
        pads: PadTableView,
        maps: Seq<PinMapView>,
    ) -> bool {
        let canon = canonical_site_types(fabric.tile_types);
        &&& self.name@ == fabric.device
        &&& tile_types_encode(
            table,
            canon,
            self.tile_types@,
            fabric.tile_types,
            null_tile_type(fabric.tiles),
        )
        &&& site_types_encode(table, self.site_types@, canon)
        &&& nodes_flattened(table, self.wires@, self.nodes@, fabric.nodes)
        &&& wire_types_fixed(table, self.wire_types@)
        &&& tiles_encode(table, self.tiles@, fabric.tiles, fabric.tile_types)
        &&& self.constants.is_fixed(table)
        &&& cell_map_encodes(table, self.cell_bel_map@, maps)
        &&& packages_encode(
            table,
            self.packages@,
            names_in(device_site_names(fabric.tiles, fabric.tile_types)),
            pads,
            fabric.width,
            fabric.height,
        )
        &&& self.lut_definitions.describes(lut_bel_names(canon))
        &&& parameters_fixed(table, self.parameter_defs@)
        &&& self.strings.deep_view() == table
    }
}

/// The document of a sound model is consistent in itself: every handle and
/// every index in it refers to something that the document holds.
pub proof fn lemma_encoded_is_well_formed(
    document: Document,
    table: Seq<Seq<char>>,
    fabric: FabricView,
    pads: PadTableView,
    maps: Seq<PinMapView>,
)
    requires
        table.no_duplicates(),
        model_sound(fabric, pads),
        document.encodes(table, fabric, pads, maps),
    ensures
        document.well_formed(),
{
    let canon = canonical_site_types(fabric.tile_types);
    let names = document.strings@.len();
    assert(names == table.len());
    assert forall|i: int| 0 <= i < document.tile_types@.len() implies (
    #[trigger] document.tile_types@[i]).within(names, document.site_types@.len()) by {
        let record = document.tile_types@[i];
        let shape = fabric.tile_types[i];
        assert(record.encodes(
            table,
            canon,
            shape,
            crate::tile_types::name_of_tile_type(i, null_tile_type(fabric.tiles)),
        ));
        assert forall|j: int| 0 <= j < record.site_types@.len() implies (
        #[trigger] record.site_types@[j]).primary_type < document.site_types@.len() && all_below(
            record.site_types@[j].pin_wires@,
            names,
        ) by {
            assert(record.site_types@[j].encodes(table, canon, shape.sites[j]));
        }
        assert forall|j: int| 0 <= j < record.pips@.len() implies (#[trigger] record.pips@[j]).within(
            names,
        ) by {
            assert(record.pips@[j].encodes(table, shape.pips[j]));
            match record.pips@[j].kind {
                PipKind::Conventional => {},
                PipKind::PseudoCells(cells) => {
                    if shape.pips[j].pseudo_cells.len() != 0 {
                        assert forall|c: int| 0 <= c < cells@.len() implies (#[trigger] cells@[c]).bel
                            < names && all_below(cells@[c].pins@, names) by {
                            assert(cells@[c].encodes(table, shape.pips[j].pseudo_cells[c]));
                        }
                    }
                },
            }
        }
    }
    assert forall|i: int| 0 <= i < document.site_types@.len() implies (
    #[trigger] document.site_types@[i]).within(names) by {
        let record = document.site_types@[i];
        assert(record.encodes(table, canon[i]));
        assert forall|j: int| 0 <= j < record.bels@.len() implies (#[trigger] record.bels@[j]).name
            < names && record.bels@[j].bel_type < names by {
            assert(record.bels@[j].encodes(table, canon[i].bels[j]));
        }
        assert forall|j: int| 0 <= j < record.bel_pins@.len() implies (
        #[trigger] record.bel_pins@[j]).name < names && record.bel_pins@[j].bel < names by {
            assert(record.bel_pins@[j].encodes(table, canon[i].bel_pins[j]));
        }
        assert forall|j: int| 0 <= j < record.site_wires@.len() implies (
        #[trigger] record.site_wires@[j]).name < names by {
            assert(record.site_wires@[j].encodes(table, canon[i].wires[j]));
        }
        assert forall|j: int| 0 <= j < record.pins@.len() implies (#[trigger] record.pins@[j]).name
            < names by {
            assert(record.pins@[j].encodes(table, canon[i].pins[j]));
        }
    }
    let entries = crate::nodes::device_wires(fabric.nodes);
    assert forall|i: int| 0 <= i < document.wires@.len() implies (#[trigger] document.wires@[i]).tile
        < names && document.wires@[i].wire < names && document.wires@[i].wire_type
        < document.wire_types@.len() by {
        assert(document.wires@[i].encodes(table, entries[i]));
    }
    assert forall|n: int| 0 <= n < document.nodes@.len() implies all_below(
        (#[trigger] document.nodes@[n]).wires@,
        document.wires@.len(),
    ) by {
        assert(document.wires.len() == document.wires@.len());
        assert forall|k: int| 0 <= k < document.nodes@[n].wires@.len() implies (
        #[trigger] document.nodes@[n].wires@[k]) < document.wires@.len() by {
            crate::nodes::lemma_flattened_nodes(
                table,
                document.wires@,
                document.nodes@,
                fabric.nodes,
                n,
                k,
            );
        }
    }
    assert forall|i: int| 0 <= i < document.tiles@.len() implies (#[trigger] document.tiles@[i]).within(
        names,
        document.tile_types@,
    ) by {
        let record = document.tiles@[i];
        let tile = fabric.tiles[i];
        let shape = fabric.tile_types[tile.tile_type as int];
        assert(record.encodes(table, tile, shape));
        let at = document.tile_types@[record.tile_type as int];
        assert(at.encodes(
            table,
            canon,
            shape,
            crate::tile_types::name_of_tile_type(
                record.tile_type as int,
                null_tile_type(fabric.tiles),
            ),
        ));
        assert forall|j: int| 0 <= j < record.sites@.len() implies (#[trigger] record.sites@[j]).name
            < names && record.sites@[j].site_type < at.site_types@.len() by {
            assert(resolves(
                table,
                record.sites@[j].name,
                crate::tiles::tile_site_names(tile, shape)[j],
            ));
        }
    }
    assert forall|i: int| 0 <= i < document.cell_bel_map@.len() implies (
    #[trigger] document.cell_bel_map@[i]).within(names) by {
        let record = document.cell_bel_map@[i];
        if i >= 2 {
            assert(record.groups(table, maps));
            let of_cell = crate::cells::maps_of_cell(maps, table[record.cell as int]);
            assert forall|j: int| 0 <= j < record.common_pins@.len() implies (
            #[trigger] record.common_pins@[j]).within(names) by {
                let pins = record.common_pins@[j];
                assert(pins.encodes(table, of_cell[j]));
                assert forall|q: int| 0 <= q < pins.pins@.len() implies (#[trigger] pins.pins@[q]).cell_pin
                    < names && pins.pins@[q].bel_pin < names by {
                    assert(pins.pins@[q].encodes(table, of_cell[j].pins[q]));
                }
            }
        }
    }
    let sites = names_in(device_site_names(fabric.tiles, fabric.tile_types));
    assert forall|i: int| 0 <= i < document.packages@.len() implies (
    #[trigger] document.packages@[i]).within(names) by {
        let record = document.packages@[i];
        assert(record.encodes(table, sites, pads, i, fabric.width, fabric.height));
        let bonded = crate::packages::bonded_pads(pads.pads, i);
        assert forall|j: int| 0 <= j < record.pins@.len() implies (
        #[trigger] record.pins@[j]).package_pin < names && (record.pins@[j].placement matches Placement::Placed {
            site,
            bel,
        } ==> site < names && bel < names) by {
            assert(record.pins@[j].encodes(table, sites, bonded[j], i, fabric.width, fabric.height));
        }
    }
    assert(document.constants.within(names)) by {
        assert(document.constants.is_fixed(table));
        let conns = document.constants.default_conns@;
        assert forall|i: int| 0 <= i < conns.len() implies (#[trigger] conns[i]).cell_type < names
            && forall|j: int| 0 <= j < conns[i].pins@.len() ==> (#[trigger] conns[i].pins@[j]).name
            < names by {
            assert forall|j: int| 0 <= j < conns[i].pins@.len() implies (
            #[trigger] conns[i].pins@[j]).name < names by {
                assert(resolves(
                    table,
                    conns[0].pins@[j].name,
                    crate::luts::lookup_inputs()[j],
                ));
            }
        }
    }
}

proof fn lemma_tile_types_extend(
    records: Seq<TileTypeRecord>,
    before: Seq<Seq<char>>,
    after: Seq<Seq<char>>,
    canon: Seq<SiteTypeView>,
    tile_types: Seq<TileTypeView>,
    null_type: Option<usize>,
)
    requires
        extends(before, after),
        tile_types_encode(before, canon, records, tile_types, null_type),
    ensures
        tile_types_encode(after, canon, records, tile_types, null_type),
{
    assert forall|i: int| 0 <= i < records.len() implies (#[trigger] records[i]).encodes(
        after,
        canon,
        tile_types[i],
        crate::tile_types::name_of_tile_type(i, null_type),
    ) by {
        lemma_tile_type_record_extends(
            records[i],
            before,
            after,
            canon,
            canon,
            tile_types[i],
            crate::tile_types::name_of_tile_type(i, null_type),
        );
    }
}

proof fn lemma_site_types_extend(
    records: Seq<SiteTypeRecord>,
    before: Seq<Seq<char>>,
    after: Seq<Seq<char>>,
    canon: Seq<SiteTypeView>,
)
    requires
        extends(before, after),
        site_types_encode(before, records, canon),
    ensures
        site_types_encode(after, records, canon),
{
    assert forall|i: int| 0 <= i < records.len() implies (#[trigger] records[i]).encodes(
        after,
        canon[i],
    ) by {
        lemma_site_type_record_extends(records[i], before, after, canon[i]);
    }
}

proof fn lemma_nodes_extend(
    wires: Seq<WireRecord>,
    records: Seq<NodeRecord>,
    before: Seq<Seq<char>>,
    after: Seq<Seq<char>>,
    nodes: Seq<NodeView>,
)
    requires
        extends(before, after),
        nodes_flattened(before, wires, records, nodes),
    ensures
        nodes_flattened(after, wires, records, nodes),
{
    let entries = crate::nodes::device_wires(nodes);
    assert forall|i: int| 0 <= i < wires.len() implies (#[trigger] wires[i]).encodes(
        after,
        entries[i],
    ) by {
        assert(wires[i].encodes(before, entries[i]));
    }
}

proof fn lemma_tiles_extend(
    records: Seq<TileRecord>,
    before: Seq<Seq<char>>,
    after: Seq<Seq<char>>,
    tiles: Seq<TileView>,
    tile_types: Seq<TileTypeView>,
)
    requires
        extends(before, after),
        tiles_encode(before, records, tiles, tile_types),
    ensures
        tiles_encode(after, records, tiles, tile_types),
{
    assert forall|i: int| 0 <= i < records.len() implies (#[trigger] records[i]).encodes(
        after,
        tiles[i],
        tile_types[tiles[i].tile_type as int],
    ) by {
        lemma_tile_record_extends(
            records[i],
            before,
            after,
            tiles[i],
            tile_types[tiles[i].tile_type as int],
        );
    }
}

proof fn lemma_extends_chain(a: Seq<Seq<char>>, b: Seq<Seq<char>>, c: Seq<Seq<char>>)
    requires
        extends(a, b),
        extends(b, c),
    ensures
        extends(a, c),
{
    assert forall|i: int| 0 <= i < a.len() implies c[i] == a[i] by {
        assert(b[i] == a[i]);
    }
}

/// Writes the device-resources document of a fabric: consolidates the fabric
/// model, the pad table and the pin maps of the site types into one document,
/// interning every name in `ids`, and gives the document the final table of
/// `ids` as its string table.
///
/// The table of `ids` keeps the names that it had, at their handles, and grows
/// by the names in the document and by no other.
///
/// A model that is not fit for a document is refused with its first fault, and
/// then nothing is interned. A document in which an index, a handle or a count
/// does not fit its field is not returned either.
pub fn write(fabric: &Fabric, pads: &PadTable, pin_maps: &Vec<PinMap>, ids: &mut Interner) -> (result:
    Result<Document, WriteError>)
    ensures
        grown_by(
            old(ids)@,
            final(ids)@,
            document_names(fabric.deep_view(), pads.deep_view(), pin_maps.deep_view()),
        ),
        final(ids)@.no_duplicates(),
        match result {
            Ok(document) => model_sound(fabric.deep_view(), pads.deep_view()) && document.encodes(
                final(ids)@,
                fabric.deep_view(),
                pads.deep_view(),
                pin_maps.deep_view(),
            ) && document.well_formed() && document.narrow(),
            Err(e) => if e.deep_view() is IndexOverflow {
                model_sound(fabric.deep_view(), pads.deep_view()) && exists|document: Document|
                    #[trigger] document.encodes(
                        final(ids)@,
                        fabric.deep_view(),
                        pads.deep_view(),
                        pin_maps.deep_view(),
                    ) && !document.narrow()
            } else {
                !model_sound(fabric.deep_view(), pads.deep_view()) && model_fault(
                    fabric.deep_view(),
                    pads.deep_view(),
                    e.deep_view(),
                ) && final(ids)@ == old(ids)@
            },
        },
{
    proof {
        use_type_invariant(&*ids);
    }
    let ghost model = fabric.deep_view();
    let ghost canon = canonical_site_types(model.tile_types);
    let ghost null_type = null_tile_type(model.tiles);
    let mut table = SiteTypeTable::collect(&fabric.tile_types);
    match check_site_types(&table) {
        Err(e) => {
            proof {
                let i = choose|i: int|
                    first_without_inputs(canon, i) && e.deep_view() == (WriteErrorView::NoInputPins {
                        site_type: (#[trigger] canon[i]).name,
                    });
                assert(canon[i].input_pins == 0);
            }
            return Err(e);
        },
        Ok(_) => {},
    }
    match check_tiles(&fabric.tiles, fabric.tile_types.len()) {
        Err(e) => {
            proof {
                let i = choose|i: int|
                    first_untyped(model.tiles, model.tile_types.len() as int, i) && e.deep_view() == (
                    WriteErrorView::UnknownTileType { tile: (#[trigger] model.tiles[i]).name });
                assert(model.tiles[i].tile_type >= model.tile_types.len());
            }
            return Err(e);
        },
        Ok(_) => {},
    }
    match check_pads(pads) {
        Err(e) => {
            proof {
                let (i, p) = choose|i: int, p: int|
                    first_fault_at(pads.deep_view(), i, p) && #[trigger] pad_fault_in(
                        pads.deep_view(),
                        i,
                        p,
                    ) == Some(e.deep_view());
                assert(pad_fault_in(pads.deep_view(), i, p) is Some);
            }
            return Err(e);
        },
        Ok(_) => {},
    }
    let first_type = if fabric.tiles.len() > 0 {
        Some(fabric.tiles[0].tile_type)
    } else {
        None
    };
    assert(first_type == null_type) by {
        if model.tiles.len() > 0 {
            assert(model.tiles[0].tile_type == fabric.tiles@[0].tile_type);
        }
    }
    proof {
        lemma_canonical_is_settled(model.tile_types);
    }
    let tile_types = tile_type_records(&fabric.tile_types, first_type, &mut table, ids);
    let ghost t_tile_types = ids@;
    let site_types = match site_type_records(&table, ids) {
        Ok(records) => records,
        Err(e) => {
            proof {
                let i = choose|i: int|
                    first_without_inputs(canon, i) && e.deep_view() == (WriteErrorView::NoInputPins {
                        site_type: (#[trigger] canon[i]).name,
                    });
                assert(canon[i].input_pins == 0);
                assert(false);
            }
            return Err(e);
        },
    };
    let ghost t_site_types = ids@;
    let (wires, nodes) = flatten_nodes(&fabric.nodes, ids);
    let ghost t_nodes = ids@;
    let wire_types = wire_type_records(ids);
    let ghost t_wire_types = ids@;
    let (tiles, sites) = match tile_records(&fabric.tiles, &fabric.tile_types, ids) {
        Ok(out) => out,
        Err(e) => {
            proof {
                let i = choose|i: int|
                    first_untyped(model.tiles, model.tile_types.len() as int, i) && e.deep_view() == (
                    WriteErrorView::UnknownTileType { tile: (#[trigger] model.tiles[i]).name });
                assert(model.tiles[i].tile_type >= model.tile_types.len());
                assert(false);
            }
            return Err(e);
        },
    };
    let ghost t_tiles = ids@;
    let constants = constants_record(ids);
    let ghost t_constants = ids@;
    let cell_map = cell_bel_map(pin_maps, ids);
    let ghost t_cells = ids@;
    let packages = match resolve_packages(pads, &sites, fabric.width, fabric.height, ids) {
        Ok(records) => records,
        Err(e) => {
            proof {
                let (i, p) = choose|i: int, p: int|
                    first_fault_at(pads.deep_view(), i, p) && #[trigger] pad_fault_in(
                        pads.deep_view(),
                        i,
                        p,
                    ) == Some(e.deep_view());
                assert(pad_fault_in(pads.deep_view(), i, p) is Some);
                assert(false);
            }
            return Err(e);
        },
    };
    let ghost t_packages = ids@;
    let lut_defs = lut_definitions(&table);
    let parameter_defs = parameter_records(ids);
    let strings = ids.strings();
    proof {
        let start = old(ids)@;
        let sites_view = names_in(device_site_names(model.tiles, model.tile_types));
        let n1 = tile_types_names(model.tile_types, null_type);
        let n2 = n1.union(site_types_names(canon));
        let n3 = n2.union(nodes_names(model.nodes));
        let n4 = n3.union(wire_type_names());
        let n5 = n4.union(tiles_names(model.tiles, model.tile_types));
        let n6 = n5.union(constants_names());
        let n7 = n6.union(cell_map_names(pin_maps.deep_view()));
        let n8 = n7.union(
            packages_names(
                pads.deep_view(),
                pads.deep_view().packages.len() as int,
                sites_view,
                fabric.width,
                fabric.height,
            ),
        );
        let n9 = n8.union(parameter_names());
        assert(pads.deep_view().packages.len() == pads.packages@.len());
        lemma_grown_by_chain(start, t_tile_types, t_site_types, n1, site_types_names(canon), n2);
        lemma_grown_by_chain(start, t_site_types, t_nodes, n2, nodes_names(model.nodes), n3);
        lemma_grown_by_chain(start, t_nodes, t_wire_types, n3, wire_type_names(), n4);
        lemma_grown_by_chain(
            start,
            t_wire_types,
            t_tiles,
            n4,
            tiles_names(model.tiles, model.tile_types),
            n5,
        );
        lemma_grown_by_chain(start, t_tiles, t_constants, n5, constants_names(), n6);
        lemma_grown_by_chain(
            start,
            t_constants,
            t_cells,
            n6,
            cell_map_names(pin_maps.deep_view()),
            n7,
        );
        lemma_grown_by_chain(
            start,
            t_cells,
            t_packages,
            n7,
            packages_names(
                pads.deep_view(),
                pads.deep_view().packages.len() as int,
                sites_view,
                fabric.width,
                fabric.height,
            ),
            n8,
        );
        lemma_grown_by_chain(start, t_packages, ids@, n8, parameter_names(), n9);
        let end = ids@;
        lemma_extends_chain(t_cells, t_packages, end);
        lemma_extends_chain(t_constants, t_cells, end);
        lemma_extends_chain(t_tiles, t_constants, end);
        lemma_extends_chain(t_wire_types, t_tiles, end);
        lemma_extends_chain(t_nodes, t_wire_types, end);
        lemma_extends_chain(t_site_types, t_nodes, end);
        lemma_extends_chain(t_tile_types, t_site_types, end);
        lemma_extends_chain(old(ids)@, t_tile_types, end);
        lemma_tile_types_extend(tile_types@, t_tile_types, end, canon, model.tile_types, null_type);
        lemma_site_types_extend(site_types@, t_site_types, end, canon);
        lemma_nodes_extend(wires@, nodes@, t_nodes, end, model.nodes);
        lemma_tiles_extend(tiles@, t_tiles, end, model.tiles, model.tile_types);
        lemma_constants_extend(constants, t_constants, end);
        lemma_cell_map_extends(cell_map@, t_cells, end, pin_maps.deep_view());
        assert forall|i: int| 0 <= i < packages@.len() implies (#[trigger] packages@[i]).encodes(
            end,
            sites@,
            pads.deep_view(),
            i,
            fabric.width,
            fabric.height,
        ) by {
            lemma_package_record_extends(
                packages@[i],
                t_packages,
                end,
                sites@,
                pads.deep_view(),
                i,
                fabric.width,
                fabric.height,
            );
        }
    }
    let document = Document {
        name: fabric.device.clone(),
        tile_types,
        site_types,
        wires,
        nodes,
        wire_types,
        tiles,
        constants,
        cell_bel_map: cell_map,
        packages,
        lut_definitions: lut_defs,
        parameter_defs,
        strings,
    };
    proof {
        lemma_encoded_is_well_formed(
            document,
            ids@,
            model,
            pads.deep_view(),
            pin_maps.deep_view(),
        );
    }
    if !document.is_narrow() {
        assert(document.encodes(ids@, model, pads.deep_view(), pin_maps.deep_view()));
        return Err(WriteError::IndexOverflow);
    }
    Ok(document)
}

} // verus!
