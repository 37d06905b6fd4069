//! The tile-type descriptor builder: for every tile type its name, its sites
//! with their canonical site types, its wires, its pips and the wires that are
//! sources of a constant.

use vstd::prelude::*;
use crate::document::{
    ConstantKind,
    ConstantSource,
    PipKind,
    PipRecord,
    PseudoCellRecord,
    SiteTypeInTile,
    TileTypeRecord,
};
use crate::fabric::{
    Pip,
    PipView,
    PseudoCell,
    PseudoCellView,
    SiteInstance,
    SiteInstanceView,
    SiteTypeView,
    TileType,
    TileTypeView,
};
use crate::interner::{
    extends,
    grown_by,
    lemma_grown_by_chain,
    lemma_resolve_all_in_extension,
    names_in,
    resolve_all,
    resolves,
    Interner,
};
use crate::site_types::{keeps, lemma_canonicalized, seen_in_sites, seen_in_tile_types, SiteTypeTable};
use crate::text::{make_tile_type_name, same_name, tile_type_name};

verus! {

/// The name of the tile type that stands for an absent tile.
pub open spec fn null_name() -> Seq<char> {
    seq!['N', 'U', 'L', 'L']
}

/// The name of the wire that is the supply net of a tile.
pub open spec fn vcc_wire() -> Seq<char> {
    seq!['G', ':', 'V', 'C', 'C']
}

/// The name of the wire that is the ground net of a tile.
pub open spec fn gnd_wire() -> Seq<char> {
    seq!['G', ':', 'G', 'N', 'D']
}

/// The name of tile type `index`, of which `null_type` is the one that stands
/// for an absent tile.
pub open spec fn name_of_tile_type(index: int, null_type: Option<usize>) -> Seq<char> {
    if null_type == Some(index as usize) {
        null_name()
    } else {
        tile_type_name(index)
    }
}

/// The first position of `name` in `names`, or their number if none holds it.
pub open spec fn first_position(names: Seq<Seq<char>>, name: Seq<char>) -> int
    decreases names.len(),
{
    if names.len() == 0 || names[0] == name {
        0
    } else {
        1 + first_position(names.drop_first(), name)
    }
}

/// The constant source that the wire called `name` is, if there is such a wire.
pub open spec fn source_at(names: Seq<Seq<char>>, name: Seq<char>, kind: ConstantKind) -> Seq<
    ConstantSource,
> {
    if first_position(names, name) < names.len() {
        seq![ConstantSource { wire: first_position(names, name) as usize, kind }]
    } else {
        Seq::empty()
    }
}

/// The constant sources of a tile type with the given wires: its supply wire,
/// then its ground wire, as far as it has them.
pub open spec fn constant_sources(wires: Seq<Seq<char>>) -> Seq<ConstantSource> {
    source_at(wires, vcc_wire(), ConstantKind::Vcc) + source_at(
        wires,
        gnd_wire(),
        ConstantKind::Gnd,
    )
}

/// The names of the cells that pips occupy: of each that of its bel and those
/// of its pins.
pub open spec fn pseudo_cells_names(cells: Seq<PseudoCellView>) -> Set<Seq<char>>
    decreases cells.len(),
{
    if cells.len() == 0 {
        Set::empty()
    } else {
        pseudo_cells_names(cells.drop_last()).union(
            set![cells.last().bel].union(names_in(cells.last().pins)),
        )
    }
}

/// The names in the pips: those of the cells that they occupy.
pub open spec fn pips_names(pips: Seq<PipView>) -> Set<Seq<char>>
    decreases pips.len(),
{
    if pips.len() == 0 {
        Set::empty()
    } else {
        pips_names(pips.drop_last()).union(pseudo_cells_names(pips.last().pseudo_cells))
    }
}

/// The names of the tile wires that the pins of the sites connect to.
pub open spec fn sites_wire_names(sites: Seq<SiteInstanceView>) -> Set<Seq<char>>
    decreases sites.len(),
{
    if sites.len() == 0 {
        Set::empty()
    } else {
        sites_wire_names(sites.drop_last()).union(names_in(sites.last().pin_wires))
    }
}

/// The names in a tile type called `name`: its own, those of the tile wires
/// of its site pins, those of its wires and those in its pips.
pub open spec fn tile_type_names(tile_type: TileTypeView, name: Seq<char>) -> Set<Seq<char>> {
    set![name].union(sites_wire_names(tile_type.sites)).union(names_in(tile_type.wires)).union(
        pips_names(tile_type.pips),
    )
}

/// The names in the tile types, each called after its index.
pub open spec fn tile_types_names(tile_types: Seq<TileTypeView>, null_type: Option<usize>) -> Set<
    Seq<char>,
>
    decreases tile_types.len(),
{
    if tile_types.len() == 0 {
        Set::empty()
    } else {
        tile_types_names(tile_types.drop_last(), null_type).union(
            tile_type_names(
                tile_types.last(),
                name_of_tile_type(tile_types.len() - 1, null_type),
            ),
        )
    }
}

impl PseudoCellRecord {
    /// The record names the bel and the pins of the cell.
    pub open spec fn encodes(&self, table: Seq<Seq<char>>, cell: PseudoCellView) -> bool {
        &&& resolves(table, self.bel, cell.bel)
        &&& resolve_all(table, self.pins@, cell.pins)
    }
}

/// The records encode the cells one by one.
pub open spec fn pseudo_cells_encode(
    table: Seq<Seq<char>>,
    records: Seq<PseudoCellRecord>,
    cells: Seq<PseudoCellView>,
) -> bool {
    &&& records.len() == cells.len()
    &&& forall|i: int| 0 <= i < records.len() ==> (#[trigger] records[i]).encodes(table, cells[i])
}

impl PipRecord {
    /// The record carries the pip's wires and sub-tile, is directional and
    /// buffered from its first wire to its second only, and is conventional
    /// if the pip occupies no cell, else holds the cells that it occupies.
    pub open spec fn encodes(&self, table: Seq<Seq<char>>, pip: PipView) -> bool {
        &&& self.wire0 == pip.src_wire
        &&& self.wire1 == pip.dst_wire
        &&& self.directional
        &&& self.buffered20
        &&& !self.buffered21
        &&& self.sub_tile == pip.sub_tile
        &&& if pip.pseudo_cells.len() == 0 {
            self.kind is Conventional
        } else {
            &&& self.kind matches PipKind::PseudoCells(cells)
            &&& pseudo_cells_encode(table, cells@, pip.pseudo_cells)
        }
    }
}

/// The records encode the pips one by one.
pub open spec fn pips_encode(table: Seq<Seq<char>>, records: Seq<PipRecord>, pips: Seq<PipView>) -> bool {
    &&& records.len() == pips.len()
    &&& forall|i: int| 0 <= i < records.len() ==> (#[trigger] records[i]).encodes(table, pips[i])
}

impl SiteTypeInTile {
    /// The record holds the canonical index of the site's type and names the
    /// tile wire of each site pin.
    pub open spec fn encodes(
        &self,
        table: Seq<Seq<char>>,
        canon: Seq<SiteTypeView>,
        site: SiteInstanceView,
    ) -> bool {
        &&& self.primary_type < canon.len()
        &&& canon[self.primary_type as int] == site.site_type
        &&& resolve_all(table, self.pin_wires@, site.pin_wires)
    }
}

/// The records encode the sites one by one.
pub open spec fn sites_encode(
    table: Seq<Seq<char>>,
    canon: Seq<SiteTypeView>,
    records: Seq<SiteTypeInTile>,
    sites: Seq<SiteInstanceView>,
) -> bool {
    &&& records.len() == sites.len()
    &&& forall|i: int|
        0 <= i < records.len() ==> (#[trigger] records[i]).encodes(table, canon, sites[i])
}

impl TileTypeRecord {
    /// The record has the given name and encodes the sites, wires and pips of
    /// the tile type, and holds its constant sources.
    pub open spec fn encodes(
        &self,
        table: Seq<Seq<char>>,
        canon: Seq<SiteTypeView>,
        tile_type: TileTypeView,
        name: Seq<char>,
    ) -> bool {
        &&& resolves(table, self.name, name)
        &&& sites_encode(table, canon, self.site_types@, tile_type.sites)
        &&& resolve_all(table, self.wires@, tile_type.wires)
        &&& pips_encode(table, self.pips@, tile_type.pips)
        &&& self.constants@ == constant_sources(tile_type.wires)
    }
}

/// The records encode the tile types one by one, each under its name.
pub open spec fn tile_types_encode(
    table: Seq<Seq<char>>,
    canon: Seq<SiteTypeView>,
    records: Seq<TileTypeRecord>,
    tile_types: Seq<TileTypeView>,
    null_type: Option<usize>,
) -> bool {
    &&& records.len() == tile_types.len()
    &&& forall|i: int|
        0 <= i < records.len() ==> (#[trigger] records[i]).encodes(
            table,
            canon,
            tile_types[i],
            name_of_tile_type(i, null_type),
        )
}

/// Where the first `i` names are not `name` and position `i` holds it or ends
/// the list, `i` is the first position of `name`.
pub proof fn lemma_first_position(names: Seq<Seq<char>>, name: Seq<char>, i: int)
    requires
        0 <= i <= names.len(),
        forall|j: int| 0 <= j < i ==> names[j] != name,
        i == names.len() || names[i] == name,
    ensures
        first_position(names, name) == i,
    decreases i,
{
    if i > 0 {
        let rest = names.drop_first();
        assert forall|j: int| 0 <= j < i - 1 implies rest[j] != name by {
            assert(rest[j] == names[j + 1]);
        }
        lemma_first_position(rest, name, i - 1);
    }
}

/// A pip record that encodes a pip under a table does so under every
/// extension of the table.
pub proof fn lemma_pip_record_extends(
    record: PipRecord,
    before: Seq<Seq<char>>,
    after: Seq<Seq<char>>,
    pip: PipView,
)
    requires
        extends(before, after),
        record.encodes(before, pip),
    ensures
        record.encodes(after, pip),
{
    if pip.pseudo_cells.len() != 0 {
        let cells = record.kind->PseudoCells_0;
        assert forall|i: int| 0 <= i < cells@.len() implies (#[trigger] cells@[i]).encodes(
            after,
            pip.pseudo_cells[i],
        ) by {
            assert(cells@[i].encodes(before, pip.pseudo_cells[i]));
            lemma_resolve_all_in_extension(before, after, cells@[i].pins@, pip.pseudo_cells[i].pins);
        }
    }
}

/// A tile-type record that encodes a tile type under a string table and a
/// table of canonical site types does so under every extension of the two.
pub proof fn lemma_tile_type_record_extends(
    record: TileTypeRecord,
    before: Seq<Seq<char>>,
    after: Seq<Seq<char>>,
    canon_before: Seq<SiteTypeView>,
    canon_after: Seq<SiteTypeView>,
    tile_type: TileTypeView,
    name: Seq<char>,
)
    requires
        extends(before, after),
        keeps(canon_before, canon_after),
        record.encodes(before, canon_before, tile_type, name),
    ensures
        record.encodes(after, canon_after, tile_type, name),
{
    assert forall|i: int| 0 <= i < record.site_types@.len() implies (
    #[trigger] record.site_types@[i]).encodes(after, canon_after, tile_type.sites[i]) by {
        let site = record.site_types@[i];
        assert(site.encodes(before, canon_before, tile_type.sites[i]));
        assert(canon_before[site.primary_type as int] == tile_type.sites[i].site_type);
        lemma_resolve_all_in_extension(before, after, site.pin_wires@, tile_type.sites[i].pin_wires);
    }
    lemma_resolve_all_in_extension(before, after, record.wires@, tile_type.wires);
    assert forall|i: int| 0 <= i < record.pips@.len() implies (#[trigger] record.pips@[i]).encodes(
        after,
        tile_type.pips[i],
    ) by {
        lemma_pip_record_extends(record.pips@[i], before, after, tile_type.pips[i]);
    }
}

/// In the records of the tile types, two sites have the same canonical index
/// if and only if their site types are the same definition.
pub proof fn lemma_same_definition_same_index(
    table: Seq<Seq<char>>,
    canon: Seq<SiteTypeView>,
    records: Seq<TileTypeRecord>,
    tile_types: Seq<TileTypeView>,
    null_type: Option<usize>,
    first: (int, int),
    second: (int, int),
)
    requires
        canon.no_duplicates(),
        tile_types_encode(table, canon, records, tile_types, null_type),
        0 <= first.0 < tile_types.len(),
        0 <= first.1 < tile_types[first.0].sites.len(),
        0 <= second.0 < tile_types.len(),
        0 <= second.1 < tile_types[second.0].sites.len(),
    ensures
        tile_types[first.0].sites[first.1].site_type == tile_types[second.0].sites[second.1].site_type
            <==> records[first.0].site_types@[first.1].primary_type
            == records[second.0].site_types@[second.1].primary_type,
{
    let a = records[first.0];
    let b = records[second.0];
    assert(a.encodes(table, canon, tile_types[first.0], name_of_tile_type(first.0, null_type)));
    assert(b.encodes(table, canon, tile_types[second.0], name_of_tile_type(second.0, null_type)));
    assert(a.site_types@[first.1].encodes(table, canon, tile_types[first.0].sites[first.1]));
    assert(b.site_types@[second.1].encodes(table, canon, tile_types[second.0].sites[second.1]));
}

/// The position of the first wire called `name`, if there is one.
pub fn find_wire(wires: &Vec<String>, name: &str) -> (found: Option<usize>)
    ensures
        match found {
            Some(i) => i < wires@.len() && i == first_position(wires.deep_view(), name@),
            None => first_position(wires.deep_view(), name@) == wires@.len(),
        },
{
    let mut i: usize = 0;
    while i < wires.len()
        invariant
            i <= wires.len(),
            forall|j: int| 0 <= j < i ==> wires.deep_view()[j] != name@,
        decreases wires.len() - i,
    {
        if same_name(wires[i].as_str(), name) {
            proof {
                lemma_first_position(wires.deep_view(), name@, i as int);
            }
            return Some(i);
        }
        i += 1;
    }
    proof {
        lemma_first_position(wires.deep_view(), name@, wires.len() as int);
    }
    None
}

/// The constant sources among the wires of a tile type: the first wire named
/// `G:VCC` as a source of the supply, then the first wire named `G:GND` as a
/// source of ground. A tile type may have neither.
pub fn find_constant_sources(wires: &Vec<String>) -> (sources: Vec<ConstantSource>)
    ensures
        sources@ == constant_sources(wires.deep_view()),
{
    proof {
        reveal_strlit("G:VCC");
        reveal_strlit("G:GND");
        assert("G:VCC"@ =~= vcc_wire());
        assert("G:GND"@ =~= gnd_wire());
    }
    let mut sources: Vec<ConstantSource> = Vec::new();
    match find_wire(wires, "G:VCC") {
        Some(wire) => {
            sources.push(ConstantSource { wire, kind: ConstantKind::Vcc });
        },
        None => {},
    }
    match find_wire(wires, "G:GND") {
        Some(wire) => {
            sources.push(ConstantSource { wire, kind: ConstantKind::Gnd });
        },
        None => {},
    }
    assert(sources@ =~= constant_sources(wires.deep_view()));
    sources
}

fn pseudo_cell_records(cells: &Vec<PseudoCell>, ids: &mut Interner) -> (records: Vec<
    PseudoCellRecord,
>)
    ensures
        grown_by(old(ids)@, final(ids)@, pseudo_cells_names(cells.deep_view())),
        final(ids)@.no_duplicates(),
        pseudo_cells_encode(final(ids)@, records@, cells.deep_view()),
{
    proof {
        use_type_invariant(&*ids);
    }
    let ghost view = cells.deep_view();
    let mut records: Vec<PseudoCellRecord> = Vec::new();
    let mut i: usize = 0;
    while i < cells.len()
        invariant
            i <= cells.len(),
            view == cells.deep_view(),
            grown_by(old(ids)@, ids@, pseudo_cells_names(view.take(i as int))),
            ids@.no_duplicates(),
            records@.len() == i,
            forall|j: int| 0 <= j < i ==> (#[trigger] records@[j]).encodes(ids@, view[j]),
        decreases cells.len() - i,
    {
        let cell = &cells[i];
        let ghost before = ids@;
        let ghost earlier = records@;
        let bel = ids.intern(cell.bel.as_str());
        let ghost mid = ids@;
        let pins = ids.intern_all(&cell.pins);
        proof {
            assert(view.take(i + 1).drop_last() =~= view.take(i as int));
            assert(view.take(i + 1).last() == view[i as int]);
            let here = set![view[i as int].bel].union(names_in(view[i as int].pins));
            lemma_grown_by_chain(
                before,
                mid,
                ids@,
                set![view[i as int].bel],
                names_in(view[i as int].pins),
                here,
            );
            lemma_grown_by_chain(
                old(ids)@,
                before,
                ids@,
                pseudo_cells_names(view.take(i as int)),
                here,
                pseudo_cells_names(view.take(i + 1)),
            );
            assert forall|j: int| 0 <= j < i implies (#[trigger] earlier[j]).encodes(
                ids@,
                view[j],
            ) by {
                assert(earlier[j].encodes(before, view[j]));
                lemma_resolve_all_in_extension(before, ids@, earlier[j].pins@, view[j].pins);
            }
        }
        records.push(PseudoCellRecord { bel, pins });
        i += 1;
    }
    proof {
        assert(view.take(cells.len() as int) =~= view);
    }
    records
}

/// The record of a pip.
pub fn pip_record(pip: &Pip, ids: &mut Interner) -> (record: PipRecord)
    ensures
        grown_by(old(ids)@, final(ids)@, pseudo_cells_names(pip.deep_view().pseudo_cells)),
        final(ids)@.no_duplicates(),
        record.encodes(final(ids)@, pip.deep_view()),
{
    proof {
        use_type_invariant(&*ids);
    }
    let kind = if pip.pseudo_cells.len() == 0 {
        PipKind::Conventional
    } else {
        PipKind::PseudoCells(pseudo_cell_records(&pip.pseudo_cells, ids))
    };
    PipRecord {
        wire0: pip.src_wire,
        wire1: pip.dst_wire,
        directional: true,
        buffered20: true,
        buffered21: false,
        sub_tile: pip.sub_tile,
        kind,
    }
}

fn pip_records(pips: &Vec<Pip>, ids: &mut Interner) -> (records: Vec<PipRecord>)
    ensures
        grown_by(old(ids)@, final(ids)@, pips_names(pips.deep_view())),
        final(ids)@.no_duplicates(),
        pips_encode(final(ids)@, records@, pips.deep_view()),
{
    proof {
        use_type_invariant(&*ids);
    }
    let ghost view = pips.deep_view();
    let mut records: Vec<PipRecord> = Vec::new();
    let mut i: usize = 0;
    while i < pips.len()
        invariant
            i <= pips.len(),
            view == pips.deep_view(),
            grown_by(old(ids)@, ids@, pips_names(view.take(i as int))),
            ids@.no_duplicates(),
            records@.len() == i,
            forall|j: int| 0 <= j < i ==> (#[trigger] records@[j]).encodes(ids@, view[j]),
        decreases pips.len() - i,
    {
        let ghost before = ids@;
        let ghost earlier = records@;
        let record = pip_record(&pips[i], ids);
        proof {
            assert(view.take(i + 1).drop_last() =~= view.take(i as int));
            assert(view.take(i + 1).last() == view[i as int]);
            lemma_grown_by_chain(
                old(ids)@,
                before,
                ids@,
                pips_names(view.take(i as int)),
                pseudo_cells_names(view[i as int].pseudo_cells),
                pips_names(view.take(i + 1)),
            );
            assert forall|j: int| 0 <= j < i implies (#[trigger] earlier[j]).encodes(
                ids@,
                view[j],
            ) by {
                lemma_pip_record_extends(earlier[j], before, ids@, view[j]);
            }
        }
        records.push(record);
        i += 1;
    }
    proof {
        assert(view.take(pips.len() as int) =~= view);
    }
    records
}

fn site_records<'a>(
    sites: &'a Vec<SiteInstance>,
    table: &mut SiteTypeTable<'a>,
    ids: &mut Interner,
) -> (records: Vec<SiteTypeInTile>)
    ensures
        grown_by(old(ids)@, final(ids)@, sites_wire_names(sites.deep_view())),
        final(ids)@.no_duplicates(),
        final(table)@ == seen_in_sites(old(table)@, sites.deep_view()),
        keeps(old(table)@, final(table)@),
        final(table)@.no_duplicates(),
        sites_encode(final(ids)@, final(table)@, records@, sites.deep_view()),
{
    proof {
        use_type_invariant(&*ids);
    }
    proof {
        use_type_invariant(&*table);
    }
    let ghost view = sites.deep_view();
    let mut records: Vec<SiteTypeInTile> = Vec::new();
    let mut i: usize = 0;
    while i < sites.len()
        invariant
            i <= sites.len(),
            view == sites.deep_view(),
            grown_by(old(ids)@, ids@, sites_wire_names(view.take(i as int))),
            ids@.no_duplicates(),
            table@ == seen_in_sites(old(table)@, view.take(i as int)),
            keeps(old(table)@, table@),
            table@.no_duplicates(),
            records@.len() == i,
            forall|j: int| 0 <= j < i ==> (#[trigger] records@[j]).encodes(ids@, table@, view[j]),
        decreases sites.len() - i,
    {
        let site = &sites[i];
        let ghost before = ids@;
        let ghost canon = table@;
        let ghost earlier = records@;
        proof {
            assert(view.take(i + 1).drop_last() =~= view.take(i as int));
            assert(view.take(i + 1).last() == view[i as int]);
            lemma_canonicalized(canon, site.site_type.deep_view());
        }
        let primary_type = table.canonicalize(&site.site_type);
        let pin_wires = ids.intern_all(&site.pin_wires);
        proof {
            lemma_grown_by_chain(
                old(ids)@,
                before,
                ids@,
                sites_wire_names(view.take(i as int)),
                names_in(view[i as int].pin_wires),
                sites_wire_names(view.take(i + 1)),
            );
            assert forall|j: int| 0 <= j < i implies (#[trigger] earlier[j]).encodes(
                ids@,
                table@,
                view[j],
            ) by {
                assert(earlier[j].encodes(before, canon, view[j]));
                assert(canon[earlier[j].primary_type as int] == view[j].site_type);
                lemma_resolve_all_in_extension(before, ids@, earlier[j].pin_wires@, view[j].pin_wires);
            }
        }
        records.push(SiteTypeInTile { primary_type, pin_wires });
        i += 1;
    }
    proof {
        assert(view.take(sites.len() as int) =~= view);
    }
    records
}

/// The record of tile type number `index`. The site types of its sites are
/// canonicalized in `table`, in the sites' order.
pub fn tile_type_record<'a>(
    tile_type: &'a TileType,
    index: usize,
    null_type: Option<usize>,
    table: &mut SiteTypeTable<'a>,
    ids: &mut Interner,
) -> (record: TileTypeRecord)
    ensures
        grown_by(
            old(ids)@,
            final(ids)@,
            tile_type_names(tile_type.deep_view(), name_of_tile_type(index as int, null_type)),
        ),
        final(ids)@.no_duplicates(),
        final(table)@ == seen_in_sites(old(table)@, tile_type.deep_view().sites),
        keeps(old(table)@, final(table)@),
        final(table)@.no_duplicates(),
        record.encodes(
            final(ids)@,
            final(table)@,
            tile_type.deep_view(),
            name_of_tile_type(index as int, null_type),
        ),
{
    proof {
        use_type_invariant(&*ids);
    }
    let ghost view = tile_type.deep_view();
    let ghost t0 = ids@;
    let is_null = match null_type {
        Some(n) => n == index,
        None => false,
    };
    let name = if is_null {
        proof {
            reveal_strlit("NULL");
            assert("NULL"@ =~= null_name());
        }
        ids.intern("NULL")
    } else {
        let text = make_tile_type_name(index);
        ids.intern(text.as_str())
    };
    let ghost t_name = ids@;
    let site_types = site_records(&tile_type.sites, table, ids);
    let ghost t1 = ids@;
    let wires = ids.intern_all(&tile_type.wires);
    let ghost t2 = ids@;
    let pips = pip_records(&tile_type.pips, ids);
    let constants = find_constant_sources(&tile_type.wires);
    proof {
        let n1 = set![name_of_tile_type(index as int, null_type)];
        let n2 = n1.union(sites_wire_names(view.sites));
        let n3 = n2.union(names_in(view.wires));
        let n4 = n3.union(pips_names(view.pips));
        lemma_grown_by_chain(t0, t_name, t1, n1, sites_wire_names(view.sites), n2);
        lemma_grown_by_chain(t0, t1, t2, n2, names_in(view.wires), n3);
        lemma_grown_by_chain(t0, t2, ids@, n3, pips_names(view.pips), n4);
        assert forall|i: int| 0 <= i < site_types@.len() implies (#[trigger] site_types@[i]).encodes(
            ids@,
            table@,
            view.sites[i],
        ) by {
            assert(site_types@[i].encodes(t1, table@, view.sites[i]));
            lemma_resolve_all_in_extension(t1, ids@, site_types@[i].pin_wires@, view.sites[i].pin_wires);
        }
        lemma_resolve_all_in_extension(t2, ids@, wires@, view.wires);
    }
    TileTypeRecord { name, site_types, wires, pips, constants }
}

/// The records of the tile types, in order. The site types of their sites are
/// canonicalized in `table` as they come.
pub fn tile_type_records<'a>(
    tile_types: &'a Vec<TileType>,
    null_type: Option<usize>,
    table: &mut SiteTypeTable<'a>,
    ids: &mut Interner,
) -> (records: Vec<TileTypeRecord>)
    ensures
        grown_by(old(ids)@, final(ids)@, tile_types_names(tile_types.deep_view(), null_type)),
        final(ids)@.no_duplicates(),
        keeps(old(table)@, final(table)@),
        final(table)@.no_duplicates(),
        final(table)@ == seen_in_tile_types(old(table)@, tile_types.deep_view()),
        tile_types_encode(final(ids)@, final(table)@, records@, tile_types.deep_view(), null_type),
{
    proof {
        use_type_invariant(&*ids);
    }
    proof {
        use_type_invariant(&*table);
    }
    let ghost all = tile_types.deep_view();
    let mut records: Vec<TileTypeRecord> = Vec::new();
    let mut i: usize = 0;
    proof {
        assert(all.take(0) =~= Seq::<TileTypeView>::empty());
    }
    while i < tile_types.len()
        invariant
            i <= tile_types.len(),
            all == tile_types.deep_view(),
            grown_by(old(ids)@, ids@, tile_types_names(all.take(i as int), null_type)),
            ids@.no_duplicates(),
            keeps(old(table)@, table@),
            table@.no_duplicates(),
            table@ == seen_in_tile_types(old(table)@, all.take(i as int)),
            records@.len() == i,
            forall|j: int|
                0 <= j < i ==> (#[trigger] records@[j]).encodes(
                    ids@,
                    table@,
                    all[j],
                    name_of_tile_type(j, null_type),
                ),
        decreases tile_types.len() - i,
    {
        let ghost before = ids@;
        let ghost canon = table@;
        let ghost earlier = records@;
        let record = tile_type_record(&tile_types[i], i, null_type, table, ids);
        proof {
            assert(all.take(i + 1).drop_last() =~= all.take(i as int));
            assert(all.take(i + 1).last() == all[i as int]);
            lemma_grown_by_chain(
                old(ids)@,
                before,
                ids@,
                tile_types_names(all.take(i as int), null_type),
                tile_type_names(all[i as int], name_of_tile_type(i as int, null_type)),
                tile_types_names(all.take(i + 1), null_type),
            );
            assert forall|j: int| 0 <= j < i implies (#[trigger] earlier[j]).encodes(
                ids@,
                table@,
                all[j],
                name_of_tile_type(j, null_type),
            ) by {
                lemma_tile_type_record_extends(
                    earlier[j],
                    before,
                    ids@,
                    canon,
                    table@,
                    all[j],
                    name_of_tile_type(j, null_type),
                );
            }
        }
        records.push(record);
        i += 1;
    }
    proof {
        assert(all.take(tile_types.len() as int) =~= all);
    }
    records
}

} // verus!
