//! The cell-to-bel pin-map aggregator: the pin maps of all site types are
//! grouped by cell type, so that the document lists for each cell type every
//! site type that can hold it. The cell types come in the order of their
//! names, after the two cells that stand for the constants.

use vstd::prelude::*;
use crate::document::{CellBelMapping, CommonPins, PinPairRecord};
use crate::fabric::{PinMap, PinMapView, PinPair, PinPairView};
use crate::interner::{
    extends,
    grown_by,
    intern_one_of,
    lemma_grown_by_chain,
    lemma_grown_by_two,
    lemma_resolve_all_in_extension,
    names_in,
    resolve_all,
    resolves,
    Interner,
};
use crate::text::{
    lemma_bytes_before_irreflexive,
    lemma_bytes_before_total,
    lemma_bytes_before_transitive,
    lemma_same_bytes_same_name,
    name_before,
    same_name,
    sorts_before,
};

verus! {

/// The name of the cell that stands for the constant low.
pub open spec fn vlo() -> Seq<char> {
    seq!['V', 'L', 'O']
}

/// The name of the cell that stands for the constant high.
pub open spec fn vhi() -> Seq<char> {
    seq!['V', 'H', 'I']
}

/// The pin maps of one cell type, in their order.
pub open spec fn maps_of_cell(maps: Seq<PinMapView>, cell: Seq<char>) -> Seq<PinMapView>
    decreases maps.len(),
{
    if maps.len() == 0 {
        Seq::empty()
    } else if maps.last().cell_type == cell {
        maps_of_cell(maps.drop_last(), cell).push(maps.last())
    } else {
        maps_of_cell(maps.drop_last(), cell)
    }
}

/// The names of the pin pairs: of each the cell pin and the bel pin.
pub open spec fn pin_pairs_names(pairs: Seq<PinPairView>) -> Set<Seq<char>>
    decreases pairs.len(),
{
    if pairs.len() == 0 {
        Set::empty()
    } else {
        pin_pairs_names(pairs.drop_last()).union(set![pairs.last().cell_pin, pairs.last().bel_pin])
    }
}

/// The names in a pin map but that of its cell type: the site type, the bels
/// and the pins.
pub open spec fn pin_map_names(map: PinMapView) -> Set<Seq<char>> {
    set![map.site_type].union(names_in(map.bels)).union(pin_pairs_names(map.pins))
}

/// The names in the pin maps of the cell type `cell`, but that of the cell
/// type.
pub open spec fn cell_maps_names(maps: Seq<PinMapView>, cell: Seq<char>) -> Set<Seq<char>>
    decreases maps.len(),
{
    if maps.len() == 0 {
        Set::empty()
    } else if maps.last().cell_type == cell {
        cell_maps_names(maps.drop_last(), cell).union(pin_map_names(maps.last()))
    } else {
        cell_maps_names(maps.drop_last(), cell)
    }
}

/// The names in the pin maps, those of their cell types among them.
pub open spec fn pin_maps_names(maps: Seq<PinMapView>) -> Set<Seq<char>>
    decreases maps.len(),
{
    if maps.len() == 0 {
        Set::empty()
    } else {
        pin_maps_names(maps.drop_last()).union(pin_map_names(maps.last())).insert(
            maps.last().cell_type,
        )
    }
}

/// The names in the cell map of the pin maps: those of the two constant cells
/// and those in the pin maps.
pub open spec fn cell_map_names(maps: Seq<PinMapView>) -> Set<Seq<char>> {
    set![vlo(), vhi()].union(pin_maps_names(maps))
}

/// The names in the pin maps hold the cell type of every pin map and the
/// names in the pin maps of every cell type.
pub proof fn lemma_pin_maps_names(maps: Seq<PinMapView>, cell: Seq<char>)
    ensures
        cell_maps_names(maps, cell).subset_of(pin_maps_names(maps)),
        forall|j: int|
            0 <= j < maps.len() ==> pin_maps_names(maps).contains((#[trigger] maps[j]).cell_type),
    decreases maps.len(),
{
    if maps.len() > 0 {
        lemma_pin_maps_names(maps.drop_last(), cell);
        assert forall|j: int| 0 <= j < maps.len() implies pin_maps_names(maps).contains(
            (#[trigger] maps[j]).cell_type,
        ) by {
            if j < maps.len() - 1 {
                assert(maps.drop_last()[j] == maps[j]);
            }
        }
    }
}

/// Whether some pin map is for the cell type `cell`.
pub open spec fn is_cell_type(maps: Seq<PinMapView>, cell: Seq<char>) -> bool {
    exists|j: int| 0 <= j < maps.len() && (#[trigger] maps[j]).cell_type == cell
}

/// The cell type of pin map `j`.
pub open spec fn cell_of(maps: Seq<PinMapView>, j: int) -> Seq<char> {
    maps[j].cell_type
}

/// The cell type of the pin map that stands at position `k` of `order`.
pub open spec fn ordered_cell(order: Seq<usize>, maps: Seq<PinMapView>, k: int) -> Seq<char> {
    maps[order[k] as int].cell_type
}

/// `order` lists positions among the first `n` pin maps, whose cell types are
/// in strictly ascending order of their names and are all the cell types of
/// the first `n` pin maps.
pub open spec fn orders_first(order: Seq<usize>, maps: Seq<PinMapView>, n: int) -> bool {
    &&& forall|k: int| 0 <= k < order.len() ==> (#[trigger] order[k]) < n
    &&& forall|a: int, b: int|
        0 <= a < b < order.len() ==> name_before(
            #[trigger] ordered_cell(order, maps, a),
            #[trigger] ordered_cell(order, maps, b),
        )
    &&& forall|j: int| 0 <= j < n ==> in_order(order, maps, #[trigger] cell_of(maps, j))
}

/// Some position of `order` stands for the cell type `cell`.
pub open spec fn in_order(order: Seq<usize>, maps: Seq<PinMapView>, cell: Seq<char>) -> bool {
    exists|k: int| 0 <= k < order.len() && #[trigger] ordered_cell(order, maps, k) == cell
}

/// `order` lists positions of pin maps whose cell types are in strictly
/// ascending order of their names and are all the cell types of `maps`.
pub open spec fn orders_cell_types(order: Seq<usize>, maps: Seq<PinMapView>) -> bool {
    orders_first(order, maps, maps.len() as int)
}

/// The name of the cell of record `k`.
pub open spec fn record_cell(table: Seq<Seq<char>>, records: Seq<CellBelMapping>, k: int) -> Seq<
    char,
> {
    table[records[k].cell as int]
}

impl PinPairRecord {
    /// The record names the cell pin and the bel pin.
    pub open spec fn encodes(&self, table: Seq<Seq<char>>, pair: PinPairView) -> bool {
        &&& resolves(table, self.cell_pin, pair.cell_pin)
        &&& resolves(table, self.bel_pin, pair.bel_pin)
    }
}

/// The records encode the pin pairs one by one.
pub open spec fn pin_pairs_encode(
    table: Seq<Seq<char>>,
    records: Seq<PinPairRecord>,
    pairs: Seq<PinPairView>,
) -> bool {
    &&& records.len() == pairs.len()
    &&& forall|i: int| 0 <= i < records.len() ==> (#[trigger] records[i]).encodes(table, pairs[i])
}

impl CommonPins {
    /// The record names the site type and the bels of the pin map and encodes
    /// its pin pairs.
    pub open spec fn encodes(&self, table: Seq<Seq<char>>, map: PinMapView) -> bool {
        &&& resolves(table, self.site_type, map.site_type)
        &&& resolve_all(table, self.bels@, map.bels)
        &&& pin_pairs_encode(table, self.pins@, map.pins)
    }
}

/// The records encode the pin maps one by one.
pub open spec fn common_pins_encode(
    table: Seq<Seq<char>>,
    records: Seq<CommonPins>,
    maps: Seq<PinMapView>,
) -> bool {
    &&& records.len() == maps.len()
    &&& forall|i: int| 0 <= i < records.len() ==> (#[trigger] records[i]).encodes(table, maps[i])
}

impl CellBelMapping {
    /// The record names a cell type of `maps` and encodes the pin maps of
    /// that cell type, in their order.
    pub open spec fn groups(&self, table: Seq<Seq<char>>, maps: Seq<PinMapView>) -> bool {
        &&& self.cell < table.len()
        &&& is_cell_type(maps, table[self.cell as int])
        &&& common_pins_encode(
            table,
            self.common_pins@,
            maps_of_cell(maps, table[self.cell as int]),
        )
    }

    /// The record names the cell `name` and has no pin map.
    pub open spec fn is_constant_cell(&self, table: Seq<Seq<char>>, name: Seq<char>) -> bool {
        resolves(table, self.cell, name) && self.common_pins@.len() == 0
    }
}

/// The records are the cell map of `maps`: first the constant low cell and the
/// constant high cell, without pin maps; then one record for each cell type of
/// `maps`, in strictly ascending order of the cell types' names, with the pin
/// maps of that cell type.
pub open spec fn cell_map_encodes(
    table: Seq<Seq<char>>,
    records: Seq<CellBelMapping>,
    maps: Seq<PinMapView>,
) -> bool {
    &&& records.len() >= 2
    &&& records[0].is_constant_cell(table, vlo())
    &&& records[1].is_constant_cell(table, vhi())
    &&& forall|k: int| 2 <= k < records.len() ==> (#[trigger] records[k]).groups(table, maps)
    &&& forall|a: int, b: int|
        2 <= a < b < records.len() ==> name_before(
            #[trigger] record_cell(table, records, a),
            #[trigger] record_cell(table, records, b),
        )
    &&& forall|j: int|
        0 <= j < maps.len() ==> has_record(table, records, #[trigger] cell_of(maps, j))
}

/// Some record after the two constant cells names the cell type `cell`.
pub open spec fn has_record(table: Seq<Seq<char>>, records: Seq<CellBelMapping>, cell: Seq<char>) -> bool {
    exists|k: int| 2 <= k < records.len() && #[trigger] record_cell(table, records, k) == cell
}

/// A record of pin maps that encodes a pin map under a table does so under
/// every extension of the table.
pub proof fn lemma_common_pins_extends(
    record: CommonPins,
    before: Seq<Seq<char>>,
    after: Seq<Seq<char>>,
    map: PinMapView,
)
    requires
        extends(before, after),
        record.encodes(before, map),
    ensures
        record.encodes(after, map),
{
    lemma_resolve_all_in_extension(before, after, record.bels@, map.bels);
    assert forall|i: int| 0 <= i < record.pins@.len() implies (#[trigger] record.pins@[i]).encodes(
        after,
        map.pins[i],
    ) by {
        assert(record.pins@[i].encodes(before, map.pins[i]));
    }
}

/// A record that groups the pin maps of a cell type under a table does so
/// under every extension of the table.
pub proof fn lemma_group_extends(
    record: CellBelMapping,
    before: Seq<Seq<char>>,
    after: Seq<Seq<char>>,
    maps: Seq<PinMapView>,
)
    requires
        extends(before, after),
        record.groups(before, maps),
    ensures
        record.groups(after, maps),
        after[record.cell as int] == before[record.cell as int],
{
    let cell = before[record.cell as int];
    assert(after[record.cell as int] == cell);
    let of_cell = maps_of_cell(maps, cell);
    assert forall|i: int| 0 <= i < record.common_pins@.len() implies (
    #[trigger] record.common_pins@[i]).encodes(after, of_cell[i]) by {
        lemma_common_pins_extends(record.common_pins@[i], before, after, of_cell[i]);
    }
}

/// A cell map under a table is a cell map under every extension of the table.
pub proof fn lemma_cell_map_extends(
    records: Seq<CellBelMapping>,
    before: Seq<Seq<char>>,
    after: Seq<Seq<char>>,
    maps: Seq<PinMapView>,
)
    requires
        extends(before, after),
        cell_map_encodes(before, records, maps),
    ensures
        cell_map_encodes(after, records, maps),
{
    assert forall|k: int| 2 <= k < records.len() implies (#[trigger] records[k]).groups(
        after,
        maps,
    ) && record_cell(after, records, k) == record_cell(before, records, k) by {
        lemma_group_extends(records[k], before, after, maps);
    }
    assert forall|a: int, b: int| 2 <= a < b < records.len() implies name_before(
        #[trigger] record_cell(after, records, a),
        #[trigger] record_cell(after, records, b),
    ) by {
        assert(records[a].groups(after, maps));
        assert(records[b].groups(after, maps));
        assert(name_before(record_cell(before, records, a), record_cell(before, records, b)));
    }
    assert forall|j: int| 0 <= j < maps.len() implies has_record(
        after,
        records,
        #[trigger] cell_of(maps, j),
    ) by {
        assert(has_record(before, records, cell_of(maps, j)));
        let k = choose|k: int|
            2 <= k < records.len() && #[trigger] record_cell(before, records, k) == cell_of(maps, j);
        assert(records[k].groups(after, maps));
        assert(record_cell(after, records, k) == cell_of(maps, j));
    }
}

/// In a cell map every cell type is listed once: the records after the two
/// constant cells name pairwise different cell types.
pub proof fn lemma_cell_types_listed_once(
    table: Seq<Seq<char>>,
    records: Seq<CellBelMapping>,
    maps: Seq<PinMapView>,
    a: int,
    b: int,
)
    requires
        cell_map_encodes(table, records, maps),
        2 <= a < records.len(),
        2 <= b < records.len(),
        a != b,
    ensures
        record_cell(table, records, a) != record_cell(table, records, b),
{
    if a < b {
        lemma_name_before_distinct(record_cell(table, records, a), record_cell(table, records, b));
    } else {
        lemma_name_before_distinct(record_cell(table, records, b), record_cell(table, records, a));
    }
}

/// Names in strict order are different names.
pub proof fn lemma_name_before_distinct(a: Seq<char>, b: Seq<char>)
    requires
        name_before(a, b),
    ensures
        a != b,
{
    lemma_bytes_before_irreflexive(vstd::utf8::encode_utf8(a));
}

/// A new cell type enters the order at the position before which all names
/// are smaller and at which the name, if any, is larger.
proof fn lemma_order_insert(order: Seq<usize>, maps: Seq<PinMapView>, g: int, i: int)
    requires
        0 <= i < maps.len(),
        i <= usize::MAX,
        0 <= g <= order.len(),
        orders_first(order, maps, i),
        forall|k: int| 0 <= k < g ==> name_before(#[trigger] ordered_cell(order, maps, k), cell_of(maps, i)),
        g < order.len() ==> !name_before(ordered_cell(order, maps, g), cell_of(maps, i))
            && ordered_cell(order, maps, g) != cell_of(maps, i),
    ensures
        orders_first(order.insert(g, i as usize), maps, i + 1),
{
    let cell = cell_of(maps, i);
    let next = order.insert(g, i as usize);
    assert forall|k: int| 0 <= k < next.len() implies ordered_cell(next, maps, k) == (if k < g {
        ordered_cell(order, maps, k)
    } else if k == g {
        cell
    } else {
        ordered_cell(order, maps, k - 1)
    }) && (#[trigger] next[k]) < i + 1 by {
        if k < g {
            assert(next[k] == order[k]);
        } else if k > g {
            assert(next[k] == order[k - 1]);
        }
    }
    if g < order.len() {
        let at_g = ordered_cell(order, maps, g);
        lemma_bytes_before_total(vstd::utf8::encode_utf8(cell), vstd::utf8::encode_utf8(at_g));
        if vstd::utf8::encode_utf8(cell) == vstd::utf8::encode_utf8(at_g) {
            lemma_same_bytes_same_name(cell, at_g);
        }
        assert(name_before(cell, at_g));
    }
    assert forall|a: int, b: int| 0 <= a < b < next.len() implies name_before(
        #[trigger] ordered_cell(next, maps, a),
        #[trigger] ordered_cell(next, maps, b),
    ) by {
        assert(next[a] == next[a]);
        assert(next[b] == next[b]);
        if b < g {
            assert(name_before(ordered_cell(order, maps, a), ordered_cell(order, maps, b)));
        } else if b == g {
            assert(name_before(ordered_cell(order, maps, a), cell));
        } else if a < g {
            assert(name_before(ordered_cell(order, maps, a), ordered_cell(order, maps, b - 1)));
        } else if a == g {
            let at_g = ordered_cell(order, maps, g);
            let at_b = ordered_cell(order, maps, b - 1);
            if b - 1 > g {
                assert(name_before(at_g, at_b));
                lemma_bytes_before_transitive(
                    vstd::utf8::encode_utf8(cell),
                    vstd::utf8::encode_utf8(at_g),
                    vstd::utf8::encode_utf8(at_b),
                );
            }
        } else {
            assert(name_before(ordered_cell(order, maps, a - 1), ordered_cell(order, maps, b - 1)));
        }
    }
    assert forall|j: int| 0 <= j < i + 1 implies in_order(next, maps, #[trigger] cell_of(maps, j)) by {
        if j == i {
            assert(next[g] == i);
            assert(ordered_cell(next, maps, g) == cell_of(maps, j));
        } else {
            assert(in_order(order, maps, cell_of(maps, j)));
            let k = choose|k: int|
                0 <= k < order.len() && #[trigger] ordered_cell(order, maps, k) == cell_of(maps, j);
            if k < g {
                assert(next[k] == order[k]);
                assert(ordered_cell(next, maps, k) == cell_of(maps, j));
            } else {
                assert(next[k + 1] == order[k]);
                assert(ordered_cell(next, maps, k + 1) == cell_of(maps, j));
            }
        }
    }
}

/// An order of the first `i` pin maps that holds the cell type of pin map `i`
/// is an order of the first `i + 1`.
proof fn lemma_order_keep(order: Seq<usize>, maps: Seq<PinMapView>, g: int, i: int)
    requires
        0 <= i < maps.len(),
        0 <= g < order.len(),
        orders_first(order, maps, i),
        ordered_cell(order, maps, g) == cell_of(maps, i),
    ensures
        orders_first(order, maps, i + 1),
{
    assert forall|j: int| 0 <= j < i + 1 implies in_order(order, maps, #[trigger] cell_of(maps, j)) by {
        if j == i {
            assert(ordered_cell(order, maps, g) == cell_of(maps, j));
        }
    }
}

/// The positions of the first pin map of each cell type, in strictly
/// ascending order of the cell types' names.
pub fn sorted_cell_types(maps: &Vec<PinMap>) -> (order: Vec<usize>)
    ensures
        orders_cell_types(order@, maps.deep_view()),
{
    let ghost all = maps.deep_view();
    let mut order: Vec<usize> = Vec::new();
    let mut i: usize = 0;
    while i < maps.len()
        invariant
            i <= maps.len(),
            all == maps.deep_view(),
            orders_first(order@, all, i as int),
        decreases maps.len() - i,
    {
        let cell = maps[i].cell_type.as_str();
        assert(cell_of(all, i as int) == cell@);
        let mut g: usize = 0;
        while g < order.len() && sorts_before(maps[order[g]].cell_type.as_str(), cell)
            invariant
                g <= order@.len(),
                i < maps.len(),
                all == maps.deep_view(),
                cell_of(all, i as int) == cell@,
                forall|k: int| 0 <= k < order@.len() ==> (#[trigger] order@[k]) < i,
                forall|k: int|
                    0 <= k < g ==> name_before(#[trigger] ordered_cell(order@, all, k), cell@),
            decreases order@.len() - g,
        {
            assert(ordered_cell(order@, all, g as int) == maps@[order@[g as int] as int].cell_type@);
            g += 1;
        }
        let present = g < order.len() && same_name(maps[order[g]].cell_type.as_str(), cell);
        proof {
            if g < order.len() {
                assert(ordered_cell(order@, all, g as int) == maps@[order@[g as int] as int].cell_type@);
            }
        }
        if !present {
            proof {
                lemma_order_insert(order@, all, g as int, i as int);
            }
            order.insert(g, i);
        } else {
            proof {
                lemma_order_keep(order@, all, g as int, i as int);
            }
        }
        i += 1;
    }
    order
}

fn pin_pair_records(pairs: &Vec<PinPair>, ids: &mut Interner) -> (records: Vec<PinPairRecord>)
    ensures
        grown_by(old(ids)@, final(ids)@, pin_pairs_names(pairs.deep_view())),
        final(ids)@.no_duplicates(),
        pin_pairs_encode(final(ids)@, records@, pairs.deep_view()),
{
    proof {
        use_type_invariant(&*ids);
    }
    let ghost all = pairs.deep_view();
    let mut records: Vec<PinPairRecord> = Vec::new();
    let mut i: usize = 0;
    while i < pairs.len()
        invariant
            i <= pairs.len(),
            all == pairs.deep_view(),
            grown_by(old(ids)@, ids@, pin_pairs_names(all.take(i as int))),
            ids@.no_duplicates(),
            records@.len() == i,
            forall|j: int| 0 <= j < i ==> (#[trigger] records@[j]).encodes(ids@, all[j]),
        decreases pairs.len() - i,
    {
        let ghost before = ids@;
        let cell_pin = ids.intern(pairs[i].cell_pin.as_str());
        let ghost mid = ids@;
        let bel_pin = ids.intern(pairs[i].bel_pin.as_str());
        proof {
            assert(all.take(i + 1).drop_last() =~= all.take(i as int));
            assert(all.take(i + 1).last() == all[i as int]);
            lemma_grown_by_two(before, mid, ids@, all[i as int].cell_pin, all[i as int].bel_pin);
            lemma_grown_by_chain(
                old(ids)@,
                before,
                ids@,
                pin_pairs_names(all.take(i as int)),
                set![all[i as int].cell_pin, all[i as int].bel_pin],
                pin_pairs_names(all.take(i + 1)),
            );
        }
        records.push(PinPairRecord { cell_pin, bel_pin });
        i += 1;
    }
    proof {
        assert(all.take(pairs.len() as int) =~= all);
    }
    records
}

/// The record of one pin map.
pub fn common_pins_record(map: &PinMap, ids: &mut Interner) -> (record: CommonPins)
    ensures
        grown_by(old(ids)@, final(ids)@, pin_map_names(map.deep_view())),
        final(ids)@.no_duplicates(),
        record.encodes(final(ids)@, map.deep_view()),
{
    let ghost view = map.deep_view();
    let ghost t0 = ids@;
    let site_type = ids.intern(map.site_type.as_str());
    let ghost t1 = ids@;
    let bels = ids.intern_all(&map.bels);
    let ghost t2 = ids@;
    let pins = pin_pair_records(&map.pins, ids);
    proof {
        let n1 = set![view.site_type];
        let n2 = n1.union(names_in(view.bels));
        lemma_grown_by_chain(t0, t1, t2, n1, names_in(view.bels), n2);
        lemma_grown_by_chain(t0, t2, ids@, n2, pin_pairs_names(view.pins), pin_map_names(view));
        lemma_resolve_all_in_extension(t2, ids@, bels@, view.bels);
    }
    CommonPins { site_type, bels, pins }
}

/// The records of the pin maps of the cell type `cell`, in their order.
fn records_of_cell(maps: &Vec<PinMap>, cell: &str, ids: &mut Interner) -> (records: Vec<CommonPins>)
    ensures
        grown_by(old(ids)@, final(ids)@, cell_maps_names(maps.deep_view(), cell@)),
        final(ids)@.no_duplicates(),
        common_pins_encode(final(ids)@, records@, maps_of_cell(maps.deep_view(), cell@)),
{
    proof {
        use_type_invariant(&*ids);
    }
    let ghost all = maps.deep_view();
    let mut records: Vec<CommonPins> = Vec::new();
    let mut i: usize = 0;
    while i < maps.len()
        invariant
            i <= maps.len(),
            all == maps.deep_view(),
            grown_by(old(ids)@, ids@, cell_maps_names(all.take(i as int), cell@)),
            ids@.no_duplicates(),
            common_pins_encode(ids@, records@, maps_of_cell(all.take(i as int), cell@)),
        decreases maps.len() - i,
    {
        proof {
            assert(all.take(i + 1).drop_last() =~= all.take(i as int));
            assert(all.take(i + 1).last() == all[i as int]);
        }
        if same_name(maps[i].cell_type.as_str(), cell) {
            let ghost before = ids@;
            let ghost earlier = records@;
            let ghost of_cell = maps_of_cell(all.take(i as int), cell@);
            let record = common_pins_record(&maps[i], ids);
            proof {
                lemma_grown_by_chain(
                    old(ids)@,
                    before,
                    ids@,
                    cell_maps_names(all.take(i as int), cell@),
                    pin_map_names(all[i as int]),
                    cell_maps_names(all.take(i + 1), cell@),
                );
                assert forall|j: int| 0 <= j < earlier.len() implies (#[trigger] earlier[j]).encodes(
                    ids@,
                    of_cell[j],
                ) by {
                    lemma_common_pins_extends(earlier[j], before, ids@, of_cell[j]);
                }
            }
            records.push(record);
        }
        i += 1;
    }
    proof {
        assert(all.take(maps.len() as int) =~= all);
    }
    records
}

/// The cell map of the pin maps: the constant low cell and the constant high
/// cell, then every cell type in the order of the names, each with the pin
/// maps that are for it.
pub fn cell_bel_map(maps: &Vec<PinMap>, ids: &mut Interner) -> (records: Vec<CellBelMapping>)
    ensures
        grown_by(old(ids)@, final(ids)@, cell_map_names(maps.deep_view())),
        final(ids)@.no_duplicates(),
        cell_map_encodes(final(ids)@, records@, maps.deep_view()),
{
    proof {
        reveal_strlit("VLO");
        reveal_strlit("VHI");
        assert("VLO"@ =~= vlo());
        assert("VHI"@ =~= vhi());
    }
    let ghost all = maps.deep_view();
    let order = sorted_cell_types(maps);
    let mut records: Vec<CellBelMapping> = Vec::new();
    let ghost start = ids@;
    let ghost names = cell_map_names(all);
    proof {
        use_type_invariant(&*ids);
    }
    let low = intern_one_of(ids, "VLO", Ghost(start), Ghost(names));
    records.push(CellBelMapping { cell: low, common_pins: Vec::new() });
    let high = intern_one_of(ids, "VHI", Ghost(start), Ghost(names));
    records.push(CellBelMapping { cell: high, common_pins: Vec::new() });
    let mut k: usize = 0;
    while k < order.len()
        invariant
            k <= order@.len(),
            all == maps.deep_view(),
            orders_cell_types(order@, all),
            names == cell_map_names(all),
            grown_by(old(ids)@, ids@, names),
            ids@.no_duplicates(),
            records@.len() == k + 2,
            records@[0].is_constant_cell(ids@, vlo()),
            records@[1].is_constant_cell(ids@, vhi()),
            forall|m: int| 2 <= m < records@.len() ==> (#[trigger] records@[m]).groups(ids@, all),
            forall|m: int|
                2 <= m < records@.len() ==> #[trigger] record_cell(ids@, records@, m)
                    == ordered_cell(order@, all, m - 2),
        decreases order@.len() - k,
    {
        let ghost before = ids@;
        let ghost earlier = records@;
        let cell_name = maps[order[k]].cell_type.as_str();
        assert(cell_name@ == ordered_cell(order@, all, k as int));
        proof {
            lemma_pin_maps_names(all, cell_name@);
            assert(pin_maps_names(all).contains(all[order@[k as int] as int].cell_type));
        }
        let cell = intern_one_of(ids, cell_name, Ghost(old(ids)@), Ghost(names));
        let ghost mid = ids@;
        let common_pins = records_of_cell(maps, cell_name, ids);
        proof {
            lemma_grown_by_chain(
                old(ids)@,
                mid,
                ids@,
                names,
                cell_maps_names(all, cell_name@),
                names,
            );
            assert forall|m: int| 2 <= m < earlier.len() implies (#[trigger] earlier[m]).groups(
                ids@,
                all,
            ) && record_cell(ids@, earlier, m) == record_cell(before, earlier, m) by {
                lemma_group_extends(earlier[m], before, ids@, all);
            }
            assert(all[order@[k as int] as int].cell_type == cell_name@);
        }
        records.push(CellBelMapping { cell, common_pins });
        proof {
            assert forall|m: int| 2 <= m < records@.len() implies #[trigger] record_cell(
                ids@,
                records@,
                m,
            ) == ordered_cell(order@, all, m - 2) by {
                if m < earlier.len() {
                    assert(records@[m] == earlier[m]);
                    assert(earlier[m].groups(ids@, all));
                    assert(record_cell(before, earlier, m) == ordered_cell(order@, all, m - 2));
                }
            }
        }
        k += 1;
    }
    proof {
        assert forall|a: int, b: int| 2 <= a < b < records@.len() implies name_before(
            #[trigger] record_cell(ids@, records@, a),
            #[trigger] record_cell(ids@, records@, b),
        ) by {
            assert(name_before(ordered_cell(order@, all, a - 2), ordered_cell(order@, all, b - 2)));
        }
        assert forall|j: int| 0 <= j < all.len() implies has_record(
            ids@,
            records@,
            #[trigger] cell_of(all, j),
        ) by {
            assert(in_order(order@, all, cell_of(all, j)));
            let g = choose|g: int|
                0 <= g < order@.len() && #[trigger] ordered_cell(order@, all, g) == cell_of(all, j);
            assert(record_cell(ids@, records@, g + 2) == ordered_cell(order@, all, g));
        }
    }
    records
}

} // verus!
