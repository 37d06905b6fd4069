//! The records of the canonical site types: every name of a site type is
//! interned, everything else is carried over.

use vstd::prelude::*;
use crate::document::{
    BelCategory,
    BelPinRecord,
    BelRecord,
    Direction,
    SitePinRecord,
    SitePipRecord,
    SiteTypeRecord,
    SiteWireRecord,
};
use crate::error::{WriteError, WriteErrorView};
use crate::fabric::{
    Bel,
    BelClass,
    BelPin,
    BelPinView,
    BelView,
    PinDir,
    SitePin,
    SitePinView,
    SitePip,
    SiteType,
    SiteTypeView,
    SiteWire,
    SiteWireView,
};
use crate::interner::{
    extends,
    grown_by,
    lemma_grown_by_chain,
    lemma_grown_by_two,
    resolves,
    Interner,
};
use crate::site_types::SiteTypeTable;

verus! {

/// The document's category for a class of bel.
pub open spec fn category_of(class: BelClass) -> BelCategory {
    match class {
        BelClass::Logic => BelCategory::Logic,
        BelClass::Routing => BelCategory::Routing,
        BelClass::Port => BelCategory::SitePort,
    }
}

/// The document's direction for the direction of a pin.
pub open spec fn direction_of(dir: PinDir) -> Direction {
    match dir {
        PinDir::Input => Direction::Input,
        PinDir::Output => Direction::Output,
        PinDir::Inout => Direction::Inout,
    }
}

/// The names of the bels: of each its name and its type.
pub open spec fn bels_names(bels: Seq<BelView>) -> Set<Seq<char>>
    decreases bels.len(),
{
    if bels.len() == 0 {
        Set::empty()
    } else {
        bels_names(bels.drop_last()).union(set![bels.last().name, bels.last().bel_type])
    }
}

/// The names of the bel pins: of each its name and that of its bel.
pub open spec fn bel_pins_names(pins: Seq<BelPinView>) -> Set<Seq<char>>
    decreases pins.len(),
{
    if pins.len() == 0 {
        Set::empty()
    } else {
        bel_pins_names(pins.drop_last()).union(set![pins.last().name, pins.last().bel])
    }
}

/// The names of the site wires.
pub open spec fn site_wires_names(wires: Seq<SiteWireView>) -> Set<Seq<char>>
    decreases wires.len(),
{
    if wires.len() == 0 {
        Set::empty()
    } else {
        site_wires_names(wires.drop_last()).insert(wires.last().name)
    }
}

/// The names of the site pins.
pub open spec fn site_pins_names(pins: Seq<SitePinView>) -> Set<Seq<char>>
    decreases pins.len(),
{
    if pins.len() == 0 {
        Set::empty()
    } else {
        site_pins_names(pins.drop_last()).insert(pins.last().name)
    }
}

/// The names in a site type: its own and those of its bels, bel pins, site
/// wires and site pins.
pub open spec fn site_type_names(def: SiteTypeView) -> Set<Seq<char>> {
    set![def.name].union(bels_names(def.bels)).union(bel_pins_names(def.bel_pins)).union(
        site_wires_names(def.wires),
    ).union(site_pins_names(def.pins))
}

/// The names in a list of site types.
pub open spec fn site_types_names(defs: Seq<SiteTypeView>) -> Set<Seq<char>>
    decreases defs.len(),
{
    if defs.len() == 0 {
        Set::empty()
    } else {
        site_types_names(defs.drop_last()).union(site_type_names(defs.last()))
    }
}

impl BelRecord {
    /// The record names the bel and its type and carries its category and its
    /// pins; it is marked as not inverting.
    pub open spec fn encodes(&self, table: Seq<Seq<char>>, bel: BelView) -> bool {
        &&& resolves(table, self.name, bel.name)
        &&& resolves(table, self.bel_type, bel.bel_type)
        &&& self.category == category_of(bel.class)
        &&& self.non_inverting
        &&& self.pins@ == bel.pins
    }
}

impl BelPinRecord {
    /// The record names the pin and its bel and carries the pin's direction.
    pub open spec fn encodes(&self, table: Seq<Seq<char>>, pin: BelPinView) -> bool {
        &&& resolves(table, self.name, pin.name)
        &&& self.dir == direction_of(pin.dir)
        &&& resolves(table, self.bel, pin.bel)
    }
}

impl SiteWireRecord {
    /// The record names the wire and carries its bel pins.
    pub open spec fn encodes(&self, table: Seq<Seq<char>>, wire: SiteWireView) -> bool {
        &&& resolves(table, self.name, wire.name)
        &&& self.pins@ == wire.bel_pins
    }
}

impl SitePinRecord {
    /// The record names the pin and carries its direction and its bel pin.
    pub open spec fn encodes(&self, table: Seq<Seq<char>>, pin: SitePinView) -> bool {
        &&& resolves(table, self.name, pin.name)
        &&& self.dir == direction_of(pin.dir)
        &&& self.bel_pin == pin.bel_pin
    }
}

impl SitePipRecord {
    /// The record carries the two bel pins of the pip.
    pub open spec fn encodes(&self, pip: SitePip) -> bool {
        self.in_pin == pip.in_pin && self.out_pin == pip.out_pin
    }
}

/// The bel records encode the bels one by one.
pub open spec fn bels_encode(table: Seq<Seq<char>>, records: Seq<BelRecord>, bels: Seq<BelView>) -> bool {
    &&& records.len() == bels.len()
    &&& forall|i: int| 0 <= i < records.len() ==> (#[trigger] records[i]).encodes(table, bels[i])
}

/// The bel-pin records encode the bel pins one by one.
pub open spec fn bel_pins_encode(
    table: Seq<Seq<char>>,
    records: Seq<BelPinRecord>,
    pins: Seq<BelPinView>,
) -> bool {
    &&& records.len() == pins.len()
    &&& forall|i: int| 0 <= i < records.len() ==> (#[trigger] records[i]).encodes(table, pins[i])
}

/// The site-wire records encode the site wires one by one.
pub open spec fn site_wires_encode(
    table: Seq<Seq<char>>,
    records: Seq<SiteWireRecord>,
    wires: Seq<SiteWireView>,
) -> bool {
    &&& records.len() == wires.len()
    &&& forall|i: int| 0 <= i < records.len() ==> (#[trigger] records[i]).encodes(table, wires[i])
}

/// The site-pin records encode the site pins one by one.
pub open spec fn site_pins_encode(
    table: Seq<Seq<char>>,
    records: Seq<SitePinRecord>,
    pins: Seq<SitePinView>,
) -> bool {
    &&& records.len() == pins.len()
    &&& forall|i: int| 0 <= i < records.len() ==> (#[trigger] records[i]).encodes(table, pins[i])
}

/// The site-pip records encode the site pips one by one.
pub open spec fn site_pips_encode(records: Seq<SitePipRecord>, pips: Seq<SitePip>) -> bool {
    &&& records.len() == pips.len()
    &&& forall|i: int| 0 <= i < records.len() ==> (#[trigger] records[i]).encodes(pips[i])
}

impl SiteTypeRecord {
    /// The record names the site type, gives the index of its last input pin
    /// and encodes its bels, bel pins, site wires, site pips and site pins.
    pub open spec fn encodes(&self, table: Seq<Seq<char>>, def: SiteTypeView) -> bool {
        &&& resolves(table, self.name, def.name)
        &&& self.last_input == def.input_pins - 1
        &&& bels_encode(table, self.bels@, def.bels)
        &&& bel_pins_encode(table, self.bel_pins@, def.bel_pins)
        &&& site_wires_encode(table, self.site_wires@, def.wires)
        &&& site_pips_encode(self.site_pips@, def.pips)
        &&& site_pins_encode(table, self.pins@, def.pins)
    }
}

/// The records encode the site types one by one.
pub open spec fn site_types_encode(
    table: Seq<Seq<char>>,
    records: Seq<SiteTypeRecord>,
    defs: Seq<SiteTypeView>,
) -> bool {
    &&& records.len() == defs.len()
    &&& forall|i: int| 0 <= i < records.len() ==> (#[trigger] records[i]).encodes(table, defs[i])
}

/// Position `i` holds the first site type without input pins.
pub open spec fn first_without_inputs(defs: Seq<SiteTypeView>, i: int) -> bool {
    &&& 0 <= i < defs.len()
    &&& defs[i].input_pins == 0
    &&& forall|j: int| 0 <= j < i ==> (#[trigger] defs[j]).input_pins != 0
}

/// Every site type has an input pin.
pub open spec fn all_have_inputs(defs: Seq<SiteTypeView>) -> bool {
    forall|j: int| 0 <= j < defs.len() ==> (#[trigger] defs[j]).input_pins != 0
}

/// A site-type record that encodes a site type under a table does so under
/// every extension of the table.
pub proof fn lemma_site_type_record_extends(
    record: SiteTypeRecord,
    before: Seq<Seq<char>>,
    after: Seq<Seq<char>>,
    def: SiteTypeView,
)
    requires
        extends(before, after),
        record.encodes(before, def),
    ensures
        record.encodes(after, def),
{
    assert forall|i: int| 0 <= i < record.bels@.len() implies (#[trigger] record.bels@[i]).encodes(
        after,
        def.bels[i],
    ) by {
        assert(record.bels@[i].encodes(before, def.bels[i]));
    }
    assert forall|i: int| 0 <= i < record.bel_pins@.len() implies (
    #[trigger] record.bel_pins@[i]).encodes(after, def.bel_pins[i]) by {
        assert(record.bel_pins@[i].encodes(before, def.bel_pins[i]));
    }
    assert forall|i: int| 0 <= i < record.site_wires@.len() implies (
    #[trigger] record.site_wires@[i]).encodes(after, def.wires[i]) by {
        assert(record.site_wires@[i].encodes(before, def.wires[i]));
    }
    assert forall|i: int| 0 <= i < record.pins@.len() implies (#[trigger] record.pins@[i]).encodes(
        after,
        def.pins[i],
    ) by {
        assert(record.pins@[i].encodes(before, def.pins[i]));
    }
}

/// The document's category for a class of bel.
pub fn bel_category(class: BelClass) -> (category: BelCategory)
    ensures
        category == category_of(class),
{
    match class {
        BelClass::Logic => BelCategory::Logic,
        BelClass::Routing => BelCategory::Routing,
        BelClass::Port => BelCategory::SitePort,
    }
}

/// The document's direction for the direction of a pin.
pub fn pin_direction(dir: PinDir) -> (direction: Direction)
    ensures
        direction == direction_of(dir),
{
    match dir {
        PinDir::Input => Direction::Input,
        PinDir::Output => Direction::Output,
        PinDir::Inout => Direction::Inout,
    }
}

/// A copy of a list of indices.
pub fn copy_indices(list: &Vec<usize>) -> (copy: Vec<usize>)
    ensures
        copy@ == list@,
{
    let mut copy: Vec<usize> = Vec::new();
    let mut i: usize = 0;
    while i < list.len()
        invariant
            i <= list.len(),
            copy@ == list@.take(i as int),
        decreases list.len() - i,
    {
        copy.push(list[i]);
        assert(copy@ =~= list@.take(i + 1));
        i += 1;
    }
    assert(list@.take(list.len() as int) =~= list@);
    copy
}

fn bel_records(bels: &Vec<Bel>, ids: &mut Interner) -> (records: Vec<BelRecord>)
    ensures
        grown_by(old(ids)@, final(ids)@, bels_names(bels.deep_view())),
        final(ids)@.no_duplicates(),
        bels_encode(final(ids)@, records@, bels.deep_view()),
{
    proof {
        use_type_invariant(&*ids);
    }
    let ghost all = bels.deep_view();
    let mut records: Vec<BelRecord> = Vec::new();
    let mut i: usize = 0;
    while i < bels.len()
        invariant
            i <= bels.len(),
            all == bels.deep_view(),
            grown_by(old(ids)@, ids@, bels_names(all.take(i as int))),
            ids@.no_duplicates(),
            records@.len() == i,
            forall|j: int| 0 <= j < i ==> (#[trigger] records@[j]).encodes(ids@, all[j]),
        decreases bels.len() - i,
    {
        let bel = &bels[i];
        let ghost before = ids@;
        let name = ids.intern(bel.name.as_str());
        let ghost mid = ids@;
        let bel_type = ids.intern(bel.bel_type.as_str());
        proof {
            assert(all.take(i + 1).drop_last() =~= all.take(i as int));
            assert(all.take(i + 1).last() == all[i as int]);
            lemma_grown_by_two(before, mid, ids@, bel.name@, bel.bel_type@);
            lemma_grown_by_chain(
                old(ids)@,
                before,
                ids@,
                bels_names(all.take(i as int)),
                set![bel.name@, bel.bel_type@],
                bels_names(all.take(i + 1)),
            );
        }
        records.push(
            BelRecord {
                name,
                bel_type,
                category: bel_category(bel.class),
                non_inverting: true,
                pins: copy_indices(&bel.pins),
            },
        );
        i += 1;
    }
    proof {
        assert(all.take(bels.len() as int) =~= all);
    }
    records
}

fn bel_pin_records(pins: &Vec<BelPin>, ids: &mut Interner) -> (records: Vec<BelPinRecord>)
    ensures
        grown_by(old(ids)@, final(ids)@, bel_pins_names(pins.deep_view())),
        final(ids)@.no_duplicates(),
        bel_pins_encode(final(ids)@, records@, pins.deep_view()),
{
    proof {
        use_type_invariant(&*ids);
    }
    let ghost all = pins.deep_view();
    let mut records: Vec<BelPinRecord> = Vec::new();
    let mut i: usize = 0;
    while i < pins.len()
        invariant
            i <= pins.len(),
            all == pins.deep_view(),
            grown_by(old(ids)@, ids@, bel_pins_names(all.take(i as int))),
            ids@.no_duplicates(),
            records@.len() == i,
            forall|j: int| 0 <= j < i ==> (#[trigger] records@[j]).encodes(ids@, all[j]),
        decreases pins.len() - i,
    {
        let pin = &pins[i];
        let ghost before = ids@;
        let name = ids.intern(pin.name.as_str());
        let ghost mid = ids@;
        let bel = ids.intern(pin.bel.as_str());
        proof {
            assert(all.take(i + 1).drop_last() =~= all.take(i as int));
            assert(all.take(i + 1).last() == all[i as int]);
            lemma_grown_by_two(before, mid, ids@, pin.name@, pin.bel@);
            lemma_grown_by_chain(
                old(ids)@,
                before,
                ids@,
                bel_pins_names(all.take(i as int)),
                set![pin.name@, pin.bel@],
                bel_pins_names(all.take(i + 1)),
            );
        }
        records.push(BelPinRecord { name, dir: pin_direction(pin.dir), bel });
        i += 1;
    }
    proof {
        assert(all.take(pins.len() as int) =~= all);
    }
    records
}

fn site_wire_records(wires: &Vec<SiteWire>, ids: &mut Interner) -> (records: Vec<SiteWireRecord>)
    ensures
        grown_by(old(ids)@, final(ids)@, site_wires_names(wires.deep_view())),
        final(ids)@.no_duplicates(),
        site_wires_encode(final(ids)@, records@, wires.deep_view()),
{
    proof {
        use_type_invariant(&*ids);
    }
    let ghost all = wires.deep_view();
    let mut records: Vec<SiteWireRecord> = Vec::new();
    let mut i: usize = 0;
    while i < wires.len()
        invariant
            i <= wires.len(),
            all == wires.deep_view(),
            grown_by(old(ids)@, ids@, site_wires_names(all.take(i as int))),
            ids@.no_duplicates(),
            records@.len() == i,
            forall|j: int| 0 <= j < i ==> (#[trigger] records@[j]).encodes(ids@, all[j]),
        decreases wires.len() - i,
    {
        let wire = &wires[i];
        let ghost before = ids@;
        let name = ids.intern(wire.name.as_str());
        proof {
            assert(all.take(i + 1).drop_last() =~= all.take(i as int));
            assert(all.take(i + 1).last() == all[i as int]);
            lemma_grown_by_chain(
                old(ids)@,
                before,
                ids@,
                site_wires_names(all.take(i as int)),
                set![wire.name@],
                site_wires_names(all.take(i + 1)),
            );
        }
        records.push(SiteWireRecord { name, pins: copy_indices(&wire.bel_pins) });
        i += 1;
    }
    proof {
        assert(all.take(wires.len() as int) =~= all);
    }
    records
}

fn site_pip_records(pips: &Vec<SitePip>) -> (records: Vec<SitePipRecord>)
    ensures
        site_pips_encode(records@, pips.deep_view()),
{
    let mut records: Vec<SitePipRecord> = Vec::new();
    let mut i: usize = 0;
    while i < pips.len()
        invariant
            i <= pips.len(),
            records@.len() == i,
            forall|j: int| 0 <= j < i ==> (#[trigger] records@[j]).encodes(pips.deep_view()[j]),
        decreases pips.len() - i,
    {
        records.push(SitePipRecord { in_pin: pips[i].in_pin, out_pin: pips[i].out_pin });
        i += 1;
    }
    records
}

fn site_pin_records(pins: &Vec<SitePin>, ids: &mut Interner) -> (records: Vec<SitePinRecord>)
    ensures
        grown_by(old(ids)@, final(ids)@, site_pins_names(pins.deep_view())),
        final(ids)@.no_duplicates(),
        site_pins_encode(final(ids)@, records@, pins.deep_view()),
{
    proof {
        use_type_invariant(&*ids);
    }
    let ghost all = pins.deep_view();
    let mut records: Vec<SitePinRecord> = Vec::new();
    let mut i: usize = 0;
    while i < pins.len()
        invariant
            i <= pins.len(),
            all == pins.deep_view(),
            grown_by(old(ids)@, ids@, site_pins_names(all.take(i as int))),
            ids@.no_duplicates(),
            records@.len() == i,
            forall|j: int| 0 <= j < i ==> (#[trigger] records@[j]).encodes(ids@, all[j]),
        decreases pins.len() - i,
    {
        let pin = &pins[i];
        let ghost before = ids@;
        let name = ids.intern(pin.name.as_str());
        proof {
            assert(all.take(i + 1).drop_last() =~= all.take(i as int));
            assert(all.take(i + 1).last() == all[i as int]);
            lemma_grown_by_chain(
                old(ids)@,
                before,
                ids@,
                site_pins_names(all.take(i as int)),
                set![pin.name@],
                site_pins_names(all.take(i + 1)),
            );
        }
        records.push(SitePinRecord { name, dir: pin_direction(pin.dir), bel_pin: pin.bel_pin });
        i += 1;
    }
    proof {
        assert(all.take(pins.len() as int) =~= all);
    }
    records
}

/// The record of a site type. A site type without input pins has no last
/// input pin: it is refused, and nothing is interned.
pub fn site_type_record(def: &SiteType, ids: &mut Interner) -> (result: Result<
    SiteTypeRecord,
    WriteError,
>)
    ensures
        grown_by(old(ids)@, final(ids)@, site_type_names(def.deep_view())),
        final(ids)@.no_duplicates(),
        match result {
            Ok(record) => def.input_pins != 0 && record.encodes(final(ids)@, def.deep_view()),
            Err(e) => def.input_pins == 0 && final(ids)@ == old(ids)@ && e.deep_view()
                == (WriteErrorView::NoInputPins { site_type: def.name@ }),
        },
{
    proof {
        use_type_invariant(&*ids);
    }
    if def.input_pins == 0 {
        return Err(WriteError::NoInputPins { site_type: def.name.clone() });
    }
    let ghost view = def.deep_view();
    let ghost t0 = ids@;
    let name = ids.intern(def.name.as_str());
    let ghost t1 = ids@;
    let bels = bel_records(&def.bels, ids);
    let ghost t2 = ids@;
    let bel_pins = bel_pin_records(&def.bel_pins, ids);
    let ghost t3 = ids@;
    let site_wires = site_wire_records(&def.wires, ids);
    let ghost t4 = ids@;
    let site_pips = site_pip_records(&def.pips);
    let pins = site_pin_records(&def.pins, ids);
    proof {
        let n1 = set![view.name];
        let n2 = n1.union(bels_names(view.bels));
        let n3 = n2.union(bel_pins_names(view.bel_pins));
        let n4 = n3.union(site_wires_names(view.wires));
        let n5 = n4.union(site_pins_names(view.pins));
        lemma_grown_by_chain(t0, t1, t2, n1, bels_names(view.bels), n2);
        lemma_grown_by_chain(t0, t2, t3, n2, bel_pins_names(view.bel_pins), n3);
        lemma_grown_by_chain(t0, t3, t4, n3, site_wires_names(view.wires), n4);
        lemma_grown_by_chain(t0, t4, ids@, n4, site_pins_names(view.pins), n5);
        assert forall|i: int| 0 <= i < bels@.len() implies (#[trigger] bels@[i]).encodes(
            ids@,
            view.bels[i],
        ) by {
            assert(bels@[i].encodes(t2, view.bels[i]));
        }
        assert forall|i: int| 0 <= i < bel_pins@.len() implies (#[trigger] bel_pins@[i]).encodes(
            ids@,
            view.bel_pins[i],
        ) by {
            assert(bel_pins@[i].encodes(t3, view.bel_pins[i]));
        }
        assert forall|i: int| 0 <= i < site_wires@.len() implies (
        #[trigger] site_wires@[i]).encodes(ids@, view.wires[i]) by {
            assert(site_wires@[i].encodes(t4, view.wires[i]));
        }
    }
    Ok(
        SiteTypeRecord {
            name,
            last_input: def.input_pins - 1,
            bels,
            bel_pins,
            site_wires,
            site_pips,
            pins,
        },
    )
}

/// Whether every canonical site type has an input pin: if not, the fault of
/// the first that has none.
pub fn check_site_types(table: &SiteTypeTable) -> (result: Result<(), WriteError>)
    ensures
        match result {
            Ok(_) => all_have_inputs(table@),
            Err(e) => exists|i: int|
                first_without_inputs(table@, i) && e.deep_view() == (WriteErrorView::NoInputPins {
                    site_type: (#[trigger] table@[i]).name,
                }),
        },
{
    let mut i: usize = 0;
    while i < table.len()
        invariant
            i <= table@.len(),
            forall|j: int| 0 <= j < i ==> (#[trigger] table@[j]).input_pins != 0,
        decreases table@.len() - i,
    {
        match table.get(i) {
            Some(def) => {
                if def.input_pins == 0 {
                    assert(first_without_inputs(table@, i as int));
                    return Err(WriteError::NoInputPins { site_type: def.name.clone() });
                }
            },
            None => {},
        }
        i += 1;
    }
    Ok(())
}

/// The records of the canonical site types, in the table's order. If a site
/// type has no input pins, nothing is interned and the fault of the first such
/// site type is returned.
pub fn site_type_records(table: &SiteTypeTable, ids: &mut Interner) -> (result: Result<
    Vec<SiteTypeRecord>,
    WriteError,
>)
    ensures
        grown_by(old(ids)@, final(ids)@, site_types_names(table@)),
        final(ids)@.no_duplicates(),
        match result {
            Ok(records) => all_have_inputs(table@) && site_types_encode(
                final(ids)@,
                records@,
                table@,
            ),
            Err(e) => final(ids)@ == old(ids)@ && exists|i: int|
                first_without_inputs(table@, i) && e.deep_view() == (WriteErrorView::NoInputPins {
                    site_type: (#[trigger] table@[i]).name,
                }),
        },
{
    proof {
        use_type_invariant(&*ids);
    }
    match check_site_types(table) {
        Err(e) => Err(e),
        Ok(_) => {
            let mut records: Vec<SiteTypeRecord> = Vec::new();
            let mut i: usize = 0;
            while i < table.len()
                invariant
                    i <= table@.len(),
                    all_have_inputs(table@),
                    grown_by(old(ids)@, ids@, site_types_names(table@.take(i as int))),
                    ids@.no_duplicates(),
                    records@.len() == i,
                    forall|j: int|
                        0 <= j < i ==> (#[trigger] records@[j]).encodes(ids@, table@[j]),
                decreases table@.len() - i,
            {
                let ghost before = ids@;
                let ghost earlier = records@;
                match table.get(i) {
                    Some(def) => {
                        match site_type_record(def, ids) {
                            Ok(record) => {
                                records.push(record);
                            },
                            Err(_) => {
                                assert(table@[i as int].input_pins != 0);
                                assert(false);
                            },
                        }
                    },
                    None => {
                        assert(false);
                    },
                }
                proof {
                    assert(table@.take(i + 1).drop_last() =~= table@.take(i as int));
                    assert(table@.take(i + 1).last() == table@[i as int]);
                    lemma_grown_by_chain(
                        old(ids)@,
                        before,
                        ids@,
                        site_types_names(table@.take(i as int)),
                        site_type_names(table@[i as int]),
                        site_types_names(table@.take(i + 1)),
                    );
                    assert forall|j: int| 0 <= j < i implies (#[trigger] records@[j]).encodes(
                        ids@,
                        table@[j],
                    ) by {
                        assert(records@[j] == earlier[j]);
                        lemma_site_type_record_extends(earlier[j], before, ids@, table@[j]);
                    }
                }
                i += 1;
            }
            proof {
                assert(table@.take(table@.len() as int) =~= table@);
            }
            Ok(records)
        },
    }
}

} // verus!
