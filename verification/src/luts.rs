//! The fixed parts of the document: the wire types, the cells that stand for
//! the constants, the definition of the four-input lookup cell with the bels
//! that implement it, and the parameter of that cell.

use vstd::prelude::*;
use crate::document::{
    CellParameters,
    ConstantsRecord,
    DefaultCellConn,
    DefaultPin,
    LutBel,
    LutCell,
    LutDefinitions,
    LutElement,
    LutSite,
    ParameterDef,
    ParameterFormat,
    PinValue,
    WireTypeRecord,
};
use crate::fabric::{Bel, BelView, SiteTypeView, WireCategory};
use crate::interner::{extends, grown_by, intern_one_of, resolves, Interner};
use crate::site_types::SiteTypeTable;
use crate::text::same_name;

verus! {

/// The name of the site type that holds the lookup bels.
pub open spec fn logic_site_type() -> Seq<char> {
    "PLC"@
}

/// The bel type of a lookup bel.
pub open spec fn lookup_bel_type() -> Seq<char> {
    "OXIDE_COMB"@
}

/// The name of the lookup cell.
pub open spec fn lookup_cell() -> Seq<char> {
    "LUT4"@
}

/// The name of the parameter that holds the truth table of a lookup cell.
pub open spec fn init_parameter() -> Seq<char> {
    "INIT"@
}

/// The names of the four inputs of a lookup cell and of a lookup bel.
pub open spec fn lookup_inputs() -> Seq<Seq<char>> {
    seq!["A"@, "B"@, "C"@, "D"@]
}

/// The names of the wire types.
pub open spec fn wire_type_names() -> Set<Seq<char>> {
    set!["GENERAL"@, "SPECIAL"@, "GLOBAL"@]
}

/// The names in the constants of the device.
pub open spec fn constants_names() -> Set<Seq<char>> {
    set!["VLO"@, "Z"@, "VHI"@, lookup_cell(), "A"@, "B"@, "C"@, "D"@]
}

/// The names in the parameters of the lookup cell.
pub open spec fn parameter_names() -> Set<Seq<char>> {
    set![lookup_cell(), init_parameter(), "0x0000"@]
}

/// The position of the first site type called `name`, or the number of site
/// types if none is called so.
pub open spec fn first_named(defs: Seq<SiteTypeView>, name: Seq<char>) -> int
    decreases defs.len(),
{
    if defs.len() == 0 || defs[0].name == name {
        0
    } else {
        1 + first_named(defs.drop_first(), name)
    }
}

/// The names of the lookup bels among `bels`, in their order.
pub open spec fn lookup_bels(bels: Seq<BelView>) -> Seq<Seq<char>>
    decreases bels.len(),
{
    if bels.len() == 0 {
        Seq::empty()
    } else if bels.last().bel_type == lookup_bel_type() {
        lookup_bels(bels.drop_last()).push(bels.last().name)
    } else {
        lookup_bels(bels.drop_last())
    }
}

/// The names of the bels that implement the lookup cell: the lookup bels of
/// the first canonical site type called `PLC`; none if there is no such site
/// type.
pub open spec fn lut_bel_names(canon: Seq<SiteTypeView>) -> Seq<Seq<char>> {
    if first_named(canon, logic_site_type()) < canon.len() {
        lookup_bels(canon[first_named(canon, logic_site_type())].bels)
    } else {
        Seq::empty()
    }
}

impl LutCell {
    /// The cell is the four-input lookup cell with its `INIT` parameter.
    pub open spec fn is_lookup_cell(&self) -> bool {
        &&& self.cell@ == lookup_cell()
        &&& self.input_pins.deep_view() == lookup_inputs()
        &&& self.init_param@ == init_parameter()
    }
}

impl LutElement {
    /// The element is 16 bits wide and has the one bel `name`, which reads
    /// bits 0 to 15 of the truth table from its four inputs to its output `F`.
    pub open spec fn is_lookup_of(&self, name: Seq<char>) -> bool {
        &&& self.width == 16
        &&& self.bels@.len() == 1
        &&& self.bels@[0].name@ == name
        &&& self.bels@[0].input_pins.deep_view() == lookup_inputs()
        &&& self.bels@[0].output_pin@ == "F"@
        &&& self.bels@[0].low_bit == 0
        &&& self.bels@[0].high_bit == 15
    }
}

impl LutDefinitions {
    /// The definitions hold the one lookup cell and, for the site type `PLC`,
    /// one lookup element for each of `names`.
    pub open spec fn describes(&self, names: Seq<Seq<char>>) -> bool {
        &&& self.cells@.len() == 1
        &&& self.cells@[0].is_lookup_cell()
        &&& self.elements@.len() == 1
        &&& self.elements@[0].site@ == logic_site_type()
        &&& self.elements@[0].luts@.len() == names.len()
        &&& forall|i: int|
            0 <= i < names.len() ==> (#[trigger] self.elements@[0].luts@[i]).is_lookup_of(names[i])
    }
}

/// The three wire types, in the order of their indices.
pub open spec fn wire_types_fixed(table: Seq<Seq<char>>, records: Seq<WireTypeRecord>) -> bool {
    &&& records.len() == 3
    &&& resolves(table, records[0].name, "GENERAL"@)
    &&& records[0].category == WireCategory::General
    &&& resolves(table, records[1].name, "SPECIAL"@)
    &&& records[1].category == WireCategory::Special
    &&& resolves(table, records[2].name, "GLOBAL"@)
    &&& records[2].category == WireCategory::Global
}

impl ConstantsRecord {
    /// Ground is pin `Z` of a `VLO` cell and the supply pin `Z` of a `VHI`
    /// cell; the four inputs of a lookup cell are tied to ground by default.
    pub open spec fn is_fixed(&self, table: Seq<Seq<char>>) -> bool {
        &&& resolves(table, self.gnd_cell_type, "VLO"@)
        &&& resolves(table, self.gnd_cell_pin, "Z"@)
        &&& resolves(table, self.vcc_cell_type, "VHI"@)
        &&& resolves(table, self.vcc_cell_pin, "Z"@)
        &&& self.default_conns@.len() == 1
        &&& resolves(table, self.default_conns@[0].cell_type, lookup_cell())
        &&& self.default_conns@[0].pins@.len() == 4
        &&& forall|i: int|
            0 <= i < 4 ==> resolves(
                table,
                (#[trigger] self.default_conns@[0].pins@[i]).name,
                lookup_inputs()[i],
            ) && self.default_conns@[0].pins@[i].value == PinValue::Gnd
    }
}

/// The parameters of the lookup cell: its truth table `INIT`, written as a
/// C-style hexadecimal number, all zeros by default.
pub open spec fn parameters_fixed(table: Seq<Seq<char>>, records: Seq<CellParameters>) -> bool {
    &&& records.len() == 1
    &&& resolves(table, records[0].cell_type, lookup_cell())
    &&& records[0].parameters@.len() == 1
    &&& resolves(table, records[0].parameters@[0].name, init_parameter())
    &&& records[0].parameters@[0].format == ParameterFormat::CHex
    &&& resolves(table, records[0].parameters@[0].default_key, init_parameter())
    &&& resolves(table, records[0].parameters@[0].default_text, "0x0000"@)
}

/// The fixed constants under a table are the fixed constants under every
/// extension of the table.
pub proof fn lemma_constants_extend(
    record: ConstantsRecord,
    before: Seq<Seq<char>>,
    after: Seq<Seq<char>>,
)
    requires
        extends(before, after),
        record.is_fixed(before),
    ensures
        record.is_fixed(after),
{
    assert forall|i: int| 0 <= i < 4 implies resolves(
        after,
        (#[trigger] record.default_conns@[0].pins@[i]).name,
        lookup_inputs()[i],
    ) && record.default_conns@[0].pins@[i].value == PinValue::Gnd by {
        assert(resolves(before, record.default_conns@[0].pins@[i].name, lookup_inputs()[i]));
    }
}

/// Where the first `i` site types are not called `name` and position `i` is
/// called so or ends the list, `i` is the first position of that name.
pub proof fn lemma_first_named(defs: Seq<SiteTypeView>, name: Seq<char>, i: int)
    requires
        0 <= i <= defs.len(),
        forall|j: int| 0 <= j < i ==> (#[trigger] defs[j]).name != name,
        i == defs.len() || defs[i].name == name,
    ensures
        first_named(defs, name) == i,
    decreases i,
{
    if i > 0 {
        let rest = defs.drop_first();
        assert forall|j: int| 0 <= j < i - 1 implies (#[trigger] rest[j]).name != name by {
            assert(rest[j] == defs[j + 1]);
        }
        assert(defs[0].name != name);
        lemma_first_named(rest, name, i - 1);
    }
}

/// The four input names of a lookup.
fn input_names() -> (names: Vec<String>)
    ensures
        names.deep_view() == lookup_inputs(),
{
    let mut names: Vec<String> = Vec::new();
    names.push("A".to_owned());
    names.push("B".to_owned());
    names.push("C".to_owned());
    names.push("D".to_owned());
    assert(names.deep_view() =~= lookup_inputs());
    names
}

/// The names of the lookup bels among `bels`.
pub fn lookup_bel_names(bels: &Vec<Bel>) -> (names: Vec<String>)
    ensures
        names.deep_view() == lookup_bels(bels.deep_view()),
{
    let ghost all = bels.deep_view();
    let mut names: Vec<String> = Vec::new();
    assert(names.deep_view() =~= lookup_bels(all.take(0)));
    let mut i: usize = 0;
    while i < bels.len()
        invariant
            i <= bels.len(),
            all == bels.deep_view(),
            names.deep_view() == lookup_bels(all.take(i as int)),
        decreases bels.len() - i,
    {
        proof {
            assert(all.take(i + 1).drop_last() =~= all.take(i as int));
            assert(all.take(i + 1).last() == all[i as int]);
        }
        if same_name(bels[i].bel_type.as_str(), "OXIDE_COMB") {
            let ghost held = names.deep_view();
            names.push(bels[i].name.clone());
            assert(names.deep_view() =~= held.push(all[i as int].name));
        }
        i += 1;
    }
    assert(all.take(bels.len() as int) =~= all);
    names
}

/// The first canonical site type called `name`, if there is one.
pub fn find_site_type<'a>(table: &SiteTypeTable<'a>, name: &str) -> (found: Option<
    &'a crate::fabric::SiteType,
>)
    ensures
        match found {
            Some(def) => first_named(table@, name@) < table@.len() && def.deep_view()
                == table@[first_named(table@, name@)],
            None => first_named(table@, name@) == table@.len(),
        },
{
    let mut i: usize = 0;
    while i < table.len()
        invariant
            i <= table@.len(),
            forall|j: int| 0 <= j < i ==> (#[trigger] table@[j]).name != name@,
        decreases table@.len() - i,
    {
        match table.get(i) {
            Some(def) => {
                if same_name(def.name.as_str(), name) {
                    proof {
                        lemma_first_named(table@, name@, i as int);
                    }
                    return Some(def);
                }
            },
            None => {},
        }
        i += 1;
    }
    proof {
        lemma_first_named(table@, name@, table@.len() as int);
    }
    None
}

/// The definition of the lookup cell and the lookup elements of the device:
/// one for each lookup bel of the first canonical site type called `PLC`.
pub fn lut_definitions(table: &SiteTypeTable) -> (defs: LutDefinitions)
    ensures
        defs.describes(lut_bel_names(table@)),
{
    let names = match find_site_type(table, "PLC") {
        Some(def) => lookup_bel_names(&def.bels),
        None => {
            let none: Vec<String> = Vec::new();
            assert(none.deep_view() =~= Seq::<Seq<char>>::empty());
            none
        },
    };
    let ghost wanted = lut_bel_names(table@);
    let mut luts: Vec<LutElement> = Vec::new();
    let mut k: usize = 0;
    while k < names.len()
        invariant
            k <= names.len(),
            wanted == names.deep_view(),
            luts@.len() == k,
            forall|m: int| 0 <= m < k ==> (#[trigger] luts@[m]).is_lookup_of(wanted[m]),
        decreases names.len() - k,
    {
        let mut bels: Vec<LutBel> = Vec::new();
        bels.push(
            LutBel {
                name: names[k].clone(),
                input_pins: input_names(),
                output_pin: "F".to_owned(),
                low_bit: 0,
                high_bit: 15,
            },
        );
        luts.push(LutElement { width: 16, bels });
        k += 1;
    }
    let mut cells: Vec<LutCell> = Vec::new();
    cells.push(
        LutCell {
            cell: "LUT4".to_owned(),
            input_pins: input_names(),
            init_param: "INIT".to_owned(),
        },
    );
    let mut elements: Vec<LutSite> = Vec::new();
    elements.push(LutSite { site: "PLC".to_owned(), luts });
    LutDefinitions { cells, elements }
}

/// The three wire types.
pub fn wire_type_records(ids: &mut Interner) -> (records: Vec<WireTypeRecord>)
    ensures
        grown_by(old(ids)@, final(ids)@, wire_type_names()),
        final(ids)@.no_duplicates(),
        wire_types_fixed(final(ids)@, records@),
{
    proof {
        use_type_invariant(&*ids);
    }
    let mut records: Vec<WireTypeRecord> = Vec::new();
    let general = intern_one_of(ids, "GENERAL", Ghost(old(ids)@), Ghost(wire_type_names()));
    records.push(WireTypeRecord { name: general, category: WireCategory::General });
    let special = intern_one_of(ids, "SPECIAL", Ghost(old(ids)@), Ghost(wire_type_names()));
    records.push(WireTypeRecord { name: special, category: WireCategory::Special });
    let global = intern_one_of(ids, "GLOBAL", Ghost(old(ids)@), Ghost(wire_type_names()));
    records.push(WireTypeRecord { name: global, category: WireCategory::Global });
    records
}

/// The cells that stand for the constants and the default connections of the
/// lookup cell.
pub fn constants_record(ids: &mut Interner) -> (record: ConstantsRecord)
    ensures
        grown_by(old(ids)@, final(ids)@, constants_names()),
        final(ids)@.no_duplicates(),
        record.is_fixed(final(ids)@),
{
    proof {
        use_type_invariant(&*ids);
    }
    let ghost start = ids@;
    let ghost names = constants_names();
    let gnd_cell_type = intern_one_of(ids, "VLO", Ghost(start), Ghost(names));
    let gnd_cell_pin = intern_one_of(ids, "Z", Ghost(start), Ghost(names));
    let vcc_cell_type = intern_one_of(ids, "VHI", Ghost(start), Ghost(names));
    let vcc_cell_pin = intern_one_of(ids, "Z", Ghost(start), Ghost(names));
    let cell_type = intern_one_of(ids, "LUT4", Ghost(start), Ghost(names));
    let a = intern_one_of(ids, "A", Ghost(start), Ghost(names));
    let b = intern_one_of(ids, "B", Ghost(start), Ghost(names));
    let c = intern_one_of(ids, "C", Ghost(start), Ghost(names));
    let d = intern_one_of(ids, "D", Ghost(start), Ghost(names));
    let mut pins: Vec<DefaultPin> = Vec::new();
    pins.push(DefaultPin { name: a, value: PinValue::Gnd });
    pins.push(DefaultPin { name: b, value: PinValue::Gnd });
    pins.push(DefaultPin { name: c, value: PinValue::Gnd });
    pins.push(DefaultPin { name: d, value: PinValue::Gnd });
    let mut default_conns: Vec<DefaultCellConn> = Vec::new();
    default_conns.push(DefaultCellConn { cell_type, pins });
    ConstantsRecord { gnd_cell_type, gnd_cell_pin, vcc_cell_type, vcc_cell_pin, default_conns }
}

/// The parameters of the lookup cell.
pub fn parameter_records(ids: &mut Interner) -> (records: Vec<CellParameters>)
    ensures
        grown_by(old(ids)@, final(ids)@, parameter_names()),
        final(ids)@.no_duplicates(),
        parameters_fixed(final(ids)@, records@),
{
    proof {
        use_type_invariant(&*ids);
    }
    let ghost start = ids@;
    let ghost names = parameter_names();
    let cell_type = intern_one_of(ids, "LUT4", Ghost(start), Ghost(names));
    let name = intern_one_of(ids, "INIT", Ghost(start), Ghost(names));
    let default_key = intern_one_of(ids, "INIT", Ghost(start), Ghost(names));
    let default_text = intern_one_of(ids, "0x0000", Ghost(start), Ghost(names));
    let mut parameters: Vec<ParameterDef> = Vec::new();
    parameters.push(ParameterDef { name, format: ParameterFormat::CHex, default_key, default_text });
    let mut records: Vec<CellParameters> = Vec::new();
    records.push(CellParameters { cell_type, parameters });
    records
}

} // verus!
