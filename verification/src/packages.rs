//! The package-pin resolver: where on the fabric each pin of each package is.
//! A pad's site follows from the side of the die that it sits on, its offset
//! along that side and its I/O index; the pin is placed when the device has a
//! site of that name.

use vstd::prelude::*;
use crate::document::{PackagePinRecord, PackageRecord, Placement};
use crate::error::{WriteError, WriteErrorView};
use crate::fabric::{Pad, PadTable, PadTableView, PadView};
use crate::interner::{
    extends,
    grown_by,
    lemma_grown_by_chain,
    lemma_grown_by_one,
    lemma_grown_by_wider,
    resolves,
    Interner,
};
use crate::text::{make_site_name, same_name, site_name};
use crate::tiles::SiteNames;

verus! {

/// The side code of the top edge.
pub open spec fn top() -> Seq<char> {
    seq!['T']
}

/// The side code of the bottom edge.
pub open spec fn bottom() -> Seq<char> {
    seq!['B']
}

/// The side code of the left edge.
pub open spec fn left() -> Seq<char> {
    seq!['L']
}

/// The side code of the right edge.
pub open spec fn right() -> Seq<char> {
    seq!['R']
}

/// The side code of a pad that is on no edge and has no site.
pub open spec fn no_side() -> Seq<char> {
    Seq::empty()
}

/// The pin label of a pad that a package does not bond.
pub open spec fn unbonded() -> Seq<char> {
    seq!['-']
}

/// The name of the bel of every pad site.
pub open spec fn pad_bel() -> Seq<char> {
    seq!['P', 'A', 'D', '_', 'B']
}

/// Whether a side code is one of the four edges.
pub open spec fn on_edge(side: Seq<char>) -> bool {
    side == top() || side == bottom() || side == left() || side == right()
}

/// The name of a pad's site within its tile: `PIOA` for I/O index 0, `PIOB`
/// for I/O index 1.
pub open spec fn pio_name(io_index: i32) -> Seq<char> {
    if io_index == 0 {
        seq!['P', 'I', 'O', 'A']
    } else {
        seq!['P', 'I', 'O', 'B']
    }
}

/// The row of the site of a pad on an edge.
pub open spec fn pad_row(side: Seq<char>, offset: int, height: int) -> int {
    if side == top() {
        0
    } else if side == bottom() {
        height - 1
    } else {
        offset
    }
}

/// The column of the site of a pad on an edge.
pub open spec fn pad_col(side: Seq<char>, offset: int, width: int) -> int {
    if side == left() {
        0
    } else if side == right() {
        width - 1
    } else {
        offset
    }
}

/// What is wrong with a pad, if anything: a side code that is not known, or on
/// an edge an I/O index other than 0 and 1.
pub open spec fn pad_fault(pad: PadView) -> Option<WriteErrorView> {
    if pad.side == no_side() {
        None
    } else if !on_edge(pad.side) {
        Some(WriteErrorView::UnknownSide { side: pad.side })
    } else if pad.io_index != 0 && pad.io_index != 1 {
        Some(WriteErrorView::BadIoIndex { io_index: pad.io_index })
    } else {
        None
    }
}

/// The name of the site of a pad in a device of the given size, for a pad
/// without fault: none for a pad on no edge.
pub open spec fn pad_site(pad: PadView, width: u32, height: u32) -> Option<Seq<char>> {
    if pad.side == no_side() {
        None
    } else {
        Some(
            site_name(
                pad_row(pad.side, pad.offset as int, height as int),
                pad_col(pad.side, pad.offset as int, width as int),
                pio_name(pad.io_index),
            ),
        )
    }
}

/// Whether a package bonds a pad: the pad has a label for it other than `-`.
pub open spec fn bonded(pad: PadView, package: int) -> bool {
    0 <= package < pad.pins.len() && pad.pins[package] != unbonded()
}

/// The pads that a package bonds, in their order.
pub open spec fn bonded_pads(pads: Seq<PadView>, package: int) -> Seq<PadView>
    decreases pads.len(),
{
    if pads.len() == 0 {
        Seq::empty()
    } else if bonded(pads.last(), package) {
        bonded_pads(pads.drop_last(), package).push(pads.last())
    } else {
        bonded_pads(pads.drop_last(), package)
    }
}

/// The names that a pin brings: its label, and if it is placed the name of
/// its site and that of the pad bel.
pub open spec fn pin_names(
    label: Seq<char>,
    pad: PadView,
    sites: Set<Seq<char>>,
    width: u32,
    height: u32,
) -> Set<Seq<char>> {
    if pad_site(pad, width, height) is Some && sites.contains(pad_site(pad, width, height)->0) {
        set![label, pad_site(pad, width, height)->0, pad_bel()]
    } else {
        set![label]
    }
}

/// The names that the pins of the pads bring, each pad under its label in
/// package `package`.
pub open spec fn pins_names(
    pads: Seq<PadView>,
    package: int,
    sites: Set<Seq<char>>,
    width: u32,
    height: u32,
) -> Set<Seq<char>>
    decreases pads.len(),
{
    if pads.len() == 0 {
        Set::empty()
    } else {
        pins_names(pads.drop_last(), package, sites, width, height).union(
            pin_names(pads.last().pins[package], pads.last(), sites, width, height),
        )
    }
}

/// The names in a package: its own and those that the pins of its bonded pads
/// bring.
pub open spec fn package_names(
    pads: PadTableView,
    package: int,
    sites: Set<Seq<char>>,
    width: u32,
    height: u32,
) -> Set<Seq<char>> {
    set![pads.packages[package]].union(
        pins_names(bonded_pads(pads.pads, package), package, sites, width, height),
    )
}

/// The names in the first `count` packages.
pub open spec fn packages_names(
    pads: PadTableView,
    count: int,
    sites: Set<Seq<char>>,
    width: u32,
    height: u32,
) -> Set<Seq<char>>
    decreases count,
{
    if count <= 0 {
        Set::empty()
    } else {
        packages_names(pads, count - 1, sites, width, height).union(
            package_names(pads, count - 1, sites, width, height),
        )
    }
}

/// Every pad that some package bonds is without fault.
pub open spec fn fault_free(table: PadTableView) -> bool {
    forall|i: int, p: int|
        0 <= i < table.packages.len() && 0 <= p < table.pads.len() && bonded(
            #[trigger] table.pads[p],
            i,
        ) ==> #[trigger] pad_fault_in(table, i, p) is None
}

/// The fault of pad `p` as package `i` sees it.
pub open spec fn pad_fault_in(table: PadTableView, i: int, p: int) -> Option<WriteErrorView> {
    pad_fault(table.pads[p])
}

/// Pad `p` of package `i` is the first bonded pad with a fault, going through
/// the packages in order and within each through the pads in order.
pub open spec fn first_fault_at(table: PadTableView, i: int, p: int) -> bool {
    &&& 0 <= i < table.packages.len()
    &&& 0 <= p < table.pads.len()
    &&& bonded(table.pads[p], i)
    &&& pad_fault(table.pads[p]) is Some
    &&& forall|j: int, q: int|
        0 <= j < table.packages.len() && 0 <= q < table.pads.len() && (j < i || (j == i && q < p))
            && bonded(#[trigger] table.pads[q], j) ==> #[trigger] pad_fault_in(table, j, q) is None
}

impl PackagePinRecord {
    /// The record names the pad's label in the package, and places the pin at
    /// the pad's site and the pad bel if `sites` holds that site, leaving it
    /// unplaced otherwise.
    pub open spec fn encodes(
        &self,
        table: Seq<Seq<char>>,
        sites: Set<Seq<char>>,
        pad: PadView,
        package: int,
        width: u32,
        height: u32,
    ) -> bool {
        &&& resolves(table, self.package_pin, pad.pins[package])
        &&& if pad_site(pad, width, height) is Some && sites.contains(
            pad_site(pad, width, height)->0,
        ) {
            &&& self.placement matches Placement::Placed { site, bel }
            &&& resolves(table, site, pad_site(pad, width, height)->0)
            &&& resolves(table, bel, pad_bel())
        } else {
            self.placement == Placement::Unplaced
        }
    }
}

impl PackageRecord {
    /// The record names package `package` and holds one pin for each pad that
    /// the package bonds, in the pads' order.
    pub open spec fn encodes(
        &self,
        table: Seq<Seq<char>>,
        sites: Set<Seq<char>>,
        pads: PadTableView,
        package: int,
        width: u32,
        height: u32,
    ) -> bool {
        &&& resolves(table, self.name, pads.packages[package])
        &&& self.pins@.len() == bonded_pads(pads.pads, package).len()
        &&& forall|k: int|
            0 <= k < self.pins@.len() ==> (#[trigger] self.pins@[k]).encodes(
                table,
                sites,
                bonded_pads(pads.pads, package)[k],
                package,
                width,
                height,
            )
    }
}

/// The records are those of the packages of `pads`, in order.
pub open spec fn packages_encode(
    table: Seq<Seq<char>>,
    records: Seq<PackageRecord>,
    sites: Set<Seq<char>>,
    pads: PadTableView,
    width: u32,
    height: u32,
) -> bool {
    &&& records.len() == pads.packages.len()
    &&& forall|i: int|
        0 <= i < records.len() ==> (#[trigger] records[i]).encodes(
            table,
            sites,
            pads,
            i,
            width,
            height,
        )
}

/// A pad on one of the four edges with I/O index 0 or 1, and a pad on no edge,
/// has no fault, whatever its offset; its site depends on nothing but its side,
/// offset and I/O index and the size of the device.
pub proof fn lemma_resolution_total(pad: PadView, other: PadView, width: u32, height: u32)
    requires
        pad.side == no_side() || (on_edge(pad.side) && (pad.io_index == 0 || pad.io_index == 1)),
        other.side == pad.side,
        other.offset == pad.offset,
        other.io_index == pad.io_index,
    ensures
        pad_fault(pad) is None,
        pad_site(other, width, height) == pad_site(pad, width, height),
{
}

/// Every pad that a package bonds is one of the pads and is bonded by the
/// package; a package bonds no more pads than there are.
pub proof fn lemma_bonded_pads(pads: Seq<PadView>, package: int)
    ensures
        bonded_pads(pads, package).len() <= pads.len(),
        forall|k: int|
            0 <= k < bonded_pads(pads, package).len() ==> bonded(
                #[trigger] bonded_pads(pads, package)[k],
                package,
            ) && pads.contains(bonded_pads(pads, package)[k]),
    decreases pads.len(),
{
    if pads.len() > 0 {
        let front = pads.drop_last();
        lemma_bonded_pads(front, package);
        let all = bonded_pads(pads, package);
        let before = bonded_pads(front, package);
        assert forall|k: int| 0 <= k < all.len() implies bonded(#[trigger] all[k], package)
            && pads.contains(all[k]) by {
            if k < before.len() {
                assert(all[k] == before[k]);
                let p = choose|p: int| 0 <= p < front.len() && front[p] == before[k];
                assert(pads[p] == all[k]);
            } else {
                assert(all[k] == pads[pads.len() - 1]);
            }
        }
    }
}

/// Whether a pad has a fault, and which.
pub fn check_pad(pad: &Pad) -> (result: Result<(), WriteError>)
    ensures
        match result {
            Ok(_) => pad_fault(pad.deep_view()) is None,
            Err(e) => pad_fault(pad.deep_view()) == Some(e.deep_view()),
        },
{
    proof {
        reveal_strlit("");
        reveal_strlit("T");
        reveal_strlit("B");
        reveal_strlit("L");
        reveal_strlit("R");
        assert(""@ =~= no_side());
        assert("T"@ =~= top());
        assert("B"@ =~= bottom());
        assert("L"@ =~= left());
        assert("R"@ =~= right());
    }
    let side = pad.side.as_str();
    if same_name(side, "") {
        Ok(())
    } else if !(same_name(side, "T") || same_name(side, "B") || same_name(side, "L") || same_name(
        side,
        "R",
    )) {
        Err(WriteError::UnknownSide { side: pad.side.clone() })
    } else if pad.io_index != 0 && pad.io_index != 1 {
        Err(WriteError::BadIoIndex { io_index: pad.io_index })
    } else {
        Ok(())
    }
}

/// The name of the site of a pad in a device of the given size: none for a pad
/// on no edge; a fault for a pad that has one.
pub fn pad_site_name(pad: &Pad, width: u32, height: u32) -> (result: Result<
    Option<String>,
    WriteError,
>)
    ensures
        match result {
            Ok(name) => pad_fault(pad.deep_view()) is None && name.deep_view() == pad_site(
                pad.deep_view(),
                width,
                height,
            ),
            Err(e) => pad_fault(pad.deep_view()) == Some(e.deep_view()),
        },
{
    match check_pad(pad) {
        Err(e) => Err(e),
        Ok(_) => {
            proof {
                reveal_strlit("");
                reveal_strlit("T");
                reveal_strlit("B");
                reveal_strlit("L");
                reveal_strlit("R");
                reveal_strlit("PIOA");
                reveal_strlit("PIOB");
                assert(""@ =~= no_side());
                assert("T"@ =~= top());
                assert("B"@ =~= bottom());
                assert("L"@ =~= left());
                assert("R"@ =~= right());
                assert("PIOA"@ =~= pio_name(0));
                assert("PIOB"@ =~= pio_name(1));
            }
            let side = pad.side.as_str();
            if same_name(side, "") {
                Ok(None)
            } else {
                let offset = pad.offset as i64;
                let row: i64 = if same_name(side, "T") {
                    0
                } else if same_name(side, "B") {
                    height as i64 - 1
                } else {
                    offset
                };
                let col: i64 = if same_name(side, "L") {
                    0
                } else if same_name(side, "R") {
                    width as i64 - 1
                } else {
                    offset
                };
                let pio = if pad.io_index == 0 {
                    "PIOA"
                } else {
                    "PIOB"
                };
                Ok(Some(make_site_name(row, col, pio)))
            }
        },
    }
}

/// Resolves one pin: `label` is the pin's label, `pad` its pad, `sites` the
/// set of the names of the sites that the device has. When the pad has a fault, nothing
/// is interned.
pub fn resolve_pin(
    label: &str,
    pad: &Pad,
    sites: &SiteNames,
    width: u32,
    height: u32,
    ids: &mut Interner,
) -> (result: Result<PackagePinRecord, WriteError>)
    ensures
        grown_by(
            old(ids)@,
            final(ids)@,
            pin_names(label@, pad.deep_view(), sites@, width, height),
        ),
        final(ids)@.no_duplicates(),
        match result {
            Ok(record) => {
                &&& pad_fault(pad.deep_view()) is None
                &&& resolves(final(ids)@, record.package_pin, label@)
                &&& if pad_site(pad.deep_view(), width, height) is Some && sites@.contains(
                    pad_site(pad.deep_view(), width, height)->0,
                ) {
                    &&& record.placement matches Placement::Placed { site, bel }
                    &&& resolves(final(ids)@, site, pad_site(pad.deep_view(), width, height)->0)
                    &&& resolves(final(ids)@, bel, pad_bel())
                } else {
                    record.placement == Placement::Unplaced
                }
            },
            Err(e) => pad_fault(pad.deep_view()) == Some(e.deep_view()) && final(ids)@ == old(
                ids,
            )@,
        },
{
    proof {
        use_type_invariant(&*ids);
    }
    match pad_site_name(pad, width, height) {
        Err(e) => Err(e),
        Ok(name) => {
            let ghost names = pin_names(label@, pad.deep_view(), sites@, width, height);
            let ghost t0 = ids@;
            let package_pin = ids.intern(label);
            proof {
                lemma_grown_by_wider(t0, ids@, set![label@], names);
            }
            let placement = match name {
                None => Placement::Unplaced,
                Some(name) => {
                    if sites.contains(name.as_str()) {
                        proof {
                            reveal_strlit("PAD_B");
                            assert("PAD_B"@ =~= pad_bel());
                        }
                        let ghost t1 = ids@;
                        let site = ids.intern(name.as_str());
                        let ghost t2 = ids@;
                        let bel = ids.intern("PAD_B");
                        proof {
                            lemma_grown_by_one(t0, t1, t2, names, name@);
                            lemma_grown_by_one(t0, t2, ids@, names, pad_bel());
                        }
                        Placement::Placed { site, bel }
                    } else {
                        Placement::Unplaced
                    }
                },
            };
            Ok(PackagePinRecord { package_pin, placement })
        },
    }
}

/// Whether any pad that a package bonds has a fault: the fault of the first
/// such pad, going through the packages in order and within each through the
/// pads in order.
pub fn check_pads(pads: &PadTable) -> (result: Result<(), WriteError>)
    ensures
        match result {
            Ok(_) => fault_free(pads.deep_view()),
            Err(e) => exists|i: int, p: int|
                first_fault_at(pads.deep_view(), i, p) && #[trigger] pad_fault_in(
                    pads.deep_view(),
                    i,
                    p,
                ) == Some(e.deep_view()),
        },
{
    let ghost view = pads.deep_view();
    let mut i: usize = 0;
    while i < pads.packages.len()
        invariant
            i <= pads.packages.len(),
            view == pads.deep_view(),
            forall|j: int, q: int|
                0 <= j < i && 0 <= q < view.pads.len() && bonded(#[trigger] view.pads[q], j)
                    ==> #[trigger] pad_fault_in(view, j, q) is None,
        decreases pads.packages.len() - i,
    {
        let mut p: usize = 0;
        while p < pads.pads.len()
            invariant
                p <= pads.pads.len(),
                i < pads.packages.len(),
                view == pads.deep_view(),
                forall|j: int, q: int|
                    0 <= j < view.packages.len() && 0 <= q < view.pads.len() && (j < i || (j == i
                        && q < p)) && bonded(#[trigger] view.pads[q], j) ==> #[trigger] pad_fault_in(
                        view,
                        j,
                        q,
                    ) is None,
            decreases pads.pads.len() - p,
        {
            let pad = &pads.pads[p];
            assert(view.pads[p as int] == pad.deep_view());
            if is_bonded(pad, i) {
                match check_pad(pad) {
                    Err(e) => {
                        assert(first_fault_at(view, i as int, p as int));
                        assert(pad_fault_in(view, i as int, p as int) == Some(e.deep_view()));
                        return Err(e);
                    },
                    Ok(_) => {},
                }
            }
            p += 1;
        }
        i += 1;
    }
    Ok(())
}

/// Whether a package bonds a pad.
pub fn is_bonded(pad: &Pad, package: usize) -> (yes: bool)
    ensures
        yes == bonded(pad.deep_view(), package as int),
{
    proof {
        reveal_strlit("-");
        assert("-"@ =~= unbonded());
    }
    if package < pad.pins.len() {
        assert(pad.deep_view().pins[package as int] == pad.pins@[package as int]@);
        !same_name(pad.pins[package].as_str(), "-")
    } else {
        false
    }
}

/// The record of one package of a pad table whose pads are without fault.
fn resolve_package(
    pads: &PadTable,
    package: usize,
    sites: &SiteNames,
    width: u32,
    height: u32,
    ids: &mut Interner,
) -> (record: PackageRecord)
    requires
        package < pads.packages.len(),
        fault_free(pads.deep_view()),
    ensures
        grown_by(
            old(ids)@,
            final(ids)@,
            package_names(pads.deep_view(), package as int, sites@, width, height),
        ),
        final(ids)@.no_duplicates(),
        record.encodes(
            final(ids)@,
            sites@,
            pads.deep_view(),
            package as int,
            width,
            height,
        ),
{
    let ghost view = pads.deep_view();
    let ghost names = sites@;
    let ghost t0 = ids@;
    let name = ids.intern(pads.packages[package].as_str());
    proof {
        assert(view.pads.take(0) =~= Seq::<PadView>::empty());
        lemma_grown_by_wider(
            t0,
            ids@,
            set![view.packages[package as int]],
            set![view.packages[package as int]].union(
                pins_names(
                    bonded_pads(view.pads.take(0), package as int),
                    package as int,
                    names,
                    width,
                    height,
                ),
            ),
        );
    }
    let mut pins: Vec<PackagePinRecord> = Vec::new();
    let mut p: usize = 0;
    while p < pads.pads.len()
        invariant
            p <= pads.pads.len(),
            package < pads.packages.len(),
            view == pads.deep_view(),
            names == sites@,
            fault_free(view),
            grown_by(
                old(ids)@,
                ids@,
                set![view.packages[package as int]].union(
                    pins_names(
                        bonded_pads(view.pads.take(p as int), package as int),
                        package as int,
                        names,
                        width,
                        height,
                    ),
                ),
            ),
            ids@.no_duplicates(),
            resolves(ids@, name, view.packages[package as int]),
            pins@.len() == bonded_pads(view.pads.take(p as int), package as int).len(),
            forall|k: int|
                0 <= k < pins@.len() ==> (#[trigger] pins@[k]).encodes(
                    ids@,
                    names,
                    bonded_pads(view.pads.take(p as int), package as int)[k],
                    package as int,
                    width,
                    height,
                ),
        decreases pads.pads.len() - p,
    {
        let pad = &pads.pads[p];
        proof {
            assert(view.pads.take(p + 1).drop_last() =~= view.pads.take(p as int));
            assert(view.pads.take(p + 1).last() == view.pads[p as int]);
            assert(view.pads[p as int] == pad.deep_view());
        }
        if is_bonded(pad, package) {
            assert(pad_fault_in(view, package as int, p as int) is None);
            let ghost before = ids@;
            let ghost held = bonded_pads(view.pads.take(p as int), package as int);
            match resolve_pin(pad.pins[package].as_str(), pad, sites, width, height, ids) {
                Ok(record) => {
                    proof {
                        let next = bonded_pads(view.pads.take(p + 1), package as int);
                        assert(next =~= held.push(pad.deep_view()));
                        assert(next.drop_last() =~= held);
                        assert(pad.deep_view().pins[package as int] == pad.pins@[package as int]@);
                        let own = set![view.packages[package as int]];
                        lemma_grown_by_chain(
                            old(ids)@,
                            before,
                            ids@,
                            own.union(pins_names(held, package as int, names, width, height)),
                            pin_names(
                                pad.pins@[package as int]@,
                                pad.deep_view(),
                                names,
                                width,
                                height,
                            ),
                            own.union(pins_names(next, package as int, names, width, height)),
                        );
                    }
                    pins.push(record);
                },
                Err(_) => {
                    assert(false);
                },
            }
        }
        p += 1;
    }
    proof {
        assert(view.pads.take(pads.pads.len() as int) =~= view.pads);
    }
    PackageRecord { name, pins }
}

/// Resolves the pins of every package. `sites` holds the names of the sites
/// that the device has. When a bonded pad has a fault, nothing is interned and
/// the fault of the first such pad is returned.
pub fn resolve_packages(
    pads: &PadTable,
    sites: &SiteNames,
    width: u32,
    height: u32,
    ids: &mut Interner,
) -> (result: Result<Vec<PackageRecord>, WriteError>)
    ensures
        grown_by(
            old(ids)@,
            final(ids)@,
            packages_names(
                pads.deep_view(),
                pads.packages@.len() as int,
                sites@,
                width,
                height,
            ),
        ),
        final(ids)@.no_duplicates(),
        match result {
            Ok(records) => fault_free(pads.deep_view()) && packages_encode(
                final(ids)@,
                records@,
                sites@,
                pads.deep_view(),
                width,
                height,
            ),
            Err(e) => final(ids)@ == old(ids)@ && exists|i: int, p: int|
                first_fault_at(pads.deep_view(), i, p) && #[trigger] pad_fault_in(
                    pads.deep_view(),
                    i,
                    p,
                ) == Some(e.deep_view()),
        },
{
    proof {
        use_type_invariant(&*ids);
    }
    match check_pads(pads) {
        Err(e) => Err(e),
        Ok(_) => {
            let ghost view = pads.deep_view();
            let ghost names = sites@;
            let mut records: Vec<PackageRecord> = Vec::new();
            let mut i: usize = 0;
            while i < pads.packages.len()
                invariant
                    i <= pads.packages.len(),
                    view == pads.deep_view(),
                    names == sites@,
                    fault_free(view),
                    grown_by(old(ids)@, ids@, packages_names(view, i as int, names, width, height)),
                    ids@.no_duplicates(),
                    records@.len() == i,
                    forall|j: int|
                        0 <= j < i ==> (#[trigger] records@[j]).encodes(
                            ids@,
                            names,
                            view,
                            j,
                            width,
                            height,
                        ),
                decreases pads.packages.len() - i,
            {
                let ghost before = ids@;
                let ghost earlier = records@;
                let record = resolve_package(pads, i, sites, width, height, ids);
                proof {
                    lemma_grown_by_chain(
                        old(ids)@,
                        before,
                        ids@,
                        packages_names(view, i as int, names, width, height),
                        package_names(view, i as int, names, width, height),
                        packages_names(view, i + 1, names, width, height),
                    );
                    assert forall|j: int| 0 <= j < i implies (#[trigger] earlier[j]).encodes(
                        ids@,
                        names,
                        view,
                        j,
                        width,
                        height,
                    ) by {
                        lemma_package_record_extends(
                            earlier[j],
                            before,
                            ids@,
                            names,
                            view,
                            j,
                            width,
                            height,
                        );
                    }
                }
                records.push(record);
                i += 1;
            }
            proof {
                assert(view.packages.len() == pads.packages@.len());
                assert(packages_encode(ids@, records@, names, view, width, height));
            }
            Ok(records)
        },
    }
}

/// A package record that encodes a package under a table does so under every
/// extension of the table.
pub proof fn lemma_package_record_extends(
    record: PackageRecord,
    before: Seq<Seq<char>>,
    after: Seq<Seq<char>>,
    sites: Set<Seq<char>>,
    pads: PadTableView,
    package: int,
    width: u32,
    height: u32,
)
    requires
        extends(before, after),
        record.encodes(before, sites, pads, package, width, height),
    ensures
        record.encodes(after, sites, pads, package, width, height),
{
    assert forall|k: int| 0 <= k < record.pins@.len() implies (#[trigger] record.pins@[k]).encodes(
        after,
        sites,
        bonded_pads(pads.pads, package)[k],
        package,
        width,
        height,
    ) by {
        assert(record.pins@[k].encodes(
            before,
            sites,
            bonded_pads(pads.pads, package)[k],
            package,
            width,
            height,
        ));
    }
}

} // verus!
