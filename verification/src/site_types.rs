//! The site-type deduplicator: the table of canonical site types, in which
//! every distinct site-type definition stands once, at the position of its
//! first appearance.

use vstd::prelude::*;
use crate::fabric::{Alike, SiteInstanceView, SiteType, SiteTypeView, TileType, TileTypeView};

verus! {

/// The canonical table after it has met `def`: unchanged when it holds an equal
/// definition, else with `def` appended.
pub open spec fn canonicalized(table: Seq<SiteTypeView>, def: SiteTypeView) -> Seq<SiteTypeView> {
    if table.contains(def) {
        table
    } else {
        table.push(def)
    }
}

/// The canonical table after it has met, in order, the site types of `sites`.
pub open spec fn seen_in_sites(
    table: Seq<SiteTypeView>,
    sites: Seq<SiteInstanceView>,
) -> Seq<SiteTypeView>
    decreases sites.len(),
{
    if sites.len() == 0 {
        table
    } else {
        canonicalized(seen_in_sites(table, sites.drop_last()), sites.last().site_type)
    }
}

/// The canonical site types of a list of tile types: the definitions of their
/// sites, tile type by tile type and site by site, each kept where it first
/// appears.
pub open spec fn canonical_site_types(tile_types: Seq<TileTypeView>) -> Seq<SiteTypeView>
    decreases tile_types.len(),
{
    if tile_types.len() == 0 {
        Seq::empty()
    } else {
        seen_in_sites(canonical_site_types(tile_types.drop_last()), tile_types.last().sites)
    }
}

/// The canonical table after it has met, in order, the site types of the sites
/// of `tile_types`.
pub open spec fn seen_in_tile_types(
    table: Seq<SiteTypeView>,
    tile_types: Seq<TileTypeView>,
) -> Seq<SiteTypeView>
    decreases tile_types.len(),
{
    if tile_types.len() == 0 {
        table
    } else {
        seen_in_sites(seen_in_tile_types(table, tile_types.drop_last()), tile_types.last().sites)
    }
}

/// `after` holds every entry of `before` at its old position.
pub open spec fn keeps(before: Seq<SiteTypeView>, after: Seq<SiteTypeView>) -> bool {
    &&& before.len() <= after.len()
    &&& forall|i: int|
        #![trigger before[i]]
        #![trigger after[i]]
        0 <= i < before.len() ==> after[i] == before[i]
}

/// Meeting a definition keeps the entries distinct and in place, and leaves the
/// definition in the table.
pub proof fn lemma_canonicalized(table: Seq<SiteTypeView>, def: SiteTypeView)
    requires
        table.no_duplicates(),
    ensures
        canonicalized(table, def).no_duplicates(),
        keeps(table, canonicalized(table, def)),
        canonicalized(table, def).contains(def),
        forall|other: SiteTypeView|
            canonicalized(table, def).contains(other) <==> (table.contains(other) || other == def),
{
    let t = canonicalized(table, def);
    if !table.contains(def) {
        assert(t[table.len() as int] == def);
        assert forall|other: SiteTypeView| t.contains(other) implies (table.contains(other)
            || other == def) by {
            let i = choose|i: int| 0 <= i < t.len() && t[i] == other;
            if i < table.len() {
                assert(table[i] == other);
            }
        }
        assert forall|other: SiteTypeView| table.contains(other) implies t.contains(other) by {
            let i = choose|i: int| 0 <= i < table.len() && table[i] == other;
            assert(t[i] == other);
        }
    }
}

/// Meeting the sites of a tile type keeps the entries distinct and in place;
/// afterwards the table holds what it held before and the definitions of those
/// sites, and nothing else.
pub proof fn lemma_seen_in_sites(table: Seq<SiteTypeView>, sites: Seq<SiteInstanceView>)
    requires
        table.no_duplicates(),
    ensures
        seen_in_sites(table, sites).no_duplicates(),
        keeps(table, seen_in_sites(table, sites)),
        forall|def: SiteTypeView|
            seen_in_sites(table, sites).contains(def) <==> (table.contains(def) || exists|j: int|
                0 <= j < sites.len() && (#[trigger] sites[j]).site_type == def),
    decreases sites.len(),
{
    if sites.len() > 0 {
        let front = sites.drop_last();
        let mid = seen_in_sites(table, front);
        lemma_seen_in_sites(table, front);
        lemma_canonicalized(mid, sites.last().site_type);
        let end = seen_in_sites(table, sites);
        assert forall|def: SiteTypeView| end.contains(def) implies (table.contains(def)
            || exists|j: int| 0 <= j < sites.len() && (#[trigger] sites[j]).site_type == def) by {
            if def == sites.last().site_type {
                assert(sites[sites.len() - 1].site_type == def);
            } else if !table.contains(def) {
                assert(mid.contains(def));
                let j = choose|j: int| 0 <= j < front.len() && (#[trigger] front[j]).site_type == def;
                assert(sites[j].site_type == def);
            }
        }
        assert forall|def: SiteTypeView|
            (table.contains(def) || exists|j: int|
                0 <= j < sites.len() && (#[trigger] sites[j]).site_type == def) implies end.contains(
            def,
        ) by {
            if !table.contains(def) {
                let j = choose|j: int| 0 <= j < sites.len() && (#[trigger] sites[j]).site_type == def;
                if j < front.len() {
                    assert(front[j].site_type == def);
                }
            }
        }
    }
}

/// The canonical site types are pairwise distinct, and they are exactly the
/// definitions that the sites of the tile types have.
pub proof fn lemma_canonical_site_types(tile_types: Seq<TileTypeView>)
    ensures
        canonical_site_types(tile_types).no_duplicates(),
        forall|def: SiteTypeView|
            canonical_site_types(tile_types).contains(def) <==> exists|t: int, j: int|
                0 <= t < tile_types.len() && 0 <= j < tile_types[t].sites.len()
                    && (#[trigger] tile_types[t].sites[j]).site_type == def,
    decreases tile_types.len(),
{
    let all = canonical_site_types(tile_types);
    if tile_types.len() > 0 {
        let front = tile_types.drop_last();
        let last = tile_types.last();
        let mid = canonical_site_types(front);
        lemma_canonical_site_types(front);
        lemma_seen_in_sites(mid, last.sites);
        assert forall|def: SiteTypeView| all.contains(def) implies exists|t: int, j: int|
            0 <= t < tile_types.len() && 0 <= j < tile_types[t].sites.len()
                && (#[trigger] tile_types[t].sites[j]).site_type == def by {
            if mid.contains(def) {
                let (t, j) = choose|t: int, j: int|
                    0 <= t < front.len() && 0 <= j < front[t].sites.len()
                        && (#[trigger] front[t].sites[j]).site_type == def;
                assert(tile_types[t].sites[j].site_type == def);
            } else {
                let j = choose|j: int|
                    0 <= j < last.sites.len() && (#[trigger] last.sites[j]).site_type == def;
                assert(tile_types[tile_types.len() - 1].sites[j].site_type == def);
            }
        }
        assert forall|def: SiteTypeView|
            (exists|t: int, j: int|
                0 <= t < tile_types.len() && 0 <= j < tile_types[t].sites.len()
                    && (#[trigger] tile_types[t].sites[j]).site_type == def) implies all.contains(
            def,
        ) by {
            let (t, j) = choose|t: int, j: int|
                0 <= t < tile_types.len() && 0 <= j < tile_types[t].sites.len()
                    && (#[trigger] tile_types[t].sites[j]).site_type == def;
            if t < front.len() {
                assert(front[t].sites[j].site_type == def);
                assert(mid.contains(def));
            } else {
                assert(last.sites[j].site_type == def);
            }
        }
    } else {
        assert forall|def: SiteTypeView| !all.contains(def) by {}
    }
}

/// The canonical site types are what an empty table becomes by meeting the
/// tile types.
pub proof fn lemma_seen_from_nothing(tile_types: Seq<TileTypeView>)
    ensures
        seen_in_tile_types(Seq::empty(), tile_types) == canonical_site_types(tile_types),
    decreases tile_types.len(),
{
    if tile_types.len() > 0 {
        lemma_seen_from_nothing(tile_types.drop_last());
    }
}

/// A table that holds the site type of every site is not changed by meeting
/// the sites.
pub proof fn lemma_seen_again(table: Seq<SiteTypeView>, sites: Seq<SiteInstanceView>)
    requires
        forall|j: int| 0 <= j < sites.len() ==> table.contains((#[trigger] sites[j]).site_type),
    ensures
        seen_in_sites(table, sites) == table,
    decreases sites.len(),
{
    if sites.len() > 0 {
        let front = sites.drop_last();
        assert forall|j: int| 0 <= j < front.len() implies table.contains(
            (#[trigger] front[j]).site_type,
        ) by {
            assert(front[j] == sites[j]);
        }
        lemma_seen_again(table, front);
        assert(table.contains(sites[sites.len() - 1].site_type));
    }
}

/// A table that holds the site type of every site of the tile types is not
/// changed by meeting the tile types.
pub proof fn lemma_seen_all_again(table: Seq<SiteTypeView>, tile_types: Seq<TileTypeView>)
    requires
        forall|t: int, j: int|
            0 <= t < tile_types.len() && 0 <= j < tile_types[t].sites.len() ==> table.contains(
                (#[trigger] tile_types[t].sites[j]).site_type,
            ),
    ensures
        seen_in_tile_types(table, tile_types) == table,
    decreases tile_types.len(),
{
    if tile_types.len() > 0 {
        let front = tile_types.drop_last();
        let last = tile_types.last();
        assert forall|t: int, j: int|
            0 <= t < front.len() && 0 <= j < front[t].sites.len() implies table.contains(
            (#[trigger] front[t].sites[j]).site_type,
        ) by {
            assert(front[t] == tile_types[t]);
            assert(table.contains(tile_types[t].sites[j].site_type));
        }
        lemma_seen_all_again(table, front);
        assert forall|j: int| 0 <= j < last.sites.len() implies table.contains(
            (#[trigger] last.sites[j]).site_type,
        ) by {
            assert(table.contains(tile_types[tile_types.len() - 1].sites[j].site_type));
        }
        lemma_seen_again(table, last.sites);
    }
}

/// The canonical site types are not changed by meeting the tile types again.
pub proof fn lemma_canonical_is_settled(tile_types: Seq<TileTypeView>)
    ensures
        seen_in_tile_types(canonical_site_types(tile_types), tile_types) == canonical_site_types(
            tile_types,
        ),
{
    lemma_canonical_site_types(tile_types);
    let canon = canonical_site_types(tile_types);
    assert forall|t: int, j: int|
        0 <= t < tile_types.len() && 0 <= j < tile_types[t].sites.len() implies canon.contains(
        (#[trigger] tile_types[t].sites[j]).site_type,
    ) by {
        assert(tile_types[t].sites[j].site_type == tile_types[t].sites[j].site_type);
    }
    lemma_seen_all_again(canon, tile_types);
}

/// Sites with the same definition have the same canonical index, and different
/// indices of the canonical table hold different definitions.
pub proof fn lemma_one_index_per_definition(
    tile_types: Seq<TileTypeView>,
    first: int,
    second: int,
)
    requires
        0 <= first < canonical_site_types(tile_types).len(),
        0 <= second < canonical_site_types(tile_types).len(),
    ensures
        canonical_site_types(tile_types)[first] == canonical_site_types(tile_types)[second] <==> first
            == second,
{
    lemma_canonical_site_types(tile_types);
}

/// The table of canonical site types. It borrows the definitions that it holds.
pub struct SiteTypeTable<'a> {
    entries: Vec<&'a SiteType>,
}

impl<'a> View for SiteTypeTable<'a> {
    type V = Seq<SiteTypeView>;

    closed spec fn view(&self) -> Seq<SiteTypeView> {
        self.entries.deep_view()
    }
}

impl<'a> SiteTypeTable<'a> {
    /// No two entries are equal definitions.
    #[verifier::type_invariant]
    pub open spec fn distinct(&self) -> bool {
        self@.no_duplicates()
    }

    /// An empty table.
    pub fn new() -> (table: Self)
        ensures
            table@ == Seq::<SiteTypeView>::empty(),
    {
        let table = SiteTypeTable { entries: Vec::new() };
        assert(table@ =~= Seq::<SiteTypeView>::empty());
        table
    }

    /// The number of canonical site types.
    pub fn len(&self) -> (n: usize)
        ensures
            n == self@.len(),
    {
        self.entries.len()
    }

    /// The canonical site type at `index`, if there is one.
    pub fn get(&self, index: usize) -> (def: Option<&'a SiteType>)
        ensures
            match def {
                Some(d) => index < self@.len() && d.deep_view() == self@[index as int],
                None => index >= self@.len(),
            },
    {
        if index < self.entries.len() {
            Some(self.entries[index])
        } else {
            None
        }
    }

    /// The index of the entry equal to `def`, if there is one.
    pub fn find(&self, def: &SiteType) -> (found: Option<usize>)
        ensures
            match found {
                Some(i) => i < self@.len() && self@[i as int] == def.deep_view(),
                None => !self@.contains(def.deep_view()),
            },
    {
        let mut i: usize = 0;
        while i < self.entries.len()
            invariant
                i <= self.entries.len(),
                forall|j: int| 0 <= j < i ==> self@[j] != def.deep_view(),
            decreases self.entries.len() - i,
        {
            if self.entries[i].alike(def) {
                return Some(i);
            }
            i += 1;
        }
        None
    }

    /// The canonical index of `def`: that of the equal entry if the table holds
    /// one, else that of `def` itself, which is appended.
    pub fn canonicalize(&mut self, def: &'a SiteType) -> (index: usize)
        ensures
            final(self)@ == canonicalized(old(self)@, def.deep_view()),
            index < final(self)@.len(),
            final(self)@[index as int] == def.deep_view(),
            final(self)@.no_duplicates(),
    {
        proof {
            use_type_invariant(&*self);
            lemma_canonicalized(self@, def.deep_view());
        }
        match self.find(def) {
            Some(index) => index,
            None => {
                let mut taken = SiteTypeTable { entries: Vec::new() };
                assert(taken@ =~= Seq::<SiteTypeView>::empty());
                core::mem::swap(self, &mut taken);
                let SiteTypeTable { entries } = taken;
                let mut entries = entries;
                let index = entries.len();
                entries.push(def);
                assert(entries.deep_view() =~= old(self)@.push(def.deep_view()));
                *self = SiteTypeTable { entries };
                index
            },
        }
    }

    /// The canonical site types of `tile_types`.
    pub fn collect(tile_types: &'a Vec<TileType>) -> (table: Self)
        ensures
            table@ == canonical_site_types(tile_types.deep_view()),
    {
        let ghost all = tile_types.deep_view();
        let mut table = SiteTypeTable::new();
        let mut t: usize = 0;
        while t < tile_types.len()
            invariant
                t <= tile_types.len(),
                all == tile_types.deep_view(),
                table@ == canonical_site_types(all.take(t as int)),
            decreases tile_types.len() - t,
        {
            let sites = &tile_types[t].sites;
            let ghost before = table@;
            let ghost these = all[t as int].sites;
            let mut j: usize = 0;
            while j < sites.len()
                invariant
                    j <= sites.len(),
                    these == sites.deep_view(),
                    table@ == seen_in_sites(before, these.take(j as int)),
                decreases sites.len() - j,
            {
                let _ = table.canonicalize(&sites[j].site_type);
                proof {
                    assert(these.take(j + 1).drop_last() =~= these.take(j as int));
                    assert(these.take(j + 1).last() == these[j as int]);
                }
                j += 1;
            }
            proof {
                assert(these.take(sites.len() as int) =~= these);
                assert(all.take(t + 1).drop_last() =~= all.take(t as int));
                assert(all.take(t + 1).last() == all[t as int]);
            }
            t += 1;
        }
        proof {
            assert(all.take(tile_types.len() as int) =~= all);
        }
        table
    }
}

} // verus!
