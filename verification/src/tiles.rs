//! The tile list: one record for every tile of the device, with the names of
//! its sites and of the chip tiles that it is made of. The names of the sites
//! are also collected: they are the sites that the device has.

use vstd::prelude::*;
use vstd::hash_set::StringHashSet;
use crate::document::{SiteRecord, TileRecord};
use crate::error::{WriteError, WriteErrorView};
use crate::fabric::{SiteInstanceView, Tile, TileType, TileTypeView, TileView};
use crate::interner::{
    extends,
    grown_by,
    lemma_grown_by_chain,
    lemma_grown_by_one,
    lemma_grown_by_wider,
    lemma_resolve_all_in_extension,
    names_in,
    resolve_all,
    resolves,
    Interner,
};
use crate::text::{escape_colons, escaped, make_site_name, site_name};

verus! {

/// The set of the names of the sites that a device has. It is kept as a hash
/// set of strings: names are put in and asked for, and never gone through.
pub struct SiteNames {
    names: StringHashSet,
}

impl View for SiteNames {
    type V = Set<Seq<char>>;

    closed spec fn view(&self) -> Set<Seq<char>> {
        self.names@
    }
}

impl SiteNames {
    /// The empty set.
    pub fn new() -> (set: Self)
        ensures
            set@ == Set::<Seq<char>>::empty(),
    {
        SiteNames { names: StringHashSet::new() }
    }

    /// The set of the names of a list.
    pub fn from_list(list: &Vec<String>) -> (set: Self)
        ensures
            set@ == names_in(list.deep_view()),
    {
        let ghost all = list.deep_view();
        let mut set = SiteNames::new();
        assert(all.take(0) =~= Seq::<Seq<char>>::empty());
        assert(set@ =~= names_in(all.take(0)));
        let mut i: usize = 0;
        while i < list.len()
            invariant
                i <= list.len(),
                all == list.deep_view(),
                set@ == names_in(all.take(i as int)),
            decreases list.len() - i,
        {
            proof {
                assert(all.take(i + 1) =~= all.take(i as int).push(all[i as int]));
                lemma_names_in_push(all.take(i as int), all[i as int]);
            }
            set.insert(list[i].clone());
            i += 1;
        }
        assert(all.take(list.len() as int) =~= all);
        set
    }

    /// Puts a name into the set.
    pub fn insert(&mut self, name: String)
        ensures
            final(self)@ == old(self)@.insert(name@),
    {
        let _ = self.names.insert(name);
    }

    /// Whether the set holds `name`.
    pub fn contains(&self, name: &str) -> (found: bool)
        ensures
            found == self@.contains(name@),
    {
        self.names.contains(name)
    }
}

/// The names of a list with one more name are those of the list and that name.
pub proof fn lemma_names_in_push(list: Seq<Seq<char>>, name: Seq<char>)
    ensures
        names_in(list.push(name)) == names_in(list).insert(name),
{
    let longer = list.push(name);
    assert forall|n: Seq<char>| names_in(longer).contains(n) <==> names_in(list).insert(
        name,
    ).contains(n) by {
        if longer.contains(n) {
            let i = choose|i: int| 0 <= i < longer.len() && longer[i] == n;
            if i < list.len() {
                assert(list[i] == n);
            }
        }
        if list.contains(n) {
            let i = choose|i: int| 0 <= i < list.len() && list[i] == n;
            assert(longer[i] == n);
        }
        if n == name {
            assert(longer[list.len() as int] == n);
        }
    }
    assert(names_in(longer) =~= names_in(list).insert(name));
}

/// The names of two lists joined are those of the one and those of the other.
pub proof fn lemma_names_in_joined(first: Seq<Seq<char>>, second: Seq<Seq<char>>)
    ensures
        names_in(first + second) == names_in(first).union(names_in(second)),
{
    let joined = first + second;
    assert forall|n: Seq<char>| names_in(joined).contains(n) <==> names_in(first).union(
        names_in(second),
    ).contains(n) by {
        if joined.contains(n) {
            let i = choose|i: int| 0 <= i < joined.len() && joined[i] == n;
            if i < first.len() {
                assert(first[i] == n);
            } else {
                assert(second[i - first.len()] == n);
            }
        }
        if first.contains(n) {
            let i = choose|i: int| 0 <= i < first.len() && first[i] == n;
            assert(joined[i] == n);
        }
        if second.contains(n) {
            let i = choose|i: int| 0 <= i < second.len() && second[i] == n;
            assert(joined[first.len() + i] == n);
        }
    }
    assert(names_in(joined) =~= names_in(first).union(names_in(second)));
}

/// The name of a site of a tile: the site's name after the row and the column
/// that the site's offset gives from those of the tile.
pub open spec fn placed_site_name(tile: TileView, site: SiteInstanceView) -> Seq<char> {
    site_name(tile.row + site.rel_y, tile.col + site.rel_x, site.name)
}

/// The names of the sites of a tile with the given tile type, in the order of
/// the tile type's sites.
pub open spec fn tile_site_names(tile: TileView, tile_type: TileTypeView) -> Seq<Seq<char>> {
    Seq::new(tile_type.sites.len(), |j: int| placed_site_name(tile, tile_type.sites[j]))
}

/// The names of the sites of the device: those of its tiles, tile after tile.
pub open spec fn device_site_names(tiles: Seq<TileView>, tile_types: Seq<TileTypeView>) -> Seq<
    Seq<char>,
>
    decreases tiles.len(),
{
    if tiles.len() == 0 {
        Seq::empty()
    } else {
        device_site_names(tiles.drop_last(), tile_types) + tile_site_names(
            tiles.last(),
            tile_types[tiles.last().tile_type as int],
        )
    }
}

/// The name prefixes of the chip tiles of a tile: their names with every colon
/// replaced by two underscores.
pub open spec fn prefixes(sub_tiles: Seq<Seq<char>>) -> Seq<Seq<char>> {
    Seq::new(sub_tiles.len(), |j: int| escape_colons(sub_tiles[j]))
}

/// The names in a tile with the given tile type: its own, those of its sites
/// and the prefixes of its chip tiles.
pub open spec fn tile_names(tile: TileView, tile_type: TileTypeView) -> Set<Seq<char>> {
    set![tile.name].union(names_in(tile_site_names(tile, tile_type))).union(
        names_in(prefixes(tile.sub_tiles)),
    )
}

/// The names in the tiles of a device.
pub open spec fn tiles_names(tiles: Seq<TileView>, tile_types: Seq<TileTypeView>) -> Set<Seq<char>>
    decreases tiles.len(),
{
    if tiles.len() == 0 {
        Set::empty()
    } else {
        tiles_names(tiles.drop_last(), tile_types).union(
            tile_names(tiles.last(), tile_types[tiles.last().tile_type as int]),
        )
    }
}

/// Every tile has a tile type that the fabric has.
pub open spec fn tiles_typed(tiles: Seq<TileView>, tile_types: int) -> bool {
    forall|i: int| 0 <= i < tiles.len() ==> (#[trigger] tiles[i]).tile_type < tile_types
}

/// Tile `i` is the first whose tile type the fabric does not have.
pub open spec fn first_untyped(tiles: Seq<TileView>, tile_types: int, i: int) -> bool {
    &&& 0 <= i < tiles.len()
    &&& tiles[i].tile_type >= tile_types
    &&& forall|j: int| 0 <= j < i ==> (#[trigger] tiles[j]).tile_type < tile_types
}

/// The site records name the sites of a tile and refer to the tile type's
/// sites by their position.
pub open spec fn tile_sites_encode(
    table: Seq<Seq<char>>,
    records: Seq<SiteRecord>,
    names: Seq<Seq<char>>,
) -> bool {
    &&& records.len() == names.len()
    &&& forall|j: int|
        0 <= j < records.len() ==> resolves(table, (#[trigger] records[j]).name, names[j])
            && records[j].site_type == j
}

impl TileRecord {
    /// The record names the tile, carries its position and the index of its
    /// tile type, names its sites and the prefixes of its chip tiles.
    pub open spec fn encodes(
        &self,
        table: Seq<Seq<char>>,
        tile: TileView,
        tile_type: TileTypeView,
    ) -> bool {
        &&& resolves(table, self.name, tile.name)
        &&& self.tile_type == tile.tile_type
        &&& self.row == tile.row
        &&& self.col == tile.col
        &&& tile_sites_encode(table, self.sites@, tile_site_names(tile, tile_type))
        &&& resolve_all(table, self.sub_tile_prefixes@, prefixes(tile.sub_tiles))
    }
}

/// The records encode the tiles one by one.
pub open spec fn tiles_encode(
    table: Seq<Seq<char>>,
    records: Seq<TileRecord>,
    tiles: Seq<TileView>,
    tile_types: Seq<TileTypeView>,
) -> bool {
    &&& records.len() == tiles.len()
    &&& forall|i: int|
        0 <= i < records.len() ==> (#[trigger] records[i]).encodes(
            table,
            tiles[i],
            tile_types[tiles[i].tile_type as int],
        )
}

/// A tile record that encodes a tile under a table does so under every
/// extension of the table.
pub proof fn lemma_tile_record_extends(
    record: TileRecord,
    before: Seq<Seq<char>>,
    after: Seq<Seq<char>>,
    tile: TileView,
    tile_type: TileTypeView,
)
    requires
        extends(before, after),
        record.encodes(before, tile, tile_type),
    ensures
        record.encodes(after, tile, tile_type),
{
    let names = tile_site_names(tile, tile_type);
    assert forall|j: int| 0 <= j < record.sites@.len() implies resolves(
        after,
        (#[trigger] record.sites@[j]).name,
        names[j],
    ) && record.sites@[j].site_type == j by {
        assert(resolves(before, record.sites@[j].name, names[j]));
    }
    lemma_resolve_all_in_extension(before, after, record.sub_tile_prefixes@, prefixes(tile.sub_tiles));
}

/// Every site name of the device is the name of a site of one of its tiles,
/// and the other way round.
pub proof fn lemma_device_site_names(
    tiles: Seq<TileView>,
    tile_types: Seq<TileTypeView>,
    name: Seq<char>,
)
    ensures
        device_site_names(tiles, tile_types).contains(name) <==> exists|i: int, j: int|
            0 <= i < tiles.len() && 0 <= j < tile_types[tiles[i].tile_type as int].sites.len()
                && #[trigger] placed_site_name(
                tiles[i],
                tile_types[tiles[i].tile_type as int].sites[j],
            ) == name,
    decreases tiles.len(),
{
    let all = device_site_names(tiles, tile_types);
    if tiles.len() == 0 {
        assert(!all.contains(name));
    } else {
        let front = tiles.drop_last();
        let last = tiles.last();
        let before = device_site_names(front, tile_types);
        let here = tile_site_names(last, tile_types[last.tile_type as int]);
        lemma_device_site_names(front, tile_types, name);
        if all.contains(name) {
            let p = choose|p: int| 0 <= p < all.len() && all[p] == name;
            if p < before.len() {
                assert(before[p] == name);
                let (i, j) = choose|i: int, j: int|
                    0 <= i < front.len() && 0 <= j < tile_types[front[i].tile_type as int].sites.len()
                        && #[trigger] placed_site_name(
                        front[i],
                        tile_types[front[i].tile_type as int].sites[j],
                    ) == name;
                assert(tiles[i] == front[i]);
                assert(placed_site_name(tiles[i], tile_types[tiles[i].tile_type as int].sites[j])
                    == name);
            } else {
                let j = p - before.len();
                assert(here[j] == name);
                let i = tiles.len() - 1;
                assert(placed_site_name(tiles[i], tile_types[tiles[i].tile_type as int].sites[j])
                    == name);
            }
        }
        if exists|i: int, j: int|
            0 <= i < tiles.len() && 0 <= j < tile_types[tiles[i].tile_type as int].sites.len()
                && #[trigger] placed_site_name(
                tiles[i],
                tile_types[tiles[i].tile_type as int].sites[j],
            ) == name {
            let (i, j) = choose|i: int, j: int|
                0 <= i < tiles.len() && 0 <= j < tile_types[tiles[i].tile_type as int].sites.len()
                    && #[trigger] placed_site_name(
                    tiles[i],
                    tile_types[tiles[i].tile_type as int].sites[j],
                ) == name;
            if i < front.len() {
                assert(front[i] == tiles[i]);
                assert(placed_site_name(front[i], tile_types[front[i].tile_type as int].sites[j])
                    == name);
                assert(before.contains(name));
                let p = choose|p: int| 0 <= p < before.len() && before[p] == name;
                assert(all[p] == name);
            } else {
                assert(here[j] == name);
                assert(all[before.len() + j] == name);
            }
        }
    }
}

/// Whether every tile has a tile type among the first `tile_types`: if not,
/// the fault of the first tile that has none.
pub fn check_tiles(tiles: &Vec<Tile>, tile_types: usize) -> (result: Result<(), WriteError>)
    ensures
        match result {
            Ok(_) => tiles_typed(tiles.deep_view(), tile_types as int),
            Err(e) => exists|i: int|
                first_untyped(tiles.deep_view(), tile_types as int, i) && e.deep_view() == (
                WriteErrorView::UnknownTileType { tile: (#[trigger] tiles.deep_view()[i]).name }),
        },
{
    let ghost view = tiles.deep_view();
    let mut i: usize = 0;
    while i < tiles.len()
        invariant
            i <= tiles.len(),
            view == tiles.deep_view(),
            forall|j: int| 0 <= j < i ==> (#[trigger] view[j]).tile_type < tile_types,
        decreases tiles.len() - i,
    {
        assert(view[i as int].tile_type == tiles@[i as int].tile_type);
        if tiles[i].tile_type >= tile_types {
            assert(first_untyped(view, tile_types as int, i as int));
            assert(view[i as int].name == tiles@[i as int].name@);
            return Err(WriteError::UnknownTileType { tile: tiles[i].name.clone() });
        }
        i += 1;
    }
    Ok(())
}

/// The record of a tile with the given tile type. The names of the tile's
/// sites are put into `sites`.
pub fn tile_record(
    tile: &Tile,
    tile_type: &TileType,
    ids: &mut Interner,
    sites: &mut SiteNames,
) -> (record: TileRecord)
    ensures
        grown_by(old(ids)@, final(ids)@, tile_names(tile.deep_view(), tile_type.deep_view())),
        final(ids)@.no_duplicates(),
        final(sites)@ == old(sites)@.union(
            names_in(tile_site_names(tile.deep_view(), tile_type.deep_view())),
        ),
        record.encodes(final(ids)@, tile.deep_view(), tile_type.deep_view()),
{
    let ghost view = tile.deep_view();
    let ghost shape = tile_type.deep_view();
    let ghost names = tile_site_names(view, shape);
    let ghost held = sites@;
    proof {
        assert(names.take(0) =~= Seq::<Seq<char>>::empty());
        assert(held =~= held.union(names_in(names.take(0))));
    }
    let ghost with_sites = set![view.name].union(names_in(names));
    let ghost all = with_sites.union(names_in(prefixes(view.sub_tiles)));
    let name = ids.intern(tile.name.as_str());
    proof {
        lemma_grown_by_wider(old(ids)@, ids@, set![view.name], with_sites);
    }
    let mut records: Vec<SiteRecord> = Vec::new();
    let mut j: usize = 0;
    while j < tile_type.sites.len()
        invariant
            j <= tile_type.sites.len(),
            view == tile.deep_view(),
            shape == tile_type.deep_view(),
            names == tile_site_names(view, shape),
            with_sites == set![view.name].union(names_in(names)),
            grown_by(old(ids)@, ids@, with_sites),
            ids@.no_duplicates(),
            resolves(ids@, name, view.name),
            sites@ == held.union(names_in(names.take(j as int))),
            records@.len() == j,
            forall|k: int|
                0 <= k < j ==> resolves(ids@, (#[trigger] records@[k]).name, names[k])
                    && records@[k].site_type == k,
        decreases tile_type.sites.len() - j,
    {
        let site = &tile_type.sites[j];
        assert(shape.sites[j as int] == site.deep_view());
        let text = make_site_name(
            tile.row as i64 + site.rel_y as i64,
            tile.col as i64 + site.rel_x as i64,
            site.name.as_str(),
        );
        assert(text@ == names[j as int]);
        let ghost before = ids@;
        let handle = ids.intern(text.as_str());
        proof {
            assert(names.contains(names[j as int]));
            lemma_grown_by_one(old(ids)@, before, ids@, with_sites, text@);
        }
        records.push(SiteRecord { name: handle, site_type: j });
        sites.insert(text);
        proof {
            assert(names.take(j + 1) =~= names.take(j as int).push(names[j as int]));
            lemma_names_in_push(names.take(j as int), names[j as int]);
            assert(sites@ =~= held.union(names_in(names.take(j + 1))));
        }
        j += 1;
    }
    assert(names.take(tile_type.sites.len() as int) =~= names);
    let ghost t1 = ids@;
    proof {
        lemma_grown_by_wider(old(ids)@, ids@, with_sites, all);
    }
    let mut sub_tile_prefixes: Vec<usize> = Vec::new();
    let mut s: usize = 0;
    while s < tile.sub_tiles.len()
        invariant
            s <= tile.sub_tiles.len(),
            view == tile.deep_view(),
            all == set![view.name].union(names_in(tile_site_names(view, shape))).union(
                names_in(prefixes(view.sub_tiles)),
            ),
            grown_by(old(ids)@, ids@, all),
            extends(t1, ids@),
            ids@.no_duplicates(),
            sub_tile_prefixes@.len() == s,
            forall|k: int|
                0 <= k < s ==> resolves(
                    ids@,
                    #[trigger] sub_tile_prefixes@[k],
                    prefixes(view.sub_tiles)[k],
                ),
        decreases tile.sub_tiles.len() - s,
    {
        let prefix = escaped(tile.sub_tiles[s].as_str());
        assert(prefix@ == prefixes(view.sub_tiles)[s as int]);
        let ghost before = ids@;
        let handle = ids.intern(prefix.as_str());
        proof {
            assert(prefixes(view.sub_tiles).contains(prefixes(view.sub_tiles)[s as int]));
            lemma_grown_by_one(old(ids)@, before, ids@, all, prefix@);
        }
        sub_tile_prefixes.push(handle);
        s += 1;
    }
    proof {
        assert forall|k: int| 0 <= k < records@.len() implies resolves(
            ids@,
            (#[trigger] records@[k]).name,
            names[k],
        ) && records@[k].site_type == k by {
            assert(resolves(t1, records@[k].name, names[k]));
        }
    }
    TileRecord {
        name,
        tile_type: tile.tile_type,
        row: tile.row,
        col: tile.col,
        sites: records,
        sub_tile_prefixes,
    }
}

/// The records of the tiles and the names of the sites of the device. When a
/// tile has a tile type that the fabric does not have, nothing is interned
/// and the fault of the first such tile is returned.
pub fn tile_records(tiles: &Vec<Tile>, tile_types: &Vec<TileType>, ids: &mut Interner) -> (result:
    Result<(Vec<TileRecord>, SiteNames), WriteError>)
    ensures
        grown_by(
            old(ids)@,
            final(ids)@,
            tiles_names(tiles.deep_view(), tile_types.deep_view()),
        ),
        final(ids)@.no_duplicates(),
        match result {
            Ok(out) => {
                &&& tiles_typed(tiles.deep_view(), tile_types@.len() as int)
                &&& tiles_encode(final(ids)@, out.0@, tiles.deep_view(), tile_types.deep_view())
                &&& out.1@ == names_in(
                    device_site_names(tiles.deep_view(), tile_types.deep_view()),
                )
            },
            Err(e) => final(ids)@ == old(ids)@ && exists|i: int|
                first_untyped(tiles.deep_view(), tile_types@.len() as int, i) && e.deep_view() == (
                WriteErrorView::UnknownTileType { tile: (#[trigger] tiles.deep_view()[i]).name }),
        },
{
    proof {
        use_type_invariant(&*ids);
    }
    match check_tiles(tiles, tile_types.len()) {
        Err(e) => Err(e),
        Ok(_) => {
            let ghost all = tiles.deep_view();
            let ghost shapes = tile_types.deep_view();
            let mut records: Vec<TileRecord> = Vec::new();
            let mut sites = SiteNames::new();
            assert(sites@ =~= names_in(device_site_names(all.take(0), shapes)));
            let mut i: usize = 0;
            while i < tiles.len()
                invariant
                    i <= tiles.len(),
                    all == tiles.deep_view(),
                    shapes == tile_types.deep_view(),
                    tiles_typed(all, tile_types@.len() as int),
                    grown_by(old(ids)@, ids@, tiles_names(all.take(i as int), shapes)),
                    ids@.no_duplicates(),
                    records@.len() == i,
                    sites@ == names_in(device_site_names(all.take(i as int), shapes)),
                    forall|k: int|
                        0 <= k < i ==> (#[trigger] records@[k]).encodes(
                            ids@,
                            all[k],
                            shapes[all[k].tile_type as int],
                        ),
                decreases tiles.len() - i,
            {
                let tile = &tiles[i];
                assert(all[i as int] == tile.deep_view());
                assert(all[i as int].tile_type < tile_types@.len());
                let tile_type = &tile_types[tile.tile_type];
                assert(shapes[tile.tile_type as int] == tile_type.deep_view());
                let ghost before = ids@;
                let ghost earlier = records@;
                let record = tile_record(tile, tile_type, ids, &mut sites);
                proof {
                    assert(all.take(i + 1).drop_last() =~= all.take(i as int));
                    assert(all.take(i + 1).last() == all[i as int]);
                    lemma_names_in_joined(
                        device_site_names(all.take(i as int), shapes),
                        tile_site_names(all[i as int], shapes[all[i as int].tile_type as int]),
                    );
                    lemma_grown_by_chain(
                        old(ids)@,
                        before,
                        ids@,
                        tiles_names(all.take(i as int), shapes),
                        tile_names(all[i as int], shapes[all[i as int].tile_type as int]),
                        tiles_names(all.take(i + 1), shapes),
                    );
                    assert forall|k: int| 0 <= k < i implies (#[trigger] earlier[k]).encodes(
                        ids@,
                        all[k],
                        shapes[all[k].tile_type as int],
                    ) by {
                        lemma_tile_record_extends(
                            earlier[k],
                            before,
                            ids@,
                            all[k],
                            shapes[all[k].tile_type as int],
                        );
                    }
                }
                records.push(record);
                i += 1;
            }
            proof {
                assert(all.take(tiles.len() as int) =~= all);
            }
            Ok((records, sites))
        },
    }
}

} // verus!
