//! The identifier interner: one table of distinct names, each known to the rest
//! of the document by its position in the table.

use vstd::prelude::*;
use vstd::hash_map::StringHashMap;

verus! {

/// Handle `handle` stands for `name` in `table`.
pub open spec fn resolves(table: Seq<Seq<char>>, handle: usize, name: Seq<char>) -> bool {
    handle < table.len() && table[handle as int] == name
}

/// `after` holds every entry of `before` at its old position.
pub open spec fn extends(before: Seq<Seq<char>>, after: Seq<Seq<char>>) -> bool {
    &&& before.len() <= after.len()
    &&& forall|i: int|
        #![trigger before[i]]
        #![trigger after[i]]
        0 <= i < before.len() ==> after[i] == before[i]
}

/// `after` extends `before`, and every entry that it adds is one of `names`.
pub open spec fn grown_by(
    before: Seq<Seq<char>>,
    after: Seq<Seq<char>>,
    names: Set<Seq<char>>,
) -> bool {
    &&& extends(before, after)
    &&& forall|k: int| before.len() <= k < after.len() ==> names.contains(#[trigger] after[k])
}

/// Each of `handles` stands for the name at the same position of `names`.
pub open spec fn resolve_all(
    table: Seq<Seq<char>>,
    handles: Seq<usize>,
    names: Seq<Seq<char>>,
) -> bool {
    &&& handles.len() == names.len()
    &&& forall|i: int| 0 <= i < handles.len() ==> resolves(table, #[trigger] handles[i], names[i])
}

/// The table after interning the names of a list, one after the other.
pub open spec fn interned_all(table: Seq<Seq<char>>, names: Seq<Seq<char>>) -> Seq<Seq<char>>
    decreases names.len(),
{
    if names.len() == 0 {
        table
    } else {
        interned(interned_all(table, names.drop_last()), names.last())
    }
}

/// The table after interning `name`: unchanged when it already holds the name,
/// else with the name appended.
pub open spec fn interned(table: Seq<Seq<char>>, name: Seq<char>) -> Seq<Seq<char>> {
    if table.contains(name) {
        table
    } else {
        table.push(name)
    }
}

/// A handle that resolves in a table resolves alike in every extension of it.
pub proof fn lemma_resolves_in_extension(
    before: Seq<Seq<char>>,
    after: Seq<Seq<char>>,
    handle: usize,
    name: Seq<char>,
)
    requires
        extends(before, after),
        resolves(before, handle, name),
    ensures
        resolves(after, handle, name),
{
}

/// Handles that resolve in a table resolve alike in every extension of it.
pub proof fn lemma_resolve_all_in_extension(
    before: Seq<Seq<char>>,
    after: Seq<Seq<char>>,
    handles: Seq<usize>,
    names: Seq<Seq<char>>,
)
    requires
        extends(before, after),
        resolve_all(before, handles, names),
    ensures
        resolve_all(after, handles, names),
{
    assert forall|i: int| 0 <= i < handles.len() implies resolves(
        after,
        #[trigger] handles[i],
        names[i],
    ) by {
        assert(resolves(before, handles[i], names[i]));
    }
}

/// In a table of distinct names a name has at most one handle.
pub proof fn lemma_handle_unique(table: Seq<Seq<char>>, a: usize, b: usize, name: Seq<char>)
    requires
        table.no_duplicates(),
        resolves(table, a, name),
        resolves(table, b, name),
    ensures
        a == b,
{
}

/// Growth composes: what two steps add comes from the names of both.
pub proof fn lemma_grown_by_chain(
    a: Seq<Seq<char>>,
    b: Seq<Seq<char>>,
    c: Seq<Seq<char>>,
    first: Set<Seq<char>>,
    second: Set<Seq<char>>,
    all: Set<Seq<char>>,
)
    requires
        grown_by(a, b, first),
        grown_by(b, c, second),
        first.subset_of(all),
        second.subset_of(all),
    ensures
        grown_by(a, c, all),
{
    assert forall|k: int| a.len() <= k < c.len() implies all.contains(#[trigger] c[k]) by {
        if k < b.len() {
            assert(c[k] == b[k]);
            assert(first.contains(b[k]));
        } else {
            assert(second.contains(c[k]));
        }
    }
    assert forall|i: int| 0 <= i < a.len() implies c[i] == a[i] by {
        assert(b[i] == a[i]);
    }
}

/// A table that has grown by some names, and then takes in one more name of
/// them, has grown by those names.
pub proof fn lemma_grown_by_one(
    a: Seq<Seq<char>>,
    b: Seq<Seq<char>>,
    c: Seq<Seq<char>>,
    names: Set<Seq<char>>,
    name: Seq<char>,
)
    requires
        grown_by(a, b, names),
        grown_by(b, c, set![name]),
        names.contains(name),
    ensures
        grown_by(a, c, names),
{
    lemma_grown_by_chain(a, b, c, names, set![name], names);
}

/// A table that takes in one name and then another has grown by the two.
pub proof fn lemma_grown_by_two(
    a: Seq<Seq<char>>,
    b: Seq<Seq<char>>,
    c: Seq<Seq<char>>,
    first: Seq<char>,
    second: Seq<char>,
)
    requires
        grown_by(a, b, set![first]),
        grown_by(b, c, set![second]),
    ensures
        grown_by(a, c, set![first, second]),
{
    lemma_grown_by_chain(a, b, c, set![first], set![second], set![first, second]);
}

/// A table that has grown by some names has grown by every larger set of names.
pub proof fn lemma_grown_by_wider(
    a: Seq<Seq<char>>,
    b: Seq<Seq<char>>,
    names: Set<Seq<char>>,
    wider: Set<Seq<char>>,
)
    requires
        grown_by(a, b, names),
        names.subset_of(wider),
    ensures
        grown_by(a, b, wider),
{
}

/// The names of a list, as a set.
pub open spec fn names_in(list: Seq<Seq<char>>) -> Set<Seq<char>> {
    Set::new(|name: Seq<char>| list.contains(name))
}

/// Interning keeps every handle, keeps the names distinct, adds at most the
/// interned name and makes it resolvable.
pub proof fn lemma_interned(table: Seq<Seq<char>>, name: Seq<char>)
    requires
        table.no_duplicates(),
    ensures
        interned(table, name).no_duplicates(),
        grown_by(table, interned(table, name), set![name]),
        interned(table, name).contains(name),
        interned(table, name).len() <= table.len() + 1,
{
    let t = interned(table, name);
    if table.contains(name) {
    } else {
        assert(t[table.len() as int] == name);
        assert forall|i: int, j: int| 0 <= i < t.len() && 0 <= j < t.len() && i != j implies t[i]
            != t[j] by {
            if i == table.len() {
                assert(table[j] == t[j]);
            } else if j == table.len() {
                assert(table[i] == t[i]);
            }
        }
    }
}

/// The table of interned names. A name's handle is its position, given out in
/// the order of first interning and never changed or reused. Beside the names
/// the table keeps a map from each name to its handle, so that a name is found
/// without going through the table.
pub struct Interner {
    names: Vec<String>,
    handles: StringHashMap<usize>,
}

impl View for Interner {
    type V = Seq<Seq<char>>;

    closed spec fn view(&self) -> Seq<Seq<char>> {
        self.names.deep_view()
    }
}

impl Interner {
    /// No name occurs twice in the table, and the map of handles agrees with
    /// the table.
    #[verifier::type_invariant]
    pub open spec fn distinct(&self) -> bool {
        self@.no_duplicates() && self.indexed()
    }

    /// The map of handles holds every name of the table with its position, and
    /// nothing else.
    pub closed spec fn indexed(&self) -> bool {
        &&& forall|h: int|
            0 <= h < self@.len() ==> self.handles@.contains_key(#[trigger] self@[h])
                && self.handles@[self@[h]] == h
        &&& forall|name: Seq<char>| #[trigger]
            self.handles@.contains_key(name) ==> self.handles@[name] < self@.len()
                && self@[self.handles@[name] as int] == name
    }

    /// An empty table.
    pub fn new() -> (table: Self)
        ensures
            table@ == Seq::<Seq<char>>::empty(),
    {
        let names: Vec<String> = Vec::new();
        assert(names.deep_view() =~= Seq::<Seq<char>>::empty());
        Interner { names, handles: StringHashMap::new() }
    }

    /// The number of names in the table.
    pub fn len(&self) -> (n: usize)
        ensures
            n == self@.len(),
    {
        self.names.len()
    }

    /// The name that `handle` stands for, if it is a handle of this table.
    pub fn get(&self, handle: usize) -> (name: Option<&str>)
        ensures
            match name {
                Some(s) => resolves(self@, handle, s@),
                None => handle >= self@.len(),
            },
    {
        if handle < self.names.len() {
            Some(self.names[handle].as_str())
        } else {
            None
        }
    }

    /// The handle of `name`, if the table holds it.
    pub fn lookup(&self, name: &str) -> (found: Option<usize>)
        ensures
            match found {
                Some(h) => resolves(self@, h, name@),
                None => !self@.contains(name@),
            },
    {
        proof {
            use_type_invariant(self);
        }
        match self.handles.get(name) {
            Some(handle) => Some(*handle),
            None => None,
        }
    }

    /// Interns `name`: returns its handle, appending the name to the table if it
    /// is new. Handles given out before stay as they were.
    pub fn intern(&mut self, name: &str) -> (handle: usize)
        ensures
            final(self)@ == interned(old(self)@, name@),
            resolves(final(self)@, handle, name@),
            final(self)@.no_duplicates(),
            grown_by(old(self)@, final(self)@, set![name@]),
    {
        proof {
            use_type_invariant(&*self);
            lemma_interned(self@, name@);
        }
        match self.lookup(name) {
            Some(handle) => handle,
            None => {
                let mut taken = Interner::new();
                core::mem::swap(self, &mut taken);
                let Interner { names, handles } = taken;
                let mut names = names;
                let mut handles = handles;
                let ghost before = names.deep_view();
                let ghost index = handles@;
                let handle = names.len();
                names.push(name.to_owned());
                handles.insert(name.to_owned(), handle);
                proof {
                    let after = names.deep_view();
                    assert(after =~= before.push(name@));
                    assert forall|h: int| 0 <= h < after.len() implies handles@.contains_key(
                        #[trigger] after[h],
                    ) && handles@[after[h]] == h by {
                        if h < before.len() {
                            assert(after[h] == before[h]);
                            assert(index.contains_key(before[h]));
                        }
                    }
                    assert forall|other: Seq<char>| #[trigger]
                        handles@.contains_key(other) implies handles@[other] < after.len()
                        && after[handles@[other] as int] == other by {
                        if other != name@ {
                            assert(index.contains_key(other));
                            assert(after[index[other] as int] == before[index[other] as int]);
                        }
                    }
                }
                *self = Interner { names, handles };
                handle
            },
        }
    }

    /// Interns every name of a list, in order, and returns their handles.
    pub fn intern_all(&mut self, names: &Vec<String>) -> (handles: Vec<usize>)
        ensures
            final(self)@ == interned_all(old(self)@, names.deep_view()),
            grown_by(old(self)@, final(self)@, names_in(names.deep_view())),
            final(self)@.no_duplicates(),
            resolve_all(final(self)@, handles@, names.deep_view()),
    {
        proof {
            use_type_invariant(&*self);
        }
        let ghost all = names_in(names.deep_view());
        let mut handles: Vec<usize> = Vec::new();
        let mut i: usize = 0;
        while i < names.len()
            invariant
                i <= names.len(),
                all == names_in(names.deep_view()),
                self@ == interned_all(old(self)@, names.deep_view().take(i as int)),
                grown_by(old(self)@, self@, all),
                self@.no_duplicates(),
                handles@.len() == i,
                forall|j: int|
                    0 <= j < i ==> resolves(self@, #[trigger] handles@[j], names.deep_view()[j]),
            decreases names.len() - i,
        {
            let ghost before = self@;
            let handle = self.intern(names[i].as_str());
            proof {
                let list = names.deep_view();
                assert(list.take(i + 1).drop_last() =~= list.take(i as int));
                assert(list.take(i + 1).last() == list[i as int]);
                assert(names.deep_view()[i as int] == names@[i as int]@);
                assert(names.deep_view().contains(names@[i as int]@));
                lemma_grown_by_one(old(self)@, before, self@, all, names@[i as int]@);
            }
            handles.push(handle);
            i += 1;
        }
        proof {
            assert(names.deep_view().take(names.len() as int) =~= names.deep_view());
        }
        handles
    }

    /// A copy of the table, in handle order.
    pub fn strings(&self) -> (names: Vec<String>)
        ensures
            names.deep_view() == self@,
    {
        let mut names: Vec<String> = Vec::new();
        let mut i: usize = 0;
        while i < self.names.len()
            invariant
                i <= self.names.len(),
                names.len() == i,
                forall|j: int| 0 <= j < i ==> names@[j]@ == self@[j],
            decreases self.names.len() - i,
        {
            names.push(self.names[i].clone());
            i += 1;
        }
        assert(names.deep_view() =~= self@);
        names
    }
}

/// Interns one name of a set by which the table has grown since `start`.
pub(crate) fn intern_one_of(
    ids: &mut Interner,
    name: &str,
    Ghost(start): Ghost<Seq<Seq<char>>>,
    Ghost(names): Ghost<Set<Seq<char>>>,
) -> (handle: usize)
    requires
        grown_by(start, old(ids)@, names),
        names.contains(name@),
    ensures
        grown_by(start, final(ids)@, names),
        extends(old(ids)@, final(ids)@),
        final(ids)@.no_duplicates(),
        resolves(final(ids)@, handle, name@),
{
    let ghost before = ids@;
    let handle = ids.intern(name);
    proof {
        lemma_grown_by_one(start, before, ids@, names, name@);
    }
    handle
}

} // verus!
