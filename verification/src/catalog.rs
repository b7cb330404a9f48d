use vstd::prelude::*;

verus! {

/// A game entity: a canonical numeric identifier and the display name
/// players type and see.
pub struct Entity {
    pub id: u8,
    pub display_name: String,
}

/// How building a catalog can fail: two entries carried the same id.
#[derive(PartialEq, Eq, Structural, Clone, Copy, Debug)]
pub enum CatalogError {
    DuplicateId(u8),
}

/// The id -> display-name table as a mathematical map. Later entries win,
/// though a well-formed catalog never has two entries with one id.
pub open spec fn map_of(s: Seq<Entity>) -> Map<u8, Seq<char>>
    decreases s.len(),
{
    if s.len() == 0 {
        Map::empty()
    } else {
        map_of(s.drop_last()).insert(s.last().id, s.last().display_name@)
    }
}

/// No two entries share an id.
pub open spec fn unique_ids(s: Seq<Entity>) -> bool {
    forall|i: int, j: int|
        #![trigger s[i].id, s[j].id]
        0 <= i < j < s.len() ==> s[i].id != s[j].id
}

/// The id of the first entry that repeats an earlier entry's id, scanning
/// left to right; `None` when every id is fresh.
pub open spec fn first_dup(s: Seq<Entity>) -> Option<u8>
    decreases s.len(),
{
    if s.len() == 0 {
        None
    } else if first_dup(s.drop_last()) is Some {
        first_dup(s.drop_last())
    } else if exists|i: int| 0 <= i < s.len() - 1 && #[trigger] s[i].id == s.last().id {
        Some(s.last().id)
    } else {
        None
    }
}

/// The lookup table from entity id to display name, built once at startup
/// and never mutated afterwards.
pub struct Catalog {
    entries: Vec<Entity>,
}

impl View for Catalog {
    type V = Seq<Entity>;

    closed spec fn view(&self) -> Seq<Entity> {
        self.entries@
    }
}

impl Catalog {
    /// The table seen as a map from id to display name.
    pub open spec fn as_map(&self) -> Map<u8, Seq<char>> {
        map_of(self@)
    }

    /// Builds the table, rejecting the first entry whose id repeats an
    /// earlier one.
    pub fn new(entries: Vec<Entity>) -> (r: Result<Catalog, CatalogError>)
        ensures
            match r {
                Ok(c) => first_dup(entries@) is None && c@ == entries@,
                Err(e) => {
                    &&& first_dup(entries@) is Some
                    &&& e == CatalogError::DuplicateId(first_dup(entries@)->Some_0)
                },
            },
    {
        let ghost s = entries@;
        let mut seen: Vec<bool> = Vec::new();
        let mut k: usize = 0;
        while k < 256
            invariant
                k <= 256,
                seen@.len() == k,
                forall|t: int| 0 <= t < k ==> !seen@[t],
            decreases 256 - k,
        {
            seen.push(false);
            k += 1;
        }
        let mut i: usize = 0;
        while i < entries.len()
            invariant
                entries@ == s,
                i <= s.len(),
                seen@.len() == 256,
                first_dup(s.take(i as int)) is None,
                forall|t: int|
                    0 <= t < 256 ==> #[trigger] seen@[t] == exists|j: int|
                        0 <= j < i && #[trigger] s[j].id == t,
            decreases s.len() - i,
        {
            let id = entries[i].id;
            proof {
                assert(s.take(i + 1).drop_last() =~= s.take(i as int));
                assert(s.take(i + 1).last() == s[i as int]);
            }
            if seen[id as usize] {
                proof {
                    let j = choose|j: int| 0 <= j < i && #[trigger] s[j].id == id;
                    assert(s.take(i + 1)[j] == s[j]);
                    assert(0 <= j < s.take(i + 1).len() - 1
                        && s.take(i + 1)[j].id == s.take(i + 1).last().id);
                    assert(first_dup(s.take(i + 1)) == Some(id));
                    lemma_first_dup_mono(s, i + 1);
                }
                return Err(CatalogError::DuplicateId(id));
            }
            proof {
                assert(forall|j: int| 0 <= j < i ==> #[trigger] s[j].id != id);
                assert(first_dup(s.take(i + 1)) is None);
            }
            seen.set(id as usize, true);
            i += 1;
        }
        proof {
            assert(s.take(s.len() as int) =~= s);
        }
        Ok(Catalog { entries })
    }

    /// How many entries the table holds.
    pub fn len(&self) -> (r: usize)
        ensures
            r == self@.len(),
    {
        self.entries.len()
    }

    /// The entry at a position.
    pub fn get(&self, i: usize) -> (r: &Entity)
        requires
            i < self@.len(),
        ensures
            *r == self@[i as int],
    {
        &self.entries[i]
    }

    /// Looks an id up in the table; `None` exactly when the id is absent,
    /// so a stale id from a decoupled source is a typed miss, never a fault.
    pub fn name_of(&self, id: u8) -> (r: Option<&String>)
        ensures
            match r {
                Some(name) => self.as_map().dom().contains(id) && name@ == self.as_map()[id],
                None => !self.as_map().dom().contains(id),
            },
    {
        let mut i: usize = self.entries.len();
        while i > 0
            invariant
                i <= self@.len(),
                forall|j: int| i <= j < self@.len() ==> #[trigger] self@[j].id != id,
            decreases i,
        {
            i -= 1;
            if self.entries[i].id == id {
                proof {
                    lemma_map_of_present(self@, i as int);
                }
                return Some(&self.entries[i].display_name);
            }
        }
        proof {
            lemma_map_of_absent(self@, id);
        }
        None
    }
}

/// Once a prefix of the catalog shows a repeated id, the whole catalog
/// reports that same first repeat.
proof fn lemma_first_dup_mono(s: Seq<Entity>, j: int)
    requires
        0 <= j <= s.len(),
        first_dup(s.take(j)) is Some,
    ensures
        first_dup(s) == first_dup(s.take(j)),
    decreases s.len() - j,
{
    if j == s.len() {
        assert(s.take(j) =~= s);
    } else {
        assert(s.take(j + 1).drop_last() =~= s.take(j));
        lemma_first_dup_mono(s, j + 1);
    }
}

/// An id that no entry carries is not in the map.
proof fn lemma_map_of_absent(s: Seq<Entity>, id: u8)
    requires
        forall|i: int| 0 <= i < s.len() ==> #[trigger] s[i].id != id,
    ensures
        !map_of(s).dom().contains(id),
    decreases s.len(),
{
    if s.len() > 0 {
        lemma_map_of_absent(s.drop_last(), id);
    }
}

/// The map sends an id to the name of its last entry with that id.
proof fn lemma_map_of_present(s: Seq<Entity>, i: int)
    requires
        0 <= i < s.len(),
        forall|j: int| i < j < s.len() ==> #[trigger] s[j].id != s[i].id,
    ensures
        map_of(s).dom().contains(s[i].id),
        map_of(s)[s[i].id] == s[i].display_name@,
    decreases s.len(),
{
    if i == s.len() - 1 {
    } else {
        lemma_map_of_present(s.drop_last(), i);
    }
}

/// An id is in the map exactly when some entry carries it.
pub proof fn lemma_map_of_dom(s: Seq<Entity>)
    ensures
        forall|k: u8|
            map_of(s).dom().contains(k) <==> exists|i: int| 0 <= i < s.len() && #[trigger] s[i].id == k,
    decreases s.len(),
{
    if s.len() > 0 {
        lemma_map_of_dom(s.drop_last());
        assert forall|k: u8| map_of(s).dom().contains(k) implies exists|i: int|
            0 <= i < s.len() && #[trigger] s[i].id == k by {
            if k == s.last().id {
                assert(s[s.len() - 1].id == k);
            } else {
                assert(map_of(s.drop_last()).dom().contains(k));
                let i = choose|i: int|
                    0 <= i < s.drop_last().len() && #[trigger] s.drop_last()[i].id == k;
                assert(s.drop_last()[i] == s[i]);
                assert(s[i].id == k);
            }
        }
        assert forall|k: u8| (exists|i: int| 0 <= i < s.len() && #[trigger] s[i].id == k)
            implies map_of(s).dom().contains(k) by {
            let i = choose|i: int| 0 <= i < s.len() && #[trigger] s[i].id == k;
            if i < s.len() - 1 {
                assert(s.drop_last()[i].id == k);
                assert(map_of(s.drop_last()).dom().contains(k));
            }
        }
    }
}

/// A catalog accepts exactly the entry lists whose ids are unique.
pub proof fn lemma_first_dup_none_iff_unique(s: Seq<Entity>)
    ensures
        first_dup(s) is None <==> unique_ids(s),
    decreases s.len(),
{
    if s.len() > 0 {
        lemma_first_dup_none_iff_unique(s.drop_last());
        if unique_ids(s) {
            assert(unique_ids(s.drop_last())) by {
                assert(forall|i: int, j: int|
                    #![trigger s.drop_last()[i].id, s.drop_last()[j].id]
                    0 <= i < j < s.drop_last().len() ==> s[i].id != s[j].id);
            }
        }
        if first_dup(s) is None {
            assert(unique_ids(s.drop_last()));
            assert(forall|i: int| 0 <= i < s.len() - 1 ==> #[trigger] s[i].id != s.last().id);
            assert forall|i: int, j: int|
                #![trigger s[i].id, s[j].id]
                0 <= i < j < s.len() implies s[i].id != s[j].id by {
                if j == s.len() - 1 {
                    assert(s[i].id != s.last().id);
                } else {
                    assert(s.drop_last()[i].id != s.drop_last()[j].id);
                }
            }
        }
    }
}

} // verus!
