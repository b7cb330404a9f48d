use crate::catalog::{map_of, Catalog, CatalogError, Entity};
use indicium::simple::SearchIndex;
use vstd::pervasive::unreached;
use vstd::prelude::*;

verus! {

/// Carries indicium's search index behind an opaque boundary: the value
/// is built and queried only through the trusted functions below.
#[verifier::external_body]
pub struct FuzzyIndex {
    inner: SearchIndex<u8>,
}

/// What the index holds: each indexed id and the display name it was
/// indexed under.
pub uninterp spec fn index_model(i: FuzzyIndex) -> Map<u8, Seq<char>>;

/// What a search over given index contents returns for a query: the ids
/// of the matching entities, in the order the index reports them.
pub uninterp spec fn search_hits(contents: Map<u8, Seq<char>>, query: Seq<char>) -> Seq<u8>;

/// Contents of an index nothing was inserted into.
pub open spec fn empty_contents() -> Map<u8, Seq<char>> {
    Map::empty()
}

/// Relies on indicium's `SearchIndex::default`: a fresh index with the
/// default settings holds nothing.
#[verifier::external_body]
fn new_search_index() -> (r: FuzzyIndex)
    ensures
        index_model(r) == empty_contents(),
{
    FuzzyIndex { inner: SearchIndex::default() }
}

/// Relies on indicium's `SearchIndex::insert`: indexing a fresh id under
/// a display name adds exactly that pair to the contents.
#[verifier::external_body]
fn search_index_insert(i: &mut FuzzyIndex, key: u8, name: &String)
    requires
        !index_model(*old(i)).dom().contains(key),
    ensures
        index_model(*final(i)) == index_model(*old(i)).insert(key, name@),
{
    i.inner.insert(&key, name);
}

/// Relies on indicium's `SearchIndex::search`: with fixed settings the
/// hits are a function of the contents and the query alone, and every
/// hit is an id that was indexed.
#[verifier::external_body]
fn search_index_search(i: &FuzzyIndex, query: &str) -> (r: Vec<u8>)
    ensures
        r@ == search_hits(index_model(*i), query@),
        forall|j: int| 0 <= j < r@.len() ==> index_model(*i).dom().contains(r@[j]),
{
    i.inner.search(query).into_iter().copied().collect()
}

/// The fuzzy name index over the entity catalog: approximate, case- and
/// partial-tolerant lookup from typed text to catalog entries. Built once
/// at startup and read-only afterwards.
pub struct EntityIndex {
    index: FuzzyIndex,
    catalog: Catalog,
}

impl EntityIndex {
    /// The id -> display-name table the index was built over.
    pub closed spec fn catalog_map(&self) -> Map<u8, Seq<char>> {
        self.catalog.as_map()
    }

    /// Every indexed id maps back to exactly the display name the
    /// catalog holds for it.
    #[verifier::type_invariant]
    spec fn inv(&self) -> bool {
        index_model(self.index) == self.catalog.as_map()
    }

    /// Builds the catalog and the fuzzy index over it: every entry's id
    /// is indexed under its display name. An entry repeating an earlier
    /// id is rejected as a typed error.
    pub fn build(entities: Vec<Entity>) -> (r: Result<EntityIndex, CatalogError>)
        ensures
            match r {
                Ok(ix) => {
                    &&& crate::catalog::first_dup(entities@) is None
                    &&& ix.catalog_map() == map_of(entities@)
                },
                Err(e) => {
                    &&& crate::catalog::first_dup(entities@) is Some
                    &&& e == CatalogError::DuplicateId(
                        crate::catalog::first_dup(entities@)->Some_0,
                    )
                },
            },
    {
        let ghost es = entities@;
        let catalog = match Catalog::new(entities) {
            Ok(c) => c,
            Err(e) => {
                return Err(e);
            },
        };
        proof {
            crate::catalog::lemma_first_dup_none_iff_unique(es);
        }
        let mut index = new_search_index();
        let mut i: usize = 0;
        while i < catalog.len()
            invariant
                catalog@ == es,
                crate::catalog::unique_ids(es),
                i <= es.len(),
                index_model(index) == map_of(es.take(i as int)),
            decreases es.len() - i,
        {
            let entry = catalog.get(i);
            proof {
                crate::catalog::lemma_map_of_dom(es.take(i as int));
                assert(forall|j: int| 0 <= j < i ==> es.take(i as int)[j] == es[j]);
                assert(!map_of(es.take(i as int)).dom().contains(entry.id));
                assert(es.take(i + 1).drop_last() =~= es.take(i as int));
                assert(es.take(i + 1).last() == es[i as int]);
            }
            search_index_insert(&mut index, entry.id, &entry.display_name);
            i += 1;
        }
        proof {
            assert(es.take(es.len() as int) =~= es);
        }
        Ok(EntityIndex { index, catalog })
    }

    /// The catalog the index was built over, for rendering ids back to
    /// display names.
    pub fn catalog(&self) -> (r: &Catalog)
        ensures
            r.as_map() == self.catalog_map(),
    {
        &self.catalog
    }

    /// Searches the index with free text and returns the matching ids in
    /// the index's reported order. Every returned id is in the catalog; an
    /// empty result is the normal outcome for an unknown name, not a fault.
    pub fn search_ids(&self, query: &str) -> (r: Vec<u8>)
        ensures
            r@ == search_hits(self.catalog_map(), query@),
            forall|j: int| 0 <= j < r@.len() ==> self.catalog_map().dom().contains(r@[j]),
    {
        proof {
            use_type_invariant(&*self);
        }
        search_index_search(&self.index, query)
    }

    /// Searches the index with free text and resolves each hit to its
    /// catalog entry, in the index's reported order.
    pub fn search(&self, query: &str) -> (r: Vec<Entity>)
        ensures
            ({
                let hits = search_hits(self.catalog_map(), query@);
                &&& r@.len() == hits.len()
                &&& forall|i: int|
                    0 <= i < hits.len() ==> {
                        &&& (#[trigger] r@[i]).id == hits[i]
                        &&& self.catalog_map().dom().contains(hits[i])
                        &&& r@[i].display_name@ == self.catalog_map()[hits[i]]
                    }
            }),
    {
        let ids = self.search_ids(query);
        let ghost hits = ids@;
        let mut out: Vec<Entity> = Vec::new();
        let mut i: usize = 0;
        while i < ids.len()
            invariant
                ids@ == hits,
                hits == search_hits(self.catalog_map(), query@),
                forall|j: int| 0 <= j < hits.len() ==> self.catalog_map().dom().contains(hits[j]),
                i <= hits.len(),
                out@.len() == i,
                forall|j: int|
                    0 <= j < i ==> {
                        &&& (#[trigger] out@[j]).id == hits[j]
                        &&& out@[j].display_name@ == self.catalog_map()[hits[j]]
                    },
            decreases hits.len() - i,
        {
            let id = ids[i];
            match self.catalog.name_of(id) {
                Some(name) => {
                    out.push(Entity { id, display_name: name.clone() });
                },
                None => {
                    return unreached();
                },
            }
            i += 1;
        }
        out
    }
}

} // verus!
