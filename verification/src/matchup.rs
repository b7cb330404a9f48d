use crate::catalog::Catalog;
use vstd::multiset::Multiset;
use vstd::prelude::*;

verus! {

/// One matchup row: the other hero and the win share of the pairing,
/// in basis points (hundredths of a percent, nominally 0 to 10000).
#[derive(PartialEq, Eq, Structural, Clone, Copy, Debug)]
pub struct OtherHero {
    pub hero_id2: u8,
    pub wins_average_bp: u32,
}

/// One hero's matchup rows: heroes it plays alongside and heroes it
/// plays against.
pub struct Hero {
    pub with: Vec<OtherHero>,
    pub vs: Vec<OtherHero>,
}

/// The matchup block of the statistics payload.
pub struct MatchUp {
    pub match_up: Vec<Hero>,
}

/// The whole decoded matchup response.
pub struct HeroQuery {
    pub hero_stats: MatchUp,
}

/// Which end of the win-share scale a ranked list leads with.
#[derive(PartialEq, Eq, Structural, Clone, Copy, Debug)]
pub enum RankDirection {
    Descending,
    Ascending,
}

/// True when `a` must stand strictly before `b` in the given direction.
/// Rows with equal win shares never precede one another strictly, which
/// is what keeps the ranking stable.
pub open spec fn precedes_strictly(dir: RankDirection, a: OtherHero, b: OtherHero) -> bool {
    match dir {
        RankDirection::Descending => a.wins_average_bp > b.wins_average_bp,
        RankDirection::Ascending => a.wins_average_bp < b.wins_average_bp,
    }
}

/// True when `a` may stand before `b`: `b` does not strictly precede `a`.
pub open spec fn ordered(dir: RankDirection, a: OtherHero, b: OtherHero) -> bool {
    !precedes_strictly(dir, b, a)
}

/// The sequence is ranked: every earlier row may stand before every
/// later one.
pub open spec fn sorted_by(dir: RankDirection, s: Seq<OtherHero>) -> bool {
    forall|i: int, j: int| 0 <= i < j < s.len() ==> ordered(dir, s[i], s[j])
}

/// Inserts a row into a ranked sequence: it passes every row it does not
/// strictly precede, so it lands after every row with an equal win share.
pub open spec fn insert_ranked(dir: RankDirection, s: Seq<OtherHero>, x: OtherHero) -> Seq<
    OtherHero,
>
    decreases s.len(),
{
    if s.len() == 0 {
        seq![x]
    } else if precedes_strictly(dir, x, s[0]) {
        seq![x] + s
    } else {
        seq![s[0]] + insert_ranked(dir, s.drop_first(), x)
    }
}

/// The stable ranking of a sequence: each row in turn is inserted after
/// the rows with equal win shares that came before it.
pub open spec fn rank_spec(dir: RankDirection, s: Seq<OtherHero>) -> Seq<OtherHero>
    decreases s.len(),
{
    if s.len() == 0 {
        Seq::empty()
    } else {
        insert_ranked(dir, rank_spec(dir, s.drop_last()), s.last())
    }
}

/// How long a size-bounded list comes out: the requested size, or the
/// whole list when fewer rows are available.
pub open spec fn top_len(n: int, len: int) -> int {
    if n <= len {
        n
    } else {
        len
    }
}

fn precedes(dir: RankDirection, a: &OtherHero, b: &OtherHero) -> (r: bool)
    ensures
        r == precedes_strictly(dir, *a, *b),
{
    match dir {
        RankDirection::Descending => a.wins_average_bp > b.wins_average_bp,
        RankDirection::Ascending => a.wins_average_bp < b.wins_average_bp,
    }
}

/// Ranks the rows in the given direction, ties standing in their original
/// order, and keeps the first `n`; fewer than `n` rows is a normal case
/// and yields them all.
pub fn rank(dir: RankDirection, entries: &Vec<OtherHero>, n: usize) -> (r: Vec<OtherHero>)
    ensures
        r@ == rank_spec(dir, entries@).take(top_len(n as int, entries@.len() as int)),
{
    let ghost s = entries@;
    let mut sorted: Vec<OtherHero> = Vec::new();
    let mut i: usize = 0;
    while i < entries.len()
        invariant
            entries@ == s,
            i <= s.len(),
            sorted@ == rank_spec(dir, s.take(i as int)),
        decreases s.len() - i,
    {
        let x = entries[i];
        let mut p: usize = 0;
        loop
            invariant
                p <= sorted@.len(),
                forall|q: int| 0 <= q < p ==> !precedes_strictly(dir, x, sorted@[q]),
            ensures
                p <= sorted@.len(),
                forall|q: int| 0 <= q < p ==> !precedes_strictly(dir, x, sorted@[q]),
                p < sorted@.len() ==> precedes_strictly(dir, x, sorted@[p as int]),
            decreases sorted@.len() - p,
        {
            if p == sorted.len() {
                break ;
            }
            if precedes(dir, &x, &sorted[p]) {
                break ;
            }
            p += 1;
        }
        proof {
            lemma_insert_ranked_at(dir, sorted@, x, p as int);
            assert(s.take(i + 1).drop_last() =~= s.take(i as int));
            assert(s.take(i + 1).last() == s[i as int]);
        }
        sorted.insert(p, x);
        i += 1;
    }
    proof {
        assert(s.take(s.len() as int) =~= s);
    }
    let m: usize = if n <= sorted.len() {
        n
    } else {
        sorted.len()
    };
    sorted.truncate(m);
    proof {
        lemma_rank_spec_len(dir, s);
        assert(sorted@ =~= rank_spec(dir, s).take(top_len(n as int, s.len() as int)));
    }
    sorted
}

/// Inserting a row lands it at the first position whose row it strictly
/// precedes.
proof fn lemma_insert_ranked_at(dir: RankDirection, s: Seq<OtherHero>, x: OtherHero, p: int)
    requires
        0 <= p <= s.len(),
        forall|q: int| 0 <= q < p ==> !precedes_strictly(dir, x, s[q]),
        p < s.len() ==> precedes_strictly(dir, x, s[p]),
    ensures
        insert_ranked(dir, s, x) == s.insert(p, x),
    decreases s.len(),
{
    if s.len() == 0 {
        assert(insert_ranked(dir, s, x) =~= s.insert(0, x));
    } else if p == 0 {
        assert(seq![x] + s =~= s.insert(0, x));
    } else {
        assert(!precedes_strictly(dir, x, s[0]));
        assert(forall|q: int| 0 <= q < p - 1 ==> s.drop_first()[q] == s[q + 1]);
        lemma_insert_ranked_at(dir, s.drop_first(), x, p - 1);
        assert(seq![s[0]] + s.drop_first().insert(p - 1, x) =~= s.insert(p, x));
    }
}

/// An inserted row makes the sequence one longer.
proof fn lemma_insert_ranked_len(dir: RankDirection, s: Seq<OtherHero>, x: OtherHero)
    ensures
        insert_ranked(dir, s, x).len() == s.len() + 1,
    decreases s.len(),
{
    if s.len() > 0 && !precedes_strictly(dir, x, s[0]) {
        lemma_insert_ranked_len(dir, s.drop_first(), x);
    }
}

/// Ranking keeps the number of rows.
pub proof fn lemma_rank_spec_len(dir: RankDirection, s: Seq<OtherHero>)
    ensures
        rank_spec(dir, s).len() == s.len(),
    decreases s.len(),
{
    if s.len() > 0 {
        lemma_rank_spec_len(dir, s.drop_last());
        lemma_insert_ranked_len(dir, rank_spec(dir, s.drop_last()), s.last());
    }
}

/// A row ordered before `x` and before every row of `s` is ordered before
/// every row of `s` with `x` inserted.
proof fn lemma_insert_ranked_bound(
    dir: RankDirection,
    y: OtherHero,
    s: Seq<OtherHero>,
    x: OtherHero,
)
    requires
        ordered(dir, y, x),
        forall|q: int| 0 <= q < s.len() ==> ordered(dir, y, s[q]),
    ensures
        forall|i: int|
            0 <= i < insert_ranked(dir, s, x).len() ==> ordered(dir, y, insert_ranked(dir, s, x)[i]),
    decreases s.len(),
{
    if s.len() == 0 {
    } else if precedes_strictly(dir, x, s[0]) {
    } else {
        assert(forall|q: int| 0 <= q < s.drop_first().len() ==> ordered(dir, y, s.drop_first()[q]));
        lemma_insert_ranked_bound(dir, y, s.drop_first(), x);
        let t = insert_ranked(dir, s.drop_first(), x);
        assert(forall|i: int|
            1 <= i < (seq![s[0]] + t).len() ==> (seq![s[0]] + t)[i] == t[i - 1]);
    }
}

/// Inserting into a ranked sequence keeps it ranked.
proof fn lemma_insert_ranked_sorted(dir: RankDirection, s: Seq<OtherHero>, x: OtherHero)
    requires
        sorted_by(dir, s),
    ensures
        sorted_by(dir, insert_ranked(dir, s, x)),
    decreases s.len(),
{
    if s.len() == 0 {
    } else if precedes_strictly(dir, x, s[0]) {
        let r = seq![x] + s;
        assert forall|i: int, j: int| 0 <= i < j < r.len() implies ordered(dir, r[i], r[j]) by {
            if i == 0 {
                assert(ordered(dir, s[0], s[j - 1]) || j == 1);
            } else {
                assert(ordered(dir, s[i - 1], s[j - 1]));
            }
        }
    } else {
        assert(forall|q: int|
            0 <= q < s.drop_first().len() ==> ordered(dir, s[0], s.drop_first()[q]));
        assert(sorted_by(dir, s.drop_first())) by {
            assert(forall|i: int, j: int|
                0 <= i < j < s.drop_first().len() ==> ordered(
                    dir,
                    s.drop_first()[i],
                    s.drop_first()[j],
                ));
        }
        lemma_insert_ranked_sorted(dir, s.drop_first(), x);
        lemma_insert_ranked_bound(dir, s[0], s.drop_first(), x);
        let t = insert_ranked(dir, s.drop_first(), x);
        let r = seq![s[0]] + t;
        assert forall|i: int, j: int| 0 <= i < j < r.len() implies ordered(dir, r[i], r[j]) by {
            if i == 0 {
                assert(ordered(dir, s[0], t[j - 1]));
            } else {
                assert(ordered(dir, t[i - 1], t[j - 1]));
            }
        }
    }
}

/// The ranked sequence is sorted in the requested direction: descending
/// win shares for best lists, ascending for worst-against lists.
pub proof fn lemma_rank_spec_sorted(dir: RankDirection, s: Seq<OtherHero>)
    ensures
        sorted_by(dir, rank_spec(dir, s)),
    decreases s.len(),
{
    if s.len() > 0 {
        lemma_rank_spec_sorted(dir, s.drop_last());
        lemma_insert_ranked_sorted(dir, rank_spec(dir, s.drop_last()), s.last());
    }
}

/// Inserting a row adds exactly that row to the contents.
proof fn lemma_insert_ranked_multiset(dir: RankDirection, s: Seq<OtherHero>, x: OtherHero)
    ensures
        insert_ranked(dir, s, x).to_multiset() == s.to_multiset().insert(x),
    decreases s.len(),
{
    broadcast use vstd::seq_lib::group_to_multiset_ensures;

    if s.len() == 0 {
        assert(seq![x] =~= Seq::<OtherHero>::empty().push(x));
        assert(insert_ranked(dir, s, x).to_multiset() =~= s.to_multiset().insert(x));
    } else if precedes_strictly(dir, x, s[0]) {
        vstd::seq_lib::lemma_multiset_commutative(seq![x], s);
        assert(seq![x] =~= Seq::<OtherHero>::empty().push(x));
        assert(seq![x].to_multiset() =~= Multiset::<OtherHero>::empty().insert(x));
        assert((seq![x] + s).to_multiset() =~= s.to_multiset().insert(x));
    } else {
        lemma_insert_ranked_multiset(dir, s.drop_first(), x);
        let t = insert_ranked(dir, s.drop_first(), x);
        vstd::seq_lib::lemma_multiset_commutative(seq![s[0]], t);
        vstd::seq_lib::lemma_multiset_commutative(seq![s[0]], s.drop_first());
        assert(seq![s[0]] + s.drop_first() =~= s);
        assert(seq![s[0]].to_multiset() =~= Multiset::<OtherHero>::empty().insert(s[0]));
        assert((seq![s[0]] + t).to_multiset() =~= s.to_multiset().insert(x));
    }
}

/// The ranked sequence is a permutation of the input: every row appears,
/// each exactly as often as it came in.
pub proof fn lemma_rank_spec_permutes(dir: RankDirection, s: Seq<OtherHero>)
    ensures
        rank_spec(dir, s).to_multiset() == s.to_multiset(),
    decreases s.len(),
{
    broadcast use vstd::seq_lib::group_to_multiset_ensures;

    if s.len() > 0 {
        lemma_rank_spec_permutes(dir, s.drop_last());
        lemma_insert_ranked_multiset(dir, rank_spec(dir, s.drop_last()), s.last());
        assert(s =~= s.drop_last().push(s.last()));
        assert(s.drop_last().push(s.last()).to_multiset() =~= s.drop_last().to_multiset().insert(
            s.last(),
        ));
    }
}

/// The rows that carry a given win share.
pub open spec fn has_share(v: u32) -> spec_fn(OtherHero) -> bool {
    |e: OtherHero| e.wins_average_bp == v
}

/// Filtering a single row keeps it exactly when it carries the share.
proof fn lemma_filter_singleton(x: OtherHero, v: u32)
    ensures
        seq![x].filter(has_share(v)) == if has_share(v)(x) {
            seq![x]
        } else {
            Seq::<OtherHero>::empty()
        },
{
    reveal_with_fuel(Seq::filter, 2);
    assert(seq![x].drop_last() =~= Seq::<OtherHero>::empty());
    if has_share(v)(x) {
        assert(seq![x].filter(has_share(v)) =~= seq![x]);
    } else {
        assert(seq![x].filter(has_share(v)) =~= Seq::<OtherHero>::empty());
    }
}

/// A sequence none of whose rows carries the share filters to nothing.
proof fn lemma_filter_all_false(s: Seq<OtherHero>, v: u32)
    requires
        forall|i: int| 0 <= i < s.len() ==> s[i].wins_average_bp != v,
    ensures
        s.filter(has_share(v)) == Seq::<OtherHero>::empty(),
    decreases s.len(),
{
    reveal(Seq::filter);
    if s.len() > 0 {
        lemma_filter_all_false(s.drop_last(), v);
    }
}

/// Inserting a row into a ranked sequence appends it to the rows that
/// carry its share and moves no other row across them.
proof fn lemma_insert_ranked_filter(dir: RankDirection, s: Seq<OtherHero>, x: OtherHero, v: u32)
    requires
        sorted_by(dir, s),
    ensures
        insert_ranked(dir, s, x).filter(has_share(v)) == if x.wins_average_bp == v {
            s.filter(has_share(v)).push(x)
        } else {
            s.filter(has_share(v))
        },
    decreases s.len(),
{
    broadcast use Seq::filter_distributes_over_add;

    reveal(Seq::filter);
    if s.len() == 0 {
        lemma_filter_singleton(x, v);
        if x.wins_average_bp == v {
            assert(seq![x] =~= Seq::<OtherHero>::empty().push(x));
        }
    } else if precedes_strictly(dir, x, s[0]) {
        lemma_filter_singleton(x, v);
        assert((seq![x] + s).filter(has_share(v)) == seq![x].filter(has_share(v)) + s.filter(
            has_share(v),
        ));
        if x.wins_average_bp == v {
            assert forall|i: int| 0 <= i < s.len() implies s[i].wins_average_bp != v by {
                if i > 0 {
                    assert(ordered(dir, s[0], s[i]));
                }
            }
            lemma_filter_all_false(s, v);
            assert(seq![x] + Seq::<OtherHero>::empty() =~= s.filter(has_share(v)).push(x));
        } else {
            assert(Seq::<OtherHero>::empty() + s.filter(has_share(v)) =~= s.filter(has_share(v)));
        }
    } else {
        assert(forall|q: int|
            0 <= q < s.drop_first().len() ==> ordered(dir, s[0], s.drop_first()[q]));
        assert(sorted_by(dir, s.drop_first())) by {
            assert(forall|i: int, j: int|
                0 <= i < j < s.drop_first().len() ==> ordered(
                    dir,
                    s.drop_first()[i],
                    s.drop_first()[j],
                ));
        }
        lemma_insert_ranked_filter(dir, s.drop_first(), x, v);
        lemma_filter_singleton(s[0], v);
        let t = insert_ranked(dir, s.drop_first(), x);
        assert((seq![s[0]] + t).filter(has_share(v)) == seq![s[0]].filter(has_share(v)) + t.filter(
            has_share(v),
        ));
        assert(s =~= seq![s[0]] + s.drop_first());
        assert(s.filter(has_share(v)) == seq![s[0]].filter(has_share(v)) + s.drop_first().filter(
            has_share(v),
        ));
        if x.wins_average_bp == v {
            Seq::push_distributes_over_add(
                seq![s[0]].filter(has_share(v)),
                s.drop_first().filter(has_share(v)),
                x,
            );
        }
    }
}

/// Ranking is stable: for every win share, the rows that carry it come
/// out in exactly the order they went in.
pub proof fn lemma_rank_spec_stable(dir: RankDirection, s: Seq<OtherHero>, v: u32)
    ensures
        rank_spec(dir, s).filter(has_share(v)) == s.filter(has_share(v)),
    decreases s.len(),
{
    reveal(Seq::filter);
    if s.len() > 0 {
        lemma_rank_spec_stable(dir, s.drop_last(), v);
        lemma_rank_spec_sorted(dir, s.drop_last());
        lemma_insert_ranked_filter(dir, rank_spec(dir, s.drop_last()), s.last(), v);
    }
}

/// One line of a ranked list, ready for presentation: a display name and
/// the win share of the pairing, in basis points.
pub struct RankedEntry {
    pub display_name: String,
    pub wins_average_bp: u32,
}

/// A labelled, ranked, size-bounded list.
pub struct RankedList {
    pub label: String,
    pub entries: Vec<RankedEntry>,
}

/// Rendering failure: a ranked row names an id the catalog does not hold,
/// as a stale id from a decoupled source would.
#[derive(PartialEq, Eq, Structural, Clone, Copy, Debug)]
pub enum RenderError {
    UnknownId(u8),
}

/// The id of the first row whose id the table does not know.
pub open spec fn first_missing(s: Seq<OtherHero>, m: Map<u8, Seq<char>>) -> Option<u8>
    decreases s.len(),
{
    if s.len() == 0 {
        None
    } else if !m.dom().contains(s[0].hero_id2) {
        Some(s[0].hero_id2)
    } else {
        first_missing(s.drop_first(), m)
    }
}

/// A ranked list renders in full exactly when the table knows every row's
/// id; rows that came out of the catalog-backed index always do.
pub proof fn lemma_first_missing_none_iff_all_known(s: Seq<OtherHero>, m: Map<u8, Seq<char>>)
    ensures
        first_missing(s, m) is None <==> forall|i: int|
            0 <= i < s.len() ==> m.dom().contains(#[trigger] s[i].hero_id2),
    decreases s.len(),
{
    if s.len() > 0 {
        lemma_first_missing_none_iff_all_known(s.drop_first(), m);
        assert(forall|i: int| 0 <= i < s.drop_first().len() ==> s.drop_first()[i] == s[i + 1]);
        if first_missing(s, m) is None {
            assert forall|i: int| 0 <= i < s.len() implies m.dom().contains(
                #[trigger] s[i].hero_id2,
            ) by {
                if i > 0 {
                    assert(m.dom().contains(s.drop_first()[i - 1].hero_id2));
                }
            }
        }
        if forall|i: int| 0 <= i < s.len() ==> m.dom().contains(#[trigger] s[i].hero_id2) {
            assert(m.dom().contains(s[0].hero_id2));
        }
    }
}

/// Once a prefix of the rows is known to the table, the first miss lies
/// in the rest.
proof fn lemma_first_missing_skip(s: Seq<OtherHero>, m: Map<u8, Seq<char>>, i: int)
    requires
        0 <= i <= s.len(),
        forall|j: int| 0 <= j < i ==> m.dom().contains(#[trigger] s[j].hero_id2),
    ensures
        first_missing(s, m) == first_missing(s.skip(i), m),
    decreases i,
{
    if i == 0 {
        assert(s.skip(0) =~= s);
    } else {
        assert(s.drop_first() =~= s.skip(1));
        assert(forall|j: int| 0 <= j < i - 1 ==> s.skip(1)[j] == s[j + 1]);
        lemma_first_missing_skip(s.skip(1), m, i - 1);
        assert(s.skip(1).skip(i - 1) =~= s.skip(i));
    }
}

/// Ranks the rows, keeps the first `n`, and renders each kept row with
/// its display name from the table. The first kept row whose id the
/// table does not know is reported as a typed miss, never a fault.
pub fn ranked_list(
    label: String,
    dir: RankDirection,
    entries: &Vec<OtherHero>,
    n: usize,
    catalog: &Catalog,
) -> (r: Result<RankedList, RenderError>)
    ensures
        ({
            let ranked = rank_spec(dir, entries@).take(top_len(n as int, entries@.len() as int));
            match r {
                Ok(rl) => {
                    &&& first_missing(ranked, catalog.as_map()) is None
                    &&& rl.label@ == label@
                    &&& rl.entries@.len() == ranked.len()
                    &&& forall|i: int|
                        0 <= i < ranked.len() ==> {
                            &&& (#[trigger] rl.entries@[i]).wins_average_bp
                                == ranked[i].wins_average_bp
                            &&& catalog.as_map().dom().contains(ranked[i].hero_id2)
                            &&& rl.entries@[i].display_name@ == catalog.as_map()[ranked[i].hero_id2]
                        }
                },
                Err(e) => {
                    &&& first_missing(ranked, catalog.as_map()) is Some
                    &&& e == RenderError::UnknownId(
                        first_missing(ranked, catalog.as_map())->Some_0,
                    )
                },
            }
        }),
{
    let ranked = rank(dir, entries, n);
    let ghost rs = ranked@;
    let mut out: Vec<RankedEntry> = Vec::new();
    let mut i: usize = 0;
    while i < ranked.len()
        invariant
            ranked@ == rs,
            rs == rank_spec(dir, entries@).take(top_len(n as int, entries@.len() as int)),
            i <= rs.len(),
            out@.len() == i,
            forall|j: int| 0 <= j < i ==> catalog.as_map().dom().contains(#[trigger] rs[j].hero_id2),
            forall|j: int|
                0 <= j < i ==> {
                    &&& (#[trigger] out@[j]).wins_average_bp == rs[j].wins_average_bp
                    &&& out@[j].display_name@ == catalog.as_map()[rs[j].hero_id2]
                },
        decreases rs.len() - i,
    {
        let row = ranked[i];
        match catalog.name_of(row.hero_id2) {
            Some(name) => {
                out.push(RankedEntry { display_name: name.clone(), wins_average_bp: row.wins_average_bp });
            },
            None => {
                proof {
                    lemma_first_missing_skip(rs, catalog.as_map(), i as int);
                    assert(rs.skip(i as int)[0] == rs[i as int]);
                    assert(rs.skip(i as int).len() > 0);
                    assert(first_missing(rs.skip(i as int), catalog.as_map()) == Some(
                        rs[i as int].hero_id2,
                    ));
                }
                return Err(RenderError::UnknownId(row.hero_id2));
            },
        }
        i += 1;
    }
    proof {
        lemma_first_missing_skip(rs, catalog.as_map(), rs.len() as int);
        assert(rs.skip(rs.len() as int) =~= Seq::<OtherHero>::empty());
    }
    Ok(RankedList { label, entries: out })
}

} // verus!
