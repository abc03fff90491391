//! Initial conditions: the number of cases that each area starts with, kept
//! as a mapping that is listed in the order of the area codes.

use vstd::prelude::*;
use crate::area::{lemma_lex_irreflexive, lemma_lex_total, lemma_lex_transitive, lex_less, AreaCode};

verus! {

/// One area with its case count, as a pair of plain values.
pub type Pair = (Seq<u8>, usize);

/// The mapping that comes of giving each pair of a list, from the first to
/// the last, its area its count. Where no two pairs name the same area, as
/// in every listing, each area has the count of its one pair.
pub open spec fn pairs_map(pairs: Seq<Pair>) -> Map<Seq<u8>, usize>
    decreases pairs.len(),
{
    if pairs.len() == 0 {
        Map::empty()
    } else {
        pairs_map(pairs.drop_last()).insert(pairs.last().0, pairs.last().1)
    }
}

/// True when the pairs are listed in the order of their area codes, so that
/// no area is listed twice.
pub open spec fn ascending(pairs: Seq<Pair>) -> bool {
    forall|i: int, j: int|
        0 <= i < j < pairs.len() ==> lex_less(#[trigger] pairs[i].0, #[trigger] pairs[j].0)
}

/// Every area in the mapping of a list is named by a pair of the list that
/// gives it its count, and by no pair after that one.
pub proof fn lemma_mapped_is_listed(pairs: Seq<Pair>, area: Seq<u8>) -> (at: int)
    requires
        pairs_map(pairs).contains_key(area),
    ensures
        0 <= at < pairs.len(),
        pairs[at].0 == area,
        pairs_map(pairs)[area] == pairs[at].1,
        forall|j: int| at < j < pairs.len() ==> (#[trigger] pairs[j]).0 != area,
    decreases pairs.len(),
{
    if pairs.last().0 == area {
        pairs.len() - 1
    } else {
        let front = pairs.drop_last();
        let at = lemma_mapped_is_listed(front, area);
        assert forall|j: int| at < j < pairs.len() implies (#[trigger] pairs[j]).0 != area by {
            if j < front.len() {
                assert(front[j].0 != area);
            }
        }
        at
    }
}

/// Every area that a pair of a list names is in the mapping of the list.
pub proof fn lemma_listed_area_is_mapped(pairs: Seq<Pair>, at: int)
    requires
        0 <= at < pairs.len(),
    ensures
        pairs_map(pairs).contains_key(pairs[at].0),
    decreases pairs.len(),
{
    if at < pairs.len() - 1 {
        lemma_listed_area_is_mapped(pairs.drop_last(), at);
    }
}

/// A pair whose area no later pair names is in the mapping with its own
/// count.
proof fn lemma_unrepeated_pair_is_mapped(pairs: Seq<Pair>, at: int)
    requires
        0 <= at < pairs.len(),
        forall|j: int| at < j < pairs.len() ==> (#[trigger] pairs[j]).0 != pairs[at].0,
    ensures
        pairs_map(pairs).contains_key(pairs[at].0),
        pairs_map(pairs)[pairs[at].0] == pairs[at].1,
{
    lemma_listed_area_is_mapped(pairs, at);
    let last = lemma_mapped_is_listed(pairs, pairs[at].0);
    // The last pair that names the area is this one: none after it names
    // the area, and it comes after none that does.
    if last < at {
        assert(pairs[at].0 != pairs[last].0);
    } else if last > at {
        assert(pairs[last].0 != pairs[at].0);
    }
}

/// In a list in which no two pairs name the same area every pair is in the
/// mapping, with its own count.
pub proof fn lemma_distinct_pair_is_mapped(pairs: Seq<Pair>, at: int)
    requires
        forall|i: int, j: int|
            0 <= i < j < pairs.len() ==> (#[trigger] pairs[i]).0 != (#[trigger] pairs[j]).0,
        0 <= at < pairs.len(),
    ensures
        pairs_map(pairs).contains_key(pairs[at].0),
        pairs_map(pairs)[pairs[at].0] == pairs[at].1,
{
    lemma_unrepeated_pair_is_mapped(pairs, at);
}

/// The mapping of a list names finitely many areas, and as many as the list
/// has pairs where no two pairs name the same area.
pub proof fn lemma_distinct_areas_counted(pairs: Seq<Pair>)
    ensures
        pairs_map(pairs).dom().finite(),
        (forall|i: int, j: int|
            0 <= i < j < pairs.len() ==> (#[trigger] pairs[i]).0 != (#[trigger] pairs[j]).0)
            ==> pairs_map(pairs).dom().len() == pairs.len(),
    decreases pairs.len(),
{
    if pairs.len() > 0 {
        let front = pairs.drop_last();
        lemma_distinct_areas_counted(front);
        if forall|i: int, j: int|
            0 <= i < j < pairs.len() ==> (#[trigger] pairs[i]).0 != (#[trigger] pairs[j]).0 {
            assert forall|i: int, j: int| 0 <= i < j < front.len() implies (#[trigger] front[i]).0
                != (#[trigger] front[j]).0 by {
                assert(pairs[i].0 != pairs[j].0);
            }
            if pairs_map(front).contains_key(pairs.last().0) {
                let found = lemma_mapped_is_listed(front, pairs.last().0);
                assert(pairs[found].0 != pairs[pairs.len() - 1].0);
            }
        }
    }
}

/// In an ascending list every pair is in the mapping, with its own count.
pub proof fn lemma_listed_is_mapped(pairs: Seq<Pair>, at: int)
    requires
        ascending(pairs),
        0 <= at < pairs.len(),
    ensures
        pairs_map(pairs).contains_key(pairs[at].0),
        pairs_map(pairs)[pairs[at].0] == pairs[at].1,
{
    assert forall|j: int| at < j < pairs.len() implies (#[trigger] pairs[j]).0 != pairs[at].0 by {
        assert(lex_less(pairs[at].0, pairs[j].0));
        lemma_lex_irreflexive(pairs[at].0);
    }
    lemma_unrepeated_pair_is_mapped(pairs, at);
}

/// In an ascending list no two pairs name the same area.
pub proof fn lemma_ascending_distinct(pairs: Seq<Pair>)
    requires
        ascending(pairs),
    ensures
        forall|i: int, j: int|
            0 <= i < j < pairs.len() ==> (#[trigger] pairs[i]).0 != (#[trigger] pairs[j]).0,
{
    assert forall|i: int, j: int| 0 <= i < j < pairs.len() implies (#[trigger] pairs[i]).0 != (
    #[trigger] pairs[j]).0 by {
        assert(lex_less(pairs[i].0, pairs[j].0));
        lemma_lex_irreflexive(pairs[i].0);
    }
}

/// Listing a new area at its place keeps the list ascending and adds the
/// area to the mapping.
proof fn lemma_list_new_area(pairs: Seq<Pair>, at: int, area: Seq<u8>, cases: usize)
    requires
        ascending(pairs),
        0 <= at <= pairs.len(),
        forall|j: int| 0 <= j < at ==> lex_less(#[trigger] pairs[j].0, area),
        forall|j: int| at <= j < pairs.len() ==> lex_less(area, #[trigger] pairs[j].0),
    ensures
        ascending(pairs.insert(at, (area, cases))),
        !pairs_map(pairs).contains_key(area),
        pairs_map(pairs.insert(at, (area, cases))) == pairs_map(pairs).insert(area, cases),
{
    let grown = pairs.insert(at, (area, cases));
    pairs.insert_ensures(at, (area, cases));
    assert forall|i: int, j: int| 0 <= i < j < grown.len() implies lex_less(
        #[trigger] grown[i].0,
        #[trigger] grown[j].0,
    ) by {
        if j < at {
            assert(lex_less(pairs[i].0, pairs[j].0));
        } else if j == at {
            assert(lex_less(pairs[i].0, area));
        } else if i < at {
            assert(lex_less(pairs[i].0, pairs[j - 1].0));
        } else if i == at {
            assert(lex_less(area, pairs[j - 1].0));
        } else {
            assert(lex_less(pairs[i - 1].0, pairs[j - 1].0));
        }
    }
    lemma_lex_irreflexive(area);
    if pairs_map(pairs).contains_key(area) {
        let found = lemma_mapped_is_listed(pairs, area);
        assert(lex_less(pairs[found].0, area) || lex_less(area, pairs[found].0));
    }
    let wanted = pairs_map(pairs).insert(area, cases);
    assert forall|x: Seq<u8>| #[trigger]
        pairs_map(grown).dom().contains(x) == wanted.dom().contains(x) && (wanted.dom().contains(x)
            ==> pairs_map(grown)[x] == wanted[x]) by {
        if pairs_map(grown).dom().contains(x) {
            let found = lemma_mapped_is_listed(grown, x);
            if found < at {
                lemma_listed_is_mapped(pairs, found);
            } else if found > at {
                lemma_listed_is_mapped(pairs, found - 1);
            }
        }
        if x == area {
            lemma_listed_is_mapped(grown, at);
        } else if wanted.dom().contains(x) {
            let found = lemma_mapped_is_listed(pairs, x);
            lemma_listed_is_mapped(pairs, found);
            if found < at {
                lemma_listed_is_mapped(grown, found);
            } else {
                lemma_listed_is_mapped(grown, found + 1);
            }
        }
    }
    assert(pairs_map(grown) =~= wanted);
}

/// Without its last pair an ascending list is ascending, and describes the
/// mapping without the area of that pair.
proof fn lemma_front_of_ascending(pairs: Seq<Pair>)
    requires
        ascending(pairs),
        pairs.len() > 0,
    ensures
        ascending(pairs.drop_last()),
        pairs_map(pairs.drop_last()) == pairs_map(pairs).remove(pairs.last().0),
{
    let front = pairs.drop_last();
    let last = pairs.last();
    assert forall|i: int, j: int| 0 <= i < j < front.len() implies lex_less(
        #[trigger] front[i].0,
        #[trigger] front[j].0,
    ) by {
        assert(lex_less(pairs[i].0, pairs[j].0));
    }
    if pairs_map(front).contains_key(last.0) {
        let found = lemma_mapped_is_listed(front, last.0);
        lemma_ascending_distinct(pairs);
        assert(pairs[found].0 != pairs[pairs.len() - 1].0);
    }
    assert(pairs_map(front) =~= pairs_map(pairs).remove(last.0));
}

/// Two ascending lists that describe the same mapping are the same list: a
/// mapping is listed in one way only.
pub proof fn lemma_listing_is_determined(a: Seq<Pair>, b: Seq<Pair>)
    requires
        ascending(a),
        ascending(b),
        pairs_map(a) == pairs_map(b),
    ensures
        a == b,
    decreases a.len(),
{
    lemma_ascending_distinct(a);
    lemma_ascending_distinct(b);
    lemma_distinct_areas_counted(a);
    lemma_distinct_areas_counted(b);
    assert(a.len() == b.len());
    if a.len() == 0 {
        assert(a =~= b);
    } else {
        let end = a.len() - 1;
        lemma_listed_is_mapped(a, end);
        lemma_listed_is_mapped(b, end);
        let in_b = lemma_mapped_is_listed(b, a[end].0);
        let in_a = lemma_mapped_is_listed(a, b[end].0);
        if a[end].0 != b[end].0 {
            assert(in_b < end);
            assert(in_a < end);
            assert(lex_less(b[in_b].0, b[end].0));
            assert(lex_less(a[in_a].0, a[end].0));
            lemma_lex_transitive(a[end].0, b[end].0, a[end].0);
            lemma_lex_irreflexive(a[end].0);
        }
        assert(a.last() == b.last());
        lemma_front_of_ascending(a);
        lemma_front_of_ascending(b);
        lemma_listing_is_determined(a.drop_last(), b.drop_last());
        assert(a =~= a.drop_last().push(a.last()));
        assert(b =~= b.drop_last().push(b.last()));
    }
}

/// One area with its case count.
#[derive(Debug)]
struct Entry {
    code: AreaCode,
    cases: usize,
}

/// The pairs that a list of entries stands for.
spec fn pairs_of(entries: Seq<Entry>) -> Seq<Pair> {
    Seq::new(entries.len(), |i: int| (entries[i].code@, entries[i].cases))
}

/// The case count of each area at the start of a run. Its view is the mapping
/// from the bytes of an area code to the count.
#[derive(Debug)]
pub struct InitialConditions {
    entries: Vec<Entry>,
}

impl View for InitialConditions {
    type V = Map<Seq<u8>, usize>;

    closed spec fn view(&self) -> Map<Seq<u8>, usize> {
        pairs_map(self.listing())
    }
}

impl InitialConditions {
    #[verifier::type_invariant]
    spec fn well_formed(self) -> bool {
        ascending(self.listing())
    }

    /// The areas with their counts, in the order of the area codes.
    pub closed spec fn listing(&self) -> Seq<Pair> {
        pairs_of(self.entries@)
    }

    /// The view is the mapping that the listing describes.
    pub proof fn lemma_view_of_listing(&self)
        ensures
            self@ == pairs_map(self.listing()),
    {
    }

    /// Initial conditions with the same mapping are listed in the same way:
    /// what is handed on does not depend on the order in which the areas
    /// were given their counts.
    pub proof fn lemma_same_mapping_same_listing(&self, other: &InitialConditions)
        requires
            self@ == other@,
            ascending(self.listing()),
            ascending(other.listing()),
        ensures
            self.listing() == other.listing(),
    {
        lemma_listing_is_determined(self.listing(), other.listing());
    }

    /// Initial conditions that name no area.
    pub fn new() -> (empty: InitialConditions)
        ensures
            empty@ == Map::<Seq<u8>, usize>::empty(),
            empty.listing() == Seq::<Pair>::empty(),
    {
        let empty = InitialConditions { entries: Vec::new() };
        assert(empty.listing() =~= Seq::<Pair>::empty());
        empty
    }

    /// The number of areas.
    pub fn len(&self) -> (count: usize)
        ensures
            count == self.listing().len(),
            count == self@.dom().len(),
            self@.dom().finite(),
            ascending(self.listing()),
    {
        proof {
            use_type_invariant(self);
            lemma_ascending_distinct(self.listing());
            lemma_distinct_areas_counted(self.listing());
        }
        self.entries.len()
    }

    /// The area at a place of the listing with its count, or nothing past the
    /// end of the listing.
    pub fn entry(&self, index: usize) -> (found: Option<(&AreaCode, usize)>)
        ensures
            found is Some <==> index < self.listing().len(),
            found matches Some((code, cases)) ==> self.listing()[index as int] == (code@, cases),
            ascending(self.listing()),
    {
        proof {
            use_type_invariant(self);
        }
        if index < self.entries.len() {
            Some((&self.entries[index].code, self.entries[index].cases))
        } else {
            None
        }
    }

    /// The first place of the listing whose area does not come before `area`.
    fn place(&self, area: &AreaCode) -> (at: usize)
        ensures
            at <= self.listing().len(),
            forall|j: int| 0 <= j < at ==> lex_less(#[trigger] self.listing()[j].0, area@),
            forall|j: int|
                at <= j < self.listing().len() ==> !lex_less(
                    #[trigger] self.listing()[j].0,
                    area@,
                ),
    {
        proof {
            use_type_invariant(self);
        }
        let ghost pairs = self.listing();
        let mut low: usize = 0;
        let mut high: usize = self.entries.len();
        while low < high
            invariant
                pairs == self.listing(),
                ascending(pairs),
                low <= high <= self.entries@.len(),
                forall|j: int| 0 <= j < low ==> lex_less(#[trigger] pairs[j].0, area@),
                forall|j: int| high <= j < pairs.len() ==> !lex_less(#[trigger] pairs[j].0, area@),
            decreases high - low,
        {
            let middle: usize = low + (high - low) / 2;
            if self.entries[middle].code.precedes(area) {
                assert forall|j: int| 0 <= j < middle + 1 implies lex_less(
                    #[trigger] pairs[j].0,
                    area@,
                ) by {
                    if j < middle {
                        assert(lex_less(pairs[j].0, pairs[middle as int].0));
                        lemma_lex_transitive(pairs[j].0, pairs[middle as int].0, area@);
                    }
                }
                low = middle + 1;
            } else {
                assert forall|j: int| middle <= j < pairs.len() implies !lex_less(
                    #[trigger] pairs[j].0,
                    area@,
                ) by {
                    if middle < j && lex_less(pairs[j].0, area@) {
                        assert(lex_less(pairs[middle as int].0, pairs[j].0));
                        lemma_lex_transitive(pairs[middle as int].0, pairs[j].0, area@);
                    }
                }
                high = middle;
            }
        }
        low
    }

    /// The count of an area, or nothing for an area that is not named.
    pub fn get(&self, area: &AreaCode) -> (cases: Option<usize>)
        ensures
            cases == (if self@.contains_key(area@) {
                Some(self@[area@])
            } else {
                None
            }),
    {
        proof {
            use_type_invariant(self);
        }
        let at = self.place(area);
        if at < self.entries.len() && self.entries[at].code.same(area) {
            proof {
                lemma_listed_is_mapped(self.listing(), at as int);
            }
            Some(self.entries[at].cases)
        } else {
            proof {
                let pairs = self.listing();
                if pairs_map(pairs).contains_key(area@) {
                    let found = lemma_mapped_is_listed(pairs, area@);
                    lemma_lex_irreflexive(area@);
                    if found > at {
                        assert(lex_less(pairs[at as int].0, pairs[found].0));
                    }
                }
            }
            None
        }
    }

    /// Names an area with its count. An area is named once: where it is
    /// named already nothing changes, and the count that it has is returned.
    pub fn insert(&mut self, area: AreaCode, cases: usize) -> (earlier: Option<usize>)
        ensures
            match earlier {
                None => !old(self)@.contains_key(area@) && final(self)@ == old(self)@.insert(
                    area@,
                    cases,
                ),
                Some(count) => old(self)@.contains_key(area@) && old(self)@[area@] == count
                    && final(self)@ == old(self)@ && final(self).listing() == old(self).listing(),
            },
    {
        proof {
            use_type_invariant(&*self);
        }
        let ghost pairs = self.listing();
        let at = self.place(&area);
        if at < self.entries.len() && self.entries[at].code.same(&area) {
            proof {
                lemma_listed_is_mapped(pairs, at as int);
            }
            return Some(self.entries[at].cases);
        }
        proof {
            assert forall|j: int| at <= j < pairs.len() implies lex_less(
                area@,
                #[trigger] pairs[j].0,
            ) by {
                lemma_lex_total(area@, pairs[j].0);
                if j > at && pairs[j].0 == area@ {
                    assert(lex_less(pairs[at as int].0, pairs[j].0));
                }
            }
            lemma_list_new_area(pairs, at as int, area@, cases);
            pairs.insert_ensures(at as int, (area@, cases));
        }
        // The entries are taken out while they change, and put back in order.
        let mut entries: Vec<Entry> = Vec::new();
        assert(pairs_of(entries@) =~= Seq::<Pair>::empty());
        core::mem::swap(&mut self.entries, &mut entries);
        assert(pairs_of(entries@) == pairs);
        let ghost area_view = area@;
        entries.insert(at, Entry { code: area, cases });
        assert(pairs_of(entries@) =~= pairs.insert(at as int, (area_view, cases)));
        self.entries = entries;
        None
    }
}

} // verus!
