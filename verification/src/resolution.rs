use vstd::prelude::*;

verus! {

/// An attribute bag as a mathematical map from field name to observed value.
/// An empty value means "not observed".
pub type Bag = Map<Seq<char>, Seq<char>>;

/// Every entry of `small` with a non-empty value is an entry of `large`.
pub open spec fn observed_within(small: Bag, large: Bag) -> bool {
    forall|k: Seq<char>|
        small.contains_key(k) && small[k].len() > 0 ==> large.contains_key(k) && large[k] == small[k]
}

/// The candidate bag matches the bag of an existing component: of the two,
/// the one with fewer entries (the existing one, if they have equally many)
/// has all its observed entries in the other.
pub open spec fn bags_match(existing: Bag, candidate: Bag) -> bool {
    if existing.len() > candidate.len() {
        observed_within(candidate, existing)
    } else {
        observed_within(existing, candidate)
    }
}

/// The existing bag after a matching candidate was merged into it: every
/// observed entry of the candidate whose name the existing bag lacks is added,
/// and nothing that the existing bag holds is changed.
pub open spec fn enriched(existing: Bag, candidate: Bag) -> Bag {
    Map::new(
        |k: Seq<char>|
            existing.contains_key(k) || (candidate.contains_key(k) && candidate[k].len() > 0),
        |k: Seq<char>|
            if existing.contains_key(k) {
                existing[k]
            } else {
                candidate[k]
            },
    )
}

/// Where the candidate's observed entries all stand in the existing bag,
/// merging the candidate changes nothing.
pub proof fn lemma_enriched_by_held_candidate(existing: Bag, candidate: Bag)
    requires
        observed_within(candidate, existing),
    ensures
        enriched(existing, candidate) == existing,
{
    assert(enriched(existing, candidate) =~= existing);
}

/// `i` is the position of the first bag that the candidate matches.
pub open spec fn is_first_match(bags: Seq<Bag>, candidate: Bag, i: int) -> bool {
    &&& 0 <= i < bags.len()
    &&& bags_match(bags[i], candidate)
    &&& forall|j: int| 0 <= j < i ==> !bags_match(#[trigger] bags[j], candidate)
}

/// The position of the first bag that the candidate matches, or the number of
/// bags where it matches none: the position at which the candidate's
/// component stands once the candidate is resolved.
pub open spec fn first_match(bags: Seq<Bag>, candidate: Bag) -> int {
    if exists|i: int| is_first_match(bags, candidate, i) {
        choose|i: int| is_first_match(bags, candidate, i)
    } else {
        bags.len() as int
    }
}

/// The component bags after the candidate was resolved against them: the
/// first matching bag is enriched, or the candidate is appended as the bag of
/// a new component.
pub open spec fn resolve(bags: Seq<Bag>, candidate: Bag) -> Seq<Bag> {
    let i = first_match(bags, candidate);
    if i < bags.len() {
        bags.update(i, enriched(bags[i], candidate))
    } else {
        bags.push(candidate)
    }
}

/// The first match is the only position that matches with no match before it.
pub proof fn lemma_first_match_is(bags: Seq<Bag>, candidate: Bag, i: int)
    requires
        is_first_match(bags, candidate, i),
    ensures
        first_match(bags, candidate) == i,
{
    let j = first_match(bags, candidate);
    assert(is_first_match(bags, candidate, j));
    if j < i {
        assert(!bags_match(bags[j], candidate));
    }
    if i < j {
        assert(!bags_match(bags[i], candidate));
    }
}

/// Where no bag matches, the first match is the number of bags.
pub proof fn lemma_first_match_none(bags: Seq<Bag>, candidate: Bag)
    requires
        forall|j: int| 0 <= j < bags.len() ==> !bags_match(#[trigger] bags[j], candidate),
    ensures
        first_match(bags, candidate) == bags.len(),
{
    if exists|i: int| is_first_match(bags, candidate, i) {
        let i = choose|i: int| is_first_match(bags, candidate, i);
        assert(!bags_match(bags[i], candidate));
    }
}

/// The first match is a position of the sequence or its length, and it
/// matches where it is a position.
pub proof fn lemma_first_match_range(bags: Seq<Bag>, candidate: Bag)
    ensures
        0 <= first_match(bags, candidate) <= bags.len(),
        first_match(bags, candidate) < bags.len() ==> is_first_match(
            bags,
            candidate,
            first_match(bags, candidate),
        ),
        first_match(bags, candidate) == bags.len() ==> forall|j: int|
            0 <= j < bags.len() ==> !bags_match(#[trigger] bags[j], candidate),
{
    if exists|i: int| is_first_match(bags, candidate, i) {
    } else {
        lemma_no_first_match(bags, candidate, bags.len() as int);
    }
}

/// Where no position is a first match, no position below `n` matches.
proof fn lemma_no_first_match(bags: Seq<Bag>, candidate: Bag, n: int)
    requires
        0 <= n <= bags.len(),
        !exists|i: int| is_first_match(bags, candidate, i),
    ensures
        forall|j: int| 0 <= j < n ==> !bags_match(#[trigger] bags[j], candidate),
    decreases n,
{
    if n > 0 {
        lemma_no_first_match(bags, candidate, n - 1);
        if bags_match(bags[n - 1], candidate) {
            assert(is_first_match(bags, candidate, n - 1));
        }
    }
}

} // verus!
