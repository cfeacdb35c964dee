//! The reassembler: puts the stored segments together into one artifact, in
//! rising order of their keys.
//!
//! The caller lists the work area and hands over each entry's name and
//! bytes; what comes back is the content of the artifact. In which order the
//! segments were fetched or listed plays no part in it.

use vstd::prelude::*;
use crate::text::{parse_unsigned, parse_usize};

verus! {

/// An entry of the work area: a stored segment under its name.
#[derive(Clone, Debug, PartialEq, Eq)]
pub struct StoredSegment {
    pub name: String,
    pub bytes: Vec<u8>,
}

/// Why the work area could not be put together.
#[derive(Clone, Copy, Debug, PartialEq, Eq)]
pub enum ReassembleError {
    /// The name of the entry at `position` of the listing is no cache key.
    MalformedEntry { position: usize },
}

/// The key that an entry called `name` is sorted by; zero where the name is
/// no key.
pub open spec fn key_of(name: Seq<char>) -> nat {
    match parse_unsigned(name) {
        Some(key) => key,
        None => 0,
    }
}

/// The keys of the entries, in the order of the listing.
pub open spec fn keys_of(entries: Seq<StoredSegment>) -> Seq<nat> {
    entries.map_values(|entry: StoredSegment| key_of(entry.name@))
}

/// The contents of the entries, in the order of the listing.
pub open spec fn contents_of(entries: Seq<StoredSegment>) -> Seq<Seq<u8>> {
    entries.map_values(|entry: StoredSegment| entry.bytes@)
}

/// The contents of those of the first `upto` entries that have the key
/// `key`, one after the other in the order of the listing.
pub open spec fn with_key(keys: Seq<nat>, contents: Seq<Seq<u8>>, key: nat, upto: nat) -> Seq<u8>
    decreases upto,
{
    if upto == 0 {
        Seq::empty()
    } else {
        let earlier = with_key(keys, contents, key, (upto - 1) as nat);
        if keys[upto - 1] == key {
            earlier + contents[upto - 1]
        } else {
            earlier
        }
    }
}

/// The contents of the entries whose key is below `bound`, one after the
/// other in rising order of their keys.
pub open spec fn keys_below(keys: Seq<nat>, contents: Seq<Seq<u8>>, bound: nat) -> Seq<u8>
    decreases bound,
{
    if bound == 0 {
        Seq::empty()
    } else {
        keys_below(keys, contents, (bound - 1) as nat) + with_key(
            keys,
            contents,
            (bound - 1) as nat,
            keys.len(),
        )
    }
}

/// The artifact: the contents of all entries, one after the other in rising
/// order of their keys. Entries with the same key, which a work area that
/// only this library wrote does not have, follow each other as listed.
pub open spec fn assembled(keys: Seq<nat>, contents: Seq<Seq<u8>>) -> Seq<u8> {
    keys_below(keys, contents, (usize::MAX + 1) as nat)
}

/// The entry at `p` goes into the artifact before the entry at `q`.
pub open spec fn comes_before(keys: Seq<nat>, p: int, q: int) -> bool {
    keys[p] < keys[q] || (keys[p] == keys[q] && p < q)
}

/// The position `p` stands in `order`.
pub open spec fn stands_in(order: Seq<usize>, p: int) -> bool {
    exists|t: int| 0 <= t < order.len() && #[trigger] order[t] == p
}

/// `order` lists every position of `keys` once, each before all that go into
/// the artifact after it.
pub open spec fn is_assembly_order(keys: Seq<nat>, order: Seq<usize>) -> bool {
    &&& order.len() == keys.len()
    &&& forall|t: int| 0 <= t < order.len() ==> 0 <= #[trigger] order[t] < keys.len()
    &&& forall|s: int, t: int|
        0 <= s < t < order.len() ==> comes_before(
            keys,
            #[trigger] order[s] as int,
            #[trigger] order[t] as int,
        )
    &&& forall|p: int| 0 <= p < keys.len() ==> #[trigger] stands_in(order, p)
}

/// The contents of the entries at the first `upto` positions of `order`,
/// one after the other.
pub open spec fn in_order(contents: Seq<Seq<u8>>, order: Seq<usize>, upto: nat) -> Seq<u8>
    decreases upto,
{
    if upto == 0 {
        Seq::empty()
    } else {
        in_order(contents, order, (upto - 1) as nat) + contents[order[upto - 1] as int]
    }
}

/// The keys as unbounded numbers.
pub open spec fn key_models(keys: Seq<usize>) -> Seq<nat> {
    keys.map_values(|key: usize| key as nat)
}

/// Reads the names of the entries as keys.
pub fn parse_keys(entries: &Vec<StoredSegment>) -> (parsed: Result<Vec<usize>, ReassembleError>)
    ensures
        match parsed {
            Ok(keys) => key_models(keys@) == keys_of(entries@) && forall|j: int|
                0 <= j < entries@.len() ==> parse_unsigned(#[trigger] entries@[j].name@) is Some,
            Err(ReassembleError::MalformedEntry { position }) => position < entries@.len()
                && parse_unsigned(entries@[position as int].name@) is None && forall|j: int|
                0 <= j < position ==> parse_unsigned(#[trigger] entries@[j].name@) is Some,
        },
{
    let mut keys: Vec<usize> = Vec::new();
    let mut j: usize = 0;
    while j < entries.len()
        invariant
            j <= entries.len(),
            keys@.len() == j,
            forall|i: int| 0 <= i < j ==> parse_unsigned(#[trigger] entries@[i].name@) is Some,
            forall|i: int| 0 <= i < j ==> #[trigger] keys@[i] == key_of(entries@[i].name@),
        decreases entries.len() - j,
    {
        match parse_usize(entries[j].name.as_str()) {
            Some(key) => keys.push(key),
            None => {
                return Err(ReassembleError::MalformedEntry { position: j });
            },
        }
        j += 1;
    }
    assert(key_models(keys@) =~= keys_of(entries@));
    Ok(keys)
}

/// The order in which the entries go into the artifact: by rising key, and
/// as listed where keys are equal.
pub fn assembly_order(keys: &Vec<usize>) -> (order: Vec<usize>)
    ensures
        is_assembly_order(key_models(keys@), order@),
{
    let ghost model = key_models(keys@);
    let mut order: Vec<usize> = Vec::new();
    let mut i: usize = 0;
    while i < keys.len()
        invariant
            i <= keys.len(),
            model == key_models(keys@),
            order@.len() == i,
            forall|t: int| 0 <= t < i ==> 0 <= #[trigger] order@[t] < i,
            forall|s: int, t: int|
                0 <= s < t < i ==> comes_before(
                    model,
                    #[trigger] order@[s] as int,
                    #[trigger] order@[t] as int,
                ),
            forall|p: int| 0 <= p < i ==> #[trigger] stands_in(order@, p),
        decreases keys.len() - i,
    {
        let key = keys[i];
        let mut t: usize = i;
        while t > 0 && keys[order[t - 1]] > key
            invariant
                t <= i < keys.len(),
                key == keys@[i as int],
                model == key_models(keys@),
                order@.len() == i,
                forall|u: int| 0 <= u < i ==> 0 <= #[trigger] order@[u] < i,
                forall|u: int| t <= u < i ==> key < keys@[#[trigger] order@[u] as int],
            decreases t,
        {
            t -= 1;
        }
        let ghost before = order@;
        order.insert(t, i);
        proof {
            let after = order@;
            assert forall|s: int| 0 <= s < after.len() implies #[trigger] after[s] == if s < t {
                before[s]
            } else if s == t {
                i
            } else {
                before[s - 1]
            } by {}
            assert forall|s: int, u: int| 0 <= s < u < after.len() implies comes_before(
                model,
                #[trigger] after[s] as int,
                #[trigger] after[u] as int,
            ) by {
                if u == t {
                    if t > 0 && s < t - 1 {
                        assert(comes_before(model, before[s] as int, before[t - 1] as int));
                    }
                } else if s == t {
                    assert(key < keys@[before[u - 1] as int]);
                } else if u < t {
                    assert(comes_before(model, before[s] as int, before[u] as int));
                } else if s < t {
                    assert(comes_before(model, before[s] as int, before[u - 1] as int));
                } else {
                    assert(comes_before(model, before[s - 1] as int, before[u - 1] as int));
                }
            }
            assert forall|p: int| 0 <= p < i + 1 implies #[trigger] stands_in(after, p) by {
                if p == i {
                    assert(after[t as int] == p);
                } else {
                    assert(stands_in(before, p));
                    let s = choose|s: int| 0 <= s < before.len() && #[trigger] before[s] == p;
                    if s < t {
                        assert(after[s] == p);
                    } else {
                        assert(after[s + 1] == p);
                    }
                }
            }
        }
        i += 1;
    }
    order
}

/// Two assembly orders of the same keys agree up to any position.
proof fn lemma_assembly_orders_agree(keys: Seq<nat>, a: Seq<usize>, b: Seq<usize>, upto: int)
    requires
        is_assembly_order(keys, a),
        is_assembly_order(keys, b),
        0 <= upto <= keys.len(),
    ensures
        forall|t: int| 0 <= t < upto ==> a[t] == b[t],
    decreases upto,
{
    if upto > 0 {
        let last = upto - 1;
        lemma_assembly_orders_agree(keys, a, b, last);
        assert(stands_in(a, b[last] as int));
        let s = choose|s: int| 0 <= s < a.len() && #[trigger] a[s] == b[last] as int;
        if s < last {
            assert(comes_before(keys, b[s] as int, b[last] as int));
        } else if s > last {
            assert(comes_before(keys, a[last] as int, a[s] as int));
        }
        assert(stands_in(b, a[last] as int));
        let r = choose|r: int| 0 <= r < b.len() && #[trigger] b[r] == a[last] as int;
        if r < last {
            assert(comes_before(keys, a[r] as int, a[last] as int));
        } else if r > last {
            assert(comes_before(keys, b[last] as int, b[r] as int));
        }
    }
}

/// There is one assembly order and no other: the keys decide in which
/// order the entries go into the artifact.
pub proof fn lemma_assembly_order_is_unique(keys: Seq<nat>, a: Seq<usize>, b: Seq<usize>)
    requires
        is_assembly_order(keys, a),
        is_assembly_order(keys, b),
    ensures
        a == b,
{
    lemma_assembly_orders_agree(keys, a, b, keys.len() as int);
    assert(a =~= b);
}

/// Entries that do not have the key add nothing to it.
pub proof fn lemma_with_key_skip(keys: Seq<nat>, contents: Seq<Seq<u8>>, key: nat, from: nat, upto: nat)
    requires
        from <= upto <= keys.len(),
        forall|q: int| from <= q < upto ==> #[trigger] keys[q] != key,
    ensures
        with_key(keys, contents, key, upto) == with_key(keys, contents, key, from),
    decreases upto,
{
    if from < upto {
        lemma_with_key_skip(keys, contents, key, from, (upto - 1) as nat);
    }
}

/// Keys that no entry has add nothing to the artifact.
pub proof fn lemma_keys_below_skip(keys: Seq<nat>, contents: Seq<Seq<u8>>, from: nat, bound: nat)
    requires
        from <= bound,
        forall|q: int| 0 <= q < keys.len() ==> !(from <= #[trigger] keys[q] < bound),
    ensures
        keys_below(keys, contents, bound) == keys_below(keys, contents, from),
    decreases bound,
{
    if from < bound {
        lemma_keys_below_skip(keys, contents, from, (bound - 1) as nat);
        lemma_with_key_skip(keys, contents, (bound - 1) as nat, 0, keys.len());
        assert(with_key(keys, contents, (bound - 1) as nat, 0) =~= Seq::<u8>::empty());
        assert(keys_below(keys, contents, bound) =~= keys_below(
            keys,
            contents,
            (bound - 1) as nat,
        ));
    }
}

/// What has gone into the artifact once the entry at `p` has: all that
/// comes before it, and its own contents.
pub open spec fn assembled_through(keys: Seq<nat>, contents: Seq<Seq<u8>>, p: int) -> Seq<u8> {
    keys_below(keys, contents, keys[p]) + with_key(keys, contents, keys[p], (p + 1) as nat)
}

/// The entry that follows in the order adds its contents and nothing else.
proof fn lemma_next_in_order(keys: Seq<nat>, contents: Seq<Seq<u8>>, order: Seq<usize>, m: int)
    requires
        is_assembly_order(keys, order),
        contents.len() == keys.len(),
        0 < m < order.len(),
    ensures
        assembled_through(keys, contents, order[m] as int) == assembled_through(
            keys,
            contents,
            order[m - 1] as int,
        ) + contents[order[m] as int],
{
    let p = order[m - 1] as int;
    let q = order[m] as int;
    assert(comes_before(keys, p, q));
    assert forall|r: int| 0 <= r < keys.len() implies !(comes_before(keys, p, r) && comes_before(
        keys,
        r,
        q,
    )) by {
        lemma_position_in_order(keys, order, r, m);
    }
    if keys[p] == keys[q] {
        assert forall|r: int| p + 1 <= r < q implies #[trigger] keys[r] != keys[q] by {
            if keys[r] == keys[q] {
                assert(comes_before(keys, p, r) && comes_before(keys, r, q));
            }
        }
        lemma_with_key_skip(keys, contents, keys[q], (p + 1) as nat, q as nat);
        assert(assembled_through(keys, contents, q) =~= assembled_through(keys, contents, p)
            + contents[q]);
    } else {
        assert forall|r: int| p + 1 <= r < keys.len() implies #[trigger] keys[r] != keys[p] by {
            if keys[r] == keys[p] {
                assert(comes_before(keys, p, r) && comes_before(keys, r, q));
            }
        }
        lemma_with_key_skip(keys, contents, keys[p], (p + 1) as nat, keys.len());
        assert forall|r: int| 0 <= r < keys.len() implies !(keys[p] + 1 <= #[trigger] keys[r]
            < keys[q]) by {
            if keys[p] + 1 <= keys[r] < keys[q] {
                assert(comes_before(keys, p, r) && comes_before(keys, r, q));
            }
        }
        lemma_keys_below_skip(keys, contents, keys[p] + 1, keys[q]);
        assert forall|r: int| 0 <= r < q implies #[trigger] keys[r] != keys[q] by {
            if keys[r] == keys[q] {
                assert(comes_before(keys, p, r) && comes_before(keys, r, q));
            }
        }
        lemma_with_key_skip(keys, contents, keys[q], 0, q as nat);
        assert(with_key(keys, contents, keys[q], 0) =~= Seq::<u8>::empty());
        assert(keys_below(keys, contents, keys[p] + 1) =~= assembled_through(keys, contents, p));
        assert(assembled_through(keys, contents, q) =~= assembled_through(keys, contents, p)
            + contents[q]);
    }
}

/// Every position stands somewhere in the order, so none goes into the
/// artifact strictly between two neighbours of the order.
proof fn lemma_position_in_order(keys: Seq<nat>, order: Seq<usize>, r: int, m: int)
    requires
        is_assembly_order(keys, order),
        0 <= r < keys.len(),
        0 < m < order.len(),
    ensures
        !(comes_before(keys, order[m - 1] as int, r) && comes_before(keys, r, order[m] as int)),
{
    assert(stands_in(order, r));
    let t = choose|t: int| 0 <= t < order.len() && #[trigger] order[t] == r;
    if t < m - 1 {
        assert(comes_before(keys, order[t] as int, order[m - 1] as int));
    } else if t > m {
        assert(comes_before(keys, order[m] as int, order[t] as int));
    }
}

/// Nothing goes into the artifact before the first entry of the order.
proof fn lemma_first_in_order(keys: Seq<nat>, contents: Seq<Seq<u8>>, order: Seq<usize>)
    requires
        is_assembly_order(keys, order),
        contents.len() == keys.len(),
        order.len() > 0,
    ensures
        assembled_through(keys, contents, order[0] as int) == contents[order[0] as int],
{
    let q = order[0] as int;
    assert forall|r: int| 0 <= r < keys.len() && r != q implies comes_before(keys, q, r) by {
        assert(stands_in(order, r));
        let t = choose|t: int| 0 <= t < order.len() && #[trigger] order[t] == r;
        assert(comes_before(keys, order[0] as int, order[t] as int));
    }
    assert forall|r: int| 0 <= r < keys.len() implies !(0 <= #[trigger] keys[r] < keys[q]) by {
        if r != q {
            assert(comes_before(keys, q, r));
        }
    }
    lemma_keys_below_skip(keys, contents, 0, keys[q]);
    assert forall|r: int| 0 <= r < q implies #[trigger] keys[r] != keys[q] by {
        assert(comes_before(keys, q, r));
    }
    lemma_with_key_skip(keys, contents, keys[q], 0, q as nat);
    assert(with_key(keys, contents, keys[q], 0) =~= Seq::<u8>::empty());
    assert(keys_below(keys, contents, 0) =~= Seq::<u8>::empty());
    assert(assembled_through(keys, contents, q) =~= contents[q]);
}

/// Nothing goes into the artifact after the last entry of the order.
proof fn lemma_last_in_order(keys: Seq<nat>, contents: Seq<Seq<u8>>, order: Seq<usize>)
    requires
        is_assembly_order(keys, order),
        contents.len() == keys.len(),
        order.len() > 0,
        forall|r: int| 0 <= r < keys.len() ==> #[trigger] keys[r] <= usize::MAX,
    ensures
        assembled(keys, contents) == assembled_through(keys, contents, order.last() as int),
{
    let p = order.last() as int;
    assert forall|r: int| 0 <= r < keys.len() && r != p implies comes_before(keys, r, p) by {
        assert(stands_in(order, r));
        let t = choose|t: int| 0 <= t < order.len() && #[trigger] order[t] == r;
        assert(comes_before(keys, order[t] as int, order[order.len() - 1] as int));
    }
    assert forall|r: int| p + 1 <= r < keys.len() implies #[trigger] keys[r] != keys[p] by {
        assert(comes_before(keys, r, p));
    }
    lemma_with_key_skip(keys, contents, keys[p], (p + 1) as nat, keys.len());
    assert forall|r: int| 0 <= r < keys.len() implies !(keys[p] + 1 <= #[trigger] keys[r] < usize::MAX
        + 1) by {
        if r != p {
            assert(comes_before(keys, r, p));
        }
    }
    lemma_keys_below_skip(keys, contents, keys[p] + 1, (usize::MAX + 1) as nat);
    assert(keys_below(keys, contents, keys[p] + 1) =~= assembled_through(keys, contents, p));
}

/// What the first `m` entries of the order add up to.
proof fn lemma_in_order_through(keys: Seq<nat>, contents: Seq<Seq<u8>>, order: Seq<usize>, m: nat)
    requires
        is_assembly_order(keys, order),
        contents.len() == keys.len(),
        0 < m <= order.len(),
    ensures
        in_order(contents, order, m) == assembled_through(keys, contents, order[m - 1] as int),
    decreases m,
{
    if m == 1 {
        lemma_first_in_order(keys, contents, order);
        assert(in_order(contents, order, 0) =~= Seq::<u8>::empty());
        assert(in_order(contents, order, 1) =~= contents[order[0] as int]);
    } else {
        lemma_in_order_through(keys, contents, order, (m - 1) as nat);
        lemma_next_in_order(keys, contents, order, m - 1);
    }
}

/// The artifact is the contents of the entries taken in assembly order:
/// sorting the positions by key and going through them gives what going
/// through the keys in rising order gives.
pub proof fn lemma_assembled_in_order(keys: Seq<nat>, contents: Seq<Seq<u8>>, order: Seq<usize>)
    requires
        is_assembly_order(keys, order),
        contents.len() == keys.len(),
        forall|r: int| 0 <= r < keys.len() ==> #[trigger] keys[r] <= usize::MAX,
    ensures
        assembled(keys, contents) == in_order(contents, order, order.len()),
{
    if order.len() == 0 {
        lemma_keys_below_skip(keys, contents, 0, (usize::MAX + 1) as nat);
        assert(keys_below(keys, contents, 0) =~= Seq::<u8>::empty());
    } else {
        lemma_in_order_through(keys, contents, order, order.len());
        lemma_last_in_order(keys, contents, order);
    }
}

/// The listing holds an entry with this key and this content.
pub open spec fn holds_entry(keys: Seq<nat>, contents: Seq<Seq<u8>>, key: nat, content: Seq<u8>) -> bool {
    exists|q: int| 0 <= q < keys.len() && #[trigger] keys[q] == key && contents[q] == content
}

/// Every entry of the listing is an entry of the other listing too.
pub open spec fn listed_in(
    keys: Seq<nat>,
    contents: Seq<Seq<u8>>,
    other_keys: Seq<nat>,
    other_contents: Seq<Seq<u8>>,
) -> bool {
    forall|p: int|
        0 <= p < keys.len() ==> holds_entry(other_keys, other_contents, #[trigger] keys[p], contents[p])
}

/// Where no two entries share a key, the entries with a given key are the
/// one entry that has it.
proof fn lemma_with_distinct_key(keys: Seq<nat>, contents: Seq<Seq<u8>>, p: int)
    requires
        keys.no_duplicates(),
        contents.len() == keys.len(),
        0 <= p < keys.len(),
    ensures
        with_key(keys, contents, keys[p], keys.len()) == contents[p],
{
    lemma_with_key_skip(keys, contents, keys[p], (p + 1) as nat, keys.len());
    lemma_with_key_skip(keys, contents, keys[p], 0, p as nat);
    assert(with_key(keys, contents, keys[p], 0) =~= Seq::<u8>::empty());
    assert(with_key(keys, contents, keys[p], (p + 1) as nat) =~= contents[p]);
}

/// Two listings of the same entries agree on the entries of every key.
proof fn lemma_same_entries_with_key(
    keys: Seq<nat>,
    contents: Seq<Seq<u8>>,
    other_keys: Seq<nat>,
    other_contents: Seq<Seq<u8>>,
    key: nat,
)
    requires
        contents.len() == keys.len(),
        other_contents.len() == other_keys.len(),
        keys.no_duplicates(),
        other_keys.no_duplicates(),
        listed_in(keys, contents, other_keys, other_contents),
        listed_in(other_keys, other_contents, keys, contents),
    ensures
        with_key(keys, contents, key, keys.len()) == with_key(
            other_keys,
            other_contents,
            key,
            other_keys.len(),
        ),
{
    if exists|p: int| 0 <= p < keys.len() && #[trigger] keys[p] == key {
        let p = choose|p: int| 0 <= p < keys.len() && #[trigger] keys[p] == key;
        assert(holds_entry(other_keys, other_contents, keys[p], contents[p]));
        let q = choose|q: int|
            0 <= q < other_keys.len() && #[trigger] other_keys[q] == keys[p] && other_contents[q]
                == contents[p];
        lemma_with_distinct_key(keys, contents, p);
        lemma_with_distinct_key(other_keys, other_contents, q);
    } else {
        assert forall|q: int| 0 <= q < other_keys.len() implies #[trigger] other_keys[q] != key by {
            if other_keys[q] == key {
                assert(holds_entry(keys, contents, other_keys[q], other_contents[q]));
            }
        }
        lemma_with_key_skip(keys, contents, key, 0, keys.len());
        lemma_with_key_skip(other_keys, other_contents, key, 0, other_keys.len());
        assert(with_key(keys, contents, key, 0) =~= with_key(other_keys, other_contents, key, 0));
    }
}

/// Two listings of the same entries agree on the entries below every bound.
proof fn lemma_same_entries_below(
    keys: Seq<nat>,
    contents: Seq<Seq<u8>>,
    other_keys: Seq<nat>,
    other_contents: Seq<Seq<u8>>,
    bound: nat,
)
    requires
        contents.len() == keys.len(),
        other_contents.len() == other_keys.len(),
        keys.no_duplicates(),
        other_keys.no_duplicates(),
        listed_in(keys, contents, other_keys, other_contents),
        listed_in(other_keys, other_contents, keys, contents),
    ensures
        keys_below(keys, contents, bound) == keys_below(other_keys, other_contents, bound),
    decreases bound,
{
    if bound > 0 {
        lemma_same_entries_below(keys, contents, other_keys, other_contents, (bound - 1) as nat);
        lemma_same_entries_with_key(keys, contents, other_keys, other_contents, (bound - 1) as nat);
    }
}

/// The order of the listing plays no part: two listings that hold the same
/// entries, each under a key of its own, give the same artifact. So does
/// the order in which the segments were fetched.
pub proof fn lemma_listing_order_plays_no_part(
    keys: Seq<nat>,
    contents: Seq<Seq<u8>>,
    other_keys: Seq<nat>,
    other_contents: Seq<Seq<u8>>,
)
    requires
        contents.len() == keys.len(),
        other_contents.len() == other_keys.len(),
        keys.no_duplicates(),
        other_keys.no_duplicates(),
        listed_in(keys, contents, other_keys, other_contents),
        listed_in(other_keys, other_contents, keys, contents),
    ensures
        assembled(keys, contents) == assembled(other_keys, other_contents),
{
    lemma_same_entries_below(keys, contents, other_keys, other_contents, (usize::MAX + 1) as nat);
}

/// Puts the entries of the work area together: their contents, one after
/// the other in rising order of the keys that their names write. Fails when
/// a name is no key, and says which one.
pub fn reassemble(entries: &Vec<StoredSegment>) -> (artifact: Result<Vec<u8>, ReassembleError>)
    ensures
        match artifact {
            Ok(bytes) => bytes@ == assembled(keys_of(entries@), contents_of(entries@))
                && forall|j: int|
                0 <= j < entries@.len() ==> parse_unsigned(#[trigger] entries@[j].name@) is Some,
            Err(ReassembleError::MalformedEntry { position }) => position < entries@.len()
                && parse_unsigned(entries@[position as int].name@) is None && forall|j: int|
                0 <= j < position ==> parse_unsigned(#[trigger] entries@[j].name@) is Some,
        },
{
    let keys = match parse_keys(entries) {
        Ok(keys) => keys,
        Err(error) => {
            return Err(error);
        },
    };
    let order = assembly_order(&keys);
    let ghost model = keys_of(entries@);
    let ghost contents = contents_of(entries@);
    assert forall|r: int| 0 <= r < model.len() implies #[trigger] model[r] <= usize::MAX by {
        assert(model[r] == key_models(keys@)[r]);
    }
    let mut bytes: Vec<u8> = Vec::new();
    let mut m: usize = 0;
    while m < order.len()
        invariant
            m <= order.len(),
            contents == contents_of(entries@),
            order@.len() == entries@.len(),
            forall|t: int| 0 <= t < order@.len() ==> 0 <= #[trigger] order@[t] < entries@.len(),
            bytes@ == in_order(contents, order@, m as nat),
        decreases order.len() - m,
    {
        let entry = &entries[order[m]];
        let ghost before = bytes@;
        let mut b: usize = 0;
        while b < entry.bytes.len()
            invariant
                b <= entry.bytes.len(),
                bytes@ == before + entry.bytes@.subrange(0, b as int),
            decreases entry.bytes.len() - b,
        {
            bytes.push(entry.bytes[b]);
            b += 1;
            assert(bytes@ =~= before + entry.bytes@.subrange(0, b as int));
        }
        assert(bytes@ =~= before + contents[order@[m as int] as int]);
        m += 1;
    }
    proof {
        lemma_assembled_in_order(model, contents, order@);
    }
    Ok(bytes)
}

} // verus!
