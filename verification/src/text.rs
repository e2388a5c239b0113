//! Ordered collections of distinct strings, viewed as sets of character sequences.

use vstd::prelude::*;

verus! {

/// The character sequences of a list of strings, in order.
pub open spec fn texts(items: Seq<String>) -> Seq<Seq<char>> {
    items.map_values(|s: String| s@)
}

/// The set of character sequences that a list of strings holds.
pub open spec fn text_set(items: Seq<String>) -> Set<Seq<char>> {
    texts(items).to_set()
}

/// No two entries of the list spell the same text.
pub open spec fn distinct(items: Seq<String>) -> bool {
    texts(items).no_duplicates()
}

/// Appending an element to a sequence adds it to the sequence's set.
pub proof fn lemma_to_set_push<A>(items: Seq<A>, item: A)
    ensures
        items.push(item).to_set() == items.to_set().insert(item),
{
    let after = items.push(item);
    assert forall|x: A| after.to_set().contains(x) == items.to_set().insert(item).contains(x) by {
        if after.contains(x) {
            let k = choose|k: int| 0 <= k < after.len() && after[k] == x;
            if k < items.len() {
                assert(items[k] == x);
            }
        }
        if items.contains(x) {
            let k = choose|k: int| 0 <= k < items.len() && items[k] == x;
            assert(after[k] == x);
        }
        if x == item {
            assert(after[items.len() as int] == x);
        }
    }
    assert(after.to_set() =~= items.to_set().insert(item));
}

/// Appending a string to a list adds its text to the list's set, and keeps
/// the list distinct where the text is new.
pub proof fn lemma_text_set_push(items: Seq<String>, item: String)
    ensures
        texts(items.push(item)) == texts(items).push(item@),
        text_set(items.push(item)) == text_set(items).insert(item@),
        distinct(items) && !text_set(items).contains(item@) ==> distinct(items.push(item)),
{
    assert(texts(items.push(item)) =~= texts(items).push(item@));
    lemma_to_set_push(texts(items), item@);
    if distinct(items) && !text_set(items).contains(item@) {
        let after = texts(items.push(item));
        assert forall|i: int, j: int| 0 <= i < after.len() && 0 <= j < after.len() && i != j implies after[i] != after[j] by {
            if i < items.len() {
                assert(texts(items).contains(texts(items)[i]));
            }
            if j < items.len() {
                assert(texts(items).contains(texts(items)[j]));
            }
        }
    }
}

/// Whether `items` holds an entry that spells `needle`.
pub fn holds(items: &Vec<String>, needle: &String) -> (found: bool)
    ensures
        found == text_set(items@).contains(needle@),
{
    let mut i: usize = 0;
    while i < items.len()
        invariant
            i <= items.len(),
            forall|j: int| 0 <= j < i ==> texts(items@)[j] != needle@,
        decreases items.len() - i,
    {
        if items[i] == *needle {
            assert(texts(items@)[i as int] == needle@);
            return true;
        }
        i += 1;
    }
    false
}

/// Whether two string slices spell the same text.
pub fn same_text(a: &str, b: &str) -> (same: bool)
    ensures
        same == (a@ == b@),
{
    let left = a.to_owned();
    let right = b.to_owned();
    left == right
}

/// Appends `item` unless an entry already spells it; reports whether it was appended.
pub fn insert_distinct(items: &mut Vec<String>, item: String) -> (added: bool)
    requires
        distinct(old(items)@),
    ensures
        distinct(final(items)@),
        added == !text_set(old(items)@).contains(item@),
        text_set(final(items)@) == text_set(old(items)@).insert(item@),
        added ==> final(items)@ == old(items)@.push(item),
        !added ==> final(items)@ == old(items)@,
{
    if holds(items, &item) {
        assert(text_set(items@).insert(item@) =~= text_set(items@));
        false
    } else {
        proof {
            lemma_text_set_push(items@, item);
        }
        items.push(item);
        true
    }
}

/// Adds every entry of `items` to `into` that `into` does not hold yet.
pub fn merge_distinct(into: &mut Vec<String>, items: &Vec<String>)
    requires
        distinct(old(into)@),
    ensures
        distinct(final(into)@),
        text_set(final(into)@) == text_set(old(into)@).union(text_set(items@)),
{
    let ghost start = text_set(into@);
    proof {
        assert(texts(items@.take(0)) =~= Seq::<Seq<char>>::empty());
        assert(start.union(text_set(items@.take(0))) =~= start);
    }
    let mut i: usize = 0;
    while i < items.len()
        invariant
            i <= items.len(),
            distinct(into@),
            text_set(into@) == start.union(text_set(items@.take(i as int))),
        decreases items.len() - i,
    {
        proof {
            assert(items@.take(i + 1) =~= items@.take(i as int).push(items[i as int]));
            lemma_text_set_push(items@.take(i as int), items[i as int]);
            assert(start.union(text_set(items@.take(i as int))).insert(items[i as int]@)
                =~= start.union(text_set(items@.take(i as int)).insert(items[i as int]@)));
        }
        insert_distinct(into, items[i].clone());
        i += 1;
    }
    assert(items@.take(items.len() as int) =~= items@);
}

/// The entries of `items` that `excluded` does not hold, in their order.
pub fn without(items: &Vec<String>, excluded: &Vec<String>) -> (kept: Vec<String>)
    requires
        distinct(items@),
    ensures
        distinct(kept@),
        text_set(kept@) == text_set(items@).difference(text_set(excluded@)),
{
    let mut kept: Vec<String> = Vec::new();
    proof {
        assert(texts(items@.take(0)) =~= Seq::<Seq<char>>::empty());
        assert(text_set(kept@) =~= text_set(items@.take(0)).difference(text_set(excluded@)));
    }
    let mut i: usize = 0;
    while i < items.len()
        invariant
            i <= items.len(),
            distinct(items@),
            distinct(kept@),
            text_set(kept@) == text_set(items@.take(i as int)).difference(text_set(excluded@)),
        decreases items.len() - i,
    {
        proof {
            assert(items@.take(i + 1) =~= items@.take(i as int).push(items[i as int]));
            lemma_text_set_push(items@.take(i as int), items[i as int]);
            assert(!text_set(items@.take(i as int)).contains(items[i as int]@)) by {
                if texts(items@.take(i as int)).contains(items[i as int]@) {
                    let k = choose|k: int|
                        0 <= k < texts(items@.take(i as int)).len() && texts(
                            items@.take(i as int),
                        )[k] == items[i as int]@;
                    assert(texts(items@)[k] == texts(items@)[i as int]);
                }
            }
        }
        if !holds(excluded, &items[i]) {
            proof {
                lemma_text_set_push(kept@, items[i as int]);
                assert(text_set(items@.take(i as int)).difference(text_set(excluded@)).insert(
                    items[i as int]@,
                ) =~= text_set(items@.take(i + 1)).difference(text_set(excluded@)));
            }
            kept.push(items[i].clone());
        } else {
            assert(text_set(items@.take(i as int)).difference(text_set(excluded@)) =~= text_set(
                items@.take(i + 1),
            ).difference(text_set(excluded@)));
        }
        i += 1;
    }
    assert(items@.take(items.len() as int) =~= items@);
    kept
}

/// A copy of a list of strings.
pub fn copy_texts(items: &Vec<String>) -> (copy: Vec<String>)
    ensures
        texts(copy@) == texts(items@),
{
    let mut copy: Vec<String> = Vec::new();
    let mut i: usize = 0;
    while i < items.len()
        invariant
            i <= items.len(),
            copy.len() == i,
            forall|k: int| 0 <= k < i ==> copy[k]@ == items[k]@,
        decreases items.len() - i,
    {
        copy.push(items[i].clone());
        i += 1;
    }
    assert(texts(copy@) =~= texts(items@));
    copy
}

} // verus!
