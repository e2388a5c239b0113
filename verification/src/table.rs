//! The result table: for every declared selector and attribute, the set of
//! values that extraction found.

use crate::text::{copy_texts, distinct, insert_distinct, same_text, text_set, texts};
use vstd::prelude::*;

verus! {

/// The values found for one attribute of one selector.
pub struct Bucket {
    attribute: String,
    values: Vec<String>,
}

/// The buckets of one selector.
pub struct Group {
    selector: String,
    buckets: Vec<Bucket>,
}

/// Selector by selector and attribute by attribute, the values found.
pub struct ResultTable {
    groups: Vec<Group>,
}

/// The attribute names of a list of buckets, in order.
pub closed spec fn attribute_names(buckets: Seq<Bucket>) -> Seq<Seq<char>> {
    buckets.map_values(|b: Bucket| b.attribute@)
}

/// The selector texts of a list of groups, in order.
pub closed spec fn selector_names(groups: Seq<Group>) -> Seq<Seq<char>> {
    groups.map_values(|g: Group| g.selector@)
}

/// Attribute by attribute, the set of values that a list of buckets holds.
pub closed spec fn buckets_view(buckets: Seq<Bucket>) -> Map<Seq<char>, Set<Seq<char>>> {
    Map::new(
        |a: Seq<char>| attribute_names(buckets).contains(a),
        |a: Seq<char>| text_set(buckets[attribute_names(buckets).index_of(a)].values@),
    )
}

/// Selector by selector, the view of the buckets that a list of groups holds.
pub closed spec fn groups_view(groups: Seq<Group>) -> Map<
    Seq<char>,
    Map<Seq<char>, Set<Seq<char>>>,
> {
    Map::new(
        |s: Seq<char>| selector_names(groups).contains(s),
        |s: Seq<char>| buckets_view(groups[selector_names(groups).index_of(s)].buckets@),
    )
}

/// No attribute occurs twice, and no value occurs twice in a bucket.
pub closed spec fn buckets_wf(buckets: Seq<Bucket>) -> bool {
    &&& attribute_names(buckets).no_duplicates()
    &&& forall|j: int| 0 <= j < buckets.len() ==> distinct(#[trigger] buckets[j].values@)
}

/// The inner map of `table` under `selector`, empty where the selector is absent.
pub open spec fn inner_or_empty(
    table: Map<Seq<char>, Map<Seq<char>, Set<Seq<char>>>>,
    selector: Seq<char>,
) -> Map<Seq<char>, Set<Seq<char>>> {
    if table.contains_key(selector) {
        table[selector]
    } else {
        Map::empty()
    }
}

/// `table` with an empty bucket added under `selector` and `attribute`,
/// unless the bucket is there already.
pub open spec fn with_bucket(
    table: Map<Seq<char>, Map<Seq<char>, Set<Seq<char>>>>,
    selector: Seq<char>,
    attribute: Seq<char>,
) -> Map<Seq<char>, Map<Seq<char>, Set<Seq<char>>>> {
    let inner = inner_or_empty(table, selector);
    if inner.contains_key(attribute) {
        table
    } else {
        table.insert(selector, inner.insert(attribute, Set::empty()))
    }
}

/// `table` with `selector` added, holding no bucket, unless it is there already.
pub open spec fn with_selector(
    table: Map<Seq<char>, Map<Seq<char>, Set<Seq<char>>>>,
    selector: Seq<char>,
) -> Map<Seq<char>, Map<Seq<char>, Set<Seq<char>>>> {
    if table.contains_key(selector) {
        table
    } else {
        table.insert(selector, Map::empty())
    }
}

/// `table` with `value` added to the bucket under `selector` and
/// `attribute`; unchanged where there is no such bucket.
pub open spec fn with_value(
    table: Map<Seq<char>, Map<Seq<char>, Set<Seq<char>>>>,
    selector: Seq<char>,
    attribute: Seq<char>,
    value: Seq<char>,
) -> Map<Seq<char>, Map<Seq<char>, Set<Seq<char>>>> {
    if table.contains_key(selector) && table[selector].contains_key(attribute) {
        table.insert(
            selector,
            table[selector].insert(attribute, table[selector][attribute].insert(value)),
        )
    } else {
        table
    }
}

proof fn lemma_index_of_unique(names: Seq<Seq<char>>, i: int)
    requires
        names.no_duplicates(),
        0 <= i < names.len(),
    ensures
        names.contains(names[i]),
        names.index_of(names[i]) == i,
{
    assert(names.contains(names[i]));
}

proof fn lemma_buckets_at(buckets: Seq<Bucket>, j: int)
    requires
        attribute_names(buckets).no_duplicates(),
        0 <= j < buckets.len(),
    ensures
        buckets_view(buckets).contains_key(buckets[j].attribute@),
        buckets_view(buckets)[buckets[j].attribute@] == text_set(buckets[j].values@),
{
    lemma_index_of_unique(attribute_names(buckets), j);
}

proof fn lemma_groups_at(groups: Seq<Group>, i: int)
    requires
        selector_names(groups).no_duplicates(),
        0 <= i < groups.len(),
    ensures
        groups_view(groups).contains_key(groups[i].selector@),
        groups_view(groups)[groups[i].selector@] == buckets_view(groups[i].buckets@),
{
    lemma_index_of_unique(selector_names(groups), i);
}

proof fn lemma_buckets_push(buckets: Seq<Bucket>, bucket: Bucket)
    requires
        attribute_names(buckets).no_duplicates(),
        !attribute_names(buckets).contains(bucket.attribute@),
    ensures
        attribute_names(buckets.push(bucket)).no_duplicates(),
        buckets_view(buckets.push(bucket)) == buckets_view(buckets).insert(
            bucket.attribute@,
            text_set(bucket.values@),
        ),
{
    let after = buckets.push(bucket);
    let names = attribute_names(buckets);
    let names_after = attribute_names(after);
    assert(names_after =~= names.push(bucket.attribute@));
    assert forall|i: int, j: int|
        0 <= i < names_after.len() && 0 <= j < names_after.len() && i != j implies names_after[i]
        != names_after[j] by {
        if i < names.len() {
            assert(names.contains(names[i]));
        }
        if j < names.len() {
            assert(names.contains(names[j]));
        }
    }
    let target = buckets_view(buckets).insert(bucket.attribute@, text_set(bucket.values@));
    assert forall|a: Seq<char>| buckets_view(after).contains_key(a) == target.contains_key(a) by {
        if names_after.contains(a) {
            let k = choose|k: int| 0 <= k < names_after.len() && names_after[k] == a;
            if k < names.len() {
                assert(names[k] == a);
            }
        }
        if names.contains(a) {
            let k = choose|k: int| 0 <= k < names.len() && names[k] == a;
            assert(names_after[k] == a);
        }
        if a == bucket.attribute@ {
            assert(names_after[names.len() as int] == a);
        }
    }
    assert forall|a: Seq<char>| buckets_view(after).contains_key(a) implies buckets_view(after)[a]
        == target[a] by {
        let k = names_after.index_of(a);
        lemma_buckets_at(after, k);
        if k < names.len() {
            lemma_buckets_at(buckets, k);
        }
    }
    assert(buckets_view(after) =~= target);
}

proof fn lemma_buckets_update(buckets: Seq<Bucket>, j: int, bucket: Bucket)
    requires
        attribute_names(buckets).no_duplicates(),
        0 <= j < buckets.len(),
        bucket.attribute@ == buckets[j].attribute@,
    ensures
        attribute_names(buckets.update(j, bucket)) == attribute_names(buckets),
        buckets_view(buckets.update(j, bucket)) == buckets_view(buckets).insert(
            bucket.attribute@,
            text_set(bucket.values@),
        ),
{
    let after = buckets.update(j, bucket);
    let names = attribute_names(buckets);
    assert(attribute_names(after) =~= names);
    let target = buckets_view(buckets).insert(bucket.attribute@, text_set(bucket.values@));
    lemma_buckets_at(buckets, j);
    assert forall|a: Seq<char>| buckets_view(after).contains_key(a) implies buckets_view(after)[a]
        == target[a] by {
        let k = names.index_of(a);
        assert(names.contains(a));
        assert(0 <= k < names.len() && names[k] == a);
        assert(attribute_names(after)[k] == after[k].attribute@);
        assert(names[k] == buckets[k].attribute@);
        assert(names[j] == buckets[j].attribute@);
        lemma_buckets_at(after, k);
        lemma_buckets_at(buckets, k);
    }
    assert(buckets_view(after) =~= target);
}

proof fn lemma_groups_push(groups: Seq<Group>, group: Group)
    requires
        selector_names(groups).no_duplicates(),
        !selector_names(groups).contains(group.selector@),
    ensures
        selector_names(groups.push(group)).no_duplicates(),
        groups_view(groups.push(group)) == groups_view(groups).insert(
            group.selector@,
            buckets_view(group.buckets@),
        ),
{
    let after = groups.push(group);
    let names = selector_names(groups);
    let names_after = selector_names(after);
    assert(names_after =~= names.push(group.selector@));
    assert forall|i: int, j: int|
        0 <= i < names_after.len() && 0 <= j < names_after.len() && i != j implies names_after[i]
        != names_after[j] by {
        if i < names.len() {
            assert(names.contains(names[i]));
        }
        if j < names.len() {
            assert(names.contains(names[j]));
        }
    }
    let target = groups_view(groups).insert(group.selector@, buckets_view(group.buckets@));
    assert forall|s: Seq<char>| groups_view(after).contains_key(s) == target.contains_key(s) by {
        if names_after.contains(s) {
            let k = choose|k: int| 0 <= k < names_after.len() && names_after[k] == s;
            if k < names.len() {
                assert(names[k] == s);
            }
        }
        if names.contains(s) {
            let k = choose|k: int| 0 <= k < names.len() && names[k] == s;
            assert(names_after[k] == s);
        }
        if s == group.selector@ {
            assert(names_after[names.len() as int] == s);
        }
    }
    assert forall|s: Seq<char>| groups_view(after).contains_key(s) implies groups_view(after)[s]
        == target[s] by {
        let k = names_after.index_of(s);
        lemma_groups_at(after, k);
        if k < names.len() {
            lemma_groups_at(groups, k);
        }
    }
    assert(groups_view(after) =~= target);
}

proof fn lemma_groups_update(groups: Seq<Group>, i: int, group: Group)
    requires
        selector_names(groups).no_duplicates(),
        0 <= i < groups.len(),
        group.selector@ == groups[i].selector@,
    ensures
        selector_names(groups.update(i, group)) == selector_names(groups),
        groups_view(groups.update(i, group)) == groups_view(groups).insert(
            group.selector@,
            buckets_view(group.buckets@),
        ),
{
    let after = groups.update(i, group);
    let names = selector_names(groups);
    assert(selector_names(after) =~= names);
    let target = groups_view(groups).insert(group.selector@, buckets_view(group.buckets@));
    lemma_groups_at(groups, i);
    assert forall|s: Seq<char>| groups_view(after).contains_key(s) implies groups_view(after)[s]
        == target[s] by {
        let k = names.index_of(s);
        assert(names.contains(s));
        assert(0 <= k < names.len() && names[k] == s);
        assert(selector_names(after)[k] == after[k].selector@);
        assert(names[k] == groups[k].selector@);
        assert(names[i] == groups[i].selector@);
        lemma_groups_at(after, k);
        lemma_groups_at(groups, k);
    }
    assert(groups_view(after) =~= target);
}

impl View for ResultTable {
    type V = Map<Seq<char>, Map<Seq<char>, Set<Seq<char>>>>;

    /// Selector by selector and attribute by attribute, the set of values.
    closed spec fn view(&self) -> Map<Seq<char>, Map<Seq<char>, Set<Seq<char>>>> {
        groups_view(self.groups@)
    }
}

impl ResultTable {
    /// No selector occurs twice, no attribute occurs twice under a
    /// selector, and no value occurs twice in a bucket.
    pub closed spec fn wf(&self) -> bool {
        &&& selector_names(self.groups@).no_duplicates()
        &&& forall|i: int|
            0 <= i < self.groups.len() ==> buckets_wf(#[trigger] self.groups[i].buckets@)
    }

    /// A table without selectors.
    pub fn new() -> (table: ResultTable)
        ensures
            table.wf(),
            table@ == Map::<Seq<char>, Map<Seq<char>, Set<Seq<char>>>>::empty(),
    {
        let table = ResultTable { groups: Vec::new() };
        assert(table@ =~= Map::<Seq<char>, Map<Seq<char>, Set<Seq<char>>>>::empty());
        table
    }

    fn find_group(&self, selector: &str) -> (found: Option<usize>)
        ensures
            found is Some <==> selector_names(self.groups@).contains(selector@),
            found matches Some(i) ==> i < self.groups.len() && self.groups[i as int].selector@
                == selector@,
    {
        let mut i: usize = 0;
        while i < self.groups.len()
            invariant
                i <= self.groups.len(),
                forall|k: int| 0 <= k < i ==> selector_names(self.groups@)[k] != selector@,
            decreases self.groups.len() - i,
        {
            if same_text(self.groups[i].selector.as_str(), selector) {
                assert(selector_names(self.groups@)[i as int] == selector@);
                return Some(i);
            }
            i += 1;
        }
        None
    }

    fn find_bucket(buckets: &Vec<Bucket>, attribute: &str) -> (found: Option<usize>)
        ensures
            found is Some <==> attribute_names(buckets@).contains(attribute@),
            found matches Some(j) ==> j < buckets.len() && buckets[j as int].attribute@
                == attribute@,
    {
        let mut j: usize = 0;
        while j < buckets.len()
            invariant
                j <= buckets.len(),
                forall|k: int| 0 <= k < j ==> attribute_names(buckets@)[k] != attribute@,
            decreases buckets.len() - j,
        {
            if same_text(buckets[j].attribute.as_str(), attribute) {
                assert(attribute_names(buckets@)[j as int] == attribute@);
                return Some(j);
            }
            j += 1;
        }
        None
    }

    /// Makes sure that `selector` is a key of the table.
    pub fn declare_selector(&mut self, selector: &str)
        requires
            old(self).wf(),
        ensures
            final(self).wf(),
            final(self)@ == with_selector(old(self)@, selector@),
    {
        match self.find_group(selector) {
            Some(_) => {},
            None => {
                let group = Group { selector: selector.to_owned(), buckets: Vec::new() };
                proof {
                    lemma_groups_push(self.groups@, group);
                    assert(buckets_view(group.buckets@) =~= Map::<
                        Seq<char>,
                        Set<Seq<char>>,
                    >::empty());
                }
                self.groups.push(group);
            },
        }
    }

    /// Makes sure that the table holds a bucket for `selector` and
    /// `attribute`; a new bucket is empty, one that is there keeps its values.
    pub fn declare(&mut self, selector: &str, attribute: &str)
        requires
            old(self).wf(),
        ensures
            final(self).wf(),
            final(self)@ == with_bucket(old(self)@, selector@, attribute@),
    {
        let bucket = Bucket { attribute: attribute.to_owned(), values: Vec::new() };
        assert(text_set(bucket.values@) =~= Set::<Seq<char>>::empty());
        match self.find_group(selector) {
            None => {
                let mut buckets: Vec<Bucket> = Vec::new();
                proof {
                    lemma_buckets_push(buckets@, bucket);
                    assert(buckets_view(buckets@) =~= Map::<Seq<char>, Set<Seq<char>>>::empty());
                }
                buckets.push(bucket);
                let group = Group { selector: selector.to_owned(), buckets };
                proof {
                    lemma_groups_push(self.groups@, group);
                }
                self.groups.push(group);
            },
            Some(i) => {
                proof {
                    lemma_groups_at(self.groups@, i as int);
                }
                match Self::find_bucket(&self.groups[i].buckets, attribute) {
                    Some(j) => {
                        proof {
                            lemma_buckets_at(self.groups[i as int].buckets@, j as int);
                        }
                    },
                    None => {
                        let ghost before = self.groups@;
                        proof {
                            lemma_buckets_push(before[i as int].buckets@, bucket);
                        }
                        self.groups[i].buckets.push(bucket);
                        proof {
                            let after = self.groups@;
                            assert(after =~= before.update(i as int, after[i as int]));
                            lemma_groups_update(before, i as int, after[i as int]);
                        }
                    },
                }
            },
        }
    }

    /// Adds `value` to the bucket under `selector` and `attribute`. A value
    /// that the bucket holds already is not added again. Where the table
    /// has no such bucket, nothing changes.
    pub fn record(&mut self, selector: &str, attribute: &str, value: String)
        requires
            old(self).wf(),
        ensures
            final(self).wf(),
            final(self)@ == with_value(old(self)@, selector@, attribute@, value@),
    {
        match self.find_group(selector) {
            None => {},
            Some(i) => {
                proof {
                    lemma_groups_at(self.groups@, i as int);
                }
                match Self::find_bucket(&self.groups[i].buckets, attribute) {
                    None => {},
                    Some(j) => {
                        let ghost before = self.groups@;
                        let ghost buckets_before = before[i as int].buckets@;
                        proof {
                            lemma_buckets_at(buckets_before, j as int);
                        }
                        insert_distinct(&mut self.groups[i].buckets[j].values, value);
                        proof {
                            let after = self.groups@;
                            let buckets_after = after[i as int].buckets@;
                            assert(buckets_after =~= buckets_before.update(
                                j as int,
                                buckets_after[j as int],
                            ));
                            lemma_buckets_update(buckets_before, j as int, buckets_after[j as int]);
                            assert(after =~= before.update(i as int, after[i as int]));
                            lemma_groups_update(before, i as int, after[i as int]);
                        }
                    },
                }
            },
        }
    }

    /// The selectors of the table; each once.
    pub fn selectors(&self) -> (list: Vec<String>)
        requires
            self.wf(),
        ensures
            distinct(list@),
            text_set(list@) == self@.dom(),
    {
        let mut list: Vec<String> = Vec::new();
        let mut i: usize = 0;
        while i < self.groups.len()
            invariant
                i <= self.groups.len(),
                list.len() == i,
                forall|k: int| 0 <= k < i ==> list[k]@ == self.groups[k].selector@,
            decreases self.groups.len() - i,
        {
            list.push(self.groups[i].selector.clone());
            i += 1;
        }
        proof {
            assert(texts(list@) =~= selector_names(self.groups@));
            assert(text_set(list@) =~= self@.dom());
        }
        list
    }

    /// The attributes that stand under `selector`, each once; `None` where
    /// the table has no such selector.
    pub fn attributes(&self, selector: &str) -> (list: Option<Vec<String>>)
        requires
            self.wf(),
        ensures
            list is Some <==> self@.contains_key(selector@),
            list matches Some(names) ==> distinct(names@) && text_set(names@)
                == self@[selector@].dom(),
    {
        match self.find_group(selector) {
            None => None,
            Some(i) => {
                proof {
                    lemma_groups_at(self.groups@, i as int);
                }
                let buckets = &self.groups[i].buckets;
                let mut names: Vec<String> = Vec::new();
                let mut j: usize = 0;
                while j < buckets.len()
                    invariant
                        j <= buckets.len(),
                        names.len() == j,
                        forall|k: int| 0 <= k < j ==> names[k]@ == buckets[k].attribute@,
                    decreases buckets.len() - j,
                {
                    names.push(buckets[j].attribute.clone());
                    j += 1;
                }
                proof {
                    assert(texts(names@) =~= attribute_names(buckets@));
                    assert(text_set(names@) =~= buckets_view(buckets@).dom());
                }
                Some(names)
            },
        }
    }

    /// The values found under `selector` and `attribute`; `None` where the
    /// table has no such bucket. No value stands twice in the list,
    /// however many elements or pages produced it.
    pub fn values(&self, selector: &str, attribute: &str) -> (list: Option<Vec<String>>)
        requires
            self.wf(),
        ensures
            list is Some <==> self@.contains_key(selector@) && self@[selector@].contains_key(
                attribute@,
            ),
            list matches Some(found) ==> distinct(found@) && text_set(found@)
                == self@[selector@][attribute@],
    {
        match self.find_group(selector) {
            None => None,
            Some(i) => {
                proof {
                    lemma_groups_at(self.groups@, i as int);
                }
                match Self::find_bucket(&self.groups[i].buckets, attribute) {
                    None => None,
                    Some(j) => {
                        proof {
                            lemma_buckets_at(self.groups[i as int].buckets@, j as int);
                        }
                        Some(copy_texts(&self.groups[i].buckets[j].values))
                    },
                }
            },
        }
    }
}

} // verus!
