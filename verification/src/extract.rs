//! The selector engine: what each rule reads off a page, filed in the table.

use crate::document::{
    attribute_column, attributes_of, flatten_markup, flattened, inner_markup_column,
    inner_markups_of, markup_column, markups_of, sources, text_column, texts_of,
    CompiledSelector, Document, PageRecord,
};
use crate::rules::{
    labels, lemma_reserved_names_differ, AttributeSpec, CompiledRule, SearchRule,
};
use crate::table::ResultTable;
use crate::table::{with_bucket, with_selector, with_value};
use crate::text::{lemma_to_set_push, texts};
use vstd::prelude::*;

verus! {

/// A result table as a map: selector, then attribute, then the set of values.
pub type Table = Map<Seq<char>, Map<Seq<char>, Set<Seq<char>>>>;

/// The values that a column of optional entries holds.
pub open spec fn present(column: Seq<Option<Seq<char>>>) -> Set<Seq<char>> {
    Set::new(|v: Seq<char>| column.contains(Some(v)))
}

/// The plain-text renderings of a column of markup.
pub open spec fn renderings(column: Seq<Seq<char>>) -> Seq<Seq<char>> {
    column.map_values(|markup: Seq<char>| flattened(markup))
}

/// The values that the attribute named `attribute` yields on the elements
/// that `selector` matches in `page`.
pub open spec fn values_of(attribute: Seq<char>, page: Seq<char>, selector: Seq<char>) -> Set<
    Seq<char>,
> {
    if attribute == "TextContent"@ {
        texts_of(page, selector).to_set()
    } else if attribute == "HtmlContent"@ {
        markups_of(page, selector).to_set()
    } else if attribute == "InnerHtml"@ {
        inner_markups_of(page, selector).to_set()
    } else if attribute == "Html2Text"@ {
        renderings(inner_markups_of(page, selector)).to_set()
    } else {
        present(attributes_of(page, selector, attribute))
    }
}

/// `table` with `values` added to the bucket under `selector` and
/// `attribute`; unchanged where there is no such bucket.
pub open spec fn with_values(
    table: Table,
    selector: Seq<char>,
    attribute: Seq<char>,
    values: Set<Seq<char>>,
) -> Table {
    if table.contains_key(selector) && table[selector].contains_key(attribute) {
        table.insert(
            selector,
            table[selector].insert(attribute, table[selector][attribute].union(values)),
        )
    } else {
        table
    }
}

proof fn lemma_with_values_empty(table: Table, selector: Seq<char>, attribute: Seq<char>)
    ensures
        with_values(table, selector, attribute, Set::empty()) == table,
{
    if table.contains_key(selector) && table[selector].contains_key(attribute) {
        let bucket = table[selector][attribute];
        assert(bucket.union(Set::empty()) =~= bucket);
        assert(table[selector].insert(attribute, bucket) =~= table[selector]);
        assert(table.insert(selector, table[selector]) =~= table);
    }
}

proof fn lemma_with_values_insert(
    table: Table,
    selector: Seq<char>,
    attribute: Seq<char>,
    values: Set<Seq<char>>,
    value: Seq<char>,
)
    ensures
        with_value(with_values(table, selector, attribute, values), selector, attribute, value)
            == with_values(table, selector, attribute, values.insert(value)),
{
    if table.contains_key(selector) && table[selector].contains_key(attribute) {
        let bucket = table[selector][attribute];
        assert(bucket.union(values).insert(value) =~= bucket.union(values.insert(value)));
        let middle = with_values(table, selector, attribute, values);
        assert(middle[selector].insert(attribute, bucket.union(values).insert(value))
            =~= table[selector].insert(attribute, bucket.union(values.insert(value))));
        assert(with_value(middle, selector, attribute, value) =~= with_values(
            table,
            selector,
            attribute,
            values.insert(value),
        ));
    }
}

proof fn lemma_present_push(column: Seq<Option<Seq<char>>>, entry: Option<Seq<char>>)
    ensures
        entry matches Some(v) ==> present(column.push(entry)) == present(column).insert(v),
        entry is None ==> present(column.push(entry)) == present(column),
{
    lemma_to_set_push(column, entry);
    let after = column.push(entry);
    match entry {
        Some(v) => {
            assert forall|x: Seq<char>| present(after).contains(x) == present(column).insert(
                v,
            ).contains(x) by {
                assert(after.to_set().contains(Some(x)) == after.contains(Some(x)));
                assert(column.to_set().contains(Some(x)) == column.contains(Some(x)));
            }
            assert(present(after) =~= present(column).insert(v));
        },
        None => {
            assert forall|x: Seq<char>| present(after).contains(x) == present(column).contains(
                x,
            ) by {
                assert(after.to_set().contains(Some(x)) == after.contains(Some(x)));
                assert(column.to_set().contains(Some(x)) == column.contains(Some(x)));
            }
            assert(present(after) =~= present(column));
        },
    }
}

/// Files every entry of `values` under `selector` and `attribute`.
pub fn record_all(table: &mut ResultTable, selector: &str, attribute: &str, values: &Vec<String>)
    requires
        old(table).wf(),
    ensures
        final(table).wf(),
        final(table)@ == with_values(
            old(table)@,
            selector@,
            attribute@,
            texts(values@).to_set(),
        ),
{
    let ghost start = table@;
    let ghost column = texts(values@);
    proof {
        lemma_with_values_empty(start, selector@, attribute@);
        assert(column.take(0).to_set() =~= Set::<Seq<char>>::empty());
    }
    let mut i: usize = 0;
    while i < values.len()
        invariant
            i <= values.len(),
            column == texts(values@),
            table.wf(),
            table@ == with_values(start, selector@, attribute@, column.take(i as int).to_set()),
        decreases values.len() - i,
    {
        proof {
            lemma_with_values_insert(
                start,
                selector@,
                attribute@,
                column.take(i as int).to_set(),
                column[i as int],
            );
            lemma_to_set_push(column.take(i as int), column[i as int]);
            assert(column.take(i + 1) =~= column.take(i as int).push(column[i as int]));
        }
        table.record(selector, attribute, values[i].clone());
        i += 1;
    }
    assert(column.take(values.len() as int) =~= column);
}

/// Files the plain-text rendering of every entry of `markups` under
/// `selector` and `attribute`.
pub fn record_renderings(
    table: &mut ResultTable,
    selector: &str,
    attribute: &str,
    markups: &Vec<String>,
)
    requires
        old(table).wf(),
    ensures
        final(table).wf(),
        final(table)@ == with_values(
            old(table)@,
            selector@,
            attribute@,
            renderings(texts(markups@)).to_set(),
        ),
{
    let ghost start = table@;
    let ghost column = texts(markups@);
    proof {
        lemma_with_values_empty(start, selector@, attribute@);
        assert(renderings(column.take(0)).to_set() =~= Set::<Seq<char>>::empty());
    }
    let mut i: usize = 0;
    while i < markups.len()
        invariant
            i <= markups.len(),
            column == texts(markups@),
            table.wf(),
            table@ == with_values(
                start,
                selector@,
                attribute@,
                renderings(column.take(i as int)).to_set(),
            ),
        decreases markups.len() - i,
    {
        let plain = flatten_markup(markups[i].as_str());
        proof {
            lemma_with_values_insert(
                start,
                selector@,
                attribute@,
                renderings(column.take(i as int)).to_set(),
                plain@,
            );
            lemma_to_set_push(renderings(column.take(i as int)), plain@);
            assert(column.take(i + 1) =~= column.take(i as int).push(column[i as int]));
            assert(renderings(column.take(i + 1)) =~= renderings(column.take(i as int)).push(
                plain@,
            ));
        }
        table.record(selector, attribute, plain);
        i += 1;
    }
    assert(column.take(markups.len() as int) =~= column);
}

/// Files every entry of `values` that is there under `selector` and
/// `attribute`; an absent entry is passed over.
pub fn record_present(
    table: &mut ResultTable,
    selector: &str,
    attribute: &str,
    values: &Vec<Option<String>>,
)
    requires
        old(table).wf(),
    ensures
        final(table).wf(),
        final(table)@ == with_values(
            old(table)@,
            selector@,
            attribute@,
            present(crate::document::optional_texts(values@)),
        ),
{
    let ghost start = table@;
    let ghost column = crate::document::optional_texts(values@);
    proof {
        lemma_with_values_empty(start, selector@, attribute@);
        assert(present(column.take(0)) =~= Set::<Seq<char>>::empty());
    }
    let mut i: usize = 0;
    while i < values.len()
        invariant
            i <= values.len(),
            column == crate::document::optional_texts(values@),
            table.wf(),
            table@ == with_values(start, selector@, attribute@, present(column.take(i as int))),
        decreases values.len() - i,
    {
        proof {
            lemma_present_push(column.take(i as int), column[i as int]);
            assert(column.take(i + 1) =~= column.take(i as int).push(column[i as int]));
        }
        match &values[i] {
            Some(value) => {
                proof {
                    lemma_with_values_insert(
                        start,
                        selector@,
                        attribute@,
                        present(column.take(i as int)),
                        value@,
                    );
                }
                table.record(selector, attribute, value.clone());
            },
            None => {},
        }
        i += 1;
    }
    assert(column.take(values.len() as int) =~= column);
}

/// Reads one attribute specification off every element that `selector`
/// matches in `page`, and files the values under the selector's text and
/// the specification's name.
pub fn resolve_attribute(
    table: &mut ResultTable,
    page: &Document,
    selector: &CompiledSelector,
    spec: &AttributeSpec,
)
    requires
        old(table).wf(),
        spec.wf(),
    ensures
        final(table).wf(),
        final(table)@ == with_values(
            old(table)@,
            selector@,
            spec.label(),
            values_of(spec.label(), page@, selector@),
        ),
{
    proof {
        lemma_reserved_names_differ();
    }
    let selector_text = selector.source();
    match spec {
        AttributeSpec::TextContent => {
            let column = text_column(page, selector);
            record_all(table, selector_text, "TextContent", &column);
        },
        AttributeSpec::HtmlContent => {
            let column = markup_column(page, selector);
            record_all(table, selector_text, "HtmlContent", &column);
        },
        AttributeSpec::InnerHtml => {
            let column = inner_markup_column(page, selector);
            record_all(table, selector_text, "InnerHtml", &column);
        },
        AttributeSpec::Html2Text => {
            let column = inner_markup_column(page, selector);
            record_renderings(table, selector_text, "Html2Text", &column);
        },
        AttributeSpec::Literal(name) => {
            let column = attribute_column(page, selector, name.as_str());
            record_present(table, selector_text, name.as_str(), &column);
        },
    }
}

/// The selector and attribute pairs that one rule declares.
pub open spec fn rule_pairs(rule: CompiledRule) -> Set<(Seq<char>, Seq<char>)> {
    Set::new(
        |p: (Seq<char>, Seq<char>)|
            p.0 == rule.selector@ && labels(rule.attributes@).contains(p.1),
    )
}

/// The selector and attribute pairs that a list of rules declares.
pub open spec fn declared_pairs(rules: Seq<CompiledRule>) -> Set<(Seq<char>, Seq<char>)> {
    Set::new(
        |p: (Seq<char>, Seq<char>)|
            exists|i: int| 0 <= i < rules.len() && #[trigger] rule_pairs(rules[i]).contains(p),
    )
}

/// The selector texts that a list of rules declares.
pub open spec fn declared_selectors(rules: Seq<CompiledRule>) -> Set<Seq<char>> {
    Set::new(|s: Seq<char>| exists|i: int| 0 <= i < rules.len() && (#[trigger] rules[i]).selector@ == s)
}

/// `table` after one page: every bucket among `pairs` gains the values that
/// its attribute yields on that page; keys and other buckets stay.
pub open spec fn absorb(table: Table, pairs: Set<(Seq<char>, Seq<char>)>, page: Seq<char>) -> Table {
    Map::new(
        |s: Seq<char>| table.contains_key(s),
        |s: Seq<char>|
            Map::new(
                |a: Seq<char>| table[s].contains_key(a),
                |a: Seq<char>|
                    if pairs.contains((s, a)) {
                        table[s][a].union(values_of(a, page, s))
                    } else {
                        table[s][a]
                    },
            ),
    )
}

/// The values that an attribute yields over a list of pages.
pub open spec fn values_over(attribute: Seq<char>, pages: Seq<Seq<char>>, selector: Seq<char>) -> Set<
    Seq<char>,
> {
    Set::new(
        |v: Seq<char>|
            exists|k: int|
                0 <= k < pages.len() && values_of(attribute, #[trigger] pages[k], selector).contains(
                    v,
                ),
    )
}

/// The table that extraction gives for `rules` over `pages`: its keys are
/// the declared selectors, under each the attributes declared for it, and
/// each bucket holds the values that the attribute yields over the pages.
pub open spec fn extraction(rules: Seq<CompiledRule>, pages: Seq<Seq<char>>) -> Table {
    Map::new(
        |s: Seq<char>| declared_selectors(rules).contains(s),
        |s: Seq<char>|
            Map::new(
                |a: Seq<char>| declared_pairs(rules).contains((s, a)),
                |a: Seq<char>| values_over(a, pages, s),
            ),
    )
}

/// A table with the given keys and empty buckets.
pub open spec fn shape(selectors: Set<Seq<char>>, pairs: Set<(Seq<char>, Seq<char>)>) -> Table {
    Map::new(
        |s: Seq<char>| selectors.contains(s),
        |s: Seq<char>|
            Map::new(|a: Seq<char>| pairs.contains((s, a)), |a: Seq<char>| Set::<Seq<char>>::empty()),
    )
}

proof fn lemma_absorb_none(table: Table, page: Seq<char>)
    ensures
        absorb(table, Set::empty(), page) == table,
{
    assert(absorb(table, Set::empty(), page) =~~= table);
}

proof fn lemma_absorb_one(table: Table, selector: Seq<char>, attribute: Seq<char>, page: Seq<char>)
    ensures
        with_values(table, selector, attribute, values_of(attribute, page, selector)) == absorb(
            table,
            set![(selector, attribute)],
            page,
        ),
{
    let left = with_values(table, selector, attribute, values_of(attribute, page, selector));
    let right = absorb(table, set![(selector, attribute)], page);
    assert forall|s: Seq<char>| #[trigger] left.contains_key(s) implies left[s] =~~= right[s] by {
        assert forall|a: Seq<char>| #[trigger] left[s].contains_key(a) implies left[s][a]
            == right[s][a] by {
            if s == selector && a == attribute {
            } else {
                assert(!set![(selector, attribute)].contains((s, a)));
            }
        }
    }
    assert(left =~~= right);
}

proof fn lemma_absorb_union(
    table: Table,
    first: Set<(Seq<char>, Seq<char>)>,
    second: Set<(Seq<char>, Seq<char>)>,
    page: Seq<char>,
)
    ensures
        absorb(absorb(table, first, page), second, page) == absorb(table, first.union(second), page),
{
    let left = absorb(absorb(table, first, page), second, page);
    let right = absorb(table, first.union(second), page);
    assert forall|s: Seq<char>| #[trigger] left.contains_key(s) implies left[s] =~~= right[s] by {
        assert forall|a: Seq<char>| #[trigger] left[s].contains_key(a) implies left[s][a]
            =~= right[s][a] by {}
    }
    assert(left =~~= right);
}

proof fn lemma_absorb_page(rules: Seq<CompiledRule>, pages: Seq<Seq<char>>, page: Seq<char>)
    ensures
        absorb(extraction(rules, pages), declared_pairs(rules), page) == extraction(
            rules,
            pages.push(page),
        ),
{
    let left = absorb(extraction(rules, pages), declared_pairs(rules), page);
    let right = extraction(rules, pages.push(page));
    let longer = pages.push(page);
    assert forall|s: Seq<char>| #[trigger] left.contains_key(s) implies left[s] =~~= right[s] by {
        assert forall|a: Seq<char>| #[trigger] left[s].contains_key(a) implies left[s][a]
            =~= right[s][a] by {
            assert forall|v: Seq<char>| left[s][a].contains(v) == right[s][a].contains(v) by {
                if values_over(a, pages, s).contains(v) {
                    let k = choose|k: int|
                        0 <= k < pages.len() && values_of(a, #[trigger] pages[k], s).contains(v);
                    assert(longer[k] == pages[k]);
                }
                if values_of(a, page, s).contains(v) {
                    assert(longer[pages.len() as int] == page);
                }
                if values_over(a, longer, s).contains(v) {
                    let k = choose|k: int|
                        0 <= k < longer.len() && values_of(a, #[trigger] longer[k], s).contains(v);
                    if k < pages.len() {
                        assert(longer[k] == pages[k]);
                    }
                }
            }
        }
    }
    assert(left =~~= right);
}

/// The pairs that a rule declares with its first `count` attributes.
spec fn leading_pairs(rule: CompiledRule, count: int) -> Set<(Seq<char>, Seq<char>)> {
    Set::new(
        |p: (Seq<char>, Seq<char>)|
            p.0 == rule.selector@ && labels(rule.attributes@).take(count).contains(p.1),
    )
}

proof fn lemma_leading_pairs_step(rule: CompiledRule, count: int)
    requires
        0 <= count < rule.attributes.len(),
    ensures
        leading_pairs(rule, count + 1) == leading_pairs(rule, count).union(
            set![(rule.selector@, rule.attributes[count].label())],
        ),
        leading_pairs(rule, 0) == Set::<(Seq<char>, Seq<char>)>::empty(),
        leading_pairs(rule, rule.attributes.len() as int) == rule_pairs(rule),
{
    let names = labels(rule.attributes@);
    assert(names.take(count + 1) =~= names.take(count).push(names[count]));
    lemma_to_set_push(names.take(count), names[count]);
    assert forall|p: (Seq<char>, Seq<char>)|
        leading_pairs(rule, count + 1).contains(p) == leading_pairs(rule, count).union(
            set![(rule.selector@, rule.attributes[count].label())],
        ).contains(p) by {
        assert(names.take(count + 1).to_set().contains(p.1) == names.take(count + 1).contains(p.1));
        assert(names.take(count).to_set().contains(p.1) == names.take(count).contains(p.1));
    }
    assert(leading_pairs(rule, count + 1) =~= leading_pairs(rule, count).union(
        set![(rule.selector@, rule.attributes[count].label())],
    ));
    assert(leading_pairs(rule, 0) =~= Set::<(Seq<char>, Seq<char>)>::empty());
    assert(names.take(rule.attributes.len() as int) =~= names);
    assert(leading_pairs(rule, rule.attributes.len() as int) =~= rule_pairs(rule));
}

/// Applies one rule to one page: every attribute specification of the rule
/// is read off every element that the rule's selector matches.
pub fn resolve_rule(table: &mut ResultTable, page: &Document, rule: &CompiledRule)
    requires
        old(table).wf(),
        rule.wf(),
    ensures
        final(table).wf(),
        final(table)@ == absorb(old(table)@, rule_pairs(*rule), page@),
{
    let ghost start = table@;
    proof {
        lemma_absorb_none(start, page@);
        if rule.attributes.len() > 0 {
            lemma_leading_pairs_step(*rule, 0);
        } else {
            assert(leading_pairs(*rule, 0) =~= Set::<(Seq<char>, Seq<char>)>::empty());
            assert(labels(rule.attributes@).take(0) =~= labels(rule.attributes@));
            assert(leading_pairs(*rule, 0) =~= rule_pairs(*rule));
        }
    }
    let mut j: usize = 0;
    while j < rule.attributes.len()
        invariant
            j <= rule.attributes.len(),
            rule.wf(),
            table.wf(),
            table@ == absorb(start, leading_pairs(*rule, j as int), page@),
            j == rule.attributes.len() ==> leading_pairs(*rule, j as int) == rule_pairs(*rule),
        decreases rule.attributes.len() - j,
    {
        proof {
            let label = rule.attributes[j as int].label();
            lemma_leading_pairs_step(*rule, j as int);
            lemma_absorb_one(table@, rule.selector@, label, page@);
            lemma_absorb_union(
                start,
                leading_pairs(*rule, j as int),
                set![(rule.selector@, label)],
                page@,
            );
        }
        resolve_attribute(table, page, &rule.selector, &rule.attributes[j]);
        j += 1;
    }
}

proof fn lemma_declared_pairs_step(rules: Seq<CompiledRule>, count: int)
    requires
        0 <= count < rules.len(),
    ensures
        declared_pairs(rules.take(count + 1)) == declared_pairs(rules.take(count)).union(
            rule_pairs(rules[count]),
        ),
        declared_selectors(rules.take(count + 1)) == declared_selectors(rules.take(count)).insert(
            rules[count].selector@,
        ),
{
    let shorter = rules.take(count);
    let longer = rules.take(count + 1);
    assert(longer =~= shorter.push(rules[count]));
    assert forall|p: (Seq<char>, Seq<char>)|
        declared_pairs(longer).contains(p) == declared_pairs(shorter).union(
            rule_pairs(rules[count]),
        ).contains(p) by {
        if declared_pairs(longer).contains(p) {
            let i = choose|i: int|
                0 <= i < longer.len() && #[trigger] rule_pairs(longer[i]).contains(p);
            if i < count {
                assert(shorter[i] == longer[i]);
                assert(rule_pairs(shorter[i]).contains(p));
            }
        }
        if declared_pairs(shorter).contains(p) {
            let i = choose|i: int|
                0 <= i < shorter.len() && #[trigger] rule_pairs(shorter[i]).contains(p);
            assert(longer[i] == shorter[i]);
            assert(rule_pairs(longer[i]).contains(p));
        }
        if rule_pairs(rules[count]).contains(p) {
            assert(longer[count] == rules[count]);
            assert(rule_pairs(longer[count]).contains(p));
        }
    }
    assert(declared_pairs(longer) =~= declared_pairs(shorter).union(rule_pairs(rules[count])));
    assert forall|s: Seq<char>|
        declared_selectors(longer).contains(s) == declared_selectors(shorter).insert(
            rules[count].selector@,
        ).contains(s) by {
        if declared_selectors(longer).contains(s) {
            let i = choose|i: int| 0 <= i < longer.len() && (#[trigger] longer[i]).selector@ == s;
            if i < count {
                assert(shorter[i].selector@ == s);
            }
        }
        if declared_selectors(shorter).contains(s) {
            let i = choose|i: int| 0 <= i < shorter.len() && (#[trigger] shorter[i]).selector@ == s;
            assert(longer[i].selector@ == s);
        }
        if s == rules[count].selector@ {
            assert(longer[count].selector@ == s);
        }
    }
    assert(declared_selectors(longer) =~= declared_selectors(shorter).insert(
        rules[count].selector@,
    ));
}

/// All rules of `rules` are well formed.
pub open spec fn rules_wf(rules: Seq<CompiledRule>) -> bool {
    forall|i: int| 0 <= i < rules.len() ==> (#[trigger] rules[i]).wf()
}

/// Applies every rule to one page. Matches are taken in the order in which
/// the selector yields them; a value found more than once is filed once.
pub fn resolve_selectors(page: &Document, rules: &Vec<CompiledRule>, table: &mut ResultTable)
    requires
        old(table).wf(),
        rules_wf(rules@),
    ensures
        final(table).wf(),
        final(table)@ == absorb(old(table)@, declared_pairs(rules@), page@),
{
    let ghost start = table@;
    proof {
        lemma_absorb_none(start, page@);
        assert(declared_pairs(rules@.take(0)) =~= Set::<(Seq<char>, Seq<char>)>::empty());
    }
    let mut i: usize = 0;
    while i < rules.len()
        invariant
            i <= rules.len(),
            rules_wf(rules@),
            table.wf(),
            table@ == absorb(start, declared_pairs(rules@.take(i as int)), page@),
        decreases rules.len() - i,
    {
        proof {
            lemma_declared_pairs_step(rules@, i as int);
            lemma_absorb_union(
                start,
                declared_pairs(rules@.take(i as int)),
                rule_pairs(rules[i as int]),
                page@,
            );
        }
        resolve_rule(table, page, &rules[i]);
        i += 1;
    }
    assert(rules@.take(rules.len() as int) =~= rules@);
}

proof fn lemma_shape_selector(
    selectors: Set<Seq<char>>,
    pairs: Set<(Seq<char>, Seq<char>)>,
    selector: Seq<char>,
)
    requires
        forall|p: (Seq<char>, Seq<char>)| pairs.contains(p) ==> selectors.contains(p.0),
    ensures
        with_selector(shape(selectors, pairs), selector) == shape(selectors.insert(selector), pairs),
{
    let left = with_selector(shape(selectors, pairs), selector);
    let right = shape(selectors.insert(selector), pairs);
    assert forall|s: Seq<char>| #[trigger] left.contains_key(s) implies left[s] =~~= right[s] by {
        if !selectors.contains(s) {
            assert forall|a: Seq<char>| !right[s].contains_key(a) by {
                if pairs.contains((s, a)) {
                    assert(selectors.contains((s, a).0));
                }
            }
        }
    }
    assert(left =~~= right);
}

proof fn lemma_shape_bucket(
    selectors: Set<Seq<char>>,
    pairs: Set<(Seq<char>, Seq<char>)>,
    selector: Seq<char>,
    attribute: Seq<char>,
)
    requires
        selectors.contains(selector),
    ensures
        with_bucket(shape(selectors, pairs), selector, attribute) == shape(
            selectors,
            pairs.insert((selector, attribute)),
        ),
{
    let left = with_bucket(shape(selectors, pairs), selector, attribute);
    let right = shape(selectors, pairs.insert((selector, attribute)));
    assert forall|s: Seq<char>| #[trigger] left.contains_key(s) implies left[s] =~~= right[s] by {
        assert forall|a: Seq<char>| left[s].contains_key(a) == right[s].contains_key(a) by {
            if s == selector && a == attribute {
            } else {
                assert((s, a) != (selector, attribute));
            }
        }
    }
    assert(left =~~= right);
}

proof fn lemma_extraction_of_no_page(rules: Seq<CompiledRule>)
    ensures
        extraction(rules, Seq::empty()) == shape(declared_selectors(rules), declared_pairs(rules)),
{
    let left = extraction(rules, Seq::empty());
    let right = shape(declared_selectors(rules), declared_pairs(rules));
    assert forall|s: Seq<char>| #[trigger] left.contains_key(s) implies left[s] =~~= right[s] by {
        assert forall|a: Seq<char>| #[trigger] left[s].contains_key(a) implies left[s][a]
            =~= right[s][a] by {}
    }
    assert(left =~~= right);
}

proof fn lemma_pairs_have_selectors(rules: Seq<CompiledRule>)
    ensures
        forall|p: (Seq<char>, Seq<char>)|
            declared_pairs(rules).contains(p) ==> declared_selectors(rules).contains(p.0),
{
    assert forall|p: (Seq<char>, Seq<char>)| declared_pairs(rules).contains(p) implies declared_selectors(
        rules,
    ).contains(p.0) by {
        let i = choose|i: int| 0 <= i < rules.len() && #[trigger] rule_pairs(rules[i]).contains(p);
        assert(rules[i].selector@ == p.0);
    }
}

/// The table before any page was read: every declared selector is a key,
/// under each stands every attribute declared for it, and every bucket is
/// empty.
pub fn blank_table(rules: &Vec<CompiledRule>) -> (table: ResultTable)
    ensures
        table.wf(),
        table@ == extraction(rules@, Seq::empty()),
{
    let mut table = ResultTable::new();
    proof {
        assert(declared_pairs(rules@.take(0)) =~= Set::<(Seq<char>, Seq<char>)>::empty());
        assert(declared_selectors(rules@.take(0)) =~= Set::<Seq<char>>::empty());
        assert(table@ =~~= shape(Set::empty(), Set::empty()));
    }
    let mut i: usize = 0;
    while i < rules.len()
        invariant
            i <= rules.len(),
            table.wf(),
            table@ == shape(
                declared_selectors(rules@.take(i as int)),
                declared_pairs(rules@.take(i as int)),
            ),
        decreases rules.len() - i,
    {
        let rule = &rules[i];
        let ghost selectors = declared_selectors(rules@.take(i + 1));
        let ghost before = declared_pairs(rules@.take(i as int));
        proof {
            lemma_declared_pairs_step(rules@, i as int);
            lemma_pairs_have_selectors(rules@.take(i as int));
            lemma_shape_selector(declared_selectors(rules@.take(i as int)), before, rule.selector@);
            assert(before.union(leading_pairs(*rule, 0)) =~= before);
            assert(leading_pairs(*rule, 0) =~= Set::<(Seq<char>, Seq<char>)>::empty());
            if rule.attributes.len() == 0 {
                assert(labels(rule.attributes@).take(0) =~= labels(rule.attributes@));
                assert(leading_pairs(*rule, 0) =~= rule_pairs(*rule));
            }
        }
        table.declare_selector(rule.selector.source());
        let mut j: usize = 0;
        while j < rule.attributes.len()
            invariant
                j <= rule.attributes.len(),
                table.wf(),
                selectors.contains(rule.selector@),
                table@ == shape(selectors, before.union(leading_pairs(*rule, j as int))),
                j == rule.attributes.len() ==> leading_pairs(*rule, j as int) == rule_pairs(*rule),
            decreases rule.attributes.len() - j,
        {
            let name = rule.attributes[j].name();
            proof {
                lemma_leading_pairs_step(*rule, j as int);
                lemma_shape_bucket(
                    selectors,
                    before.union(leading_pairs(*rule, j as int)),
                    rule.selector@,
                    name@,
                );
                assert(before.union(leading_pairs(*rule, j as int)).insert((rule.selector@, name@))
                    =~= before.union(leading_pairs(*rule, j + 1)));
            }
            table.declare(rule.selector.source(), name.as_str());
            j += 1;
        }
        i += 1;
    }
    proof {
        assert(rules@.take(rules.len() as int) =~= rules@);
        lemma_extraction_of_no_page(rules@);
    }
    table
}

/// Runs every rule over every page and gives the table of what was found.
pub fn extract_pages(rules: &Vec<CompiledRule>, pages: &Vec<PageRecord>) -> (table: ResultTable)
    requires
        rules_wf(rules@),
    ensures
        table.wf(),
        table@ == extraction(rules@, sources(pages@)),
{
    let mut table = blank_table(rules);
    proof {
        assert(sources(pages@).take(0) =~= Seq::<Seq<char>>::empty());
    }
    let mut k: usize = 0;
    while k < pages.len()
        invariant
            k <= pages.len(),
            rules_wf(rules@),
            table.wf(),
            table@ == extraction(rules@, sources(pages@).take(k as int)),
        decreases pages.len() - k,
    {
        proof {
            lemma_absorb_page(rules@, sources(pages@).take(k as int), pages[k as int].document@);
            assert(sources(pages@).take(k + 1) =~= sources(pages@).take(k as int).push(
                pages[k as int].document@,
            ));
        }
        resolve_selectors(&pages[k].document, rules, &mut table);
        k += 1;
    }
    assert(sources(pages@).take(pages.len() as int) =~= sources(pages@));
    table
}

/// The keys of the table are the selectors and attributes that the job
/// declares, no more and no fewer, whatever the pages hold: a selector of
/// the job is a key even where it matches nothing, and under it stands
/// every attribute that the job names for it.
pub proof fn lemma_table_keys(
    searches: Seq<SearchRule>,
    rules: Seq<CompiledRule>,
    pages: Seq<Seq<char>>,
)
    requires
        rules.len() == searches.len(),
        forall|i: int| 0 <= i < rules.len() ==> (#[trigger] rules[i]).compiles(searches[i]),
    ensures
        forall|s: Seq<char>|
            extraction(rules, pages).contains_key(s) <==> exists|i: int|
                0 <= i < searches.len() && (#[trigger] searches[i]).selector@ == s,
        forall|s: Seq<char>, a: Seq<char>|
            extraction(rules, pages).contains_key(s) ==> (#[trigger] extraction(
                rules,
                pages,
            )[s].contains_key(a) <==> exists|i: int, j: int|
                0 <= i < searches.len() && 0 <= j < searches[i].attributes.len()
                    && searches[i].selector@ == s && (#[trigger] searches[i].attributes[j])@ == a),
{
    let table = extraction(rules, pages);
    assert forall|s: Seq<char>| table.contains_key(s) <==> exists|i: int|
        0 <= i < searches.len() && (#[trigger] searches[i]).selector@ == s by {
        if table.contains_key(s) {
            let i = choose|i: int| 0 <= i < rules.len() && (#[trigger] rules[i]).selector@ == s;
            assert(rules[i].compiles(searches[i]));
            assert(searches[i].selector@ == s);
        }
        if exists|i: int| 0 <= i < searches.len() && (#[trigger] searches[i]).selector@ == s {
            let i = choose|i: int| 0 <= i < searches.len() && (#[trigger] searches[i]).selector@ == s;
            assert(rules[i].compiles(searches[i]));
            assert(rules[i].selector@ == s);
        }
    }
    assert forall|s: Seq<char>, a: Seq<char>| table.contains_key(s) implies (#[trigger] table[s].contains_key(
        a,
    ) <==> exists|i: int, j: int|
        0 <= i < searches.len() && 0 <= j < searches[i].attributes.len() && searches[i].selector@
            == s && (#[trigger] searches[i].attributes[j])@ == a) by {
        if table[s].contains_key(a) {
            let i = choose|i: int|
                0 <= i < rules.len() && #[trigger] rule_pairs(rules[i]).contains((s, a));
            assert(rules[i].compiles(searches[i]));
            let names = labels(rules[i].attributes@);
            let j = choose|j: int| 0 <= j < names.len() && names[j] == a;
            assert(texts(searches[i].attributes@)[j] == a);
            assert(searches[i].attributes[j]@ == a);
        }
        if exists|i: int, j: int|
            0 <= i < searches.len() && 0 <= j < searches[i].attributes.len()
                && searches[i].selector@ == s && (#[trigger] searches[i].attributes[j])@ == a {
            let (i, j) = choose|i: int, j: int|
                0 <= i < searches.len() && 0 <= j < searches[i].attributes.len()
                    && searches[i].selector@ == s && (#[trigger] searches[i].attributes[j])@ == a;
            assert(rules[i].compiles(searches[i]));
            let names = labels(rules[i].attributes@);
            assert(names[j] == texts(searches[i].attributes@)[j]);
            assert(names.contains(a));
            assert(rule_pairs(rules[i]).contains((s, a)));
        }
    }
}

} // verus!
