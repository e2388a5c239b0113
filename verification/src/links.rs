//! The link extractor: which addresses a page sends the crawl on to.

use crate::address::{join_address, joined_text, normalize_url, normalized};
use crate::document::{attribute_column, attributes_of, CompiledSelector, Document};
use crate::pattern::{pattern_accepts, pattern_matches, FollowPattern};
use crate::text::{distinct, holds, insert_distinct, text_set};
use vstd::prelude::*;

verus! {

/// How a raw link is read, by its first character.
#[derive(Debug, PartialEq, Eq, Structural, Clone, Copy)]
pub enum LinkKind {
    /// Starts with `/`: resolved against the address of the page.
    Rooted,
    /// Starts with `#`: points into the page itself, never followed.
    Fragment,
    /// Anything else: taken as an absolute address as it stands.
    Literal,
    /// No character at all: nothing to follow.
    Empty,
}

/// The kind of a raw link.
pub open spec fn kind_of(href: Seq<char>) -> LinkKind {
    if href.len() == 0 {
        LinkKind::Empty
    } else if href[0] == '/' {
        LinkKind::Rooted
    } else if href[0] == '#' {
        LinkKind::Fragment
    } else {
        LinkKind::Literal
    }
}

/// The address that a raw link stands for, before it is made canonical.
pub open spec fn candidate(base: Seq<char>, href: Seq<char>) -> Option<Seq<char>> {
    match kind_of(href) {
        LinkKind::Rooted => joined_text(base, href),
        LinkKind::Literal => Some(href),
        LinkKind::Fragment => None,
        LinkKind::Empty => None,
    }
}

/// Whether the job lets the crawl follow `link`: without a pattern no link
/// is followed; with one, those that it matches.
pub open spec fn followed(pattern: Option<Seq<char>>, link: Seq<char>) -> bool {
    pattern matches Some(source) && pattern_accepts(source, link)
}

/// The source text of an optional pattern.
pub open spec fn pattern_text(pattern: Option<FollowPattern>) -> Option<Seq<char>> {
    match pattern {
        Some(p) => Some(p@),
        None => None,
    }
}

/// The canonical address that the raw link `href`, found on the page at
/// `base`, adds to the next frontier, if any: the link resolves, it is
/// canonical, the pattern lets it through and it was not fetched before.
pub open spec fn link_of(
    base: Seq<char>,
    href: Seq<char>,
    pattern: Option<Seq<char>>,
    visited: Set<Seq<char>>,
) -> Option<Seq<char>> {
    match candidate(base, href) {
        None => None,
        Some(raw) => match normalized(raw) {
            None => None,
            Some(link) => if followed(pattern, link) && !visited.contains(link) {
                Some(link)
            } else {
                None
            },
        },
    }
}

/// The addresses that a column of raw links adds to the next frontier.
pub open spec fn links_from(
    hrefs: Seq<Option<Seq<char>>>,
    base: Seq<char>,
    pattern: Option<Seq<char>>,
    visited: Set<Seq<char>>,
) -> Set<Seq<char>> {
    Set::new(
        |link: Seq<char>|
            exists|k: int|
                0 <= k < hrefs.len() && (#[trigger] hrefs[k]) is Some && link_of(
                    base,
                    hrefs[k]->0,
                    pattern,
                    visited,
                ) == Some(link),
    )
}

/// The addresses that the page with markup `page`, fetched under `base`,
/// adds to the next frontier: the links of the elements that `anchors`
/// matches, read from their `href`.
pub open spec fn links_of(
    page: Seq<char>,
    anchors: Seq<char>,
    base: Seq<char>,
    pattern: Option<Seq<char>>,
    visited: Set<Seq<char>>,
) -> Set<Seq<char>> {
    links_from(attributes_of(page, anchors, "href"@), base, pattern, visited)
}

/// Reads the kind of a raw link off its first character.
pub fn classify(href: &str) -> (kind: LinkKind)
    ensures
        kind == kind_of(href@),
{
    if href.is_empty() {
        LinkKind::Empty
    } else {
        let first = href.get_char(0);
        if first == '/' {
            LinkKind::Rooted
        } else if first == '#' {
            LinkKind::Fragment
        } else {
            LinkKind::Literal
        }
    }
}

/// Decides what one raw link adds to the next frontier.
pub fn link_for(
    base: &str,
    href: &str,
    pattern: &Option<FollowPattern>,
    visited: &Vec<String>,
) -> (link: Option<String>)
    ensures
        link is Some <==> link_of(base@, href@, pattern_text(*pattern), text_set(visited@)) is Some,
        link matches Some(text) ==> Some(text@) == link_of(
            base@,
            href@,
            pattern_text(*pattern),
            text_set(visited@),
        ),
{
    let raw = match classify(href) {
        LinkKind::Rooted => join_address(base, href),
        LinkKind::Literal => Some(href.to_owned()),
        LinkKind::Fragment => None,
        LinkKind::Empty => None,
    };
    let raw = match raw {
        Some(raw) => raw,
        None => {
            return None;
        },
    };
    let canonical = match normalize_url(raw.as_str()) {
        Some(canonical) => canonical,
        None => {
            return None;
        },
    };
    let wanted = match pattern {
        Some(pattern) => pattern_matches(pattern, canonical.as_str()),
        None => false,
    };
    if wanted && !holds(visited, &canonical) {
        Some(canonical)
    } else {
        None
    }
}

proof fn lemma_links_from_push(
    hrefs: Seq<Option<Seq<char>>>,
    entry: Option<Seq<char>>,
    base: Seq<char>,
    pattern: Option<Seq<char>>,
    visited: Set<Seq<char>>,
)
    ensures
        links_from(hrefs.push(entry), base, pattern, visited) == match entry {
            Some(href) => match link_of(base, href, pattern, visited) {
                Some(link) => links_from(hrefs, base, pattern, visited).insert(link),
                None => links_from(hrefs, base, pattern, visited),
            },
            None => links_from(hrefs, base, pattern, visited),
        },
{
    let longer = hrefs.push(entry);
    let before = links_from(hrefs, base, pattern, visited);
    let after = links_from(longer, base, pattern, visited);
    let target = match entry {
        Some(href) => match link_of(base, href, pattern, visited) {
            Some(link) => before.insert(link),
            None => before,
        },
        None => before,
    };
    assert forall|link: Seq<char>| after.contains(link) == target.contains(link) by {
        if after.contains(link) {
            let k = choose|k: int|
                0 <= k < longer.len() && (#[trigger] longer[k]) is Some && link_of(
                    base,
                    longer[k]->0,
                    pattern,
                    visited,
                ) == Some(link);
            if k < hrefs.len() {
                assert(hrefs[k] == longer[k]);
            }
        }
        if before.contains(link) {
            let k = choose|k: int|
                0 <= k < hrefs.len() && (#[trigger] hrefs[k]) is Some && link_of(
                    base,
                    hrefs[k]->0,
                    pattern,
                    visited,
                ) == Some(link);
            assert(longer[k] == hrefs[k]);
        }
        if target.contains(link) && !before.contains(link) {
            assert(longer[hrefs.len() as int] == entry);
        }
    }
    assert(after =~= target);
}

/// Gathers what a column of raw links adds to the next frontier; each
/// address once.
pub fn collect_links(
    hrefs: &Vec<Option<String>>,
    base: &str,
    pattern: &Option<FollowPattern>,
    visited: &Vec<String>,
) -> (links: Vec<String>)
    ensures
        distinct(links@),
        text_set(links@) == links_from(
            crate::document::optional_texts(hrefs@),
            base@,
            pattern_text(*pattern),
            text_set(visited@),
        ),
{
    let ghost column = crate::document::optional_texts(hrefs@);
    let mut links: Vec<String> = Vec::new();
    proof {
        assert(text_set(links@) =~= Set::<Seq<char>>::empty());
        assert(links_from(column.take(0), base@, pattern_text(*pattern), text_set(visited@))
            =~= Set::<Seq<char>>::empty());
    }
    let mut k: usize = 0;
    while k < hrefs.len()
        invariant
            k <= hrefs.len(),
            column == crate::document::optional_texts(hrefs@),
            distinct(links@),
            text_set(links@) == links_from(
                column.take(k as int),
                base@,
                pattern_text(*pattern),
                text_set(visited@),
            ),
        decreases hrefs.len() - k,
    {
        proof {
            lemma_links_from_push(
                column.take(k as int),
                column[k as int],
                base@,
                pattern_text(*pattern),
                text_set(visited@),
            );
            assert(column.take(k + 1) =~= column.take(k as int).push(column[k as int]));
        }
        match &hrefs[k] {
            Some(href) => {
                match link_for(base, href.as_str(), pattern, visited) {
                    Some(link) => {
                        insert_distinct(&mut links, link);
                    },
                    None => {},
                }
            },
            None => {},
        }
        k += 1;
    }
    assert(column.take(hrefs.len() as int) =~= column);
    links
}

/// Mines a page for the next frontier: the `href` of every element that
/// `anchors` matches is resolved against the page's own address `base`,
/// made canonical, put to the follow pattern, and dropped where it was
/// fetched before.
pub fn extract_links(
    page: &Document,
    anchors: &CompiledSelector,
    base: &str,
    pattern: &Option<FollowPattern>,
    visited: &Vec<String>,
) -> (links: Vec<String>)
    ensures
        distinct(links@),
        text_set(links@) == links_of(
            page@,
            anchors@,
            base@,
            pattern_text(*pattern),
            text_set(visited@),
        ),
{
    let hrefs = attribute_column(page, anchors, "href");
    collect_links(&hrefs, base, pattern, visited)
}

} // verus!
