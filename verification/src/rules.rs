//! Crawl jobs and their extraction rules, as submitted and as compiled.

use crate::document::{compile_selector, selector_is_valid, CompiledSelector};
use crate::text::{same_text, texts};
use vstd::prelude::*;
use vstd::string::StringExecFns;

verus! {

/// One extraction rule as submitted: a selector and the attributes to read
/// off every element that it matches.
pub struct SearchRule {
    pub selector: String,
    pub attributes: Vec<String>,
}

/// A crawl job as submitted.
pub struct CrawlJob {
    /// The seed address.
    pub url: String,
    /// The follow pattern; without one the crawl stays on the seed page.
    pub follow_links: Option<String>,
    /// The deepest level to fetch; the seed page alone where absent.
    pub max_depth: Option<u32>,
    /// The extraction rules, in order.
    pub searches: Vec<SearchRule>,
}

/// Why a job was refused before any page was fetched.
#[derive(Debug)]
pub enum ConfigError {
    /// The seed is no well-formed absolute address.
    MalformedSeed,
    /// The selector with this text does not compile.
    InvalidSelector(String),
    /// The follow pattern does not compile; the text says what the pattern
    /// compiler reported.
    InvalidPattern(String),
}

/// Why a crawl gave no result.
#[derive(Debug)]
pub enum CrawlError {
    /// The job was refused; nothing was fetched.
    Config(ConfigError),
    /// A page could not be fetched; the text says what the fetcher reported.
    Fetch(String),
}

impl CrawlError {
    /// A line of text that says what went wrong.
    pub fn message(&self) -> (text: String)
        ensures
            self matches CrawlError::Config(ConfigError::MalformedSeed) ==> text@
                == "Invalid Url Provided"@,
            self matches CrawlError::Config(ConfigError::InvalidPattern(report)) ==> text@
                == report@,
            self matches CrawlError::Config(ConfigError::InvalidSelector(selector)) ==> text@
                == "Invalid Selector Provided: "@ + selector@,
            self matches CrawlError::Fetch(report) ==> text@ == report@,
    {
        match self {
            CrawlError::Config(ConfigError::MalformedSeed) => "Invalid Url Provided".to_owned(),
            CrawlError::Config(ConfigError::InvalidPattern(report)) => report.clone(),
            CrawlError::Config(ConfigError::InvalidSelector(selector)) => {
                let mut text = "Invalid Selector Provided: ".to_owned();
                text.append(selector.as_str());
                text
            },
            CrawlError::Fetch(report) => report.clone(),
        }
    }
}

/// What to read off a matched element.
#[derive(Debug)]
pub enum AttributeSpec {
    /// All descendant text, concatenated.
    TextContent,
    /// The serialized markup of the element itself.
    HtmlContent,
    /// The serialized markup of the element's children.
    InnerHtml,
    /// The plain-text rendering of the element's inner markup.
    Html2Text,
    /// The value of the attribute with this name; nothing where it is absent.
    Literal(String),
}

/// Whether `name` is one of the four reserved extraction modes.
pub open spec fn is_reserved(name: Seq<char>) -> bool {
    ||| name == "TextContent"@
    ||| name == "HtmlContent"@
    ||| name == "InnerHtml"@
    ||| name == "Html2Text"@
}

/// The four reserved names are pairwise different.
pub proof fn lemma_reserved_names_differ()
    ensures
        "TextContent"@ != "HtmlContent"@,
        "TextContent"@ != "InnerHtml"@,
        "TextContent"@ != "Html2Text"@,
        "HtmlContent"@ != "InnerHtml"@,
        "HtmlContent"@ != "Html2Text"@,
        "InnerHtml"@ != "Html2Text"@,
{
    reveal_strlit("TextContent");
    reveal_strlit("HtmlContent");
    reveal_strlit("InnerHtml");
    reveal_strlit("Html2Text");
    assert("TextContent"@[0] == 'T');
    assert("HtmlContent"@[0] == 'H');
    assert("InnerHtml"@[0] == 'I');
    assert("Html2Text"@[0] == 'H');
    assert("HtmlContent"@.len() == 11);
    assert("Html2Text"@.len() == 9);
}

impl AttributeSpec {
    /// The name under which the specification was submitted, and under
    /// which its values are filed.
    pub open spec fn label(&self) -> Seq<char> {
        match self {
            AttributeSpec::TextContent => "TextContent"@,
            AttributeSpec::HtmlContent => "HtmlContent"@,
            AttributeSpec::InnerHtml => "InnerHtml"@,
            AttributeSpec::Html2Text => "Html2Text"@,
            AttributeSpec::Literal(name) => name@,
        }
    }

    /// A literal attribute does not bear a reserved name.
    pub open spec fn wf(&self) -> bool {
        self matches AttributeSpec::Literal(name) ==> !is_reserved(name@)
    }

    /// Reads a submitted attribute name: one of the four reserved names
    /// selects that extraction mode, any other text names a literal attribute.
    pub fn parse(name: &str) -> (spec: AttributeSpec)
        ensures
            spec.wf(),
            spec.label() == name@,
            spec is Literal <==> !is_reserved(name@),
            name@ == "TextContent"@ ==> spec is TextContent,
            name@ == "HtmlContent"@ ==> spec is HtmlContent,
            name@ == "InnerHtml"@ ==> spec is InnerHtml,
            name@ == "Html2Text"@ ==> spec is Html2Text,
    {
        proof {
            lemma_reserved_names_differ();
        }
        if same_text(name, "TextContent") {
            AttributeSpec::TextContent
        } else if same_text(name, "HtmlContent") {
            AttributeSpec::HtmlContent
        } else if same_text(name, "InnerHtml") {
            AttributeSpec::InnerHtml
        } else if same_text(name, "Html2Text") {
            AttributeSpec::Html2Text
        } else {
            AttributeSpec::Literal(name.to_owned())
        }
    }

    /// The name of the specification, as text.
    pub fn name(&self) -> (name: String)
        ensures
            name@ == self.label(),
    {
        match self {
            AttributeSpec::TextContent => "TextContent".to_owned(),
            AttributeSpec::HtmlContent => "HtmlContent".to_owned(),
            AttributeSpec::InnerHtml => "InnerHtml".to_owned(),
            AttributeSpec::Html2Text => "Html2Text".to_owned(),
            AttributeSpec::Literal(name) => name.clone(),
        }
    }
}

/// A rule ready for extraction: the compiled selector and the attribute
/// specifications, each resolved to its mode once.
pub struct CompiledRule {
    pub selector: CompiledSelector,
    pub attributes: Vec<AttributeSpec>,
}

/// The labels of a list of attribute specifications, in order.
pub open spec fn labels(attributes: Seq<AttributeSpec>) -> Seq<Seq<char>> {
    attributes.map_values(|spec: AttributeSpec| spec.label())
}

impl CompiledRule {
    /// Every attribute specification of the rule is well formed.
    pub open spec fn wf(&self) -> bool {
        forall|j: int| 0 <= j < self.attributes.len() ==> (#[trigger] self.attributes[j]).wf()
    }

    /// Whether the compiled rule stands for the submitted `rule`: the same
    /// selector text and the same attribute names in the same order.
    pub open spec fn compiles(&self, rule: SearchRule) -> bool {
        &&& self.wf()
        &&& self.selector@ == rule.selector@
        &&& labels(self.attributes@) == texts(rule.attributes@)
    }
}

/// The position of the first rule whose selector does not compile, or the
/// number of rules where all compile.
pub open spec fn first_invalid(searches: Seq<SearchRule>) -> int
    decreases searches.len(),
{
    if searches.len() == 0 {
        0
    } else if !selector_is_valid(searches[0].selector@) {
        0
    } else {
        1 + first_invalid(searches.drop_first())
    }
}

/// `first_invalid` lies within the list or at its end, every rule before it
/// compiles, and the rule at it, if there is one, does not.
pub proof fn lemma_first_invalid(searches: Seq<SearchRule>)
    ensures
        0 <= first_invalid(searches) <= searches.len(),
        forall|i: int|
            0 <= i < first_invalid(searches) ==> selector_is_valid(
                (#[trigger] searches[i]).selector@,
            ),
        first_invalid(searches) < searches.len() ==> !selector_is_valid(
            searches[first_invalid(searches)].selector@,
        ),
    decreases searches.len(),
{
    if searches.len() > 0 && selector_is_valid(searches[0].selector@) {
        let rest = searches.drop_first();
        lemma_first_invalid(rest);
        assert forall|i: int| 0 <= i < first_invalid(searches) implies selector_is_valid(
            (#[trigger] searches[i]).selector@,
        ) by {
            if i > 0 {
                assert(searches[i] == rest[i - 1]);
            }
        }
        if first_invalid(searches) < searches.len() {
            assert(searches[first_invalid(searches)] == rest[first_invalid(rest)]);
        }
    }
}

/// Reads the attribute names of one rule.
pub fn compile_attributes(names: &Vec<String>) -> (attributes: Vec<AttributeSpec>)
    ensures
        labels(attributes@) == texts(names@),
        forall|j: int| 0 <= j < attributes.len() ==> (#[trigger] attributes[j]).wf(),
{
    let mut attributes: Vec<AttributeSpec> = Vec::new();
    let mut j: usize = 0;
    while j < names.len()
        invariant
            j <= names.len(),
            attributes.len() == j,
            forall|k: int| 0 <= k < j ==> (#[trigger] attributes[k]).wf(),
            forall|k: int| 0 <= k < j ==> (#[trigger] attributes[k]).label() == names[k]@,
        decreases names.len() - j,
    {
        attributes.push(AttributeSpec::parse(names[j].as_str()));
        j += 1;
    }
    assert(labels(attributes@) =~= texts(names@));
    attributes
}

/// Compiles the rules of a job, in order. The first selector that does not
/// compile refuses the job; its text is handed back.
pub fn compile_rules(searches: &Vec<SearchRule>) -> (compiled: Result<Vec<CompiledRule>, ConfigError>)
    ensures
        compiled is Ok <==> first_invalid(searches@) == searches.len(),
        compiled matches Ok(rules) ==> {
            &&& rules.len() == searches.len()
            &&& forall|i: int| 0 <= i < rules.len() ==> (#[trigger] rules[i]).compiles(searches[i])
        },
        compiled matches Err(error) ==> {
            &&& error matches ConfigError::InvalidSelector(text)
            &&& text@ == searches[first_invalid(searches@)].selector@
        },
{
    proof {
        lemma_first_invalid(searches@);
    }
    let mut rules: Vec<CompiledRule> = Vec::new();
    let mut i: usize = 0;
    while i < searches.len()
        invariant
            i <= searches.len(),
            i <= first_invalid(searches@),
            rules.len() == i,
            forall|k: int| 0 <= k < i ==> (#[trigger] rules[k]).compiles(searches[k]),
            0 <= first_invalid(searches@) <= searches.len(),
            forall|k: int|
                0 <= k < first_invalid(searches@) ==> selector_is_valid(
                    (#[trigger] searches[k]).selector@,
                ),
            first_invalid(searches@) < searches.len() ==> !selector_is_valid(
                searches[first_invalid(searches@)].selector@,
            ),
        decreases searches.len() - i,
    {
        match compile_selector(searches[i].selector.as_str()) {
            None => {
                assert(first_invalid(searches@) == i) by {
                    if i < first_invalid(searches@) {
                        assert(selector_is_valid(searches[i as int].selector@));
                    }
                }
                return Err(ConfigError::InvalidSelector(searches[i].selector.clone()));
            },
            Some(selector) => {
                let attributes = compile_attributes(&searches[i].attributes);
                rules.push(CompiledRule { selector, attributes });
                assert(first_invalid(searches@) != i);
            },
        }
        i += 1;
    }
    Ok(rules)
}

} // verus!
