//! Classification rules and the rule file.
//!
//! A rule file is a JSON array of objects. Each object names a category
//! (`name`) and may give a pattern that a path has to match (`regex`) or one
//! that it must not match (`nregex`). The order of the array is the order in
//! which the rules are tried.

use vstd::prelude::*;

use crate::document::{document_of, views, Json, JsonError, JsonView};
use crate::pattern::{pattern_compiles, pattern_matches, Pattern, PatternError};

verus! {

/// A classification rule, as mathematics.
pub struct CategoryRule {
    /// The label of the category.
    pub name: Seq<char>,
    /// Where present, a path belongs to the rule exactly if it matches this.
    pub include_pattern: Option<Seq<char>>,
    /// Where present, and no include pattern is, a path belongs to the rule
    /// exactly if it does not match this.
    pub exclude_pattern: Option<Seq<char>>,
}

impl CategoryRule {
    /// Whether the rule takes `path`. The include pattern decides where there
    /// is one; else the exclude pattern does; a rule without patterns takes
    /// every path.
    pub open spec fn matches(self, path: Seq<char>) -> bool {
        match self.include_pattern {
            Some(required) => pattern_matches(required, path),
            None => match self.exclude_pattern {
                Some(refused) => !pattern_matches(refused, path),
                None => true,
            },
        }
    }

    /// A rule without patterns.
    pub open spec fn is_catch_all(self) -> bool {
        self.include_pattern is None && self.exclude_pattern is None
    }
}

/// A named classification rule.
#[derive(Debug)]
pub struct Category {
    name: String,
    regex: Option<Pattern>,
    nregex: Option<Pattern>,
}

impl View for Category {
    type V = CategoryRule;

    closed spec fn view(&self) -> CategoryRule {
        CategoryRule {
            name: self.name@,
            include_pattern: pattern_source(self.regex),
            exclude_pattern: pattern_source(self.nregex),
        }
    }
}

/// The source text of a pattern that may be absent.
pub open spec fn pattern_source(pattern: Option<Pattern>) -> Option<Seq<char>> {
    match pattern {
        Some(p) => Some(p@),
        None => None,
    }
}

/// The characters of a text that may be absent.
pub open spec fn text_view(text: Option<&str>) -> Option<Seq<char>> {
    match text {
        Some(s) => Some(s@),
        None => None,
    }
}

/// An absent source compiles; a present one compiles if the pattern does.
pub open spec fn compiles_if_present(source: Option<Seq<char>>) -> bool {
    match source {
        Some(s) => pattern_compiles(s),
        None => true,
    }
}

/// The views of a list of rules, rule by rule.
pub open spec fn rule_views(rules: Seq<Category>) -> Seq<CategoryRule> {
    rules.map_values(|rule: Category| rule@)
}

/// Compiles a pattern where one is given.
fn compile_if_present(source: Option<&str>) -> (made: Result<Option<Pattern>, PatternError>)
    ensures
        made is Ok <==> compiles_if_present(text_view(source)),
        made matches Ok(pattern) ==> pattern_source(pattern) == text_view(source),
{
    match source {
        None => Ok(None),
        Some(s) => match Pattern::new(s) {
            Ok(pattern) => Ok(Some(pattern)),
            Err(e) => Err(e),
        },
    }
}

impl Clone for Category {
    fn clone(&self) -> (copy: Category)
        ensures
            copy@ == self@,
    {
        let regex = match &self.regex {
            Some(p) => Some(p.clone()),
            None => None,
        };
        let nregex = match &self.nregex {
            Some(p) => Some(p.clone()),
            None => None,
        };
        Category { name: self.name.clone(), regex, nregex }
    }
}

impl Category {
    /// A rule from its parts.
    pub fn new(name: String, regex: Option<Pattern>, nregex: Option<Pattern>) -> (rule: Category)
        ensures
            rule@ == (CategoryRule {
                name: name@,
                include_pattern: pattern_source(regex),
                exclude_pattern: pattern_source(nregex),
            }),
    {
        Category { name, regex, nregex }
    }

    /// A rule from the source texts of its patterns. Both patterns are
    /// compiled, and the rule is refused if either does not compile.
    pub fn from_sources(name: &str, regex: Option<&str>, nregex: Option<&str>) -> (made: Result<
        Category,
        PatternError,
    >)
        ensures
            made is Ok <==> compiles_if_present(text_view(regex)) && compiles_if_present(
                text_view(nregex),
            ),
            made matches Ok(rule) ==> rule@ == (CategoryRule {
                name: name@,
                include_pattern: text_view(regex),
                exclude_pattern: text_view(nregex),
            }),
            made matches Err(e) ==> e == PatternError::DoesNotCompile,
    {
        let required = match compile_if_present(regex) {
            Ok(p) => p,
            Err(e) => {
                return Err(e);
            },
        };
        let refused = match compile_if_present(nregex) {
            Ok(p) => p,
            Err(e) => {
                return Err(e);
            },
        };
        Ok(Category { name: name.to_owned(), regex: required, nregex: refused })
    }

    /// The label of the category.
    pub fn name(&self) -> (name: &str)
        ensures
            name@ == self@.name,
    {
        self.name.as_str()
    }

    /// The include pattern.
    pub fn regex(&self) -> (pattern: Option<&Pattern>)
        ensures
            match pattern {
                Some(p) => self@.include_pattern == Some(p@),
                None => self@.include_pattern is None,
            },
    {
        self.regex.as_ref()
    }

    /// The exclude pattern.
    pub fn nregex(&self) -> (pattern: Option<&Pattern>)
        ensures
            match pattern {
                Some(p) => self@.exclude_pattern == Some(p@),
                None => self@.exclude_pattern is None,
            },
    {
        self.nregex.as_ref()
    }

    /// Whether the rule takes the path `url`.
    ///
    /// With an include pattern the rule takes the paths that match it. With
    /// only an exclude pattern it takes the paths that do not match that.
    /// Without patterns it takes every path.
    pub fn is_match(&self, url: &str) -> (matched: bool)
        ensures
            matched == self@.matches(url@),
            self@.include_pattern matches Some(required) ==> matched == pattern_matches(
                required,
                url@,
            ),
            self@.include_pattern is None ==> (self@.exclude_pattern matches Some(refused)
                ==> matched == !pattern_matches(refused, url@)),
            self@.is_catch_all() ==> matched,
    {
        if let Some(regex) = &self.regex {
            regex.is_match(url)
        } else if let Some(nregex) = &self.nregex {
            !nregex.is_match(url)
        } else {
            true
        }
    }
}

/// Why a rule file was refused.
#[derive(Clone, Copy, Debug, PartialEq, Eq, Structural)]
pub enum ConfigError {
    /// The text holds no document that can be read.
    Json(JsonError),
    /// The rule at this position has no `name` that is a string.
    MissingName { rule: usize },
    /// A pattern of the rule at this position does not compile.
    InvalidPattern { rule: usize },
}

/// The rule that one entry of the rule file describes, or why there is none.
/// A `regex` or `nregex` that is no string counts as absent.
pub open spec fn rule_of(entry: JsonView, position: usize) -> Result<CategoryRule, ConfigError> {
    let name = entry.field("name"@).text();
    let required = entry.field("regex"@).text();
    let refused = entry.field("nregex"@).text();
    match name {
        None => Err(ConfigError::MissingName { rule: position }),
        Some(name) => if compiles_if_present(required) && compiles_if_present(refused) {
            Ok(CategoryRule { name, include_pattern: required, exclude_pattern: refused })
        } else {
            Err(ConfigError::InvalidPattern { rule: position })
        },
    }
}

/// The rule at position `i` of the entries.
pub open spec fn rule_at(entries: Seq<JsonView>, i: int) -> Result<CategoryRule, ConfigError> {
    rule_of(entries[i], i as usize)
}

/// Position `i` holds the first entry that gives no rule.
pub open spec fn is_first_fault(entries: Seq<JsonView>, i: int) -> bool {
    &&& 0 <= i < entries.len()
    &&& rule_at(entries, i) is Err
    &&& forall|j: int| 0 <= j < i ==> (#[trigger] rule_at(entries, j)) is Ok
}

/// The rules that a document describes, in the order of the document, or the
/// error of the first entry that gives no rule. A document that is no array
/// describes no rules.
pub open spec fn rules_of(document: JsonView) -> Result<Seq<CategoryRule>, ConfigError> {
    let entries = document.items();
    if exists|i: int| is_first_fault(entries, i) {
        let first = choose|i: int| is_first_fault(entries, i);
        Err(rule_at(entries, first)->Err_0)
    } else {
        Ok(Seq::new(entries.len(), |i: int| rule_at(entries, i)->Ok_0))
    }
}

/// The rules that a rule file describes: those of its document, where the
/// text holds one.
pub open spec fn rules_of_text(text: Seq<char>) -> Result<Seq<CategoryRule>, ConfigError> {
    match document_of(text) {
        Ok(document) => rules_of(document),
        Err(e) => Err(ConfigError::Json(e)),
    }
}

/// At most one position holds the first faulty entry.
pub proof fn lemma_first_fault_unique(entries: Seq<JsonView>, i: int, j: int)
    requires
        is_first_fault(entries, i),
        is_first_fault(entries, j),
    ensures
        i == j,
{
    if i < j {
        assert(rule_at(entries, i) is Ok);
    } else if j < i {
        assert(rule_at(entries, j) is Ok);
    }
}

/// Where some entry gives no rule, a first one does.
proof fn lemma_some_fault_has_first(entries: Seq<JsonView>, fault: int)
    requires
        0 <= fault < entries.len(),
        rule_at(entries, fault) is Err,
    ensures
        exists|i: int| is_first_fault(entries, i),
    decreases fault,
{
    if exists|j: int| 0 <= j < fault && (#[trigger] rule_at(entries, j)) is Err {
        let earlier = choose|j: int| 0 <= j < fault && (#[trigger] rule_at(entries, j)) is Err;
        lemma_some_fault_has_first(entries, earlier);
    } else {
        assert(is_first_fault(entries, fault));
    }
}

/// The entry has a `regex` or an `nregex` that is a string and does not
/// compile.
pub open spec fn has_malformed_pattern(entry: JsonView) -> bool {
    ||| !compiles_if_present(entry.field("regex"@).text())
    ||| !compiles_if_present(entry.field("nregex"@).text())
}

/// A document with a malformed pattern in any of its entries gives no rules.
pub proof fn lemma_malformed_pattern_refused(document: JsonView, i: int)
    requires
        0 <= i < document.items().len(),
        has_malformed_pattern(document.items()[i]),
    ensures
        rules_of(document) is Err,
{
    let entries = document.items();
    assert(rule_at(entries, i) is Err);
    lemma_some_fault_has_first(entries, i);
}

/// A document whose entries all have a name and no pattern that fails to
/// compile gives one rule per entry.
pub proof fn lemma_sound_document_accepted(document: JsonView)
    requires
        forall|i: int|
            0 <= i < document.items().len() ==> {
                &&& (#[trigger] document.items()[i]).field("name"@).text() is Some
                &&& !has_malformed_pattern(document.items()[i])
            },
    ensures
        rules_of(document) matches Ok(rules) && rules.len() == document.items().len(),
{
    let entries = document.items();
    assert forall|k: int| !is_first_fault(entries, k) by {
        if 0 <= k < entries.len() {
            assert(entries[k].field("name"@).text() is Some);
            assert(rule_at(entries, k) is Ok);
        }
    }
}

/// The text of the member `key` of an entry, where it is a string.
fn text_field<'a>(entry: &'a Json, key: &str) -> (text: Option<&'a str>)
    ensures
        text_view(text) == entry@.field(key@).text(),
{
    match entry.get(key) {
        Some(value) => value.as_text(),
        None => None,
    }
}

/// Builds the rule that one entry describes.
fn rule_from_entry(entry: &Json, position: usize) -> (outcome: Result<Category, ConfigError>)
    ensures
        match outcome {
            Ok(rule) => rule_of(entry@, position) == Ok::<CategoryRule, ConfigError>(rule@),
            Err(e) => rule_of(entry@, position) == Err::<CategoryRule, ConfigError>(e),
        },
{
    let name = match text_field(entry, "name") {
        Some(name) => name,
        None => {
            return Err(ConfigError::MissingName { rule: position });
        },
    };
    match Category::from_sources(name, text_field(entry, "regex"), text_field(entry, "nregex")) {
        Ok(rule) => Ok(rule),
        Err(_) => Err(ConfigError::InvalidPattern { rule: position }),
    }
}

/// Builds the rules that a document describes.
///
/// The rules come in the order of the document. The first entry without a
/// name, or with a pattern that does not compile, fails the whole document.
pub fn rules_from_document(document: &Json) -> (outcome: Result<Vec<Category>, ConfigError>)
    ensures
        match outcome {
            Ok(rules) => rules_of(document@) == Ok::<Seq<CategoryRule>, ConfigError>(
                rule_views(rules@),
            ),
            Err(e) => rules_of(document@) == Err::<Seq<CategoryRule>, ConfigError>(e),
        },
{
    let ghost entries = document@.items();
    let mut rules: Vec<Category> = Vec::new();
    if let Some(items) = document.as_items() {
        let mut i: usize = 0;
        while i < items.len()
            invariant
                i <= items.len(),
                entries == document@.items(),
                entries == views(items@),
                rules.len() == i,
                forall|j: int|
                    0 <= j < i ==> (#[trigger] rule_at(entries, j)) == Ok::<
                        CategoryRule,
                        ConfigError,
                    >(rules[j]@),
            decreases items.len() - i,
        {
            match rule_from_entry(&items[i], i) {
                Ok(rule) => {
                    rules.push(rule);
                },
                Err(e) => {
                    proof {
                        assert(rule_at(entries, i as int) == Err::<CategoryRule, ConfigError>(e));
                        assert(is_first_fault(entries, i as int));
                        let first = choose|k: int| is_first_fault(entries, k);
                        lemma_first_fault_unique(entries, first, i as int);
                    }
                    return Err(e);
                },
            }
            i += 1;
        }
    }
    proof {
        assert forall|k: int| !is_first_fault(entries, k) by {
            if 0 <= k < entries.len() {
                assert(rule_at(entries, k) is Ok);
            }
        }
        assert(Seq::new(entries.len(), |i: int| rule_at(entries, i)->Ok_0) =~= rule_views(
            rules@,
        ));
    }
    Ok(rules)
}

/// Reads a rule file.
///
/// Fails where the text holds no document that can be read (see
/// `document_of`), and where its document gives no rules (see
/// [`rules_from_document`]).
pub fn parse_category(text: &str) -> (outcome: Result<Vec<Category>, ConfigError>)
    ensures
        match outcome {
            Ok(rules) => rules_of_text(text@) == Ok::<Seq<CategoryRule>, ConfigError>(
                rule_views(rules@),
            ),
            Err(e) => rules_of_text(text@) == Err::<Seq<CategoryRule>, ConfigError>(e),
        },
{
    match Json::parse(text) {
        Ok(document) => rules_from_document(&document),
        Err(e) => Err(ConfigError::Json(e)),
    }
}

} // verus!
