//! Note classification: a pure, total function from title and content to
//! a category and a set of tags.
//!
//! The category is chosen by a precedence chain of case-insensitive
//! substring tests against the content; tags are the `#`-prefixed
//! whitespace tokens of the content, stripped of the marker, with
//! duplicates collapsed and first-appearance order kept.

use vstd::prelude::*;
use vstd::string::StrSliceExecFns;
use vstd::string::StringExecFns;

use crate::error::EngineError;
use crate::text::contains_ci;
use crate::text::count_newlines;
use crate::text::is_ascii_digit;
use crate::text::newline_count;
use crate::text::occurs_ci;
use crate::text::str_eq;
use crate::text::tokenize;
use crate::text::tokens_of;

verus! {

/// The fixed, closed set of note categories.
///
/// Only `SQLQuery`, `DebugPattern`, `Process` and `Concept` are ever
/// produced by the classification chain; `Snippet`, `Checklist` and plain
/// `Note` exist for explicit assignment by a caller.
#[derive(Clone, Copy, Debug, PartialEq, Eq, Structural)]
pub enum Category {
    Concept,
    Snippet,
    Checklist,
    Note,
    Process,
    SQLQuery,
    DebugPattern,
}

/// Content reads like SQL: it contains `select`, `from ` (with the
/// trailing space), or `insert into`, case-insensitively.
pub open spec fn is_sql_like(content: Seq<char>) -> bool {
    ||| occurs_ci(content, "select"@)
    ||| occurs_ci(content, "from "@)
    ||| occurs_ci(content, "insert into"@)
}

/// Content reads like a debugging record: it contains `error`,
/// `exception`, or `panic`, case-insensitively.
pub open spec fn is_debug_like(content: Seq<char>) -> bool {
    ||| occurs_ci(content, "error"@)
    ||| occurs_ci(content, "exception"@)
    ||| occurs_ci(content, "panic"@)
}

/// The title opens with an ASCII decimal digit.
pub open spec fn starts_with_digit(title: Seq<char>) -> bool {
    title.len() > 0 && is_ascii_digit(title[0])
}

/// The category assigned to a note, first matching rule winning:
/// SQL-like content, then debug-like content, then a numbered title over
/// more than three newline-delimited segments, then `Concept`.
pub open spec fn classified_category(title: Seq<char>, content: Seq<char>) -> Category {
    if is_sql_like(content) {
        Category::SQLQuery
    } else if is_debug_like(content) {
        Category::DebugPattern
    } else if starts_with_digit(title) && newline_count(content) >= 3 {
        Category::Process
    } else {
        Category::Concept
    }
}

/// A whitespace token counts as a tag when it opens with `#` and carries
/// at least one further character.
pub open spec fn is_tag_token(token: Seq<char>) -> bool {
    token.len() >= 2 && token[0] == '#'
}

/// The tag text of a tag token: the token with the leading `#` stripped.
pub open spec fn strip_tag(token: Seq<char>) -> Seq<char> {
    token.subrange(1, token.len() as int)
}

/// The stripped tag tokens of a token sequence, in order, duplicates kept.
pub open spec fn tag_candidates(tokens: Seq<Seq<char>>) -> Seq<Seq<char>>
    decreases tokens.len(),
{
    if tokens.len() == 0 {
        Seq::empty()
    } else {
        tag_candidates(tokens.drop_last()) + (if is_tag_token(tokens.last()) {
            seq![strip_tag(tokens.last())]
        } else {
            Seq::empty()
        })
    }
}

/// Collapses duplicates, keeping each entry's first appearance in place.
pub open spec fn dedup_first(entries: Seq<Seq<char>>) -> Seq<Seq<char>>
    decreases entries.len(),
{
    if entries.len() == 0 {
        Seq::empty()
    } else {
        let front = dedup_first(entries.drop_last());
        if front.contains(entries.last()) {
            front
        } else {
            front.push(entries.last())
        }
    }
}

/// The tags extracted from note content.
pub open spec fn tags_of(content: Seq<char>) -> Seq<Seq<char>> {
    dedup_first(tag_candidates(tokens_of(content)))
}

/// Collects the tags of `content`: each distinct `#`-prefixed token,
/// stripped of the marker, in order of first appearance.
fn extract_tags(content: &str) -> (tags: Vec<String>)
    ensures
        tags.deep_view() == tags_of(content@),
{
    let tokens = tokenize(content);
    let ghost toks = tokens.deep_view();
    let mut tags: Vec<String> = Vec::new();
    let mut idx: usize = 0;
    proof {
        assert(toks.take(0) =~= Seq::<Seq<char>>::empty());
    }
    while idx < tokens.len()
        invariant
            idx <= tokens.len(),
            toks == tokens.deep_view(),
            tags.deep_view() == dedup_first(tag_candidates(toks.take(idx as int))),
        decreases tokens.len() - idx,
    {
        let ghost prior = tags.deep_view();
        let token = &tokens[idx];
        let token_len = token.as_str().unicode_len();
        if token_len >= 2 && token.as_str().get_char(0) == '#' {
            let tag = String::from_str(token.as_str().substring_char(1, token_len));
            let mut present = false;
            let mut k: usize = 0;
            while k < tags.len() && !present
                invariant
                    k <= tags.len(),
                    present ==> tags.deep_view().contains(tag@),
                    !present ==> forall|m: int| 0 <= m < k ==> tags.deep_view()[m] != tag@,
                    tags.deep_view() == prior,
                decreases tags.len() - k + (if present { 0int } else { 1int }),
            {
                if str_eq(tags[k].as_str(), tag.as_str()) {
                    proof {
                        assert(tags.deep_view()[k as int] == tag@);
                    }
                    present = true;
                } else {
                    k += 1;
                }
            }
            if !present {
                tags.push(tag);
            }
        }
        proof {
            let upto = toks.take(idx + 1);
            assert(upto.drop_last() =~= toks.take(idx as int));
            assert(upto.last() == toks[idx as int]);
            let grown = tag_candidates(toks.take(idx as int)) + (if is_tag_token(
                toks[idx as int],
            ) {
                seq![strip_tag(toks[idx as int])]
            } else {
                Seq::<Seq<char>>::empty()
            });
            assert(tag_candidates(upto) == grown);
            if is_tag_token(toks[idx as int]) {
                assert(grown.drop_last() =~= tag_candidates(toks.take(idx as int)));
                assert(grown.last() == strip_tag(toks[idx as int]));
            } else {
                assert(grown =~= tag_candidates(toks.take(idx as int)));
            }
            assert(tags.deep_view() == dedup_first(tag_candidates(toks.take(idx + 1))));
        }
        idx += 1;
    }
    proof {
        assert(toks.take(tokens.len() as int) =~= toks);
    }
    tags
}

/// Classifies a note from its content and title.
///
/// Returns the category picked by the precedence chain together with the
/// content's tags. Deterministic and total: every input has an output,
/// and no input is rejected.
pub fn categorize_note(content: &str, title: &str) -> (result: (Category, Vec<String>))
    ensures
        result.0 == classified_category(title@, content@),
        result.1.deep_view() == tags_of(content@),
{
    let tags = extract_tags(content);
    if contains_ci(content, "select") || contains_ci(content, "from ") || contains_ci(
        content,
        "insert into",
    ) {
        return (Category::SQLQuery, tags);
    }
    if contains_ci(content, "error") || contains_ci(content, "exception") || contains_ci(
        content,
        "panic",
    ) {
        return (Category::DebugPattern, tags);
    }
    let title_len = title.unicode_len();
    if title_len > 0 {
        let first = title.get_char(0) as u32;
        if 48 <= first && first <= 57 {
            if count_newlines(content) >= 3 {
                return (Category::Process, tags);
            }
        }
    }
    (Category::Concept, tags)
}

/// Classification precedence: SQL-like content is categorized `SQLQuery`
/// even when the same content also reads like a debugging record — the
/// SQL rule is tested first and wins.
pub proof fn lemma_sql_precedes_debug(title: Seq<char>, content: Seq<char>)
    requires
        is_sql_like(content),
    ensures
        classified_category(title, content) == Category::SQLQuery,
{
}

/// The persisted text form of a category.
pub open spec fn category_text(category: Category) -> Seq<char> {
    match category {
        Category::Concept => "Concept"@,
        Category::Snippet => "Snippet"@,
        Category::Checklist => "Checklist"@,
        Category::Note => "Note"@,
        Category::Process => "Process"@,
        Category::SQLQuery => "SQLQuery"@,
        Category::DebugPattern => "DebugPattern"@,
    }
}

/// The category a persisted text names, or a constraint violation for any
/// text outside the fixed enumeration.
pub open spec fn parse_category(text: Seq<char>) -> Result<Category, EngineError> {
    if text == "Concept"@ {
        Ok(Category::Concept)
    } else if text == "Snippet"@ {
        Ok(Category::Snippet)
    } else if text == "Checklist"@ {
        Ok(Category::Checklist)
    } else if text == "Note"@ {
        Ok(Category::Note)
    } else if text == "Process"@ {
        Ok(Category::Process)
    } else if text == "SQLQuery"@ {
        Ok(Category::SQLQuery)
    } else if text == "DebugPattern"@ {
        Ok(Category::DebugPattern)
    } else {
        Err(EngineError::ConstraintViolation)
    }
}

/// Renders a category in its persisted text form.
pub fn category_to_text(category: Category) -> (text: String)
    ensures
        text@ == category_text(category),
{
    match category {
        Category::Concept => String::from_str("Concept"),
        Category::Snippet => String::from_str("Snippet"),
        Category::Checklist => String::from_str("Checklist"),
        Category::Note => String::from_str("Note"),
        Category::Process => String::from_str("Process"),
        Category::SQLQuery => String::from_str("SQLQuery"),
        Category::DebugPattern => String::from_str("DebugPattern"),
    }
}

/// Validates a persisted category text at the store boundary: an unknown
/// text is rejected as a constraint violation, never silently defaulted.
pub fn category_from_text(text: &str) -> (result: Result<Category, EngineError>)
    ensures
        result == parse_category(text@),
{
    if str_eq(text, "Concept") {
        Ok(Category::Concept)
    } else if str_eq(text, "Snippet") {
        Ok(Category::Snippet)
    } else if str_eq(text, "Checklist") {
        Ok(Category::Checklist)
    } else if str_eq(text, "Note") {
        Ok(Category::Note)
    } else if str_eq(text, "Process") {
        Ok(Category::Process)
    } else if str_eq(text, "SQLQuery") {
        Ok(Category::SQLQuery)
    } else if str_eq(text, "DebugPattern") {
        Ok(Category::DebugPattern)
    } else {
        Err(EngineError::ConstraintViolation)
    }
}

} // verus!
