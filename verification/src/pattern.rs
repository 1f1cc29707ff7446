use vstd::prelude::*;

use crate::errors::FindReplaceError;

verus! {

/// Whether the pattern engine accepts `pattern` as a valid pattern.
/// Named rather than spelled out: pattern syntax takes pages to state, but
/// acceptance is a function of the pattern text alone.
pub uninterp spec fn pattern_ok(pattern: Seq<char>) -> bool;

/// The text produced by substituting every non-overlapping match of
/// `pattern` in `text` with the `replacement` template. Named rather than
/// spelled out: the match and back-reference semantics take pages to state,
/// but the result is a function of these three texts alone.
pub uninterp spec fn replaced(
    pattern: Seq<char>,
    replacement: Seq<char>,
    text: Seq<char>,
) -> Seq<char>;

#[verifier::external_type_specification]
#[verifier::external_body]
pub struct ExRegex(regex::Regex);

/// Maps an optional field name to its mathematical value.
pub open spec fn opt_text_view(o: Option<String>) -> Option<Seq<char>> {
    match o {
        Option::Some(s) => Option::Some(s@),
        Option::None => Option::None,
    }
}

/// Relies on `regex::Regex::new`: it compiles the pattern, succeeding
/// exactly when the pattern text is acceptable (valid syntax within the
/// default size limit), which depends on the pattern text alone.
#[verifier::external_body]
fn compile_pattern(pattern: &str) -> (r: Option<regex::Regex>)
    ensures
        r is Some <==> pattern_ok(pattern@),
{
    regex::Regex::new(pattern).ok()
}

/// Relies on `regex::Regex::replace_all`: it replaces every non-overlapping
/// match of the compiled pattern with the replacement template, and its
/// result is a function of the pattern the regex was compiled from, the
/// replacement, and the text. Soundness of naming the result over
/// `ctx.pattern_view()` rests on every `FindReplaceContext` pairing `search`
/// with the exact text it was compiled from, which the one constructor
/// below establishes and nothing else can break.
#[verifier::external_body]
fn replace_text(ctx: &FindReplaceContext, text: &str) -> (r: String)
    ensures
        r@ == replaced(ctx.pattern_view(), ctx.replacement_view(), text@),
{
    ctx.search.replace_all(text, ctx.replacement.as_str()).into_owned()
}

/// One batch substitution: the ids of the records to touch, a compiled
/// pattern together with the text it was compiled from, the replacement
/// template, and an optional target field name. Immutable once built.
pub struct FindReplaceContext {
    nids: Vec<u64>,
    search: regex::Regex,
    pattern_text: String,
    replacement: String,
    field_name: Option<String>,
}

impl FindReplaceContext {
    /// The record ids this substitution is to run over.
    pub closed spec fn ids_view(self) -> Seq<u64> {
        self.nids@
    }

    /// The pattern text the compiled pattern was built from.
    pub closed spec fn pattern_view(self) -> Seq<char> {
        self.pattern_text@
    }

    /// The replacement template.
    pub closed spec fn replacement_view(self) -> Seq<char> {
        self.replacement@
    }

    /// The optional target field name.
    pub closed spec fn target_view(self) -> Option<Seq<char>> {
        opt_text_view(self.field_name)
    }

    /// Builds the substitution, compiling the pattern first: a bad pattern
    /// surfaces here, before any store access.
    pub fn new(
        nids: Vec<u64>,
        search_re: &str,
        repl: &str,
        field_name: Option<String>,
    ) -> (r: Result<FindReplaceContext, FindReplaceError>)
        ensures
            r is Ok <==> pattern_ok(search_re@),
            r matches Ok(ctx) ==> {
                &&& ctx.ids_view() == nids@
                &&& ctx.pattern_view() == search_re@
                &&& ctx.replacement_view() == repl@
                &&& ctx.target_view() == opt_text_view(field_name)
            },
            r matches Err(e) ==> e == FindReplaceError::InvalidPattern,
    {
        match compile_pattern(search_re) {
            Some(re) => Ok(
                FindReplaceContext {
                    nids,
                    search: re,
                    pattern_text: search_re.to_owned(),
                    replacement: repl.to_owned(),
                    field_name,
                },
            ),
            None => Err(FindReplaceError::InvalidPattern),
        }
    }

    /// Applies the substitution to one text value. The changed flag is true
    /// exactly when the result differs from the input, so callers can avoid
    /// redundant writes.
    pub fn apply(&self, text: &str) -> (r: (String, bool))
        ensures
            r.0@ == replaced(self.pattern_view(), self.replacement_view(), text@),
            r.1 <==> r.0@ != text@,
    {
        let new_text = replace_text(self, text);
        let same = new_text == text.to_owned();
        (new_text, !same)
    }

    /// The record ids, for iteration.
    pub fn record_ids(&self) -> (r: &Vec<u64>)
        ensures
            r@ == self.ids_view(),
    {
        &self.nids
    }

    /// The target field name, if one was given.
    pub fn target_field(&self) -> (r: &Option<String>)
        ensures
            opt_text_view(*r) == self.target_view(),
    {
        &self.field_name
    }
}

} // verus!
