//! The live filter: a case-insensitive regular expression that raw output
//! lines must match; a pattern that does not compile matches everything.
use vstd::prelude::*;

verus! {

#[verifier::external_type_specification]
#[verifier::external_body]
pub struct ExRegex(regex::Regex);

/// Whether `pattern` compiles as a case-insensitive regular expression.
pub uninterp spec fn ci_pattern_compiles(pattern: Seq<char>) -> bool;

/// Whether the case-insensitive regular expression `pattern` matches
/// somewhere in `text`.
pub uninterp spec fn ci_pattern_matches(pattern: Seq<char>, text: Seq<char>) -> bool;

/// Whether the live filter `pattern` lets `line` through: an empty pattern,
/// or one that does not compile, lets every line through.
pub open spec fn filter_accepts(pattern: Seq<char>, line: Seq<char>) -> bool {
    pattern.len() == 0 || !ci_pattern_compiles(pattern) || ci_pattern_matches(pattern, line)
}

/// A compiled case-insensitive regular expression with the pattern it was
/// compiled from. Only `compile_case_insensitive` builds one.
pub struct CompiledPattern {
    source: String,
    re: regex::Regex,
}

/// Relies on `regex::RegexBuilder::new(p).case_insensitive(true).build()`:
/// it succeeds exactly when `p` is a valid pattern under that configuration,
/// and the resulting regex is the one for `p`.
#[verifier::external_body]
fn compile_case_insensitive(p: &str) -> (r: Option<CompiledPattern>)
    ensures
        r is Some <==> ci_pattern_compiles(p@),
        r matches Some(c) ==> c.source@ == p@,
{
    match regex::RegexBuilder::new(p).case_insensitive(true).build() {
        Ok(re) => Some(CompiledPattern { source: p.to_string(), re }),
        Err(_) => None,
    }
}

/// Relies on `regex::Regex::is_match`: whether the compiled pattern matches
/// somewhere in `text`.
#[verifier::external_body]
fn pattern_is_match(c: &CompiledPattern, text: &str) -> (r: bool)
    ensures
        r == ci_pattern_matches(c.source@, text@),
{
    c.re.is_match(text)
}

/// A live filter, compiled once and applied to every line of one extraction.
pub struct LineFilter {
    source: String,
    compiled: Option<CompiledPattern>,
}

impl View for LineFilter {
    type V = Seq<char>;

    /// The pattern the filter was made from.
    closed spec fn view(&self) -> Seq<char> {
        self.source@
    }
}

impl LineFilter {
    #[verifier::type_invariant]
    closed spec fn compiled_from_source(&self) -> bool {
        match self.compiled {
            None => self.source@.len() == 0 || !ci_pattern_compiles(self.source@),
            Some(c) => self.source@.len() > 0 && ci_pattern_compiles(self.source@)
                && c.source@ == self.source@,
        }
    }

    /// Compiles `pattern`; an empty or invalid pattern gives a filter that
    /// lets every line through.
    pub fn new(pattern: &str) -> (r: LineFilter)
        ensures
            r@ == pattern@,
    {
        let source = pattern.to_owned();
        if pattern.is_empty() {
            LineFilter { source, compiled: None }
        } else {
            let compiled = compile_case_insensitive(pattern);
            LineFilter { source, compiled }
        }
    }

    /// Whether `line` passes the filter.
    pub fn accepts(&self, line: &str) -> (r: bool)
        ensures
            r == filter_accepts(self@, line@),
    {
        proof {
            use_type_invariant(self);
        }
        match &self.compiled {
            None => true,
            Some(c) => pattern_is_match(c, line),
        }
    }
}

/// A pattern that does not compile filters nothing out.
pub proof fn lemma_invalid_pattern_accepts_every_line(pattern: Seq<char>, line: Seq<char>)
    requires
        !ci_pattern_compiles(pattern),
    ensures
        filter_accepts(pattern, line),
{
}

} // verus!
