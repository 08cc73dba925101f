use crate::strmap::{lemma_index_of_unique, StrMap};
use fancy_regex::Regex;
use std::sync::Arc;
use vstd::prelude::*;
use vstd::string::*;

verus! {

/// A compiled regular expression of the crate `fancy_regex`.
#[verifier::external_type_specification]
#[verifier::external_body]
pub struct ExRegex(fancy_regex::Regex);

/// The error of the crate `fancy_regex`.
#[verifier::external_type_specification]
#[verifier::external_body]
pub struct ExRegexError(fancy_regex::Error);

/// Whether `fancy_regex` accepts the pattern.
pub uninterp spec fn regex_compiles(pattern: Seq<char>) -> bool;

/// The pattern that a compiled expression was made from.
pub uninterp spec fn regex_source(re: Regex) -> Seq<char>;

/// Whether the expression of a pattern finds a match somewhere in a text;
/// nothing where the search fails.
pub uninterp spec fn regex_is_match(pattern: Seq<char>, text: Seq<char>) -> Option<bool>;

/// `fancy_regex::Regex::new`: compiles a pattern with the default options. It
/// succeeds exactly on the patterns that the crate accepts, and the compiled
/// expression keeps the pattern it was made from.
#[verifier::external_body]
fn compile(pattern: &str) -> (compiled: Result<Regex, fancy_regex::Error>)
    ensures
        compiled is Ok <==> regex_compiles(pattern@),
        compiled is Ok ==> regex_source(compiled->Ok_0) == pattern@,
{
    Regex::new(pattern)
}

/// `fancy_regex::Regex::is_match`: searches a text for a match. The outcome
/// depends on the expression's pattern and on the text alone.
#[verifier::external_body]
fn is_match(re: &Regex, text: &str) -> (found: Result<bool, fancy_regex::Error>)
    ensures
        found is Ok ==> regex_is_match(regex_source(*re), text@) == Some(found->Ok_0),
        found is Err ==> regex_is_match(regex_source(*re), text@) is None,
{
    re.is_match(text)
}

/// `Arc::clone`: one more handle on the same value.
#[verifier::external_body]
fn share(re: &Arc<Regex>) -> (handle: Arc<Regex>)
    ensures
        handle == *re,
{
    Arc::clone(re)
}

/// Why a query by pattern failed.
#[derive(Clone, Copy, Debug, PartialEq, Eq, Structural)]
pub enum RegexError {
    /// The pattern is no regular expression.
    InvalidPattern,
    /// The search gave up.
    MatchFailed,
}

/// The pattern that matches what `pattern` matches, and only as a whole
/// text.
pub open spec fn anchored(pattern: Seq<char>) -> Seq<char> {
    seq!['^'] + pattern + seq!['$']
}

/// Whether the whole of `text` matches `pattern`, or why that cannot be
/// said.
pub open spec fn full_match(pattern: Seq<char>, text: Seq<char>) -> Result<bool, RegexError> {
    if !regex_compiles(anchored(pattern)) {
        Err(RegexError::InvalidPattern)
    } else {
        match regex_is_match(anchored(pattern), text) {
            Some(found) => Ok(found),
            None => Err(RegexError::MatchFailed),
        }
    }
}

/// The compiled expressions by pattern. An entry is made when a pattern is
/// first asked for and stays.
#[derive(Debug)]
pub struct RegexCache {
    cache: StrMap<Arc<Regex>>,
}

impl RegexCache {
    /// The patterns that have a compiled expression, in the order in which
    /// they were first asked for.
    pub closed spec fn patterns(&self) -> Seq<Seq<char>> {
        self.cache.keys()
    }

    /// The compiled expressions, each at the index of its pattern.
    pub closed spec fn compiled(&self) -> Seq<Arc<Regex>> {
        self.cache.vals()
    }

    /// Each pattern stands once, and its expression is the one compiled from
    /// the anchored pattern.
    pub open spec fn wf(&self) -> bool {
        &&& self.patterns().no_duplicates()
        &&& self.patterns().len() == self.compiled().len()
        &&& forall|i: int|
            0 <= i < self.patterns().len() ==> regex_compiles(anchored(#[trigger] self.patterns()[i]))
                && regex_source(*self.compiled()[i]) == anchored(self.patterns()[i])
    }

    /// An empty cache.
    pub fn new() -> (cache: RegexCache)
        ensures
            cache.wf(),
            cache.patterns() == Seq::<Seq<char>>::empty(),
    {
        RegexCache { cache: StrMap::new() }
    }

    /// The number of cached expressions.
    pub fn len(&self) -> (n: usize)
        requires
            self.wf(),
        ensures
            n == self.patterns().len(),
    {
        self.cache.len()
    }

    /// The cached expression for `value`, if there is one. Nothing is
    /// compiled.
    pub fn cached(&self, value: &str) -> (found: Option<Arc<Regex>>)
        requires
            self.wf(),
        ensures
            found is Some <==> self.patterns().contains(value@),
            found is Some ==> found->0 == self.compiled()[self.patterns().index_of(value@)],
    {
        match self.cache.position(value) {
            Some(i) => {
                proof {
                    lemma_index_of_unique(self.cache.keys(), i as int);
                }
                Some(share(self.cache.value_at(i)))
            },
            None => None,
        }
    }

    /// The expression for `value`, anchored at both ends. A cached expression
    /// is handed out as it is and the cache stays as it was; otherwise the
    /// pattern is compiled and, if that succeeds, cached. A pattern that does
    /// not compile leaves no entry.
    pub fn get(&mut self, value: &str) -> (found: Result<Arc<Regex>, RegexError>)
        requires
            old(self).wf(),
        ensures
            final(self).wf(),
            found is Ok <==> regex_compiles(anchored(value@)),
            found is Ok ==> regex_source(*found->Ok_0) == anchored(value@),
            found is Err ==> found->Err_0 == RegexError::InvalidPattern,
            found is Ok ==> final(self).patterns().contains(value@),
            old(self).patterns().contains(value@) ==> {
                &&& found is Ok
                &&& found->Ok_0 == old(self).compiled()[old(self).patterns().index_of(value@)]
                &&& final(self).patterns() == old(self).patterns()
                &&& final(self).compiled() == old(self).compiled()
            },
            !old(self).patterns().contains(value@) && found is Ok ==> {
                &&& final(self).patterns() == old(self).patterns().push(value@)
                &&& final(self).compiled() == old(self).compiled().push(found->Ok_0)
            },
            found is Err ==> {
                &&& final(self).patterns() == old(self).patterns()
                &&& final(self).compiled() == old(self).compiled()
            },
    {
        match self.cache.position(value) {
            Some(i) => {
                proof {
                    lemma_index_of_unique(self.cache.keys(), i as int);
                }
                Ok(share(self.cache.value_at(i)))
            },
            None => {
                let mut pattern = "^".to_owned();
                pattern.append(value);
                pattern.append("$");
                proof {
                    reveal_strlit("^");
                    reveal_strlit("$");
                    assert("^"@ =~= seq!['^']);
                    assert("$"@ =~= seq!['$']);
                    assert(pattern@ =~= anchored(value@));
                }
                match compile(pattern.as_str()) {
                    Ok(re) => {
                        let handle = Arc::new(re);
                        let out = share(&handle);
                        self.cache.insert(value.to_owned(), handle);
                        proof {
                            assert(self.patterns()[old(self).patterns().len() as int] == value@);
                        }
                        Ok(out)
                    },
                    Err(_) => Err(RegexError::InvalidPattern),
                }
            },
        }
    }

    /// Whether the whole of `text` matches the pattern `value`.
    pub fn full_match(&mut self, value: &str, text: &str) -> (found: Result<bool, RegexError>)
        requires
            old(self).wf(),
        ensures
            final(self).wf(),
            found == full_match(value@, text@),
    {
        match self.get(value) {
            Ok(re) => match is_match(&re, text) {
                Ok(found) => Ok(found),
                Err(_) => Err(RegexError::MatchFailed),
            },
            Err(e) => Err(e),
        }
    }
}

} // verus!
