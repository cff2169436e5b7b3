//! Regular expressions, matched by the `regex` crate.
//!
//! What the crate computes is not restated here. Each result has a name, a
//! spec function without a body, and the contracts of this library speak of
//! those names. `Matcher` and `SetMatcher` hold a compiled expression, or
//! nothing where the pattern did not compile, and say what each call returns
//! in terms of the names and of the pattern text alone.

use regex::Regex;
use regex::RegexSet;
use std::borrow::Cow;
use vstd::prelude::*;

verus! {

/// `regex::Regex`, a compiled expression. Nothing of its inside is known
/// here.
#[verifier::external_type_specification]
#[verifier::external_body]
pub struct ExRegex(regex::Regex);

/// `regex::RegexSet`, several expressions compiled into one. Nothing of its
/// inside is known here.
#[verifier::external_type_specification]
#[verifier::external_body]
pub struct ExRegexSet(regex::RegexSet);

/// Whether `Regex::new` accepts `pattern`.
pub uninterp spec fn pattern_compiles(pattern: Seq<char>) -> bool;

/// The pattern text that `re` was compiled from, which `Regex::as_str` gives
/// back.
pub uninterp spec fn pattern_source(re: Regex) -> Seq<char>;

/// Whether the expression compiled from `pattern` matches somewhere in
/// `text`: the result of `Regex::is_match`.
pub uninterp spec fn pattern_matches(pattern: Seq<char>, text: Seq<char>) -> bool;

/// `text` after `Regex::replacen` of the expression compiled from `pattern`:
/// the first `limit` matches, or all of them where `limit` is 0, replaced by
/// what `replacement` expands to.
pub uninterp spec fn pattern_replaced(
    pattern: Seq<char>,
    text: Seq<char>,
    limit: nat,
    replacement: Seq<char>,
) -> Seq<char>;

/// The capture groups of the first match in `text` of the expression
/// compiled from `pattern`, as `Regex::captures` finds them: the whole match
/// first, then one entry for each group, `None` for a group that took no
/// part. `None` where nothing matches.
pub uninterp spec fn pattern_captures(pattern: Seq<char>, text: Seq<char>) -> Option<
    Seq<Option<Seq<char>>>,
>;

/// Whether `RegexSet::new` accepts `patterns`.
pub uninterp spec fn set_compiles(patterns: Seq<Seq<char>>) -> bool;

/// The pattern texts that `set` was compiled from, which `RegexSet::patterns`
/// gives back.
pub uninterp spec fn set_sources(set: RegexSet) -> Seq<Seq<char>>;

/// The views of a list of pattern texts.
pub open spec fn sources(patterns: Seq<&'static str>) -> Seq<Seq<char>> {
    patterns.map_values(|p: &'static str| p@)
}

/// `Regex::new`. Whether a pattern compiles depends on the pattern alone,
/// and the expression made remembers its pattern text.
#[verifier::external_body]
fn regex_new(pattern: &str) -> (r: Option<Regex>)
    ensures
        r is Some <==> pattern_compiles(pattern@),
        r matches Some(re) ==> pattern_source(re) == pattern@,
{
    Regex::new(pattern).ok()
}

/// `Regex::is_match`, for an expression that `Regex::new` made.
#[verifier::external_body]
fn regex_is_match(re: &Regex, text: &str) -> (b: bool)
    ensures
        b == pattern_matches(pattern_source(*re), text@),
{
    re.is_match(text)
}

/// `Regex::replacen` with a replacement text, for an expression that
/// `Regex::new` made. `Regex::replace` is this call with `limit` 1 and
/// `Regex::replace_all` with `limit` 0. A text in which the expression
/// matches nowhere comes back as it is.
#[verifier::external_body]
fn regex_replacen<'h>(re: &Regex, text: &'h str, limit: usize, replacement: &str) -> (r: Cow<
    'h,
    str,
>)
    ensures
        r@ == pattern_replaced(pattern_source(*re), text@, limit as nat, replacement@),
        !pattern_matches(pattern_source(*re), text@) ==> r@ == text@,
{
    re.replacen(text, limit, replacement)
}

/// `Regex::captures`, for an expression that `Regex::new` made, with each
/// group that took part given as the text it matched.
#[verifier::external_body]
fn regex_captures(re: &Regex, text: &str) -> (r: Option<Vec<Option<String>>>)
    ensures
        r.deep_view() == pattern_captures(pattern_source(*re), text@),
{
    re.captures(text).map(
        |caps| caps.iter().map(|group| group.map(|m| m.as_str().to_owned())).collect(),
    )
}

/// `RegexSet::new`. Whether a list of patterns compiles depends on the list
/// alone, and the set made remembers its pattern texts in their order.
#[verifier::external_body]
fn regex_set_new(patterns: &Vec<&'static str>) -> (r: Option<RegexSet>)
    ensures
        r is Some <==> set_compiles(sources(patterns@)),
        r matches Some(set) ==> set_sources(set) == sources(patterns@),
{
    RegexSet::new(patterns.iter()).ok()
}

/// `RegexSet::is_match`: true if and only if one of the expressions of the
/// set matches somewhere in `text`.
#[verifier::external_body]
fn regex_set_is_match(set: &RegexSet, text: &str) -> (b: bool)
    ensures
        b == any_matches(set_sources(*set), text@),
{
    set.is_match(text)
}

/// Whether one of `patterns` matches somewhere in `text`.
pub open spec fn any_matches(patterns: Seq<Seq<char>>, text: Seq<char>) -> bool {
    exists|i: int| 0 <= i < patterns.len() && #[trigger] pattern_matches(patterns[i], text)
}

/// Whether `pattern` compiles and matches somewhere in `text`.
pub open spec fn matches_in(pattern: Seq<char>, text: Seq<char>) -> bool {
    pattern_compiles(pattern) && pattern_matches(pattern, text)
}

/// `text` with the matches of `pattern` replaced, the first `limit` of them
/// or all where `limit` is 0; `None` where `pattern` does not compile.
pub open spec fn replaced(
    pattern: Seq<char>,
    text: Seq<char>,
    limit: nat,
    replacement: Seq<char>,
) -> Option<Seq<char>> {
    if pattern_compiles(pattern) {
        Some(pattern_replaced(pattern, text, limit, replacement))
    } else {
        None
    }
}

/// What group `group` of `pattern` holds in the first match in `text`;
/// `None` where the pattern does not compile, nothing matches, the pattern
/// has no such group, or the group took no part in the match.
pub open spec fn captured(pattern: Seq<char>, text: Seq<char>, group: int) -> Option<Seq<char>> {
    if !pattern_compiles(pattern) {
        None
    } else {
        match pattern_captures(pattern, text) {
            Some(groups) => if 0 <= group < groups.len() {
                groups[group]
            } else {
                None
            },
            None => None,
        }
    }
}

/// Whether the set of `patterns` compiles and one of them matches somewhere
/// in `text`.
pub open spec fn set_matches(patterns: Seq<Seq<char>>, text: Seq<char>) -> bool {
    set_compiles(patterns) && any_matches(patterns, text)
}

/// One pattern, compiled once.
pub struct Matcher {
    compiled: Option<Regex>,
    source: Ghost<Seq<char>>,
}

impl Matcher {
    #[verifier::type_invariant]
    spec fn inv(&self) -> bool {
        &&& self.compiled is Some <==> pattern_compiles(self.source@)
        &&& self.compiled matches Some(re) ==> pattern_source(re) == self.source@
    }

    /// The pattern text.
    pub closed spec fn pattern(&self) -> Seq<char> {
        self.source@
    }

    /// Compiles `pattern`. A pattern that does not compile makes a matcher
    /// that matches nothing.
    pub fn new(pattern: &str) -> (m: Matcher)
        ensures
            m.pattern() == pattern@,
    {
        Matcher { compiled: regex_new(pattern), source: Ghost(pattern@) }
    }

    /// Whether the pattern matches somewhere in `text`.
    pub fn is_match(&self, text: &str) -> (b: bool)
        ensures
            b == matches_in(self.pattern(), text@),
    {
        proof {
            use_type_invariant(self);
        }
        match &self.compiled {
            Some(re) => regex_is_match(re, text),
            None => false,
        }
    }

    /// `text` with the first `limit` matches replaced by `replacement`, or
    /// with all of them where `limit` is 0.
    pub fn replacen<'h>(&self, text: &'h str, limit: usize, replacement: &str) -> (r: Option<
        Cow<'h, str>,
    >)
        ensures
            r.deep_view() == replaced(self.pattern(), text@, limit as nat, replacement@),
            r is Some && !pattern_matches(self.pattern(), text@) ==> r.deep_view() == Some(text@),
    {
        proof {
            use_type_invariant(self);
        }
        match &self.compiled {
            Some(re) => Some(regex_replacen(re, text, limit, replacement)),
            None => None,
        }
    }

    /// What group `group` holds in the first match in `text`.
    pub fn capture(&self, text: &str, group: usize) -> (r: Option<String>)
        ensures
            r.deep_view() == captured(self.pattern(), text@, group as int),
    {
        proof {
            use_type_invariant(self);
        }
        match &self.compiled {
            Some(re) => match regex_captures(re, text) {
                Some(mut groups) => {
                    if group < groups.len() {
                        let found = groups.swap_remove(group);
                        found
                    } else {
                        None
                    }
                },
                None => None,
            },
            None => None,
        }
    }

    /// What groups `first` and `second` hold in the first match in `text`.
    pub fn capture_pair(&self, text: &str, first: usize, second: usize) -> (r: (
        Option<String>,
        Option<String>,
    ))
        ensures
            r.0.deep_view() == captured(self.pattern(), text@, first as int),
            r.1.deep_view() == captured(self.pattern(), text@, second as int),
    {
        proof {
            use_type_invariant(self);
        }
        match &self.compiled {
            Some(re) => match regex_captures(re, text) {
                Some(groups) => {
                    let a = if first < groups.len() {
                        groups[first].clone()
                    } else {
                        None
                    };
                    let b = if second < groups.len() {
                        groups[second].clone()
                    } else {
                        None
                    };
                    (a, b)
                },
                None => (None, None),
            },
            None => (None, None),
        }
    }
}

/// A list of patterns, compiled once into one set.
pub struct SetMatcher {
    compiled: Option<RegexSet>,
    source: Ghost<Seq<Seq<char>>>,
}

impl SetMatcher {
    #[verifier::type_invariant]
    spec fn inv(&self) -> bool {
        &&& self.compiled is Some <==> set_compiles(self.source@)
        &&& self.compiled matches Some(set) ==> set_sources(set) == self.source@
    }

    /// The pattern texts.
    pub closed spec fn patterns(&self) -> Seq<Seq<char>> {
        self.source@
    }

    /// Compiles `patterns` into one set. A list that does not compile makes
    /// a matcher that matches nothing.
    pub fn new(patterns: &Vec<&'static str>) -> (m: SetMatcher)
        ensures
            m.patterns() == sources(patterns@),
    {
        SetMatcher { compiled: regex_set_new(patterns), source: Ghost(sources(patterns@)) }
    }

    /// Whether the list compiled.
    pub fn is_compiled(&self) -> (b: bool)
        ensures
            b == set_compiles(self.patterns()),
    {
        proof {
            use_type_invariant(self);
        }
        self.compiled.is_some()
    }

    /// Whether one of the patterns matches somewhere in `text`.
    pub fn is_match(&self, text: &str) -> (b: bool)
        ensures
            b == set_matches(self.patterns(), text@),
    {
        proof {
            use_type_invariant(self);
        }
        match &self.compiled {
            Some(set) => regex_set_is_match(set, text),
            None => false,
        }
    }
}

} // verus!
