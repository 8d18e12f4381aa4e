//! The exclusion filter: a path is excluded when any active rule matches
//! it — globs against the whole path, regexes as substrings, plain
//! patterns by containment. Construction validates every engine pattern.
use vstd::prelude::*;

use crate::error::SearchError;
use crate::matcher::{glob_compile_check, glob_match_raw, glob_matches, glob_ok,
    regex_compile_check, regex_match_raw, regex_matches, regex_ok};
use crate::text::{chars_of, contains_seq, contains_vec};
use crate::types::{ExclusionRule, ExclusionRuleType};

verus! {

/// Does one rule shut out this path?
pub open spec fn rule_excludes(rule: ExclusionRule, path: Seq<char>) -> bool {
    match rule.rule_type {
        ExclusionRuleType::Glob => glob_matches(rule.pattern@, path),
        ExclusionRuleType::Regex => regex_matches(rule.pattern@, path),
        ExclusionRuleType::Path => contains_seq(path, rule.pattern@),
    }
}

/// Does any rule shut out this path?
pub open spec fn excluded_by(rules: Seq<ExclusionRule>, path: Seq<char>) -> bool {
    exists|i: int| 0 <= i < rules.len() && rule_excludes(#[trigger] rules[i], path)
}

/// A rule's engine pattern is acceptable.
pub open spec fn rule_ok(rule: ExclusionRule) -> bool {
    match rule.rule_type {
        ExclusionRuleType::Glob => glob_ok(rule.pattern@),
        ExclusionRuleType::Regex => regex_ok(rule.pattern@),
        ExclusionRuleType::Path => true,
    }
}

pub open spec fn rules_ok(rules: Seq<ExclusionRule>) -> bool {
    forall|i: int| 0 <= i < rules.len() ==> rule_ok(#[trigger] rules[i])
}

/// The compiled exclusion filter.
pub struct ExclusionFilter {
    rules: Vec<ExclusionRule>,
}

impl ExclusionFilter {
    pub closed spec fn rules_view(&self) -> Seq<ExclusionRule> {
        self.rules@
    }

    pub open spec fn wf(&self) -> bool {
        rules_ok(self.rules_view())
    }

    /// Keeps the rules when each engine pattern compiles; fails with a
    /// parse error on the first that does not.
    pub fn new(rules: Vec<ExclusionRule>) -> (r: Result<ExclusionFilter, SearchError>)
        ensures
            match r {
                Ok(f) => f.rules_view() == rules@ && f.wf() && rules_ok(rules@),
                Err(e) => !rules_ok(rules@) && e is Parse,
            },
    {
        let mut i: usize = 0;
        while i < rules.len()
            invariant
                i <= rules@.len(),
                forall|k: int| 0 <= k < i ==> rule_ok(#[trigger] rules@[k]),
            decreases rules.len() - i,
        {
            let ok = match rules[i].rule_type {
                ExclusionRuleType::Glob => glob_compile_check(rules[i].pattern.as_str()),
                ExclusionRuleType::Regex => regex_compile_check(rules[i].pattern.as_str()),
                ExclusionRuleType::Path => true,
            };
            if !ok {
                proof {
                    assert(!rule_ok(rules@[i as int]));
                }
                return Err(SearchError::Parse(String::from_str("invalid exclusion pattern")));
            }
            i = i + 1;
        }
        Ok(ExclusionFilter { rules })
    }

    /// Every pattern read as a glob rule.
    pub fn from_patterns(patterns: &Vec<String>) -> (r: Result<ExclusionFilter, SearchError>)
        ensures
            match r {
                Ok(f) => f.rules_view().len() == patterns@.len() && f.wf() && forall|k: int|
                    0 <= k < patterns@.len() ==> (#[trigger] f.rules_view()[k]).pattern@
                        == patterns@[k]@ && f.rules_view()[k].rule_type
                        == ExclusionRuleType::Glob,
                Err(e) => e is Parse,
            },
    {
        let mut rules: Vec<ExclusionRule> = Vec::new();
        let mut i: usize = 0;
        while i < patterns.len()
            invariant
                i <= patterns@.len(),
                rules@.len() == i,
                forall|k: int|
                    0 <= k < i ==> (#[trigger] rules@[k]).pattern@ == patterns@[k]@ && rules@[
                        k
                    ].rule_type == ExclusionRuleType::Glob,
            decreases patterns.len() - i,
        {
            rules.push(
                ExclusionRule {
                    pattern: patterns[i].clone(),
                    rule_type: ExclusionRuleType::Glob,
                },
            );
            i = i + 1;
        }
        let ghost rv = rules@;
        match ExclusionFilter::new(rules) {
            Ok(f) => Ok(f),
            Err(e) => Err(e),
        }
    }

    /// Is this path shut out by some rule?
    pub fn is_excluded(&self, path: &str) -> (r: bool)
        requires
            self.wf(),
        ensures
            r == excluded_by(self.rules_view(), path@),
    {
        let pv = chars_of(path);
        let mut i: usize = 0;
        while i < self.rules.len()
            invariant
                i <= self.rules@.len(),
                self.wf(),
                pv@ == path@,
                forall|k: int|
                    0 <= k < i ==> !rule_excludes(#[trigger] self.rules_view()[k], path@),
            decreases self.rules.len() - i,
        {
            let hit = match self.rules[i].rule_type {
                ExclusionRuleType::Glob => {
                    proof {
                        assert(rule_ok(self.rules_view()[i as int]));
                    }
                    match glob_match_raw(self.rules[i].pattern.as_str(), path) {
                        Some(b) => b,
                        None => false,
                    }
                },
                ExclusionRuleType::Regex => {
                    proof {
                        assert(rule_ok(self.rules_view()[i as int]));
                    }
                    match regex_match_raw(self.rules[i].pattern.as_str(), path) {
                        Some(b) => b,
                        None => false,
                    }
                },
                ExclusionRuleType::Path => {
                    let rp = chars_of(self.rules[i].pattern.as_str());
                    contains_vec(&pv, &rp)
                },
            };
            if hit {
                proof {
                    assert(rule_excludes(self.rules_view()[i as int], path@));
                }
                return true;
            }
            i = i + 1;
        }
        false
    }

    /// The complement: may this path enter the index?
    pub fn should_index(&self, path: &str) -> (r: bool)
        requires
            self.wf(),
        ensures
            r == !excluded_by(self.rules_view(), path@),
    {
        !self.is_excluded(path)
    }

    /// How many rules the filter holds.
    pub fn rule_count(&self) -> (r: usize)
        ensures
            r == self.rules_view().len(),
    {
        self.rules.len()
    }

    /// A copy of one rule.
    pub fn rule_at(&self, i: usize) -> (r: ExclusionRule)
        requires
            i < self.rules_view().len(),
        ensures
            r == self.rules_view()[i as int],
    {
        self.rules[i].duplicate()
    }

    /// A filter with no rules at all: nothing is excluded.
    pub fn empty() -> (r: ExclusionFilter)
        ensures
            r.rules_view() == Seq::<ExclusionRule>::empty(),
            r.wf(),
    {
        ExclusionFilter { rules: Vec::new() }
    }
}

} // verus!
