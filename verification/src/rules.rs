//! Categorization rules: case-insensitive patterns over transaction
//! descriptions that assign a category or add a tag.

use vstd::prelude::*;
use crate::error::AppError;
use crate::models::RuleActionType;
use crate::numbers::{parse_i64, parsed_i64};

verus! {

#[verifier::external_type_specification]
#[verifier::external_body]
pub struct ExRegex(regex::Regex);

/// What `regex::RegexBuilder::new(pattern).case_insensitive(true).build()`
/// answers: `None` when it succeeds, else the text of its error.
pub uninterp spec fn ci_regex_build_error(pattern: Seq<char>) -> Option<Seq<char>>;

/// Whether the case-insensitive regex of `pattern` builds.
pub open spec fn ci_regex_compiles(pattern: Seq<char>) -> bool {
    ci_regex_build_error(pattern) is None
}

/// What `Regex::is_match` answers for the case-insensitive regex of
/// `pattern` on `text`.
pub uninterp spec fn ci_regex_matches(pattern: Seq<char>, text: Seq<char>) -> bool;

/// A pattern together with its compiled case-insensitive regex.
pub struct CompiledPattern {
    pattern: String,
    regex: regex::Regex,
}

impl CompiledPattern {
    pub closed spec fn pattern_text(&self) -> Seq<char> {
        self.pattern@
    }
}

/// Compiles `pattern` case-insensitively with `regex::RegexBuilder`
/// (`case_insensitive(true)`, then `build`). What the build answers is
/// named `ci_regex_build_error`: `Ok` with the compiled value (which keeps
/// the pattern it was built from) when it succeeds, else `Err` with the
/// error's text (`Display`).
#[verifier::external_body]
pub(crate) fn compile_pattern(pattern: &str) -> (res: Result<CompiledPattern, String>)
    ensures
        match res {
            Ok(c) => ci_regex_build_error(pattern@) is None && c.pattern_text() == pattern@,
            Err(m) => ci_regex_build_error(pattern@) == Some(m@),
        },
{
    match regex::RegexBuilder::new(pattern).case_insensitive(true).build() {
        Ok(regex) => Ok(CompiledPattern { pattern: pattern.to_string(), regex }),
        Err(e) => Err(e.to_string()),
    }
}

/// `Regex::is_match` of the compiled pattern on `text`; its answer is
/// named `ci_regex_matches` of the pattern and the text.
#[verifier::external_body]
pub(crate) fn pattern_matches(p: &CompiledPattern, text: &str) -> (res: bool)
    ensures
        res == ci_regex_matches(p.pattern_text(), text@),
{
    p.regex.is_match(text)
}

/// A stored rule.
#[derive(Debug, Clone)]
pub struct Rule {
    pub id: i64,
    pub name: String,
    pub pattern: String,
    pub action_type: RuleActionType,
    /// A category id or a tag id, as text.
    pub action_value: String,
}

/// A rule ready to apply.
pub struct CompiledRule {
    pub matcher: CompiledPattern,
    pub action_type: RuleActionType,
    pub category_id: Option<i64>,
    pub tag_name: Option<String>,
}

/// What a compiled rule holds: pattern, action, category, tag name.
pub type RuleView = (Seq<char>, RuleActionType, Option<i64>, Option<Seq<char>>);

pub open spec fn compiled_view(c: CompiledRule) -> RuleView {
    (
        c.matcher.pattern_text(),
        c.action_type,
        c.category_id,
        match c.tag_name {
            Some(n) => Some(n@),
            None => None,
        },
    )
}

pub open spec fn compiled_seq(v: Seq<CompiledRule>) -> Seq<RuleView> {
    v.map_values(|c: CompiledRule| compiled_view(c))
}

/// The rule as compiled, or none when its pattern does not compile, its
/// value is not an id, or (for a tag rule) the tag is unknown. `tag_name`
/// is the name of the tag the rule's value names, where there is one.
pub open spec fn compile_one(r: Rule, tag_name: Option<Seq<char>>) -> Option<RuleView> {
    if !ci_regex_compiles(r.pattern@) {
        None
    } else {
        match parsed_i64(r.action_value@) {
            None => None,
            Some(id) => match r.action_type {
                RuleActionType::AssignCategory => Some((r.pattern@, r.action_type, Some(id), None)),
                RuleActionType::AssignTag => match tag_name {
                    Some(n) => Some((r.pattern@, r.action_type, None, Some(n))),
                    None => None,
                },
            },
        }
    }
}

pub open spec fn compiled_rules(rules: Seq<Rule>, tags: Seq<Option<Seq<char>>>) -> Seq<RuleView>
    decreases rules.len(),
{
    if rules.len() == 0 {
        seq![]
    } else {
        let r = compiled_rules(rules.drop_last(), tags);
        match compile_one(rules.last(), tags[rules.len() - 1]) {
            Some(v) => r.push(v),
            None => r,
        }
    }
}

pub open spec fn opt_names(v: Seq<Option<String>>) -> Seq<Option<Seq<char>>> {
    v.map_values(|o: Option<String>| match o {
        Some(s) => Some(s@),
        None => None,
    })
}

/// Compiles the rules that can be applied; `tag_names[i]` is the name of
/// the tag rule `i` names (looked up by the caller), if any.
pub fn compile_rules(rules: &Vec<Rule>, tag_names: &Vec<Option<String>>) -> (res: Vec<CompiledRule>)
    requires
        tag_names@.len() == rules@.len(),
    ensures
        compiled_seq(res@) == compiled_rules(rules@, opt_names(tag_names@)),
{
    let ghost tv = opt_names(tag_names@);
    let mut out: Vec<CompiledRule> = Vec::new();
    let mut i: usize = 0;
    while i < rules.len()
        invariant
            i <= rules@.len(),
            tag_names@.len() == rules@.len(),
            tv == opt_names(tag_names@),
            compiled_seq(out@) == compiled_rules(rules@.take(i as int), tv),
        decreases rules@.len() - i,
    {
        let r = &rules[i];
        assert(rules@.take(i + 1).drop_last() =~= rules@.take(i as int));
        assert(rules@.take(i + 1).last() == rules@[i as int]);
        assert(compiled_rules(rules@.take(i + 1), tv) == {
            let prev = compiled_rules(rules@.take(i as int), tv);
            match compile_one(rules@[i as int], tv[i as int]) {
                Some(v) => prev.push(v),
                None => prev,
            }
        });
        let ghost before = compiled_seq(out@);
        if let Ok(m) = compile_pattern(r.pattern.as_str()) {
            if let Some(id) = parse_i64(r.action_value.as_str()) {
                match r.action_type {
                    RuleActionType::AssignCategory => {
                        out.push(CompiledRule { matcher: m, action_type: r.action_type, category_id: Some(id), tag_name: None });
                        assert(compiled_seq(out@) =~= before.push((r.pattern@, r.action_type, Some(id), None)));
                    },
                    RuleActionType::AssignTag => {
                        if let Some(n) = &tag_names[i] {
                            let name = n.clone();
                            out.push(CompiledRule { matcher: m, action_type: r.action_type, category_id: None, tag_name: Some(name) });
                            assert(compiled_seq(out@) =~= before.push((r.pattern@, r.action_type, None, Some(n@))));
                        }
                    },
                }
            }
        }
        i += 1;
    }
    assert(rules@.take(rules@.len() as int) =~= rules@);
    out
}

/// What the rules do to a description with the given tags: the category of
/// the first matching category rule, and the names of the matching tag
/// rules' tags that the row does not have yet (each once, in rule order).
pub open spec fn rule_effect(rules: Seq<RuleView>, text: Seq<char>, tags: Seq<Seq<char>>) -> (Option<i64>, Seq<Seq<char>>)
    decreases rules.len(),
{
    if rules.len() == 0 {
        (None, seq![])
    } else {
        let (cat, extra) = rule_effect(rules.drop_last(), text, tags);
        let r = rules.last();
        if !ci_regex_matches(r.0, text) {
            (cat, extra)
        } else {
            match r.1 {
                RuleActionType::AssignCategory => (if cat is None { r.2 } else { cat }, extra),
                RuleActionType::AssignTag => match r.3 {
                    Some(n) => if !tags.contains(n) && !extra.contains(n) {
                        (cat, extra.push(n))
                    } else {
                        (cat, extra)
                    },
                    None => (cat, extra),
                },
            }
        }
    }
}

/// The tags the rules add are new to the row and each added once; the
/// category is that of a matching category rule, if any.
pub proof fn lemma_rule_effect_tags(rules: Seq<RuleView>, text: Seq<char>, tags: Seq<Seq<char>>)
    ensures
        rule_effect(rules, text, tags).1.no_duplicates(),
        forall|i: int|
            0 <= i < rule_effect(rules, text, tags).1.len() ==> !tags.contains(
                #[trigger] rule_effect(rules, text, tags).1[i],
            ),
        rule_effect(rules, text, tags).0 matches Some(c) ==> exists|j: int|
            0 <= j < rules.len() && (#[trigger] rules[j]).1 == RuleActionType::AssignCategory && rules[j].2 == Some(c)
                && ci_regex_matches(rules[j].0, text),
    decreases rules.len(),
{
    if rules.len() > 0 {
        let p = rules.drop_last();
        lemma_rule_effect_tags(p, text, tags);
        let (cat, extra) = rule_effect(p, text, tags);
        let r = rules.last();
        assert(rules[rules.len() - 1] == r);
        if let Some(c) = cat {
            let j = choose|j: int|
                0 <= j < p.len() && (#[trigger] p[j]).1 == RuleActionType::AssignCategory && p[j].2 == Some(c)
                    && ci_regex_matches(p[j].0, text);
            assert(rules[j] == p[j]);
        }
        if ci_regex_matches(r.0, text) && r.1 == RuleActionType::AssignTag {
            if let Some(n) = r.3 {
                if !tags.contains(n) && !extra.contains(n) {
                    let e = extra.push(n);
                    assert forall|i: int| 0 <= i < e.len() implies !tags.contains(#[trigger] e[i]) by {
                        if i < extra.len() {
                            assert(e[i] == extra[i]);
                        }
                    }
                    assert forall|a: int, b: int| 0 <= a < b < e.len() implies e[a] != e[b] by {
                        if b == extra.len() {
                            assert(e[a] == extra[a]);
                        } else {
                            assert(e[a] == extra[a] && e[b] == extra[b]);
                        }
                    }
                }
            }
        }
    }
}

pub open spec fn names_of(v: Seq<String>) -> Seq<Seq<char>> {
    v.map_values(|s: String| s@)
}

fn contains_string(v: &Vec<String>, s: &String) -> (res: bool)
    ensures
        res == names_of(v@).contains(s@),
{
    let mut i: usize = 0;
    while i < v.len()
        invariant
            i <= v@.len(),
            forall|t: int| 0 <= t < i ==> v@[t]@ != s@,
        decreases v@.len() - i,
    {
        if v[i] == *s {
            assert(names_of(v@)[i as int] == s@);
            return true;
        }
        i += 1;
    }
    assert forall|t: int| 0 <= t < names_of(v@).len() implies names_of(v@)[t] != s@ by {
        assert(names_of(v@)[t] == v@[t]@);
    }
    false
}

/// Applies the rules to one row (see `rule_effect`).
pub fn apply_rules(rules: &Vec<CompiledRule>, description: &str, tags: &Vec<String>) -> (res: (Option<i64>, Vec<String>))
    ensures
        (res.0, names_of(res.1@)) == rule_effect(compiled_seq(rules@), description@, names_of(tags@)),
{
    let ghost rv = compiled_seq(rules@);
    let mut cat: Option<i64> = None;
    let mut extra: Vec<String> = Vec::new();
    let mut i: usize = 0;
    while i < rules.len()
        invariant
            i <= rules@.len(),
            rv == compiled_seq(rules@),
            (cat, names_of(extra@)) == rule_effect(rv.take(i as int), description@, names_of(tags@)),
        decreases rules@.len() - i,
    {
        assert(rv.take(i + 1).drop_last() =~= rv.take(i as int));
        assert(rv.take(i + 1).last() == compiled_view(rules@[i as int]));
        let r = &rules[i];
        if pattern_matches(&r.matcher, description) {
            match r.action_type {
                RuleActionType::AssignCategory => {
                    if cat.is_none() {
                        cat = r.category_id;
                    }
                },
                RuleActionType::AssignTag => {
                    if let Some(n) = &r.tag_name {
                        if !contains_string(tags, n) && !contains_string(&extra, n) {
                            let ghost before = names_of(extra@);
                            extra.push(n.clone());
                            assert(names_of(extra@) =~= before.push(n@));
                        }
                    }
                },
            }
        }
        i += 1;
    }
    assert(rv.take(rules@.len() as int) =~= rv);
    (cat, extra)
}

/// The positions of the descriptions that the case-insensitive regex of
/// `pattern` matches, in order.
pub open spec fn matching_positions(pattern: Seq<char>, descriptions: Seq<Seq<char>>) -> Seq<int>
    decreases descriptions.len(),
{
    if descriptions.len() == 0 {
        seq![]
    } else {
        let r = matching_positions(pattern, descriptions.drop_last());
        if ci_regex_matches(pattern, descriptions.last()) {
            r.push(descriptions.len() - 1)
        } else {
            r
        }
    }
}

/// The transactions (by position) whose description a rule's pattern
/// matches; a validation error when the pattern does not compile.
pub fn match_transactions(pattern: &str, descriptions: &Vec<String>) -> (res: Result<Vec<usize>, AppError>)
    ensures
        match ci_regex_build_error(pattern@) {
            Some(m) => res matches Err(AppError::Validation(t)) && t@ == "Invalid regex pattern: "@ + m,
            None => res matches Ok(v) && v@.map_values(|i: usize| i as int) == matching_positions(
                pattern@,
                names_of(descriptions@),
            ),
        },
{
    let re = match compile_pattern(pattern) {
        Ok(c) => c,
        Err(e) => {
            let mut m = String::from_str("Invalid regex pattern: ");
            m.append(e.as_str());
            return Err(AppError::Validation(m));
        },
    };
    let ghost dv = names_of(descriptions@);
    let mut out: Vec<usize> = Vec::new();
    let mut i: usize = 0;
    while i < descriptions.len()
        invariant
            i <= descriptions@.len(),
            dv == names_of(descriptions@),
            re.pattern_text() == pattern@,
            out@.map_values(|k: usize| k as int) == matching_positions(pattern@, dv.take(i as int)),
        decreases descriptions@.len() - i,
    {
        assert(dv.take(i + 1).drop_last() =~= dv.take(i as int));
        assert(dv.take(i + 1).last() == descriptions@[i as int]@);
        let ghost before = out@;
        if pattern_matches(&re, descriptions[i].as_str()) {
            out.push(i);
            assert(out@.map_values(|k: usize| k as int) =~= before.map_values(|k: usize| k as int).push(i as int));
        }
        i += 1;
    }
    assert(dv.take(dv.len() as int) =~= dv);
    Ok(out)
}

} // verus!
