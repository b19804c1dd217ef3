//! Regex rule sets: compiled once into a single set matcher, then copied
//! into every worker so that each reads its own.
use vstd::prelude::*;
use regex::bytes::RegexSet;

verus! {

/// `regex::bytes::RegexSet`, held opaque: a compiled set of patterns.
#[verifier::external_type_specification]
#[verifier::external_body]
pub struct ExRegexSet(regex::bytes::RegexSet);

/// `regex::Error`, held opaque: why a pattern list did not compile.
#[verifier::external_type_specification]
#[verifier::external_body]
pub struct ExRegexError(regex::Error);

/// Whether `regex::bytes::RegexSet::new` accepts these patterns.
pub uninterp spec fn set_compiles(patterns: Seq<Seq<char>>) -> bool;

/// Whether some pattern of a set built from `patterns` matches somewhere in
/// `haystack`.
pub uninterp spec fn set_matches(patterns: Seq<Seq<char>>, haystack: Seq<u8>) -> bool;

/// The text of each pattern.
pub open spec fn patterns_view(patterns: Seq<String>) -> Seq<Seq<char>> {
    patterns.map_values(|s: String| s@)
}

/// Relies on `regex::bytes::RegexSet::new`: it fails exactly on the pattern
/// lists that do not compile, which depends on the patterns alone.
#[verifier::external_body]
fn build_set(patterns: &Vec<String>) -> (r: Result<RegexSet, regex::Error>)
    ensures
        r is Ok == set_compiles(patterns_view(patterns@)),
{
    RegexSet::new(patterns)
}

/// Relies on `regex::bytes::RegexSet::is_match`: whether one of the set's
/// patterns matches the haystack. The set of a `CompiledRuleSet` is always
/// the one built from its pattern list.
#[verifier::external_body]
fn set_is_match(rules: &CompiledRuleSet, haystack: &[u8]) -> (r: bool)
    ensures
        r == set_matches(rules@, haystack@),
{
    rules.set.is_match(haystack)
}

/// Relies on `Clone` for `regex::bytes::RegexSet`: a set with the same
/// patterns.
#[verifier::external_body]
fn clone_set(set: &RegexSet) -> RegexSet {
    set.clone()
}

/// Why a rule document was not installed.
#[derive(Clone, Copy, Debug, PartialEq, Eq, Structural)]
pub enum RuleError {
    /// The document was not a well-formed rule object.
    InvalidJson,
    /// One of the patterns does not compile.
    InvalidRegex,
}

/// A list of patterns compiled into one set matcher.
pub struct CompiledRuleSet {
    patterns: Vec<String>,
    set: RegexSet,
}

impl View for CompiledRuleSet {
    type V = Seq<Seq<char>>;

    closed spec fn view(&self) -> Seq<Seq<char>> {
        patterns_view(self.patterns@)
    }
}

fn copy_patterns(patterns: &Vec<String>) -> (r: Vec<String>)
    ensures
        patterns_view(r@) == patterns_view(patterns@),
{
    let mut out: Vec<String> = Vec::new();
    let mut i: usize = 0;
    while i < patterns.len()
        invariant
            i <= patterns@.len(),
            out@.len() == i,
            forall|j: int| 0 <= j < i ==> (#[trigger] out@[j])@ == patterns@[j]@,
        decreases patterns@.len() - i,
    {
        out.push(patterns[i].clone());
        i = i + 1;
    }
    assert(patterns_view(out@) =~= patterns_view(patterns@));
    out
}

impl CompiledRuleSet {
    /// Compiles `patterns` into one matcher; fails with `InvalidRegex`
    /// exactly when they do not compile.
    pub fn compile(patterns: Vec<String>) -> (r: Result<CompiledRuleSet, RuleError>)
        ensures
            r is Ok == set_compiles(patterns_view(patterns@)),
            r is Ok ==> r.unwrap()@ == patterns_view(patterns@),
            r is Err ==> r == Err::<CompiledRuleSet, RuleError>(RuleError::InvalidRegex),
    {
        match build_set(&patterns) {
            Ok(set) => Ok(CompiledRuleSet { patterns, set }),
            Err(_) => Err(RuleError::InvalidRegex),
        }
    }

    /// Whether one of the patterns matches somewhere in `payload`.
    pub fn is_match(&self, payload: &[u8]) -> (r: bool)
        ensures
            r == set_matches(self@, payload@),
    {
        set_is_match(self, payload)
    }

    /// A fresh copy with the same patterns, owned by its holder alone.
    pub fn duplicate(&self) -> (r: CompiledRuleSet)
        ensures
            r@ == self@,
    {
        CompiledRuleSet { patterns: copy_patterns(&self.patterns), set: clone_set(&self.set) }
    }

    /// The number of patterns.
    pub fn len(&self) -> (r: usize)
        ensures
            r == self@.len(),
    {
        self.patterns.len()
    }
}

/// Replaces the matcher of every worker with a copy of `new_rules`, one
/// worker at a time.
pub fn update_rules(cells: &mut Vec<CompiledRuleSet>, new_rules: &CompiledRuleSet)
    ensures
        final(cells)@.len() == old(cells)@.len(),
        forall|i: int| 0 <= i < final(cells)@.len() ==> (#[trigger] final(cells)@[i])@ == new_rules@,
{
    let mut i: usize = 0;
    while i < cells.len()
        invariant
            i <= cells@.len(),
            cells@.len() == old(cells)@.len(),
            forall|j: int| 0 <= j < i ==> (#[trigger] cells@[j])@ == new_rules@,
        decreases cells@.len() - i,
    {
        let copy = new_rules.duplicate();
        cells.set(i, copy);
        i = i + 1;
    }
}

/// Handles one rule document: `None` when it could not be read as a rule
/// object, else its patterns. A document that reads and compiles is
/// installed in every worker; otherwise every worker keeps its rules.
pub fn apply_rule_document(cells: &mut Vec<CompiledRuleSet>, document: Option<Vec<String>>) -> (r: Result<
    (),
    RuleError,
>)
    ensures
        final(cells)@.len() == old(cells)@.len(),
        match document {
            None => r == Err::<(), RuleError>(RuleError::InvalidJson) && final(cells)@ == old(cells)@,
            Some(p) => if set_compiles(patterns_view(p@)) {
                r is Ok && forall|i: int|
                    0 <= i < final(cells)@.len() ==> (#[trigger] final(cells)@[i])@ == patterns_view(p@)
            } else {
                r == Err::<(), RuleError>(RuleError::InvalidRegex) && final(cells)@ == old(cells)@
            },
        },
{
    match document {
        None => Err(RuleError::InvalidJson),
        Some(patterns) => match CompiledRuleSet::compile(patterns) {
            Ok(compiled) => {
                update_rules(cells, &compiled);
                Ok(())
            },
            Err(e) => Err(e),
        },
    }
}

} // verus!
