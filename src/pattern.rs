//! Extraction rules: their types, validation, and the per-flight rule store
//! that every parser shard holds.
use vstd::prelude::*;

verus! {

/// Whether `p` is a pattern the regex engine accepts.
pub uninterp spec fn regex_compiles(p: Seq<char>) -> bool;

/// Whether pattern `p` matches anywhere in `t`.
pub uninterp spec fn regex_matches(p: Seq<char>, t: Seq<char>) -> bool;

/// Text of capture group `i` of the leftmost-first match of `p` in `t`, if
/// there is a match and the group took part in it.
pub uninterp spec fn regex_group(p: Seq<char>, t: Seq<char>, i: nat) -> Option<Seq<char>>;

/// Relies on `regex::Regex::new`: whether the pattern compiles, which depends
/// on the pattern alone.
#[verifier::external_body]
pub(crate) fn compiles(p: &str) -> (r: bool)
    ensures
        r == regex_compiles(p@),
{
    regex::Regex::new(p).is_ok()
}

/// Relies on `regex::Regex::is_match`: whether the compiled pattern matches
/// anywhere in the text.
#[verifier::external_body]
pub(crate) fn is_match(p: &str, t: &str) -> (r: bool)
    requires
        regex_compiles(p@),
    ensures
        r == regex_matches(p@, t@),
{
    match regex::Regex::new(p) {
        Ok(re) => re.is_match(t),
        Err(_) => false,
    }
}

/// Relies on `regex::Regex::captures` and `regex::Captures::get`: the text of
/// group `i` of the first match; group 0 is present exactly when there is a
/// match.
#[verifier::external_body]
pub(crate) fn capture_group(p: &str, t: &str, i: usize) -> (r: Option<String>)
    requires
        regex_compiles(p@),
    ensures
        r is None ==> regex_group(p@, t@, i as nat) is None,
        r matches Some(s) ==> regex_group(p@, t@, i as nat) == Some(s@),
        i == 0 ==> (r is Some <==> regex_matches(p@, t@)),
{
    match regex::Regex::new(p) {
        Ok(re) => re.captures(t).and_then(|c| c.get(i)).map(|m| m.as_str().to_string()),
        Err(_) => None,
    }
}

#[derive(Debug, Clone)]
pub struct RegexPattern {
    /// Column that receives the extracted text; without it a boolean match
    /// column is added instead.
    pub override_field: Option<String>,
    /// Column the pattern is applied to.
    pub field: String,
    pub pattern_string: String,
}

#[derive(Debug, Clone)]
pub struct GrokPattern {
    pub override_field: Option<String>,
    pub field: String,
    pub pattern_string: String,
}

#[derive(Debug, Clone)]
pub enum Pattern {
    RegexPattern(RegexPattern),
    GrokPattern(GrokPattern),
}

/// A rule bundle submitted for one flight of one tenant.
#[derive(Debug, Clone)]
pub struct RegexRequest {
    pub name: String,
    pub tenant: String,
    pub flight_id: String,
    pub log_group: String,
    pub pattern: Vec<Pattern>,
}

/// A single-rule message: one pattern for one key and field.
#[derive(Debug, Clone)]
pub struct RegexRule {
    pub pattern: Pattern,
    pub key: String,
    pub field: String,
}

#[derive(Debug, Clone, Copy, PartialEq, Eq, Structural)]
pub enum PatternError {
    /// The request's name is shorter than three characters.
    NameTooShort,
    /// The regex rule at this position does not compile.
    InvalidRegex(usize),
    /// The rule at this position is of a kind that is not evaluated.
    UnsupportedPatternType(usize),
}

/// Shortest accepted request name, in characters.
pub const MIN_NAME_LEN: usize = 3;

/// The first problem in a rule list, if any: a grok rule, or a regex that
/// does not compile.
pub open spec fn first_rule_error(rules: Seq<Pattern>) -> Option<PatternError>
    decreases rules.len(),
{
    if rules.len() == 0 {
        None
    } else {
        match first_rule_error(rules.drop_last()) {
            Some(e) => Some(e),
            None => match rules.last() {
                Pattern::RegexPattern(rp) => if regex_compiles(rp.pattern_string@) {
                    None
                } else {
                    Some(PatternError::InvalidRegex((rules.len() - 1) as usize))
                },
                Pattern::GrokPattern(_) => Some(
                    PatternError::UnsupportedPatternType((rules.len() - 1) as usize),
                ),
            },
        }
    }
}

/// What validating a request gives.
pub open spec fn request_check(name: Seq<char>, rules: Seq<Pattern>) -> Option<PatternError> {
    if name.len() < MIN_NAME_LEN {
        Some(PatternError::NameTooShort)
    } else {
        first_rule_error(rules)
    }
}

pub fn is_valid_regex(regex: &RegexPattern) -> (r: bool)
    ensures
        r == regex_compiles(regex.pattern_string@),
{
    compiles(regex.pattern_string.as_str())
}

/// Checks every rule in order; the first grok rule or non-compiling regex is
/// reported with its position.
pub fn validate_regex_pattern(patterns: &Vec<Pattern>) -> (r: Result<(), PatternError>)
    ensures
        r is Ok <==> first_rule_error(patterns@) is None,
        r matches Err(e) ==> first_rule_error(patterns@) == Some(e),
{
    let mut i: usize = 0;
    while i < patterns.len()
        invariant
            0 <= i <= patterns@.len(),
            first_rule_error(patterns@.take(i as int)) is None,
        decreases patterns@.len() - i,
    {
        let ghost pre = patterns@.take(i as int);
        assert(patterns@.take(i + 1).drop_last() =~= pre);
        match &patterns[i] {
            Pattern::RegexPattern(rp) => {
                if !is_valid_regex(rp) {
                    proof {
                        lemma_first_error_prefix(patterns@, i as int + 1);
                    }
                    return Err(PatternError::InvalidRegex(i));
                }
            },
            Pattern::GrokPattern(_) => {
                proof {
                    lemma_first_error_prefix(patterns@, i as int + 1);
                }
                return Err(PatternError::UnsupportedPatternType(i));
            },
        }
        i = i + 1;
    }
    assert(patterns@.take(i as int) =~= patterns@);
    Ok(())
}

/// An error found in a prefix is the first error of the whole list.
proof fn lemma_first_error_prefix(rules: Seq<Pattern>, k: int)
    requires
        0 <= k <= rules.len(),
        first_rule_error(rules.take(k)) is Some,
    ensures
        first_rule_error(rules) == first_rule_error(rules.take(k)),
    decreases rules.len() - k,
{
    if k < rules.len() {
        assert(rules.take(k + 1).drop_last() =~= rules.take(k));
        lemma_first_error_prefix(rules, k + 1);
    } else {
        assert(rules.take(k) =~= rules);
    }
}

/// Validates a whole request: the name first, then the rules.
pub fn validate_request(req: &RegexRequest) -> (r: Result<(), PatternError>)
    ensures
        r is Ok <==> request_check(req.name@, req.pattern@) is None,
        r matches Err(e) ==> request_check(req.name@, req.pattern@) == Some(e),
{
    if req.name.as_str().unicode_len() < MIN_NAME_LEN {
        return Err(PatternError::NameTooShort);
    }
    validate_regex_pattern(&req.pattern)
}

/// Rule lists after submitting `rules` for `flight`: replaced when every
/// rule is valid, untouched otherwise.
pub open spec fn store_update(
    v: Map<Seq<char>, Seq<Pattern>>,
    flight: Seq<char>,
    rules: Seq<Pattern>,
) -> Map<Seq<char>, Seq<Pattern>> {
    if first_rule_error(rules) is None {
        v.insert(flight, rules)
    } else {
        v
    }
}

/// Rules per flight, as every parser shard holds them.
pub struct PatternStore {
    entries: Vec<(String, Vec<Pattern>)>,
}

/// Rule lists by flight.
pub type StoreView = Map<Seq<char>, Seq<Pattern>>;

spec fn entries_view(s: Seq<(String, Vec<Pattern>)>) -> StoreView
    decreases s.len(),
{
    if s.len() == 0 {
        Map::empty()
    } else {
        entries_view(s.drop_last()).insert(s.last().0@, s.last().1@)
    }
}

spec fn flights_unique(s: Seq<(String, Vec<Pattern>)>) -> bool {
    forall|i: int, j: int| 0 <= i < j < s.len() ==> (#[trigger] s[i]).0@ != (#[trigger] s[j]).0@
}

proof fn lemma_entries_view(s: Seq<(String, Vec<Pattern>)>)
    requires
        flights_unique(s),
    ensures
        forall|i: int|
            0 <= i < s.len() ==> #[trigger] entries_view(s).contains_key(s[i].0@) && entries_view(
                s,
            )[s[i].0@] == s[i].1@,
        forall|k: Seq<char>| #[trigger]
            entries_view(s).contains_key(k) ==> exists|i: int| 0 <= i < s.len() && s[i].0@ == k,
    decreases s.len(),
{
    if s.len() > 0 {
        let p = s.drop_last();
        assert(flights_unique(p)) by {
            assert forall|i: int, j: int| 0 <= i < j < p.len() implies (#[trigger] p[i]).0@ != (
            #[trigger] p[j]).0@ by {
                assert(p[i] == s[i] && p[j] == s[j]);
            }
        }
        lemma_entries_view(p);
        assert forall|i: int| 0 <= i < s.len() implies #[trigger] entries_view(s).contains_key(
            s[i].0@,
        ) && entries_view(s)[s[i].0@] == s[i].1@ by {
            if i < s.len() - 1 {
                assert(p[i] == s[i]);
                assert(entries_view(p).contains_key(p[i].0@));
                assert(s[i].0@ != s[s.len() - 1].0@);
            } else {
                assert(s.last() == s[i]);
            }
        }
        assert forall|k: Seq<char>| #[trigger] entries_view(s).contains_key(k) implies exists|i: int|
            0 <= i < s.len() && s[i].0@ == k by {
            if k != s.last().0@ {
                assert(entries_view(p).contains_key(k));
                let i = choose|i: int| 0 <= i < p.len() && p[i].0@ == k;
                assert(p[i] == s[i]);
            } else {
                assert(s[s.len() - 1].0@ == k);
            }
        }
    }
}

impl PatternStore {
    pub closed spec fn wf(&self) -> bool {
        &&& flights_unique(self.entries@)
        &&& forall|i: int|
            0 <= i < self.entries@.len() ==> first_rule_error(
                (#[trigger] self.entries@[i]).1@,
            ) is None
    }

    /// The rule list of each flight.
    pub closed spec fn view(&self) -> StoreView {
        entries_view(self.entries@)
    }

    pub fn new() -> (r: Self)
        ensures
            r.wf(),
            r.view() == StoreView::empty(),
    {
        PatternStore { entries: Vec::new() }
    }

    fn position(&self, flight: &str) -> (r: Option<usize>)
        requires
            self.wf(),
        ensures
            r matches Some(i) ==> i < self.entries@.len() && self.entries@[i as int].0@ == flight@,
            r is None ==> !self.view().contains_key(flight@),
    {
        proof {
            lemma_entries_view(self.entries@);
        }
        let key = flight.to_owned();
        let mut i: usize = 0;
        while i < self.entries.len()
            invariant
                0 <= i <= self.entries@.len(),
                key@ == flight@,
                forall|j: int| 0 <= j < i ==> self.entries@[j].0@ != flight@,
            decreases self.entries@.len() - i,
        {
            if self.entries[i].0 == key {
                return Some(i);
            }
            i = i + 1;
        }
        None
    }

    /// The rules of `flight`, if it has any.
    pub fn rules_for(&self, flight: &str) -> (r: Option<&Vec<Pattern>>)
        requires
            self.wf(),
        ensures
            r is None <==> !self.view().contains_key(flight@),
            r matches Some(v) ==> v@ == self.view()[flight@] && first_rule_error(v@) is None,
    {
        proof {
            lemma_entries_view(self.entries@);
        }
        match self.position(flight) {
            Some(i) => {
                assert(self.view().contains_key(self.entries@[i as int].0@));
                Some(&self.entries[i].1)
            },
            None => None,
        }
    }

    /// Replaces the rules of the request's flight, all at once, if every rule
    /// is valid; otherwise nothing changes.
    pub fn update_patterns(&mut self, req: RegexRequest) -> (r: Result<(), PatternError>)
        requires
            old(self).wf(),
        ensures
            final(self).wf(),
            r is Ok <==> first_rule_error(req.pattern@) is None,
            r matches Err(e) ==> first_rule_error(req.pattern@) == Some(e) && final(self).view()
                == old(self).view(),
            r is Ok ==> final(self).view() == old(self).view().insert(
                req.flight_id@,
                req.pattern@,
            ),
            final(self).view() == store_update(old(self).view(), req.flight_id@, req.pattern@),
    {
        match validate_regex_pattern(&req.pattern) {
            Err(e) => {
                return Err(e);
            },
            Ok(()) => {},
        }
        proof {
            lemma_entries_view(self.entries@);
        }
        let ghost pre = self.entries@;
        let ghost key = req.flight_id@;
        let ghost rules = req.pattern@;
        match self.position(req.flight_id.as_str()) {
            Some(i) => {
                let flight = req.flight_id;
                self.entries.set(i, (flight, req.pattern));
                proof {
                    let post = self.entries@;
                    assert(flights_unique(post)) by {
                        assert forall|a: int, b: int| 0 <= a < b < post.len() implies (
                        #[trigger] post[a]).0@ != (#[trigger] post[b]).0@ by {
                            assert(a != i ==> post[a] == pre[a]);
                            assert(b != i ==> post[b] == pre[b]);
                        }
                    }
                    assert forall|a: int| 0 <= a < post.len() implies first_rule_error(
                        (#[trigger] post[a]).1@,
                    ) is None by {
                        assert(a != i ==> post[a] == pre[a]);
                    }
                    lemma_entries_view(post);
                    assert(entries_view(post) =~= entries_view(pre).insert(key, rules)) by {
                        assert forall|k: Seq<char>| #[trigger]
                            entries_view(post).contains_key(k) <==> entries_view(pre).insert(
                                key,
                                rules,
                            ).contains_key(k) by {
                            if entries_view(post).contains_key(k) {
                                let j = choose|j: int| 0 <= j < post.len() && post[j].0@ == k;
                                if j != i {
                                    assert(post[j] == pre[j]);
                                }
                            }
                            if entries_view(pre).contains_key(k) {
                                let j = choose|j: int| 0 <= j < pre.len() && pre[j].0@ == k;
                                if j != i {
                                    assert(post[j] == pre[j]);
                                } else {
                                    assert(post[j].0@ == key);
                                }
                            }
                        }
                        assert forall|k: Seq<char>| #[trigger]
                            entries_view(post).contains_key(k) implies entries_view(post)[k]
                            == entries_view(pre).insert(key, rules)[k] by {
                            let j = choose|j: int| 0 <= j < post.len() && post[j].0@ == k;
                            if j != i {
                                assert(post[j] == pre[j]);
                            }
                        }
                    }
                }
            },
            None => {
                let flight = req.flight_id;
                self.entries.push((flight, req.pattern));
                proof {
                    assert(self.entries@.drop_last() =~= pre);
                    assert forall|a: int, b: int| 0 <= a < b < self.entries@.len() implies (
                    #[trigger] self.entries@[a]).0@ != (#[trigger] self.entries@[b]).0@ by {
                        if b == self.entries@.len() - 1 {
                            assert(self.entries@[a] == pre[a]);
                            assert(entries_view(pre).contains_key(pre[a].0@));
                        } else {
                            assert(self.entries@[a] == pre[a] && self.entries@[b] == pre[b]);
                        }
                    }
                    assert forall|a: int| 0 <= a < self.entries@.len() implies first_rule_error(
                        (#[trigger] self.entries@[a]).1@,
                    ) is None by {
                        if a < pre.len() {
                            assert(self.entries@[a] == pre[a]);
                        }
                    }
                }
            },
        }
        Ok(())
    }
}

/// In a rule list without errors every rule is a regex that compiles.
pub proof fn lemma_valid_rules(rules: Seq<Pattern>)
    requires
        first_rule_error(rules) is None,
    ensures
        forall|i: int|
            0 <= i < rules.len() ==> (#[trigger] rules[i]) is RegexPattern && regex_compiles(
                rules[i]->RegexPattern_0.pattern_string@,
            ),
    decreases rules.len(),
{
    if rules.len() > 0 {
        let p = rules.drop_last();
        lemma_valid_rules(p);
        assert forall|i: int| 0 <= i < rules.len() implies (#[trigger] rules[i]) is RegexPattern
            && regex_compiles(rules[i]->RegexPattern_0.pattern_string@) by {
            if i < p.len() {
                assert(p[i] == rules[i]);
            }
        }
    }
}

/// A rule list holding a regex that does not compile is refused as a whole:
/// the store keeps the rules it had for every flight.
pub proof fn lemma_invalid_rules_rejected(
    v: Map<Seq<char>, Seq<Pattern>>,
    flight: Seq<char>,
    rules: Seq<Pattern>,
    i: int,
)
    requires
        0 <= i < rules.len(),
        rules[i] is RegexPattern,
        !regex_compiles(rules[i]->RegexPattern_0.pattern_string@),
    ensures
        first_rule_error(rules) is Some,
        store_update(v, flight, rules) == v,
    decreases rules.len(),
{
    if i < rules.len() - 1 {
        assert(rules.drop_last()[i] == rules[i]);
        lemma_invalid_rules_rejected(v, flight, rules.drop_last(), i);
    }
}

} // verus!
