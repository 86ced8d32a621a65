//! Column-wise application of extraction rules to a batch, as a parser
//! shard does it: match masks with null propagation, first-group
//! extraction, and unique names for derived columns.
use vstd::prelude::*;

use crate::batch::{
    columns_view, data_len, find_column, position_of, rows_agree, text_views, Batch, Column,
    ColumnData, ColumnView, DataView, RecordBatchWrapper,
};
use crate::pattern::{
    capture_group, first_rule_error, is_match, lemma_valid_rules, regex_compiles, regex_group,
    regex_matches, Pattern, PatternError, PatternStore, RegexPattern, RegexRequest,
};

verus! {

#[derive(Debug, Clone, Copy, PartialEq, Eq, Structural)]
pub enum RuleErrorKind {
    /// The batch has no column of the rule's field.
    MissingField,
    /// The rule's column does not hold text.
    NotString,
    /// No free name was found for the derived column.
    NoFreeName,
    /// The rule is of a kind that is not evaluated.
    Unsupported,
}

/// A rule that could not be applied to a batch; the batch goes on without it.
#[derive(Debug, Clone, Copy, PartialEq, Eq, Structural)]
pub struct RuleError {
    pub rule_index: usize,
    pub kind: RuleErrorKind,
}

pub open spec fn digit_char(d: nat) -> char {
    if d == 0 {
        '0'
    } else if d == 1 {
        '1'
    } else if d == 2 {
        '2'
    } else if d == 3 {
        '3'
    } else if d == 4 {
        '4'
    } else if d == 5 {
        '5'
    } else if d == 6 {
        '6'
    } else if d == 7 {
        '7'
    } else if d == 8 {
        '8'
    } else {
        '9'
    }
}

/// Decimal digits of `n`.
pub open spec fn dec(n: nat) -> Seq<char>
    decreases n,
{
    if n < 10 {
        seq![digit_char(n)]
    } else {
        dec(n / 10) + seq![digit_char(n % 10)]
    }
}

fn digit_str(d: usize) -> (r: &'static str)
    requires
        d < 10,
    ensures
        r@ == seq![digit_char(d as nat)],
{
    if d == 0 {
        proof { reveal_strlit("0"); }
        "0"
    } else if d == 1 {
        proof { reveal_strlit("1"); }
        "1"
    } else if d == 2 {
        proof { reveal_strlit("2"); }
        "2"
    } else if d == 3 {
        proof { reveal_strlit("3"); }
        "3"
    } else if d == 4 {
        proof { reveal_strlit("4"); }
        "4"
    } else if d == 5 {
        proof { reveal_strlit("5"); }
        "5"
    } else if d == 6 {
        proof { reveal_strlit("6"); }
        "6"
    } else if d == 7 {
        proof { reveal_strlit("7"); }
        "7"
    } else if d == 8 {
        proof { reveal_strlit("8"); }
        "8"
    } else {
        proof { reveal_strlit("9"); }
        "9"
    }
}

/// `n` written in decimal.
pub fn decimal(n: usize) -> (r: String)
    ensures
        r@ == dec(n as nat),
    decreases n,
{
    if n < 10 {
        String::from_str(digit_str(n))
    } else {
        let s = decimal(n / 10);
        s.concat(digit_str(n % 10))
    }
}

/// Suffix of the boolean column a rule without override adds.
pub open spec fn matched_suffix() -> Seq<char> {
    seq!['_', 'm', 'a', 't', 'c', 'h', 'e', 'd']
}

/// The `k`-th alternative to `base`: `base_k`.
pub open spec fn candidate(base: Seq<char>, k: nat) -> Seq<char> {
    base + seq!['_'] + dec(k)
}

/// Last suffix tried for a derived column among `n` columns.
pub open spec fn last_suffix(n: nat) -> nat {
    if n + 2 <= usize::MAX {
        n + 2
    } else {
        usize::MAX as nat
    }
}

/// Smallest `k` in `lo..=hi` for which `base_k` names no column.
pub open spec fn first_free(cols: Seq<ColumnView>, base: Seq<char>, lo: nat, hi: nat) -> Option<
    nat,
>
    decreases hi + 1 - lo,
{
    if lo > hi {
        None
    } else if find_column(cols, candidate(base, lo)) is None {
        Some(lo)
    } else {
        first_free(cols, base, lo + 1, hi)
    }
}

/// Name of a new column meant to be called `base`: `base` itself when free,
/// else `base_2`, `base_3`, ... whichever comes first free.
pub open spec fn unique_name(cols: Seq<ColumnView>, base: Seq<char>) -> Option<Seq<char>> {
    if find_column(cols, base) is None {
        Some(base)
    } else {
        match first_free(cols, base, 2, last_suffix(cols.len())) {
            Some(k) => Some(candidate(base, k)),
            None => None,
        }
    }
}

/// Match mask of `p` over a text column; nulls stay null.
pub open spec fn mask_of(p: Seq<char>, texts: Seq<Option<Seq<char>>>) -> Seq<Option<bool>> {
    texts.map_values(|t: Option<Seq<char>>| match t {
        Some(s) => Some(regex_matches(p, s)),
        None => None,
    })
}

/// Text taken from `t`: the first capture group, or the whole match when the
/// pattern has no group that took part; none without a match.
pub open spec fn extracted(p: Seq<char>, t: Seq<char>) -> Option<Seq<char>> {
    if regex_group(p, t, 1) is Some {
        regex_group(p, t, 1)
    } else {
        regex_group(p, t, 0)
    }
}

/// Extraction of `p` over a text column; nulls and non-matches are null.
pub open spec fn extract_of(p: Seq<char>, texts: Seq<Option<Seq<char>>>) -> Seq<
    Option<Seq<char>>,
> {
    texts.map_values(|t: Option<Seq<char>>| match t {
        Some(s) => extracted(p, s),
        None => None,
    })
}

/// Per row, the value already derived, else the newly extracted one: among
/// rules writing the same column, the first match wins.
pub open spec fn first_match(
    prev: Seq<Option<Seq<char>>>,
    next: Seq<Option<Seq<char>>>,
) -> Seq<Option<Seq<char>>> {
    Seq::new(
        prev.len(),
        |i: int|
            if prev[i] is Some || i >= next.len() {
                prev[i]
            } else {
                next[i]
            },
    )
}

/// The column a rule with override `o` writes when `o` names column `j`:
/// merged row by row with it when an earlier rule of the same pass derived it
/// as text, else the extraction replaces it.
pub open spec fn override_column(
    cols: Seq<ColumnView>,
    j: int,
    o: Seq<char>,
    ex: Seq<Option<Seq<char>>>,
    derived: Seq<Seq<char>>,
) -> ColumnView {
    match cols[j].data {
        DataView::Utf8(prev) => if derived.contains(o) {
            ColumnView { name: o, nullable: true, data: DataView::Utf8(first_match(prev, ex)) }
        } else {
            ColumnView { name: o, nullable: true, data: DataView::Utf8(ex) }
        },
        _ => ColumnView { name: o, nullable: true, data: DataView::Utf8(ex) },
    }
}

/// Columns and derived column names after applying one regex rule, or why
/// it does not apply. `derived` names the columns earlier rules of the same
/// pass wrote.
pub open spec fn apply_regex_spec(
    cols: Seq<ColumnView>,
    rp: RegexPattern,
    derived: Seq<Seq<char>>,
) -> Result<(Seq<ColumnView>, Seq<Seq<char>>), RuleErrorKind> {
    let p = rp.pattern_string@;
    match find_column(cols, rp.field@) {
        None => Err(RuleErrorKind::MissingField),
        Some(i) => match cols[i].data {
            DataView::Utf8(texts) => match rp.override_field {
                Some(o) => {
                    let ex = extract_of(p, texts);
                    match find_column(cols, o@) {
                        Some(j) => Ok(
                            (cols.update(j, override_column(cols, j, o@, ex, derived)), derived.push(o@)),
                        ),
                        None => Ok(
                            (
                                cols.push(
                                    ColumnView { name: o@, nullable: true, data: DataView::Utf8(ex) },
                                ),
                                derived.push(o@),
                            ),
                        ),
                    }
                },
                None => match unique_name(cols, rp.field@ + matched_suffix()) {
                    Some(n) => Ok(
                        (
                            cols.push(
                                ColumnView {
                                    name: n,
                                    nullable: true,
                                    data: DataView::Boolean(mask_of(p, texts)),
                                },
                            ),
                            derived.push(n),
                        ),
                    ),
                    None => Err(RuleErrorKind::NoFreeName),
                },
            },
            _ => Err(RuleErrorKind::NotString),
        },
    }
}

/// Columns, rule errors and derived column names after applying `rules` in order.
pub open spec fn apply_rules_state(cols: Seq<ColumnView>, rules: Seq<Pattern>) -> (
    Seq<ColumnView>,
    Seq<RuleError>,
    Seq<Seq<char>>,
)
    decreases rules.len(),
{
    if rules.len() == 0 {
        (cols, Seq::empty(), Seq::empty())
    } else {
        let (c, errs, d) = apply_rules_state(cols, rules.drop_last());
        let idx = (rules.len() - 1) as usize;
        match rules.last() {
            Pattern::RegexPattern(rp) => match apply_regex_spec(c, rp, d) {
                Ok((c2, d2)) => (c2, errs, d2),
                Err(k) => (c, errs.push(RuleError { rule_index: idx, kind: k }), d),
            },
            Pattern::GrokPattern(_) => (
                c,
                errs.push(RuleError { rule_index: idx, kind: RuleErrorKind::Unsupported }),
                d,
            ),
        }
    }
}

/// Columns and rule errors after applying `rules` in order.
pub open spec fn apply_rules_spec(cols: Seq<ColumnView>, rules: Seq<Pattern>) -> (
    Seq<ColumnView>,
    Seq<RuleError>,
) {
    let st = apply_rules_state(cols, rules);
    (st.0, st.1)
}

pub open spec fn names_view(v: Seq<String>) -> Seq<Seq<char>> {
    v.map_values(|s: String| s@)
}

/// Whether `name` is among `names`.
pub fn contains_name(names: &Vec<String>, name: &String) -> (r: bool)
    ensures
        r == names_view(names@).contains(name@),
{
    let mut i: usize = 0;
    while i < names.len()
        invariant
            0 <= i <= names@.len(),
            forall|j: int| 0 <= j < i ==> names@[j]@ != name@,
        decreases names@.len() - i,
    {
        if names[i] == *name {
            assert(names_view(names@)[i as int] == name@);
            return true;
        }
        i = i + 1;
    }
    assert forall|j: int| 0 <= j < names_view(names@).len() implies names_view(names@)[j]
        != name@ by {
        assert(names_view(names@)[j] == names@[j]@);
    }
    false
}

/// Row by row, `prev` where it holds a value, else `next`.
pub fn merge_first_match(prev: &Vec<Option<String>>, next: Vec<Option<String>>) -> (r: Vec<
    Option<String>,
>)
    ensures
        text_views(r@) == first_match(text_views(prev@), text_views(next@)),
{
    let mut out: Vec<Option<String>> = Vec::new();
    let mut i: usize = 0;
    while i < prev.len()
        invariant
            0 <= i <= prev@.len(),
            text_views(out@) == first_match(text_views(prev@), text_views(next@)).take(i as int),
        decreases prev@.len() - i,
    {
        let v = match &prev[i] {
            Some(t) => Some(t.clone()),
            None => if i < next.len() {
                match &next[i] {
                    Some(t) => Some(t.clone()),
                    None => None,
                }
            } else {
                None
            },
        };
        let ghost before = out@;
        out.push(v);
        assert(text_views(out@) =~= text_views(before).push(
            match v {
                Some(t) => Some(t@),
                None => None,
            },
        ));
        i = i + 1;
        assert(text_views(out@) =~= first_match(text_views(prev@), text_views(next@)).take(
            i as int,
        ));
    }
    assert(text_views(out@) =~= first_match(text_views(prev@), text_views(next@)));
    out
}

/// Match mask of `p` over `texts`.
pub fn match_mask(p: &str, texts: &Vec<Option<String>>) -> (r: Vec<Option<bool>>)
    requires
        regex_compiles(p@),
    ensures
        r@ == mask_of(p@, text_views(texts@)),
{
    let mut out: Vec<Option<bool>> = Vec::new();
    let mut i: usize = 0;
    while i < texts.len()
        invariant
            regex_compiles(p@),
            0 <= i <= texts@.len(),
            out@ == mask_of(p@, text_views(texts@)).take(i as int),
        decreases texts@.len() - i,
    {
        let v = match &texts[i] {
            Some(t) => Some(is_match(p, t.as_str())),
            None => None,
        };
        out.push(v);
        i = i + 1;
        assert(out@ =~= mask_of(p@, text_views(texts@)).take(i as int));
    }
    assert(out@ =~= mask_of(p@, text_views(texts@)));
    out
}

/// Text taken from `t` by `p`.
pub fn extract_text(p: &str, t: &str) -> (r: Option<String>)
    requires
        regex_compiles(p@),
    ensures
        r is None ==> extracted(p@, t@) is None,
        r matches Some(s) ==> extracted(p@, t@) == Some(s@),
{
    match capture_group(p, t, 1) {
        Some(s) => Some(s),
        None => capture_group(p, t, 0),
    }
}

/// Extraction of `p` over `texts`.
pub fn extract_column(p: &str, texts: &Vec<Option<String>>) -> (r: Vec<Option<String>>)
    requires
        regex_compiles(p@),
    ensures
        text_views(r@) == extract_of(p@, text_views(texts@)),
{
    let mut out: Vec<Option<String>> = Vec::new();
    let mut i: usize = 0;
    while i < texts.len()
        invariant
            regex_compiles(p@),
            0 <= i <= texts@.len(),
            text_views(out@) == extract_of(p@, text_views(texts@)).take(i as int),
        decreases texts@.len() - i,
    {
        let v = match &texts[i] {
            Some(t) => extract_text(p, t.as_str()),
            None => None,
        };
        let ghost before = out@;
        out.push(v);
        assert(text_views(out@) =~= text_views(before).push(
            match v {
                Some(s) => Some(s@),
                None => None,
            },
        ));
        i = i + 1;
        assert(text_views(out@) =~= extract_of(p@, text_views(texts@)).take(i as int));
    }
    assert(text_views(out@) =~= extract_of(p@, text_views(texts@)));
    out
}

/// The name a derived column meant to be called `base` gets among `cols`.
pub fn unique_column_name(cols: &Vec<Column>, base: &String) -> (r: Option<String>)
    ensures
        r is None ==> unique_name(columns_view(cols@), base@) is None,
        r matches Some(n) ==> unique_name(columns_view(cols@), base@) == Some(n@),
{
    let ghost v = columns_view(cols@);
    match position_of(cols, base) {
        None => {
            return Some(base.clone());
        },
        Some(_) => {},
    }
    assert(v.len() == cols@.len());
    let hi: usize = if cols.len() <= usize::MAX - 2 {
        cols.len() + 2
    } else {
        usize::MAX
    };
    let mut k: usize = 2;
    while k <= hi
        invariant
            2 <= k,
            hi == last_suffix(cols@.len() as nat),
            v == columns_view(cols@),
            find_column(v, base@) is Some,
            first_free(v, base@, 2, hi as nat) == first_free(v, base@, k as nat, hi as nat),
        decreases hi + 1 - k,
    {
        let cand = base.clone().concat("_").concat(decimal(k).as_str());
        proof {
            reveal_strlit("_");
            assert(cand@ =~= candidate(base@, k as nat));
        }
        if let None = position_of(cols, &cand) {
            assert(first_free(v, base@, k as nat, hi as nat) == Some(k as nat));
            return Some(cand);
        }
        assert(first_free(v, base@, k as nat, hi as nat) == first_free(
            v,
            base@,
            (k + 1) as nat,
            hi as nat,
        ));
        if k == usize::MAX {
            assert(first_free(v, base@, (k + 1) as nat, hi as nat) is None);
            return None;
        }
        k = k + 1;
    }
    assert(first_free(v, base@, k as nat, hi as nat) is None);
    None
}

/// Applies one regex rule to `cols`, given the names `derived` of the
/// columns earlier rules of the pass wrote; on error nothing changes.
pub fn apply_regex_rule(cols: &mut Vec<Column>, rp: &RegexPattern, derived: &mut Vec<String>) -> (r:
    Result<(), RuleErrorKind>)
    requires
        regex_compiles(rp.pattern_string@),
    ensures
        apply_regex_spec(columns_view(old(cols)@), *rp, names_view(old(derived)@)) matches Ok(
            (c, d),
        ) ==> r is Ok && columns_view(final(cols)@) == c && names_view(final(derived)@) == d,
        apply_regex_spec(columns_view(old(cols)@), *rp, names_view(old(derived)@)) matches Err(k)
            ==> r == Err::<(), RuleErrorKind>(k) && final(cols)@ == old(cols)@ && final(derived)@
            == old(derived)@,
{
    let ghost v = columns_view(cols@);
    let ghost d = names_view(derived@);
    let p = rp.pattern_string.as_str();
    proof {
        crate::batch::lemma_find_column(v, rp.field@);
    }
    let i = match position_of(cols, &rp.field) {
        Some(i) => i,
        None => {
            return Err(RuleErrorKind::MissingField);
        },
    };
    assert(v[i as int] == cols@[i as int]@);
    let texts = match &cols[i].data {
        ColumnData::Utf8(t) => t,
        _ => {
            return Err(RuleErrorKind::NotString);
        },
    };
    match &rp.override_field {
        Some(o) => {
            let ex = extract_column(p, texts);
            proof {
                crate::batch::lemma_find_column(v, o@);
            }
            match position_of(cols, o) {
                Some(j) => {
                    assert(v[j as int] == cols@[j as int]@);
                    let merge = contains_name(derived, o);
                    let data = match &cols[j].data {
                        ColumnData::Utf8(prev) => if merge {
                            ColumnData::Utf8(merge_first_match(prev, ex))
                        } else {
                            ColumnData::Utf8(ex)
                        },
                        _ => ColumnData::Utf8(ex),
                    };
                    let c = Column { name: o.clone(), nullable: true, data };
                    assert(c@ == override_column(v, j as int, o@, extract_of(p@, text_views(texts@)), d));
                    cols.set(j, c);
                    assert(columns_view(cols@) =~= v.update(j as int, c@));
                },
                None => {
                    let c = Column { name: o.clone(), nullable: true, data: ColumnData::Utf8(ex) };
                    cols.push(c);
                    assert(columns_view(cols@) =~= v.push(c@));
                },
            }
            derived.push(o.clone());
            assert(names_view(derived@) =~= d.push(o@));
            Ok(())
        },
        None => {
            let base = rp.field.clone().concat("_matched");
            proof {
                reveal_strlit("_matched");
                assert(base@ =~= rp.field@ + matched_suffix());
            }
            match unique_column_name(cols, &base) {
                Some(n) => {
                    let mask = match_mask(p, texts);
                    derived.push(n.clone());
                    assert(names_view(derived@) =~= d.push(n@));
                    let c = Column { name: n, nullable: true, data: ColumnData::Boolean(mask) };
                    cols.push(c);
                    assert(columns_view(cols@) =~= v.push(c@));
                    Ok(())
                },
                None => Err(RuleErrorKind::NoFreeName),
            }
        },
    }
}

/// Applies `rules` in order; a rule that does not apply is recorded and skipped.
pub fn apply_rules(cols: &mut Vec<Column>, rules: &Vec<Pattern>) -> (r: Vec<RuleError>)
    requires
        first_rule_error(rules@) is None,
    ensures
        (columns_view(final(cols)@), r@) == apply_rules_spec(columns_view(old(cols)@), rules@),
{
    proof {
        lemma_valid_rules(rules@);
    }
    let ghost start = columns_view(cols@);
    let mut errors: Vec<RuleError> = Vec::new();
    let mut derived: Vec<String> = Vec::new();
    let mut i: usize = 0;
    assert(rules@.take(0) =~= Seq::<Pattern>::empty());
    assert(names_view(derived@) =~= Seq::<Seq<char>>::empty());
    while i < rules.len()
        invariant
            0 <= i <= rules@.len(),
            forall|k: int|
                0 <= k < rules@.len() ==> (#[trigger] rules@[k]) is RegexPattern && regex_compiles(
                    rules@[k]->RegexPattern_0.pattern_string@,
                ),
            (columns_view(cols@), errors@, names_view(derived@)) == apply_rules_state(
                start,
                rules@.take(i as int),
            ),
        decreases rules@.len() - i,
    {
        assert(rules@.take(i + 1).drop_last() =~= rules@.take(i as int));
        assert(rules@.take(i + 1).last() == rules@[i as int]);
        match &rules[i] {
            Pattern::RegexPattern(rp) => {
                match apply_regex_rule(cols, rp, &mut derived) {
                    Ok(()) => {},
                    Err(k) => {
                        errors.push(RuleError { rule_index: i, kind: k });
                    },
                }
            },
            Pattern::GrokPattern(_) => {
                errors.push(RuleError { rule_index: i, kind: RuleErrorKind::Unsupported });
            },
        }
        i = i + 1;
    }
    assert(rules@.take(i as int) =~= rules@);
    errors
}

/// Applying a rule keeps every column at `rows` values.
proof fn lemma_apply_regex_rows(
    cols: Seq<ColumnView>,
    rp: RegexPattern,
    derived: Seq<Seq<char>>,
    rows: nat,
)
    requires
        rows_agree(cols, rows),
    ensures
        apply_regex_spec(cols, rp, derived) matches Ok((c, _)) ==> rows_agree(c, rows),
{
    crate::batch::lemma_find_column(cols, rp.field@);
    if let Some(i) = find_column(cols, rp.field@) {
        assert(data_len(cols[i].data) == rows);
        if let Some(o) = rp.override_field {
            crate::batch::lemma_find_column(cols, o@);
            if let Some(j) = find_column(cols, o@) {
                assert(data_len(cols[j].data) == rows);
            }
        }
    }
}

/// Applying rules keeps every column at the batch's row count; in
/// particular an empty batch stays empty.
pub proof fn lemma_apply_rules_rows(cols: Seq<ColumnView>, rules: Seq<Pattern>, rows: nat)
    requires
        rows_agree(cols, rows),
    ensures
        rows_agree(apply_rules_spec(cols, rules).0, rows),
    decreases rules.len(),
{
    if rules.len() > 0 {
        lemma_apply_rules_rows(cols, rules.drop_last(), rows);
        let st = apply_rules_state(cols, rules.drop_last());
        if let Pattern::RegexPattern(rp) = rules.last() {
            lemma_apply_regex_rows(st.0, rp, st.2, rows);
        }
    }
}

/// A parser shard: holds the rules of every flight and enriches batches.
pub struct ParsingActor {
    patterns: PatternStore,
}

impl ParsingActor {
    pub closed spec fn wf(&self) -> bool {
        self.patterns.wf()
    }

    /// Rule lists by flight.
    pub closed spec fn rules(&self) -> Map<Seq<char>, Seq<Pattern>> {
        self.patterns.view()
    }

    pub fn new() -> (r: Self)
        ensures
            r.wf(),
            r.rules() == Map::<Seq<char>, Seq<Pattern>>::empty(),
    {
        ParsingActor { patterns: PatternStore::new() }
    }

    /// Replaces the rules of one flight, all at once; an invalid rule list
    /// changes nothing.
    pub fn update_patterns(&mut self, req: RegexRequest) -> (r: Result<(), PatternError>)
        requires
            old(self).wf(),
        ensures
            final(self).wf(),
            r is Ok <==> first_rule_error(req.pattern@) is None,
            r matches Err(e) ==> first_rule_error(req.pattern@) == Some(e) && final(self).rules()
                == old(self).rules(),
            r is Ok ==> final(self).rules() == old(self).rules().insert(
                req.flight_id@,
                req.pattern@,
            ),
            final(self).rules() == crate::pattern::store_update(
                old(self).rules(),
                req.flight_id@,
                req.pattern@,
            ),
    {
        self.patterns.update_patterns(req)
    }

    /// Enriches a batch with the rules of its flight; a flight without rules
    /// passes unchanged. Returns the batch and the rules that did not apply.
    pub fn process(&self, record: RecordBatchWrapper) -> (r: (RecordBatchWrapper, Vec<RuleError>))
        requires
            self.wf(),
            record.data.wf(),
        ensures
            r.0.metadata == record.metadata,
            r.0.data.wf(),
            r.0.data.rows() == record.data.rows(),
            !self.rules().contains_key(record.metadata.flight@) ==> r.0.data.view()
                == record.data.view() && r.1@.len() == 0,
            self.rules().contains_key(record.metadata.flight@) ==> (r.0.data.view(), r.1@)
                == apply_rules_spec(record.data.view(), self.rules()[record.metadata.flight@]),
    {
        match self.patterns.rules_for(record.metadata.flight.as_str()) {
            None => (record, Vec::new()),
            Some(rules) => {
                let RecordBatchWrapper { metadata, data } = record;
                let ghost before = data.view();
                let rows = data.num_rows();
                proof {
                    data.lemma_rows();
                    lemma_apply_rules_rows(before, rules@, rows as nat);
                }
                let mut cols = data.into_columns();
                let errors = apply_rules(&mut cols, rules);
                let data = Batch::from_columns(cols, rows);
                (RecordBatchWrapper { metadata, data }, errors)
            },
        }
    }
}

} // verus!
