//! Field selectors: lists of conditions on a resource's named fields, as
//! built in code or parsed from a query such as `host=me,name!=idle`.
use vstd::prelude::*;
use vstd::string::*;
use crate::text::chars_of;

verus! {

#[derive(Clone, Copy, Debug, PartialEq, Eq, Structural)]
pub enum Operator {
    Equals,
    NotEquals,
}

pub struct FieldCondition {
    pub field_name: String,
    pub operator: Operator,
    pub value: String,
}

pub struct FieldConditionView {
    pub field_name: Seq<char>,
    pub operator: Operator,
    pub value: Seq<char>,
}

impl View for FieldCondition {
    type V = FieldConditionView;

    open spec fn view(&self) -> FieldConditionView {
        FieldConditionView { field_name: self.field_name@, operator: self.operator, value: self.value@ }
    }
}

/// The views of a list of conditions.
pub open spec fn conditions_view(v: Seq<FieldCondition>) -> Seq<FieldConditionView> {
    v.map_values(|c: FieldCondition| c@)
}

pub open spec fn condition_spec(field_name: Seq<char>, operator: Operator, value: Seq<char>) -> FieldConditionView {
    FieldConditionView { field_name, operator, value }
}

impl FieldCondition {
    fn make(field_name: &str, operator: Operator, value: &str) -> (r: FieldCondition)
        ensures
            r@ == condition_spec(field_name@, operator, value@),
    {
        FieldCondition { field_name: field_name.to_owned(), operator, value: value.to_owned() }
    }
}

pub struct FieldSelectorBuilder {
    conditions: Vec<FieldCondition>,
}

impl View for FieldSelectorBuilder {
    type V = Seq<FieldConditionView>;

    closed spec fn view(&self) -> Seq<FieldConditionView> {
        conditions_view(self.conditions@)
    }
}

impl FieldSelectorBuilder {
    pub fn new() -> (r: Self)
        ensures
            r@ == Seq::<FieldConditionView>::empty(),
    {
        let r = FieldSelectorBuilder { conditions: Vec::new() };
        assert(r@ =~= Seq::<FieldConditionView>::empty());
        r
    }

    /// Adds the condition that the field holds exactly `value`.
    pub fn eq(self, field_name: &str, value: &str) -> (r: Self)
        ensures
            r@ == self@.push(condition_spec(field_name@, Operator::Equals, value@)),
    {
        let mut conditions = self.conditions;
        let ghost old_conditions = conditions@;
        conditions.push(FieldCondition::make(field_name, Operator::Equals, value));
        let r = FieldSelectorBuilder { conditions };
        assert(r@ =~= conditions_view(old_conditions).push(condition_spec(field_name@, Operator::Equals, value@)));
        r
    }

    /// Adds the condition that the field is present and holds anything but `value`.
    pub fn ne(self, field_name: &str, value: &str) -> (r: Self)
        ensures
            r@ == self@.push(condition_spec(field_name@, Operator::NotEquals, value@)),
    {
        let mut conditions = self.conditions;
        let ghost old_conditions = conditions@;
        conditions.push(FieldCondition::make(field_name, Operator::NotEquals, value));
        let r = FieldSelectorBuilder { conditions };
        assert(r@ =~= conditions_view(old_conditions).push(condition_spec(field_name@, Operator::NotEquals, value@)));
        r
    }

    pub fn build(self) -> (r: FieldSelector)
        ensures
            r@ == self@,
    {
        FieldSelector { conditions: self.conditions }
    }
}

impl Default for FieldSelectorBuilder {
    fn default() -> (r: Self)
        ensures
            r@ == Seq::<FieldConditionView>::empty(),
    {
        Self::new()
    }
}

pub struct FieldSelector {
    pub conditions: Vec<FieldCondition>,
}

impl View for FieldSelector {
    type V = Seq<FieldConditionView>;

    open spec fn view(&self) -> Seq<FieldConditionView> {
        conditions_view(self.conditions@)
    }
}

/// The comma-separated pieces of a query; an empty query is one empty piece,
/// and a comma at either end gives an empty piece there.
pub open spec fn query_segments(q: Seq<char>) -> Seq<Seq<char>>
    decreases q.len(),
{
    if q.len() == 0 {
        seq![Seq::<char>::empty()]
    } else {
        let prev = query_segments(q.drop_last());
        if q.last() == ',' {
            prev.push(Seq::<char>::empty())
        } else {
            prev.update(prev.len() - 1, prev.last().push(q.last()))
        }
    }
}

/// `!=` starts at position `j` of `seg`.
pub open spec fn not_equals_at(seg: Seq<char>, j: int) -> bool {
    0 <= j && j + 1 < seg.len() && seg[j] == '!' && seg[j + 1] == '='
}

/// `=` stands at position `j` of `seg`.
pub open spec fn equals_at(seg: Seq<char>, j: int) -> bool {
    0 <= j < seg.len() && seg[j] == '='
}

/// The condition that one piece of a query states: split at its first `!=`
/// if it has one, else at its first `=`; a piece with neither states none.
pub open spec fn parse_segment(seg: Seq<char>) -> Option<FieldConditionView> {
    if exists|j: int| not_equals_at(seg, j) {
        let j = choose|j: int| not_equals_at(seg, j) && forall|k: int| 0 <= k < j ==> !not_equals_at(seg, k);
        Some(condition_spec(seg.take(j), Operator::NotEquals, seg.skip(j + 2)))
    } else if exists|j: int| equals_at(seg, j) {
        let j = choose|j: int| equals_at(seg, j) && forall|k: int| 0 <= k < j ==> !equals_at(seg, k);
        Some(condition_spec(seg.take(j), Operator::Equals, seg.skip(j + 1)))
    } else {
        None
    }
}

/// The conditions of a query, in the order of its pieces.
pub open spec fn parse_query(q: Seq<char>) -> Seq<FieldConditionView> {
    query_segments(q).filter_map(|seg: Seq<char>| parse_segment(seg))
}

proof fn lemma_query_segments_nonempty(q: Seq<char>)
    ensures
        query_segments(q).len() >= 1,
    decreases q.len(),
{
    if q.len() > 0 {
        lemma_query_segments_nonempty(q.drop_last());
    }
}

/// The pieces of a prefix of the query: those completed before `start`, then
/// the characters from `start` up to the end of the prefix.
proof fn lemma_query_segments_step(q: Seq<char>, i: int)
    requires
        0 <= i < q.len(),
    ensures
        query_segments(q.take(i + 1)) == (if q[i] == ',' {
            query_segments(q.take(i)).push(Seq::<char>::empty())
        } else {
            let prev = query_segments(q.take(i));
            prev.update(prev.len() - 1, prev.last().push(q[i]))
        }),
{
    assert(q.take(i + 1).drop_last() =~= q.take(i));
}

impl FieldSelector {
    pub fn new() -> (r: Self)
        ensures
            r@ == Seq::<FieldConditionView>::empty(),
    {
        let r = FieldSelector { conditions: Vec::new() };
        assert(r@ =~= Seq::<FieldConditionView>::empty());
        r
    }

    fn add_eq(&mut self, field_name: &str, value: &str)
        ensures
            final(self)@ == old(self)@.push(condition_spec(field_name@, Operator::Equals, value@)),
    {
        self.conditions.push(FieldCondition::make(field_name, Operator::Equals, value));
        assert(self@ =~= old(self)@.push(condition_spec(field_name@, Operator::Equals, value@)));
    }

    fn add_ne(&mut self, field_name: &str, value: &str)
        ensures
            final(self)@ == old(self)@.push(condition_spec(field_name@, Operator::NotEquals, value@)),
    {
        self.conditions.push(FieldCondition::make(field_name, Operator::NotEquals, value));
        assert(self@ =~= old(self)@.push(condition_spec(field_name@, Operator::NotEquals, value@)));
    }

    pub fn builder() -> (r: FieldSelectorBuilder)
        ensures
            r@ == Seq::<FieldConditionView>::empty(),
    {
        FieldSelectorBuilder::new()
    }

    /// Reads the piece `chars[start..end]` of `query` and adds the condition it states.
    fn add_segment(&mut self, query: &str, chars: &Vec<char>, start: usize, end: usize)
        requires
            chars@ == query@,
            start <= end <= chars@.len(),
        ensures
            final(self)@ == (match parse_segment(query@.subrange(start as int, end as int)) {
                Some(c) => old(self)@.push(c),
                None => old(self)@,
            }),
    {
        let ghost seg = query@.subrange(start as int, end as int);
        let mut j: usize = start;
        while end - j > 1
            invariant
                chars@ == query@,
                seg == query@.subrange(start as int, end as int),
                start <= j <= end,
                end <= chars@.len(),
                self@ == old(self)@,
                forall|k: int| 0 <= k < j - start ==> !not_equals_at(seg, k),
            decreases end - j,
        {
            if chars[j] == '!' && chars[j + 1] == '=' {
                let field_name = query.substring_char(start, j);
                let value = query.substring_char(j + 2, end);
                proof {
                    let jj = (j - start) as int;
                    assert(not_equals_at(seg, jj));
                    let c = choose|c: int| not_equals_at(seg, c) && forall|k: int| 0 <= k < c ==> !not_equals_at(seg, k);
                    assert(c == jj) by {
                        if c < jj {
                            assert(!not_equals_at(seg, c));
                        } else if c > jj {
                            assert(!not_equals_at(seg, jj));
                        }
                    }
                    assert(field_name@ =~= seg.take(jj));
                    assert(value@ =~= seg.skip(jj + 2));
                }
                self.add_ne(field_name, value);
                assert(parse_segment(seg) == Some(condition_spec(seg.take((j - start) as int), Operator::NotEquals, seg.skip((j - start) as int + 2))));
                return;
            }
            j = j + 1;
        }
        assert forall|k: int| !not_equals_at(seg, k) by {
            if 0 <= k && k + 1 < seg.len() {
                assert(k < j - start);
            }
        }
        let mut j: usize = start;
        while j < end
            invariant
                chars@ == query@,
                seg == query@.subrange(start as int, end as int),
                start <= j <= end,
                end <= chars@.len(),
                self@ == old(self)@,
                forall|k: int| !not_equals_at(seg, k),
                forall|k: int| 0 <= k < j - start ==> !equals_at(seg, k),
            decreases end - j,
        {
            if chars[j] == '=' {
                let field_name = query.substring_char(start, j);
                let value = query.substring_char(j + 1, end);
                proof {
                    let jj = (j - start) as int;
                    assert(equals_at(seg, jj));
                    let c = choose|c: int| equals_at(seg, c) && forall|k: int| 0 <= k < c ==> !equals_at(seg, k);
                    assert(c == jj) by {
                        if c < jj {
                            assert(!equals_at(seg, c));
                        } else if c > jj {
                            assert(!equals_at(seg, jj));
                        }
                    }
                    assert(field_name@ =~= seg.take(jj));
                    assert(value@ =~= seg.skip(jj + 1));
                }
                self.add_eq(field_name, value);
                assert(parse_segment(seg) == Some(condition_spec(seg.take((j - start) as int), Operator::Equals, seg.skip((j - start) as int + 1))));
                return;
            }
            j = j + 1;
        }
        assert forall|k: int| !equals_at(seg, k) by {
            if 0 <= k < seg.len() {
                assert(k < j - start);
            }
        }
    }

    /// Parses a query of comma-separated conditions `field=value` and
    /// `field!=value`; a piece that holds neither `!=` nor `=` is skipped.
    pub fn from_query(field_selector: &str) -> (r: Self)
        ensures
            r@ == parse_query(field_selector@),
    {
        let ghost q = field_selector@;
        let chars = chars_of(field_selector);
        let n: usize = chars.len();
        let mut conditions = FieldSelector::new();
        let mut start: usize = 0;
        let mut i: usize = 0;
        let ghost mut done: Seq<Seq<char>> = Seq::empty();
        let ghost f = |seg: Seq<char>| parse_segment(seg);
        assert(q.take(0) =~= Seq::<char>::empty());
        assert(query_segments(q.take(0)) =~= done.push(q.subrange(0, 0)));
        while i < n
            invariant
                chars@ == q,
                q == field_selector@,
                n == q.len(),
                start <= i <= n,
                f == (|seg: Seq<char>| parse_segment(seg)),
                query_segments(q.take(i as int)) == done.push(q.subrange(start as int, i as int)),
                conditions@ == done.filter_map(f),
            decreases n - i,
        {
            proof {
                lemma_query_segments_step(q, i as int);
            }
            if chars[i] == ',' {
                conditions.add_segment(field_selector, &chars, start, i);
                proof {
                    let seg = q.subrange(start as int, i as int);
                    let nd = done.push(seg);
                    assert(nd.drop_last() =~= done);
                    done = nd;
                    assert(q.subrange(i + 1, i + 1) =~= Seq::<char>::empty());
                }
                start = i + 1;
            } else {
                proof {
                    assert(q.subrange(start as int, i + 1) =~= q.subrange(start as int, i as int).push(q[i as int]));
                    assert(done.push(q.subrange(start as int, i as int)).update(done.len() as int, q.subrange(start as int, i + 1)) =~= done.push(q.subrange(start as int, i + 1)));
                }
            }
            i = i + 1;
        }
        conditions.add_segment(field_selector, &chars, start, n);
        proof {
            let seg = q.subrange(start as int, n as int);
            let nd = done.push(seg);
            assert(nd.drop_last() =~= done);
            assert(q.take(n as int) =~= q);
        }
        conditions
    }
}

impl Default for FieldSelector {
    fn default() -> (r: Self)
        ensures
            r@ == Seq::<FieldConditionView>::empty(),
    {
        Self::new()
    }
}

/// No `,`, `=` or `!` in a piece of text.
pub open spec fn plain(t: Seq<char>) -> bool {
    forall|i: int| 0 <= i < t.len() ==> t[i] != ',' && t[i] != '=' && t[i] != '!'
}

proof fn lemma_segments_without_commas(q: Seq<char>)
    requires
        forall|i: int| 0 <= i < q.len() ==> q[i] != ',',
    ensures
        query_segments(q) == seq![q],
    decreases q.len(),
{
    if q.len() == 0 {
        assert(q =~= Seq::<char>::empty());
    } else {
        let p = q.drop_last();
        assert forall|i: int| 0 <= i < p.len() implies p[i] != ',' by {
            assert(p[i] == q[i]);
        }
        lemma_segments_without_commas(p);
        assert(p.push(q.last()) =~= q);
        assert(seq![p].update(0, p.push(q.last())) =~= seq![q]);
    }
}

/// Law: the query `field=value`, with plain field and value, states the one
/// condition that the field equals the value.
pub proof fn law_parse_equals(field: Seq<char>, value: Seq<char>)
    requires
        plain(field),
        plain(value),
    ensures
        parse_query(field + "="@ + value) == seq![condition_spec(field, Operator::Equals, value)],
{
    reveal_strlit("=");
    let q = field + "="@ + value;
    let j = field.len() as int;
    assert(forall|i: int| 0 <= i < q.len() ==> q[i] != ',' && (q[i] == '=' <==> i == j) && q[i] != '!') by {
        assert forall|i: int| 0 <= i < q.len() implies q[i] != ',' && (q[i] == '=' <==> i == j) && q[i] != '!' by {
            if i < j {
                assert(q[i] == field[i]);
            } else if i > j {
                assert(q[i] == value[i - j - 1]);
            }
        }
    }
    lemma_segments_without_commas(q);
    assert(forall|k: int| !not_equals_at(q, k));
    assert(equals_at(q, j));
    let c = choose|c: int| equals_at(q, c) && forall|k: int| 0 <= k < c ==> !equals_at(q, k);
    assert(c == j);
    assert(q.take(j) =~= field);
    assert(q.skip(j + 1) =~= value);
    let f = |seg: Seq<char>| parse_segment(seg);
    assert(parse_segment(q) == Some(condition_spec(field, Operator::Equals, value)));
    assert(seq![q].drop_last() =~= Seq::<Seq<char>>::empty());
    assert(Seq::<Seq<char>>::empty().filter_map(f) =~= Seq::<FieldConditionView>::empty());
    assert(seq![q].filter_map(f) =~= Seq::<FieldConditionView>::empty() + seq![condition_spec(field, Operator::Equals, value)]);
}

/// Law: the query `field!=value`, with plain field and value, states the one
/// condition that the field differs from the value.
pub proof fn law_parse_not_equals(field: Seq<char>, value: Seq<char>)
    requires
        plain(field),
        plain(value),
    ensures
        parse_query(field + "!="@ + value) == seq![condition_spec(field, Operator::NotEquals, value)],
{
    reveal_strlit("!=");
    let q = field + "!="@ + value;
    let j = field.len() as int;
    assert forall|i: int| 0 <= i < q.len() implies q[i] != ',' && (q[i] == '!' <==> i == j) && (q[i] == '=' <==> i == j + 1) by {
        if i < j {
            assert(q[i] == field[i]);
        } else if i > j + 1 {
            assert(q[i] == value[i - j - 2]);
        }
    }
    lemma_segments_without_commas(q);
    assert(not_equals_at(q, j));
    let c = choose|c: int| not_equals_at(q, c) && forall|k: int| 0 <= k < c ==> !not_equals_at(q, k);
    assert(c == j);
    assert(q.take(j) =~= field);
    assert(q.skip(j + 2) =~= value);
    let f = |seg: Seq<char>| parse_segment(seg);
    assert(parse_segment(q) == Some(condition_spec(field, Operator::NotEquals, value)));
    assert(seq![q].drop_last() =~= Seq::<Seq<char>>::empty());
    assert(Seq::<Seq<char>>::empty().filter_map(f) =~= Seq::<FieldConditionView>::empty());
    assert(seq![q].filter_map(f) =~= Seq::<FieldConditionView>::empty() + seq![condition_spec(field, Operator::NotEquals, value)]);
}

/// Law: the empty query states no condition.
pub proof fn law_parse_empty()
    ensures
        parse_query(Seq::<char>::empty()) == Seq::<FieldConditionView>::empty(),
{
    let f = |seg: Seq<char>| parse_segment(seg);
    let e = Seq::<char>::empty();
    assert(!(exists|j: int| not_equals_at(e, j)));
    assert(!(exists|j: int| equals_at(e, j)));
    assert(parse_segment(e) is None);
    assert(seq![e].drop_last() =~= Seq::<Seq<char>>::empty());
    assert(Seq::<Seq<char>>::empty().filter_map(f) =~= Seq::<FieldConditionView>::empty());
    assert(seq![e].filter_map(f) =~= Seq::<FieldConditionView>::empty());
}

} // verus!
