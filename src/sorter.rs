use vstd::prelude::*;

use crate::entry::{entries_view, Entry, EntryView};
use core::cmp::Ordering;

verus! {

broadcast use vstd::seq_lib::group_to_multiset_ensures;

/// A key by which entries can be ordered.
#[derive(Clone, Copy, Debug, PartialEq, Eq, Structural)]
pub enum SortCriteria {
    Date,
    Priority,
    Title,
}

/// The direction of a sort, applied to every criterion alike.
#[derive(Clone, Copy, Debug, PartialEq, Eq, Structural)]
pub enum SortOrder {
    Ascending,
    Descending,
}

/// Ordered criteria (the first decides unless tied) and a direction.
pub struct Sorter {
    pub criteria: Vec<SortCriteria>,
    pub order: SortOrder,
}

/// The order of two integers.
pub open spec fn int_cmp(a: int, b: int) -> Ordering {
    if a < b {
        Ordering::Less
    } else if a > b {
        Ordering::Greater
    } else {
        Ordering::Equal
    }
}

/// Lexicographic order of two character sequences, by scalar value. For UTF-8 text
/// this is the same order as that of the encoded bytes.
pub open spec fn lex_cmp(a: Seq<char>, b: Seq<char>) -> Ordering
    decreases a.len(),
{
    if a.len() == 0 {
        if b.len() == 0 {
            Ordering::Equal
        } else {
            Ordering::Less
        }
    } else if b.len() == 0 {
        Ordering::Greater
    } else if a[0] < b[0] {
        Ordering::Less
    } else if b[0] < a[0] {
        Ordering::Greater
    } else {
        lex_cmp(a.drop_first(), b.drop_first())
    }
}

/// The order of two optional priorities: an absent one comes first.
pub open spec fn opt_cmp(a: Option<u32>, b: Option<u32>) -> Ordering {
    match (a, b) {
        (None, None) => Ordering::Equal,
        (None, Some(_)) => Ordering::Less,
        (Some(_), None) => Ordering::Greater,
        (Some(x), Some(y)) => int_cmp(x as int, y as int),
    }
}

/// The order of two entries by one criterion, ascending.
pub open spec fn criterion_cmp(c: SortCriteria, a: EntryView, b: EntryView) -> Ordering {
    match c {
        SortCriteria::Date => int_cmp(a.date as int, b.date as int),
        SortCriteria::Priority => opt_cmp(a.priority, b.priority),
        SortCriteria::Title => lex_cmp(a.title, b.title),
    }
}

/// The order of two entries by a list of criteria, ascending: the first criterion
/// that does not tie decides.
pub open spec fn cmp_by(criteria: Seq<SortCriteria>, a: EntryView, b: EntryView) -> Ordering
    decreases criteria.len(),
{
    if criteria.len() == 0 {
        Ordering::Equal
    } else {
        let o = criterion_cmp(criteria[0], a, b);
        if o != Ordering::Equal {
            o
        } else {
            cmp_by(criteria.drop_first(), a, b)
        }
    }
}

/// The opposite order.
pub open spec fn reverse(o: Ordering) -> Ordering {
    match o {
        Ordering::Less => Ordering::Greater,
        Ordering::Equal => Ordering::Equal,
        Ordering::Greater => Ordering::Less,
    }
}

/// The order of two entries under the given criteria and direction.
pub open spec fn entry_order(
    criteria: Seq<SortCriteria>,
    order: SortOrder,
    a: EntryView,
    b: EntryView,
) -> Ordering {
    match order {
        SortOrder::Ascending => cmp_by(criteria, a, b),
        SortOrder::Descending => reverse(cmp_by(criteria, a, b)),
    }
}

/// No entry of the sequence comes after the one that follows it.
pub open spec fn is_sorted(criteria: Seq<SortCriteria>, order: SortOrder, s: Seq<EntryView>) -> bool {
    forall|i: int|
        0 <= i && i + 1 < s.len() ==> #[trigger] entry_order(criteria, order, s[i], s[i + 1])
            != Ordering::Greater
}

/// Swapping the arguments turns `Greater` into `Less` and back.
pub proof fn lemma_lex_cmp_antisym(a: Seq<char>, b: Seq<char>)
    ensures
        (lex_cmp(a, b) == Ordering::Greater) == (lex_cmp(b, a) == Ordering::Less),
    decreases a.len(),
{
    if a.len() > 0 && b.len() > 0 && a[0] == b[0] {
        lemma_lex_cmp_antisym(a.drop_first(), b.drop_first());
    }
}

/// Lexicographic order is transitive.
pub proof fn lemma_lex_cmp_less_trans(a: Seq<char>, b: Seq<char>, c: Seq<char>)
    requires
        lex_cmp(a, b) == Ordering::Less,
        lex_cmp(b, c) == Ordering::Less,
    ensures
        lex_cmp(a, c) == Ordering::Less,
    decreases a.len(),
{
    if a.len() > 0 && b.len() > 0 && c.len() > 0 && a[0] == b[0] && b[0] == c[0] {
        lemma_lex_cmp_less_trans(a.drop_first(), b.drop_first(), c.drop_first());
    }
}

/// Sequences that compare equal are equal.
pub proof fn lemma_lex_cmp_equal(a: Seq<char>, b: Seq<char>)
    requires
        lex_cmp(a, b) == Ordering::Equal,
    ensures
        a == b,
    decreases a.len(),
{
    if a.len() > 0 && b.len() > 0 {
        lemma_lex_cmp_equal(a.drop_first(), b.drop_first());
        assert(a =~= seq![a[0]] + a.drop_first());
        assert(b =~= seq![b[0]] + b.drop_first());
    }
}

/// Swapping the entries reverses their order under a list of criteria.
pub proof fn lemma_cmp_by_antisym(criteria: Seq<SortCriteria>, a: EntryView, b: EntryView)
    ensures
        (cmp_by(criteria, a, b) == Ordering::Greater) == (cmp_by(criteria, b, a) == Ordering::Less),
        (cmp_by(criteria, a, b) == Ordering::Less) == (cmp_by(criteria, b, a) == Ordering::Greater),
    decreases criteria.len(),
{
    if criteria.len() > 0 {
        lemma_lex_cmp_antisym(a.title, b.title);
        lemma_lex_cmp_antisym(b.title, a.title);
        lemma_cmp_by_antisym(criteria.drop_first(), a, b);
    }
}

/// The order of two entries is the reverse of the order with the two swapped.
pub proof fn lemma_entry_order_antisym(
    criteria: Seq<SortCriteria>,
    order: SortOrder,
    a: EntryView,
    b: EntryView,
)
    ensures
        (entry_order(criteria, order, a, b) == Ordering::Greater) == (entry_order(
            criteria,
            order,
            b,
            a,
        ) == Ordering::Less),
{
    lemma_cmp_by_antisym(criteria, a, b);
}

/// The order of two strings, lexicographic by character.
pub fn compare_text(a: &String, b: &String) -> (r: Ordering)
    ensures
        r == lex_cmp(a@, b@),
{
    str_cmp(a.as_str(), b.as_str())
}

/// One criterion orders entries transitively: a strict step stays strict, and two
/// ties make a tie.
pub proof fn lemma_criterion_trans(c: SortCriteria, a: EntryView, b: EntryView, x: EntryView)
    ensures
        criterion_cmp(c, a, b) == Ordering::Less && criterion_cmp(c, b, x) != Ordering::Greater
            ==> criterion_cmp(c, a, x) == Ordering::Less,
        criterion_cmp(c, a, b) != Ordering::Greater && criterion_cmp(c, b, x) == Ordering::Less
            ==> criterion_cmp(c, a, x) == Ordering::Less,
        criterion_cmp(c, a, b) == Ordering::Equal && criterion_cmp(c, b, x) == Ordering::Equal
            ==> criterion_cmp(c, a, x) == Ordering::Equal,
{
    if c == SortCriteria::Title {
        let (t1, t2, t3) = (a.title, b.title, x.title);
        if lex_cmp(t1, t2) == Ordering::Equal {
            lemma_lex_cmp_equal(t1, t2);
        }
        if lex_cmp(t2, t3) == Ordering::Equal {
            lemma_lex_cmp_equal(t2, t3);
        }
        if lex_cmp(t1, t2) == Ordering::Less && lex_cmp(t2, t3) == Ordering::Less {
            lemma_lex_cmp_less_trans(t1, t2, t3);
        }
    }
}

/// Ordering by a list of criteria is transitive.
pub proof fn lemma_cmp_by_trans(criteria: Seq<SortCriteria>, a: EntryView, b: EntryView, x: EntryView)
    requires
        cmp_by(criteria, a, b) != Ordering::Greater,
        cmp_by(criteria, b, x) != Ordering::Greater,
    ensures
        cmp_by(criteria, a, x) != Ordering::Greater,
    decreases criteria.len(),
{
    if criteria.len() > 0 {
        lemma_criterion_trans(criteria[0], a, b, x);
        if criterion_cmp(criteria[0], a, b) == Ordering::Equal && criterion_cmp(criteria[0], b, x)
            == Ordering::Equal {
            lemma_cmp_by_trans(criteria.drop_first(), a, b, x);
        }
    }
}

/// The order of entries under a sorter is transitive.
pub proof fn lemma_entry_order_trans(
    criteria: Seq<SortCriteria>,
    order: SortOrder,
    a: EntryView,
    b: EntryView,
    x: EntryView,
)
    requires
        entry_order(criteria, order, a, b) != Ordering::Greater,
        entry_order(criteria, order, b, x) != Ordering::Greater,
    ensures
        entry_order(criteria, order, a, x) != Ordering::Greater,
{
    match order {
        SortOrder::Ascending => lemma_cmp_by_trans(criteria, a, b, x),
        SortOrder::Descending => {
            lemma_cmp_by_antisym(criteria, a, b);
            lemma_cmp_by_antisym(criteria, b, x);
            lemma_cmp_by_antisym(criteria, a, x);
            lemma_cmp_by_trans(criteria, x, b, a);
        },
    }
}

/// A sorted sequence stays sorted when one entry is taken out.
pub proof fn lemma_sorted_remove(criteria: Seq<SortCriteria>, order: SortOrder, s: Seq<EntryView>, k: int)
    requires
        is_sorted(criteria, order, s),
        0 <= k < s.len(),
    ensures
        is_sorted(criteria, order, s.remove(k)),
{
    let r = s.remove(k);
    assert forall|i: int| 0 <= i && i + 1 < r.len() implies #[trigger] entry_order(criteria, order, r[i], r[i + 1])
        != Ordering::Greater by {
        if i + 1 < k {
            assert(r[i] == s[i] && r[i + 1] == s[i + 1]);
        } else if i >= k {
            assert(r[i] == s[i + 1] && r[i + 1] == s[i + 2]);
            assert(entry_order(criteria, order, s[i + 1], s[(i + 1) + 1]) != Ordering::Greater);
        } else {
            assert(r[i] == s[i] && r[i + 1] == s[i + 2]);
            assert(entry_order(criteria, order, s[i + 1], s[(i + 1) + 1]) != Ordering::Greater);
            lemma_entry_order_trans(criteria, order, s[i], s[i + 1], s[i + 2]);
        }
    }
}

/// The order of entries does not look at their content or their id.
pub proof fn lemma_order_ignores_content(criteria: Seq<SortCriteria>, a: EntryView, a2: EntryView, b: EntryView)
    requires
        a.date == a2.date && a.title == a2.title && a.priority == a2.priority,
    ensures
        cmp_by(criteria, a, b) == cmp_by(criteria, a2, b),
        cmp_by(criteria, b, a) == cmp_by(criteria, b, a2),
    decreases criteria.len(),
{
    if criteria.len() > 0 {
        lemma_order_ignores_content(criteria.drop_first(), a, a2, b);
    }
}

/// A sorted sequence stays sorted when an entry is replaced by one with the same date,
/// title and priority.
pub proof fn lemma_sorted_update_same_keys(
    criteria: Seq<SortCriteria>,
    order: SortOrder,
    s: Seq<EntryView>,
    k: int,
    v: EntryView,
)
    requires
        is_sorted(criteria, order, s),
        0 <= k < s.len(),
        v.date == s[k].date && v.title == s[k].title && v.priority == s[k].priority,
    ensures
        is_sorted(criteria, order, s.update(k, v)),
{
    let r = s.update(k, v);
    assert forall|i: int| 0 <= i && i + 1 < r.len() implies #[trigger] entry_order(criteria, order, r[i], r[i + 1])
        != Ordering::Greater by {
        assert(entry_order(criteria, order, s[i], s[i + 1]) != Ordering::Greater);
        if i == k {
            lemma_order_ignores_content(criteria, s[k], v, s[i + 1]);
        } else if i + 1 == k {
            lemma_order_ignores_content(criteria, s[k], v, s[i]);
        }
    }
}

/// Relies on `Ord for str`: strings are ordered lexicographically.
#[verifier::external_body]
fn str_cmp(a: &str, b: &str) -> (r: Ordering)
    ensures
        r == lex_cmp(a@, b@),
{
    a.cmp(b)
}

/// The order of two integers.
fn i64_cmp(a: i64, b: i64) -> (r: Ordering)
    ensures
        r == int_cmp(a as int, b as int),
{
    if a < b {
        Ordering::Less
    } else if a > b {
        Ordering::Greater
    } else {
        Ordering::Equal
    }
}

/// The order of two optional priorities.
fn priority_cmp(a: Option<u32>, b: Option<u32>) -> (r: Ordering)
    ensures
        r == opt_cmp(a, b),
{
    match (a, b) {
        (None, None) => Ordering::Equal,
        (None, Some(_)) => Ordering::Less,
        (Some(_), None) => Ordering::Greater,
        (Some(x), Some(y)) => i64_cmp(x as i64, y as i64),
    }
}

impl SortCriteria {
    /// The ascending order of two entries by this criterion.
    pub fn compare(&self, a: &Entry, b: &Entry) -> (r: Ordering)
        ensures
            r == criterion_cmp(*self, a@, b@),
    {
        match self {
            SortCriteria::Date => i64_cmp(a.date, b.date),
            SortCriteria::Priority => priority_cmp(a.priority, b.priority),
            SortCriteria::Title => str_cmp(a.title.as_str(), b.title.as_str()),
        }
    }
}

impl Sorter {
    /// The order of two entries under this sorter.
    pub open spec fn order_of(&self, a: EntryView, b: EntryView) -> Ordering {
        entry_order(self.criteria@, self.order, a, b)
    }

    /// A sorter with the given criteria and direction.
    pub fn new(criteria: Vec<SortCriteria>, order: SortOrder) -> (r: Sorter)
        ensures
            r.criteria@ == criteria@,
            r.order == order,
    {
        Sorter { criteria, order }
    }

    /// Replaces the criteria.
    pub fn set_criteria(&mut self, criteria: Vec<SortCriteria>)
        ensures
            final(self).criteria@ == criteria@,
            final(self).order == old(self).order,
    {
        self.criteria = criteria;
    }

    /// A copy of the sorter.
    pub fn duplicate(&self) -> (r: Sorter)
        ensures
            r.criteria@ == self.criteria@,
            r.order == self.order,
    {
        let mut criteria: Vec<SortCriteria> = Vec::new();
        let mut i: usize = 0;
        while i < self.criteria.len()
            invariant
                i <= self.criteria.len(),
                criteria@ == self.criteria@.subrange(0, i as int),
            decreases self.criteria.len() - i,
        {
            criteria.push(self.criteria[i]);
            i = i + 1;
        }
        assert(criteria@ =~= self.criteria@);
        Sorter { criteria, order: self.order }
    }

    /// The order of two entries: the first criterion that does not tie decides,
    /// and a descending sorter reverses it.
    pub fn sort(&self, a: &Entry, b: &Entry) -> (r: Ordering)
        ensures
            r == self.order_of(a@, b@),
    {
        let mut i: usize = 0;
        assert(self.criteria@.skip(0) =~= self.criteria@);
        while i < self.criteria.len()
            invariant
                i <= self.criteria.len(),
                cmp_by(self.criteria@, a@, b@) == cmp_by(self.criteria@.skip(i as int), a@, b@),
            decreases self.criteria.len() - i,
        {
            let o = self.criteria[i].compare(a, b);
            assert(self.criteria@.skip(i as int).drop_first() =~= self.criteria@.skip(i + 1));
            match o {
                Ordering::Equal => {},
                _ => {
                    return match self.order {
                        SortOrder::Ascending => o,
                        SortOrder::Descending => reverse_exec(o),
                    };
                },
            }
            i = i + 1;
        }
        Ordering::Equal
    }

    /// The entries in sorted order; the result holds the same entries.
    pub fn sort_entries(&self, entries: Vec<Entry>) -> (r: Vec<Entry>)
        ensures
            entries_view(r@).to_multiset() == entries_view(entries@).to_multiset(),
            is_sorted(self.criteria@, self.order, entries_view(r@)),
            is_sorted(self.criteria@, self.order, entries_view(entries@)) ==> entries_view(r@)
                == entries_view(entries@),
    {
        let mut rest = entries;
        let ghost orig = entries_view(rest@);
        let mut out: Vec<Entry> = Vec::new();
        while rest.len() > 0
            invariant
                entries_view(out@).to_multiset().add(entries_view(rest@).to_multiset())
                    == orig.to_multiset(),
                is_sorted(self.criteria@, self.order, entries_view(out@)),
                is_sorted(self.criteria@, self.order, orig) ==> entries_view(out@) + entries_view(
                    rest@,
                ) == orig,
            decreases rest.len(),
        {
            let ghost before = rest@;
            let ghost out_before = entries_view(out@);
            let e = rest.remove(0);
            assert(entries_view(rest@) =~= entries_view(before).remove(0));
            proof {
                if is_sorted(self.criteria@, self.order, orig) && out.len() > 0 {
                    let i = out_before.len() - 1;
                    assert(orig[i] == out_before[i]);
                    assert(orig[i + 1] == entries_view(before)[0]);
                    assert(entries_view(before)[0] == e@);
                    assert(self.order_of(out_before[i], e@) != Ordering::Greater);
                }
            }
            let mut j: usize = out.len();
            while j > 0 && matches!(self.sort(&out[j - 1], &e), Ordering::Greater)
                invariant
                    j <= out.len(),
                    j < out.len() ==> self.order_of(out@[j as int]@, e@) == Ordering::Greater,
                    is_sorted(self.criteria@, self.order, orig) ==> j == out.len(),
                    is_sorted(self.criteria@, self.order, orig) && out.len() > 0 ==> self.order_of(
                        out_before[out.len() - 1],
                        e@,
                    ) != Ordering::Greater,
                    out_before == entries_view(out@),
                decreases j,
            {
                j = j - 1;
            }
            let ghost prev = entries_view(out@);
            assert(j > 0 ==> self.order_of(prev[j - 1], e@) != Ordering::Greater);
            proof {
                if j < out.len() {
                    assert(prev[j as int] == out@[j as int]@);
                    lemma_entry_order_antisym(self.criteria@, self.order, out@[j as int]@, e@);
                }
            }
            out.insert(j, e);
            let ghost now = entries_view(out@);
            assert(now =~= prev.insert(j as int, e@));
            assert forall|i: int| 0 <= i && i + 1 < now.len() implies #[trigger] entry_order(
                self.criteria@,
                self.order,
                now[i],
                now[i + 1],
            ) != Ordering::Greater by {
                if i + 1 < j {
                    assert(now[i] == prev[i] && now[i + 1] == prev[i + 1]);
                    assert(entry_order(self.criteria@, self.order, prev[i], prev[i + 1]) != Ordering::Greater);
                } else if i > j {
                    assert(now[i] == prev[i - 1] && now[i + 1] == prev[i]);
                    assert(entry_order(self.criteria@, self.order, prev[i - 1], prev[(i - 1) + 1]) != Ordering::Greater);
                } else if i + 1 == j {
                    assert(now[i] == prev[i] && now[i + 1] == e@);
                } else {
                    assert(now[i] == e@ && now[i + 1] == prev[i]);
                }
            }
            proof {
                if is_sorted(self.criteria@, self.order, orig) {
                    assert(now =~= prev.push(e@));
                    assert(now + entries_view(rest@) =~= prev + entries_view(before));
                }
            }
        }
        proof {
            if is_sorted(self.criteria@, self.order, orig) {
                assert(entries_view(out@) =~= entries_view(out@) + entries_view(rest@));
            }
        }
        out
    }
}

/// The opposite order.
fn reverse_exec(o: Ordering) -> (r: Ordering)
    ensures
        r == reverse(o),
{
    match o {
        Ordering::Less => Ordering::Greater,
        Ordering::Equal => Ordering::Equal,
        Ordering::Greater => Ordering::Less,
    }
}

} // verus!
