use vstd::prelude::*;

verus! {

broadcast use vstd::seq_lib::group_to_multiset_ensures;

/// One journal item. The `date` is a timestamp in seconds since the Unix epoch (UTC).
pub struct Entry {
    pub id: u32,
    pub date: i64,
    pub title: String,
    pub tags: Vec<String>,
    pub priority: Option<u32>,
    pub content: String,
}

/// The data needed to create an entry before the storage assigns its id.
pub struct EntryDraft {
    pub date: i64,
    pub title: String,
    pub tags: Vec<String>,
    pub priority: Option<u32>,
    pub content: String,
}

/// The mathematical value of an entry.
pub ghost struct EntryView {
    pub id: u32,
    pub date: i64,
    pub title: Seq<char>,
    pub tags: Seq<String>,
    pub priority: Option<u32>,
    pub content: Seq<char>,
}

impl View for Entry {
    type V = EntryView;

    open spec fn view(&self) -> EntryView {
        EntryView {
            id: self.id,
            date: self.date,
            title: self.title@,
            tags: self.tags@,
            priority: self.priority,
            content: self.content@,
        }
    }
}

/// The mathematical value of a draft.
pub ghost struct DraftView {
    pub date: i64,
    pub title: Seq<char>,
    pub tags: Seq<String>,
    pub priority: Option<u32>,
    pub content: Seq<char>,
}

impl View for EntryDraft {
    type V = DraftView;

    open spec fn view(&self) -> DraftView {
        DraftView {
            date: self.date,
            title: self.title@,
            tags: self.tags@,
            priority: self.priority,
            content: self.content@,
        }
    }
}

/// The entries of a sequence, as values.
pub open spec fn entries_view(s: Seq<Entry>) -> Seq<EntryView> {
    s.map_values(|e: Entry| e@)
}

/// Every id occurs at most once.
pub open spec fn ids_unique(s: Seq<EntryView>) -> bool {
    forall|i: int, j: int| 0 <= i < s.len() && 0 <= j < s.len() && i != j ==> s[i].id != s[j].id
}

/// Removing one entry keeps the ids unique.
pub proof fn lemma_unique_remove(s: Seq<EntryView>, p: int)
    requires
        ids_unique(s),
        0 <= p < s.len(),
    ensures
        ids_unique(s.remove(p)),
{
    let r = s.remove(p);
    assert forall|i: int, j: int| 0 <= i < r.len() && 0 <= j < r.len() && i != j implies r[i].id != r[j].id by {
        let si = if i < p { i } else { i + 1 };
        let sj = if j < p { j } else { j + 1 };
        assert(r[i] == s[si] && r[j] == s[sj]);
    }
}

/// A permutation of entries with unique ids has unique ids.
pub proof fn lemma_unique_perm(s1: Seq<EntryView>, s2: Seq<EntryView>)
    requires
        s1.to_multiset() == s2.to_multiset(),
        ids_unique(s1),
    ensures
        ids_unique(s2),
    decreases s2.len(),
{
    if s2.len() > 0 {
        let x = s2.last();
        let d = s2.drop_last();
        assert(s2.remove(s2.len() - 1) =~= d);
        assert(d.to_multiset() == s2.to_multiset().remove(x));
        assert(s2.contains(x)) by {
            assert(s2[s2.len() - 1] == x);
        }
        assert(s2.to_multiset().count(x) > 0);
        assert(s1.to_multiset().count(x) > 0);
        assert(s1.contains(x));
        let p = choose|p: int| 0 <= p < s1.len() && s1[p] == x;
        let r = s1.remove(p);
        assert(r.to_multiset() == s1.to_multiset().remove(x));
        lemma_unique_remove(s1, p);
        lemma_unique_perm(r, d);
        assert forall|i: int| 0 <= i < d.len() implies d[i].id != x.id by {
            let y = d[i];
            assert(d.contains(y));
            assert(d.to_multiset().count(y) > 0);
            assert(r.to_multiset().count(y) > 0);
            assert(r.contains(y));
            let q = choose|q: int| 0 <= q < r.len() && r[q] == y;
            let sq = if q < p { q } else { q + 1 };
            assert(s1[sq] == y);
        }
        assert forall|i: int, j: int| 0 <= i < s2.len() && 0 <= j < s2.len() && i != j implies s2[i].id != s2[j].id by {
            if i < s2.len() - 1 && j < s2.len() - 1 {
                assert(s2[i] == d[i] && s2[j] == d[j]);
            } else if i < s2.len() - 1 {
                assert(s2[i] == d[i]);
            } else if j < s2.len() - 1 {
                assert(s2[j] == d[j]);
            }
        }
    }
}

/// Adding an entry whose id is new keeps the ids unique.
pub proof fn lemma_unique_push(s: Seq<EntryView>, n: EntryView)
    requires
        ids_unique(s),
        forall|i: int| 0 <= i < s.len() ==> s[i].id != n.id,
    ensures
        ids_unique(s.push(n)),
{
    let p = s.push(n);
    assert forall|i: int, j: int| 0 <= i < p.len() && 0 <= j < p.len() && i != j implies p[i].id != p[j].id by {
        if i < s.len() && j < s.len() {
            assert(p[i] == s[i] && p[j] == s[j]);
        } else if i < s.len() {
            assert(p[i] == s[i]);
        } else {
            assert(p[j] == s[j]);
        }
    }
}

/// Replacing an entry by one with the same id keeps the ids unique.
pub proof fn lemma_unique_update(s: Seq<EntryView>, k: int, v: EntryView)
    requires
        ids_unique(s),
        0 <= k < s.len(),
        v.id == s[k].id,
    ensures
        ids_unique(s.update(k, v)),
{
    let n = s.update(k, v);
    assert forall|i: int, j: int| 0 <= i < n.len() && 0 <= j < n.len() && i != j implies n[i].id != n[j].id by {
        assert(n[i].id == s[i].id && n[j].id == s[j].id);
    }
}

/// A copy of a sequence of strings.
pub fn clone_strings(v: &Vec<String>) -> (r: Vec<String>)
    ensures
        r@ == v@,
{
    let mut r: Vec<String> = Vec::new();
    let mut i: usize = 0;
    while i < v.len()
        invariant
            i <= v.len(),
            r@ == v@.subrange(0, i as int),
        decreases v.len() - i,
    {
        r.push(v[i].clone());
        i = i + 1;
    }
    assert(r@ =~= v@);
    r
}

impl Entry {
    /// A copy of the entry.
    pub fn duplicate(&self) -> (r: Entry)
        ensures
            r@ == self@,
    {
        Entry {
            id: self.id,
            date: self.date,
            title: self.title.clone(),
            tags: clone_strings(&self.tags),
            priority: self.priority,
            content: self.content.clone(),
        }
    }
}

impl EntryDraft {
    /// A draft without content.
    pub fn new(date: i64, title: String, tags: Vec<String>, priority: Option<u32>) -> (r: EntryDraft)
        ensures
            r@ == (DraftView { date, title: title@, tags: tags@, priority, content: Seq::empty() }),
    {
        EntryDraft { date, title, tags, priority, content: String::new() }
    }

    /// A copy of the draft.
    pub fn duplicate(&self) -> (r: EntryDraft)
        ensures
            r@ == self@,
    {
        EntryDraft {
            date: self.date,
            title: self.title.clone(),
            tags: clone_strings(&self.tags),
            priority: self.priority,
            content: self.content.clone(),
        }
    }

    /// The same draft with the given content.
    pub fn with_content(self, content: String) -> (r: EntryDraft)
        ensures
            r@ == (DraftView { content: content@, ..self@ }),
    {
        EntryDraft { content, ..self }
    }
}

} // verus!
