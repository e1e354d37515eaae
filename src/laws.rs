use vstd::prelude::*;

use crate::app::{
    active_view, history_after, id_exists, is_first, passes, prune, tag_exists, with_attributes,
    with_content, App, DataProvider,
};
use crate::entry::{ids_unique, lemma_unique_perm, EntryView};
use crate::filter::FilterCriterion;
use crate::history::{
    add_record, attributes_record, content_record, push_bounded, remove_record, ChangeView, HistoryManager,
    HistoryTarget,
};

verus! {

broadcast use vstd::seq_lib::group_to_multiset_ensures;

/// A push never leaves a stack longer than its bound, and a push onto a full stack
/// evicts exactly its oldest record.
pub proof fn law_history_bounded(h: HistoryManager, target: HistoryTarget, c: ChangeView)
    requires
        h.wf(),
    ensures
        push_bounded(h.stack(target), c, h.limit()).len() <= h.limit(),
        h.limit() > 0 && h.stack(target).len() == h.limit() ==> push_bounded(
            h.stack(target),
            c,
            h.limit(),
        ) == h.stack(target).drop_first().push(c),
        h.limit() > 0 && h.stack(target).len() < h.limit() ==> push_bounded(
            h.stack(target),
            c,
            h.limit(),
        ) == h.stack(target).push(c),
{
}

/// An entry is among those that pass exactly when it is in the sequence and its id is
/// not left out.
pub proof fn lemma_active_view_contains(es: Seq<EntryView>, out: Seq<u32>, x: EntryView)
    ensures
        active_view(es, out).contains(x) <==> (es.contains(x) && !out.contains(x.id)),
    decreases es.len(),
{
    if es.len() > 0 {
        let d = es.drop_last();
        let l = es.last();
        lemma_active_view_contains(d, out, x);
        let a = active_view(d, out);
        let act = active_view(es, out);
        assert(act == if out.contains(l.id) { a } else { a.push(l) });
        if es.contains(x) && !out.contains(x.id) {
            let k = choose|k: int| 0 <= k < es.len() && es[k] == x;
            if k < es.len() - 1 {
                assert(d[k] == x);
                assert(d.contains(x));
                let i = choose|i: int| 0 <= i < a.len() && a[i] == x;
                if !out.contains(l.id) {
                    assert(a.push(l)[i] == x);
                }
            } else {
                assert(a.push(l)[a.len() as int] == x);
            }
            assert(act.contains(x));
        }
        if act.contains(x) {
            let i = choose|i: int| 0 <= i < act.len() && act[i] == x;
            if i < a.len() {
                assert(a[i] == x);
                assert(a.contains(x));
                let k = choose|k: int| 0 <= k < d.len() && d[k] == x;
                assert(es[k] == x);
            } else {
                assert(x == l);
                assert(es[es.len() - 1] == x);
            }
            assert(es.contains(x) && !out.contains(x.id));
        }
    }
}

/// The active entries are exactly those that pass the filter: none whose id is left
/// out, and every one that meets all criteria.
pub proof fn law_active_entries_follow_filter<D: DataProvider>(app: &App<D>)
    requires
        app.wf(),
    ensures
        forall|x: EntryView|
            #![trigger active_view(app.entries_v(), app.filtered_out_entries@).contains(x)]
            app.filtered_out_entries@.contains(x.id) ==> !active_view(
                app.entries_v(),
                app.filtered_out_entries@,
            ).contains(x),
        forall|k: int|
            0 <= k < app.entries_v().len() && passes(app.filter_v(), #[trigger] app.entries_v()[k])
                ==> active_view(app.entries_v(), app.filtered_out_entries@).contains(
                app.entries_v()[k],
            ),
{
    let es = app.entries_v();
    let out = app.filtered_out_entries@;
    assert forall|x: EntryView| out.contains(x.id) implies !#[trigger] active_view(es, out).contains(x) by {
        lemma_active_view_contains(es, out, x);
    }
    assert forall|k: int| 0 <= k < es.len() && passes(app.filter_v(), #[trigger] es[k]) implies active_view(
        es,
        out,
    ).contains(es[k]) by {
        lemma_active_view_contains(es, out, es[k]);
        assert(es.contains(es[k]));
        if out.contains(es[k].id) {
            let i = choose|i: int| 0 <= i < es.len() && #[trigger] es[i].id == es[k].id && !passes(app.filter_v(), es[i]);
            assert(i == k);
        }
    }
}

/// Pruning drops every criterion on a tag that no entry carries.
pub proof fn lemma_prune_drops_tag(criteria: Seq<FilterCriterion>, es: Seq<EntryView>, t: Seq<char>)
    requires
        !tag_exists(es, t),
    ensures
        forall|i: int|
            0 <= i < prune(criteria, es).len() ==> !(#[trigger] prune(criteria, es)[i] matches FilterCriterion::Tag(s) && s@ == t),
    decreases criteria.len(),
{
    if criteria.len() > 0 {
        lemma_prune_drops_tag(criteria.drop_last(), es, t);
    }
}

/// Deleting the last entry that carries tag `t` removes each criterion on `t` from the
/// filter; a filter whose only criterion was on `t` is gone.
pub proof fn law_delete_prunes_tag<D: DataProvider>(
    a: &App<D>,
    b: &App<D>,
    id: u32,
    target: HistoryTarget,
    undo: Seq<ChangeView>,
    redo: Seq<ChangeView>,
    k: int,
    t: Seq<char>,
)
    requires
        App::did_delete(a, b, id, target, undo, redo),
        is_first(a.entries_v(), k, id),
        !tag_exists(a.entries_v().remove(k), t),
    ensures
        b.filter_v() is Some ==> forall|i: int|
            0 <= i < b.filter_v()->0.len() ==> !(#[trigger] b.filter_v()->0[i] matches FilterCriterion::Tag(s) && s@ == t),
        a.filter_v() is Some && a.filter_v()->0.len() == 1 && (a.filter_v()->0[0] matches FilterCriterion::Tag(s) && s@ == t)
            ==> b.filter_v() is None,
{
    let rest = a.entries_v().remove(k);
    if a.filter_v() is Some {
        let c = a.filter_v()->0;
        lemma_prune_drops_tag(c, rest, t);
        if c.len() == 1 && (c[0] matches FilterCriterion::Tag(s) && s@ == t) {
            assert(c.drop_last().len() == 0);
            assert(prune(c.drop_last(), rest).len() == 0);
        }
    }
}

/// Undoing a creation takes the collection back to what it was before, whatever the
/// history held before the creation.
pub proof fn law_undo_add<D: DataProvider>(
    a: &App<D>,
    b: &App<D>,
    c: &App<D>,
    n: EntryView,
    undo: Seq<ChangeView>,
    redo: Seq<ChangeView>,
    r: Option<u32>,
)
    requires
        a.wf(),
        a.history.limit() > 0,
        App::did_add(a, b, n, HistoryTarget::Undo, undo, redo),
        App::applied(
            b,
            c,
            b.history.undo_view().last(),
            HistoryTarget::Redo,
            r,
            b.history.undo_view().drop_last(),
            b.history.redo_view(),
        ),
    ensures
        c.wf(),
        c.history.limit() == a.history.limit(),
        c.entries_v().to_multiset() == a.entries_v().to_multiset(),
        c.history.redo_view().last() == remove_record(n),
{
    assert(b.history.undo_view() == push_bounded(undo, add_record(n), a.history.limit()));
    assert(b.history.undo_view().last() == add_record(n));
    let bs = b.entries_v();
    assert(bs.to_multiset() == a.entries_v().push(n).to_multiset());
    assert(bs.to_multiset().count(n) > 0) by {
        assert(a.entries_v().push(n).contains(n)) by {
            assert(a.entries_v().push(n)[a.entries_v().len() as int] == n);
        }
    }
    assert(bs.contains(n));
    let k0 = choose|k: int| 0 <= k < bs.len() && bs[k] == n;
    assert(id_exists(bs, n.id));
    let k = first_index(bs, n.id, k0);
    assert(bs[k] == n) by {
        assert(bs.contains(bs[k]));
        assert(bs.to_multiset().count(bs[k]) > 0);
        assert(a.entries_v().push(n).to_multiset().count(bs[k]) > 0);
        if bs[k] != n {
            assert(a.entries_v().to_multiset().count(bs[k]) > 0);
            assert(a.entries_v().contains(bs[k]));
            let i = choose|i: int| 0 <= i < a.entries_v().len() && a.entries_v()[i] == bs[k];
            assert(a.entries_v()[i].id == n.id);
        }
    }
    assert(c.entries_v().to_multiset() == bs.remove(k).to_multiset());
    assert(a.entries_v().push(n).to_multiset().remove(n) =~= a.entries_v().to_multiset());
}

/// The first position of an entry with the id, given any position of one.
pub proof fn first_index(es: Seq<EntryView>, id: u32, k: int) -> (f: int)
    requires
        0 <= k < es.len(),
        es[k].id == id,
    ensures
        is_first(es, f, id),
    decreases k,
{
    if exists|j: int| 0 <= j < k && es[j].id == id {
        let j = choose|j: int| 0 <= j < k && es[j].id == id;
        first_index(es, id, j)
    } else {
        k
    }
}

/// Undoing a deletion brings the entry back with all its attributes and its content;
/// only its id may differ.
pub proof fn law_undo_delete<D: DataProvider>(
    a: &App<D>,
    b: &App<D>,
    c: &App<D>,
    id: u32,
    k: int,
    r: Option<u32>,
)
    requires
        a.wf(),
        a.history.limit() > 0,
        App::did_delete(a, b, id, HistoryTarget::Undo, a.history.undo_view(), a.history.redo_view()),
        is_first(a.entries_v(), k, id),
        App::applied(
            b,
            c,
            b.history.undo_view().last(),
            HistoryTarget::Redo,
            r,
            b.history.undo_view().drop_last(),
            b.history.redo_view(),
        ),
    ensures
        r is Some,
        c.entries_v().to_multiset() == a.entries_v().remove(k).to_multiset().insert(
            EntryView { id: r->0, ..a.entries_v()[k] },
        ),
{
    let u = a.history.undo_view();
    let es = a.entries_v();
    assert(is_first(es, k, id));
    assert(history_after(u, a.history.redo_view(), a.history.limit(), HistoryTarget::Undo, remove_record(es[k]), b.history));
    assert(b.history.undo_view() == push_bounded(u, remove_record(es[k]), a.history.limit()));
    assert(b.history.undo_view().last() == remove_record(es[k]));
}


/// In a collection with unique ids, the first entry with the id of a member is that
/// member.
pub proof fn lemma_first_is_member(s: Seq<EntryView>, x: EntryView, k: int)
    requires
        ids_unique(s),
        s.to_multiset().count(x) > 0,
        is_first(s, k, x.id),
    ensures
        s[k] == x,
{
    assert(s.contains(x));
    let p = choose|p: int| 0 <= p < s.len() && s[p] == x;
    assert(s[p].id == s[k].id);
}

/// A content edit on a collection with unique ids replaces exactly the entry with the
/// id, keeps the ids unique, and records the content before the edit.
pub proof fn lemma_content_step<D: DataProvider>(
    a: &App<D>,
    b: &App<D>,
    id: u32,
    content: Seq<char>,
    target: HistoryTarget,
    undo: Seq<ChangeView>,
    redo: Seq<ChangeView>,
    x: EntryView,
)
    requires
        ids_unique(a.entries_v()),
        a.entries_v().to_multiset().count(x) > 0,
        x.id == id,
        App::did_set_content(a, b, id, content, target, undo, redo),
    ensures
        b.entries_v().to_multiset() == a.entries_v().to_multiset().remove(x).insert(
            with_content(x, content),
        ),
        b.entries_v().to_multiset().count(with_content(x, content)) > 0,
        ids_unique(b.entries_v()),
        history_after(undo, redo, a.history.limit(), target, content_record(x), b.history),
{
    let es = a.entries_v();
    let k0 = choose|k: int| 0 <= k < es.len() && #[trigger] es[k].id == id;
    let k = first_index(es, id, k0);
    lemma_first_is_member(es, x, k);
    let n = es.update(k, with_content(es[k], content));
    assert(n.to_multiset() == es.to_multiset().remove(es[k]).insert(with_content(x, content)));
    assert forall|i: int, j: int| 0 <= i < n.len() && 0 <= j < n.len() && i != j implies n[i].id != n[j].id by {
        assert(n[i].id == es[i].id && n[j].id == es[j].id);
    }
    lemma_unique_perm(n, b.entries_v());
}

/// Undoing a content edit restores the collection, with unique ids, as it was.
pub proof fn law_undo_content<D: DataProvider>(
    a: &App<D>,
    b: &App<D>,
    c: &App<D>,
    id: u32,
    content: Seq<char>,
    r: Option<u32>,
)
    requires
        a.wf(),
        a.history.limit() > 0,
        App::did_set_content(a, b, id, content, HistoryTarget::Undo, a.history.undo_view(), a.history.redo_view()),
        App::applied(
            b,
            c,
            b.history.undo_view().last(),
            HistoryTarget::Redo,
            r,
            b.history.undo_view().drop_last(),
            b.history.redo_view(),
        ),
    ensures
        c.entries_v().to_multiset() == a.entries_v().to_multiset(),
{
    let es = a.entries_v();
    let k0 = choose|k: int| 0 <= k < es.len() && #[trigger] es[k].id == id;
    let x = es[k0];
    assert(es.contains(x));
    lemma_content_step(a, b, id, content, HistoryTarget::Undo, a.history.undo_view(), a.history.redo_view(), x);
    assert(b.history.undo_view().last() == content_record(x));
    let y = with_content(x, content);
    lemma_content_step(b, c, id, x.content, HistoryTarget::Redo, b.history.undo_view().drop_last(), b.history.redo_view(), y);
    assert(with_content(y, x.content) == x);
    assert(es.to_multiset().remove(x).insert(y).remove(y).insert(x) =~= es.to_multiset());
}

/// Undo, redo, then undo of a content edit leaves the collection as the first undo
/// did: as it was before the edit.
pub proof fn law_undo_redo_undo_content<D: DataProvider>(
    a: &App<D>,
    b: &App<D>,
    c: &App<D>,
    d: &App<D>,
    e: &App<D>,
    id: u32,
    content: Seq<char>,
    r1: Option<u32>,
    r2: Option<u32>,
    r3: Option<u32>,
)
    requires
        a.wf(),
        a.history.limit() > 0,
        App::did_set_content(a, b, id, content, HistoryTarget::Undo, a.history.undo_view(), a.history.redo_view()),
        App::applied(
            b,
            c,
            b.history.undo_view().last(),
            HistoryTarget::Redo,
            r1,
            b.history.undo_view().drop_last(),
            b.history.redo_view(),
        ),
        App::applied(
            c,
            d,
            c.history.redo_view().last(),
            HistoryTarget::Undo,
            r2,
            c.history.undo_view(),
            c.history.redo_view().drop_last(),
        ),
        App::applied(
            d,
            e,
            d.history.undo_view().last(),
            HistoryTarget::Redo,
            r3,
            d.history.undo_view().drop_last(),
            d.history.redo_view(),
        ),
    ensures
        c.entries_v().to_multiset() == a.entries_v().to_multiset(),
        d.entries_v().to_multiset() == b.entries_v().to_multiset(),
        e.entries_v().to_multiset() == a.entries_v().to_multiset(),
{
    let es = a.entries_v();
    let k0 = choose|k: int| 0 <= k < es.len() && #[trigger] es[k].id == id;
    let x = es[k0];
    assert(es.contains(x));
    let y = with_content(x, content);
    assert(with_content(y, x.content) == x);
    assert(with_content(x, y.content) == y);
    lemma_content_step(a, b, id, content, HistoryTarget::Undo, a.history.undo_view(), a.history.redo_view(), x);
    assert(b.history.undo_view().last() == content_record(x));
    lemma_content_step(b, c, id, x.content, HistoryTarget::Redo, b.history.undo_view().drop_last(), b.history.redo_view(), y);
    assert(c.history.redo_view().last() == content_record(y));
    lemma_content_step(c, d, id, y.content, HistoryTarget::Undo, c.history.undo_view(), c.history.redo_view().drop_last(), x);
    assert(d.history.undo_view().last() == content_record(x));
    lemma_content_step(d, e, id, x.content, HistoryTarget::Redo, d.history.undo_view().drop_last(), d.history.redo_view(), y);
    assert(es.to_multiset().remove(x).insert(y).remove(y).insert(x) =~= es.to_multiset());
    let m = es.to_multiset().remove(x).insert(y);
    assert(m.remove(y).insert(x).remove(x).insert(y) =~= m);
}

/// An attribute edit on a collection with unique ids replaces exactly the entry with
/// the id, keeps the ids unique, and records the attributes before the edit.
pub proof fn lemma_attributes_step<D: DataProvider>(
    a: &App<D>,
    b: &App<D>,
    id: u32,
    title: Seq<char>,
    date: i64,
    tags: Seq<String>,
    priority: Option<u32>,
    target: HistoryTarget,
    undo: Seq<ChangeView>,
    redo: Seq<ChangeView>,
    x: EntryView,
)
    requires
        ids_unique(a.entries_v()),
        a.entries_v().to_multiset().count(x) > 0,
        x.id == id,
        App::did_set_attributes(a, b, id, title, date, tags, priority, target, undo, redo),
    ensures
        b.entries_v().to_multiset() == a.entries_v().to_multiset().remove(x).insert(
            with_attributes(x, title, date, tags, priority),
        ),
        b.entries_v().to_multiset().count(with_attributes(x, title, date, tags, priority)) > 0,
        ids_unique(b.entries_v()),
        history_after(undo, redo, a.history.limit(), target, attributes_record(x), b.history),
{
    let es = a.entries_v();
    let k0 = choose|k: int| 0 <= k < es.len() && #[trigger] es[k].id == id;
    let k = first_index(es, id, k0);
    lemma_first_is_member(es, x, k);
    let n = es.update(k, with_attributes(es[k], title, date, tags, priority));
    assert(n.to_multiset() == es.to_multiset().remove(es[k]).insert(with_attributes(x, title, date, tags, priority)));
    assert forall|i: int, j: int| 0 <= i < n.len() && 0 <= j < n.len() && i != j implies n[i].id != n[j].id by {
        assert(n[i].id == es[i].id && n[j].id == es[j].id);
    }
    lemma_unique_perm(n, b.entries_v());
}

/// Undoing an attribute edit restores the collection as it was.
pub proof fn law_undo_attributes<D: DataProvider>(
    a: &App<D>,
    b: &App<D>,
    c: &App<D>,
    id: u32,
    title: Seq<char>,
    date: i64,
    tags: Seq<String>,
    priority: Option<u32>,
    r: Option<u32>,
)
    requires
        a.wf(),
        a.history.limit() > 0,
        App::did_set_attributes(
            a,
            b,
            id,
            title,
            date,
            tags,
            priority,
            HistoryTarget::Undo,
            a.history.undo_view(),
            a.history.redo_view(),
        ),
        App::applied(
            b,
            c,
            b.history.undo_view().last(),
            HistoryTarget::Redo,
            r,
            b.history.undo_view().drop_last(),
            b.history.redo_view(),
        ),
    ensures
        c.entries_v().to_multiset() == a.entries_v().to_multiset(),
{
    let es = a.entries_v();
    let k0 = choose|k: int| 0 <= k < es.len() && #[trigger] es[k].id == id;
    let x = es[k0];
    assert(es.contains(x));
    lemma_attributes_step(a, b, id, title, date, tags, priority, HistoryTarget::Undo, a.history.undo_view(), a.history.redo_view(), x);
    assert(b.history.undo_view().last() == attributes_record(x));
    let y = with_attributes(x, title, date, tags, priority);
    lemma_attributes_step(b, c, id, x.title, x.date, x.tags, x.priority, HistoryTarget::Redo, b.history.undo_view().drop_last(), b.history.redo_view(), y);
    assert(with_attributes(y, x.title, x.date, x.tags, x.priority) == x);
    assert(es.to_multiset().remove(x).insert(y).remove(y).insert(x) =~= es.to_multiset());
}

/// Undo, redo, then undo of an attribute edit leaves the collection as it was before
/// the edit.
pub proof fn law_undo_redo_undo_attributes<D: DataProvider>(
    a: &App<D>,
    b: &App<D>,
    c: &App<D>,
    d: &App<D>,
    e: &App<D>,
    id: u32,
    title: Seq<char>,
    date: i64,
    tags: Seq<String>,
    priority: Option<u32>,
    r1: Option<u32>,
    r2: Option<u32>,
    r3: Option<u32>,
)
    requires
        a.wf(),
        a.history.limit() > 0,
        App::did_set_attributes(
            a,
            b,
            id,
            title,
            date,
            tags,
            priority,
            HistoryTarget::Undo,
            a.history.undo_view(),
            a.history.redo_view(),
        ),
        App::applied(
            b,
            c,
            b.history.undo_view().last(),
            HistoryTarget::Redo,
            r1,
            b.history.undo_view().drop_last(),
            b.history.redo_view(),
        ),
        App::applied(
            c,
            d,
            c.history.redo_view().last(),
            HistoryTarget::Undo,
            r2,
            c.history.undo_view(),
            c.history.redo_view().drop_last(),
        ),
        App::applied(
            d,
            e,
            d.history.undo_view().last(),
            HistoryTarget::Redo,
            r3,
            d.history.undo_view().drop_last(),
            d.history.redo_view(),
        ),
    ensures
        c.entries_v().to_multiset() == a.entries_v().to_multiset(),
        d.entries_v().to_multiset() == b.entries_v().to_multiset(),
        e.entries_v().to_multiset() == a.entries_v().to_multiset(),
{
    let es = a.entries_v();
    let k0 = choose|k: int| 0 <= k < es.len() && #[trigger] es[k].id == id;
    let x = es[k0];
    assert(es.contains(x));
    let y = with_attributes(x, title, date, tags, priority);
    assert(with_attributes(y, x.title, x.date, x.tags, x.priority) == x);
    assert(with_attributes(x, y.title, y.date, y.tags, y.priority) == y);
    lemma_attributes_step(a, b, id, title, date, tags, priority, HistoryTarget::Undo, a.history.undo_view(), a.history.redo_view(), x);
    assert(b.history.undo_view().last() == attributes_record(x));
    lemma_attributes_step(b, c, id, x.title, x.date, x.tags, x.priority, HistoryTarget::Redo, b.history.undo_view().drop_last(), b.history.redo_view(), y);
    assert(c.history.redo_view().last() == attributes_record(y));
    lemma_attributes_step(c, d, id, y.title, y.date, y.tags, y.priority, HistoryTarget::Undo, c.history.undo_view(), c.history.redo_view().drop_last(), x);
    assert(d.history.undo_view().last() == attributes_record(x));
    lemma_attributes_step(d, e, id, x.title, x.date, x.tags, x.priority, HistoryTarget::Redo, d.history.undo_view().drop_last(), d.history.redo_view(), y);
    assert(es.to_multiset().remove(x).insert(y).remove(y).insert(x) =~= es.to_multiset());
    let m = es.to_multiset().remove(x).insert(y);
    assert(m.remove(y).insert(x).remove(x).insert(y) =~= m);
}

/// Undo, redo, then undo of a creation leaves the collection as the first undo did:
/// as it was before the creation. The redo creates the entry again under a new id.
pub proof fn law_undo_redo_undo_add<D: DataProvider>(
    a: &App<D>,
    b: &App<D>,
    c: &App<D>,
    d: &App<D>,
    e: &App<D>,
    n: EntryView,
    r1: Option<u32>,
    r2: Option<u32>,
    r3: Option<u32>,
)
    requires
        a.wf(),
        a.history.limit() > 0,
        App::did_add(a, b, n, HistoryTarget::Undo, a.history.undo_view(), a.history.redo_view()),
        App::applied(
            b,
            c,
            b.history.undo_view().last(),
            HistoryTarget::Redo,
            r1,
            b.history.undo_view().drop_last(),
            b.history.redo_view(),
        ),
        App::applied(
            c,
            d,
            c.history.redo_view().last(),
            HistoryTarget::Undo,
            r2,
            c.history.undo_view(),
            c.history.redo_view().drop_last(),
        ),
        App::applied(
            d,
            e,
            d.history.undo_view().last(),
            HistoryTarget::Redo,
            r3,
            d.history.undo_view().drop_last(),
            d.history.redo_view(),
        ),
    ensures
        c.entries_v().to_multiset() == a.entries_v().to_multiset(),
        r2 is Some,
        d.entries_v().to_multiset() == a.entries_v().to_multiset().insert(EntryView { id: r2->0, ..n }),
        e.entries_v().to_multiset() == a.entries_v().to_multiset(),
{
    law_undo_add(a, b, c, n, a.history.undo_view(), a.history.redo_view(), r1);
    assert(c.history.redo_view().last() == remove_record(n));
    let n2 = EntryView { id: r2->0, ..n };
    law_undo_add(c, d, e, n2, c.history.undo_view(), c.history.redo_view().drop_last(), r3);
}

/// A creation on a full undo stack evicts exactly its oldest record and pushes the
/// record of the creation; the redo stack is left alone.
pub proof fn law_add_evicts_oldest<D: DataProvider>(a: &App<D>, b: &App<D>, n: EntryView)
    requires
        a.wf(),
        a.history.limit() > 0,
        a.history.undo_view().len() == a.history.limit(),
        App::did_add(a, b, n, HistoryTarget::Undo, a.history.undo_view(), a.history.redo_view()),
    ensures
        b.history.undo_view() == a.history.undo_view().drop_first().push(add_record(n)),
        b.history.undo_view().len() == a.history.limit(),
        b.history.redo_view() == a.history.redo_view(),
{
}

} // verus!
