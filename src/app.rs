use vstd::prelude::*;

use crate::entry::{
    clone_strings, entries_view, ids_unique, lemma_unique_perm, lemma_unique_push,
    lemma_unique_remove, lemma_unique_update, Entry, EntryDraft, EntryView,
};
use crate::filter::{has_tag, matches_all, tags_contain, Filter, FilterCriterion};
use crate::history::{
    add_record, attributes_record, content_record, push_bounded, remove_record, Change,
    ChangeView, HistoryManager, HistoryTarget,
};
use crate::sorter::{
    compare_text, is_sorted, lemma_lex_cmp_antisym, lemma_sorted_remove,
    lemma_sorted_update_same_keys, lemma_lex_cmp_equal, lemma_lex_cmp_less_trans,
    lex_cmp, SortCriteria, SortOrder, Sorter,
};
use core::cmp::Ordering;
use rayon::iter::{IntoParallelRefIterator, ParallelIterator};

verus! {

broadcast use vstd::seq_lib::group_to_multiset_ensures;

/// A failure reported by the storage.
#[derive(Debug)]
pub struct ProviderError {
    pub message: String,
}

/// The self-contained document that moves entries between stores. It carries no ids:
/// the receiving store assigns fresh ones.
pub struct EntriesDTO {
    pub entries: Vec<EntryDraft>,
}

/// The durable storage of the entries. Each call either succeeds or reports an error.
pub trait DataProvider {
    fn load_all_entries(&mut self) -> Result<Vec<Entry>, ProviderError>;

    /// Stores a new entry and returns it with the id that the store assigned.
    fn add_entry(&mut self, draft: EntryDraft) -> Result<Entry, ProviderError>;

    fn remove_entry(&mut self, entry_id: u32) -> Result<(), ProviderError>;

    fn update_entry(&mut self, entry: Entry) -> Result<(), ProviderError>;

    /// Fills in `priority` on every stored entry that has none.
    fn assign_priority_to_entries(&mut self, priority: u32) -> Result<(), ProviderError>;

    /// The transfer document for the given ids, or for every entry when none are given.
    fn get_export_object(&mut self, entries_ids: &Vec<u32>) -> Result<EntriesDTO, ProviderError>;

    /// Merges a transfer document into the store, assigning fresh ids.
    fn import_entries(&mut self, entries_dto: EntriesDTO) -> Result<(), ProviderError>;
}

/// Why an operation of [`App`] did not take effect.
#[derive(Debug)]
pub enum AppError {
    /// The storage failed; nothing changed in memory.
    Provider(ProviderError),
    /// The storage handed back an entry whose id is already in use.
    DuplicateId(u32),
    /// No entry has this id.
    EntryNotFound(u32),
}

/// The criteria of an optional filter.
pub open spec fn filter_view(f: Option<Filter>) -> Option<Seq<FilterCriterion>> {
    match f {
        Some(f) => Some(f.criteria@),
        None => None,
    }
}

/// The entry passes the filter; with no filter every entry passes.
pub open spec fn passes(f: Option<Seq<FilterCriterion>>, e: EntryView) -> bool {
    match f {
        Some(c) => matches_all(c, e),
        None => true,
    }
}

/// `out` holds exactly the ids of the entries that do not pass the filter.
pub open spec fn filtered_out_ok(
    es: Seq<EntryView>,
    f: Option<Seq<FilterCriterion>>,
    out: Seq<u32>,
) -> bool {
    forall|id: u32|
        out.contains(id) <==> exists|i: int|
            0 <= i < es.len() && #[trigger] es[i].id == id && !passes(f, es[i])
}

/// Some entry carries the tag.
pub open spec fn tag_exists(es: Seq<EntryView>, tag: Seq<char>) -> bool {
    exists|i: int| 0 <= i < es.len() && #[trigger] has_tag(es[i].tags, tag)
}

/// Some entry has the id.
pub open spec fn id_exists(es: Seq<EntryView>, id: u32) -> bool {
    exists|i: int| 0 <= i < es.len() && #[trigger] es[i].id == id
}

/// A criterion stays in the filter: a tag criterion only while some entry carries the tag.
pub open spec fn keeps(c: FilterCriterion, es: Seq<EntryView>) -> bool {
    match c {
        FilterCriterion::Tag(t) => tag_exists(es, t@),
        _ => true,
    }
}

/// The criteria that stay, in order.
pub open spec fn prune(criteria: Seq<FilterCriterion>, es: Seq<EntryView>) -> Seq<FilterCriterion>
    decreases criteria.len(),
{
    if criteria.len() == 0 {
        criteria
    } else {
        let p = prune(criteria.drop_last(), es);
        if keeps(criteria.last(), es) {
            p.push(criteria.last())
        } else {
            p
        }
    }
}

/// The filter after pruning: gone when no criterion stays.
pub open spec fn pruned_filter(f: Option<Seq<FilterCriterion>>, es: Seq<EntryView>) -> Option<
    Seq<FilterCriterion>,
> {
    match f {
        Some(c) => if prune(c, es).len() == 0 {
            None
        } else {
            Some(prune(c, es))
        },
        None => None,
    }
}

/// The entries that pass, in order: those whose id is not in `out`.
pub open spec fn active_view(es: Seq<EntryView>, out: Seq<u32>) -> Seq<EntryView>
    decreases es.len(),
{
    if es.len() == 0 {
        es
    } else {
        let a = active_view(es.drop_last(), out);
        if out.contains(es.last().id) {
            a
        } else {
            a.push(es.last())
        }
    }
}

/// The entry with the attributes replaced.
pub open spec fn with_attributes(
    e: EntryView,
    title: Seq<char>,
    date: i64,
    tags: Seq<String>,
    priority: Option<u32>,
) -> EntryView {
    EntryView { title, date, tags, priority, ..e }
}

/// The text held, or the empty text.
pub open spec fn text_or_empty(t: Option<String>) -> Seq<char> {
    match t {
        Some(s) => s@,
        None => Seq::empty(),
    }
}

/// The entry with the content replaced.
pub open spec fn with_content(e: EntryView, content: Seq<char>) -> EntryView {
    EntryView { content, ..e }
}


/// The id of the entry that carrying out the record acts on, for every kind of record
/// but a re-creation.
pub open spec fn record_target(c: ChangeView) -> Option<u32> {
    match c {
        ChangeView::AddEntry { id } => Some(id),
        ChangeView::RemoveEntry(_) => None,
        ChangeView::ChangeAttribute { id, .. } => Some(id),
        ChangeView::ChangeContent { id, .. } => Some(id),
    }
}

/// `k` is the first position of an entry with the id.
pub open spec fn is_first(es: Seq<EntryView>, k: int, id: u32) -> bool {
    &&& 0 <= k < es.len()
    &&& es[k].id == id
    &&& forall|j: int| 0 <= j < k ==> es[j].id != id
}

/// A history whose stacks were `undo` and `redo` got the record `rec` pushed onto the
/// stack named by `target`.
pub open spec fn history_after(
    undo: Seq<ChangeView>,
    redo: Seq<ChangeView>,
    limit: nat,
    target: HistoryTarget,
    rec: ChangeView,
    h: HistoryManager,
) -> bool {
    &&& h.limit() == limit
    &&& target == HistoryTarget::Undo ==> h.undo_view() == push_bounded(undo, rec, limit)
        && h.redo_view() == redo
    &&& target == HistoryTarget::Redo ==> h.redo_view() == push_bounded(redo, rec, limit)
        && h.undo_view() == undo
}

/// The entry collection with its history, filter and sort order; the only writer of
/// the entries.
pub struct App<D: DataProvider> {
    pub data_provide: D,
    pub entries: Vec<Entry>,
    pub current_entry_id: Option<u32>,
    /// Ids of the entries chosen in multi-select mode.
    pub selected_entries: Vec<u32>,
    /// Ids of the entries that do not pass the filter.
    pub filtered_out_entries: Vec<u32>,
    pub filter: Option<Filter>,
    pub sorter: Sorter,
    pub history: HistoryManager,
}

impl<D: DataProvider> App<D> {
    /// The entries, as values, in their current order.
    pub open spec fn entries_v(&self) -> Seq<EntryView> {
        entries_view(self.entries@)
    }

    /// The criteria of the filter, if there is one.
    pub open spec fn filter_v(&self) -> Option<Seq<FilterCriterion>> {
        filter_view(self.filter)
    }

    /// The criteria by which the entries are sorted.
    pub open spec fn sort_criteria(&self) -> Seq<SortCriteria> {
        self.sorter.criteria@
    }

    /// The direction in which the entries are sorted.
    pub open spec fn sort_order(&self) -> SortOrder {
        self.sorter.order
    }

    /// The history.
    pub open spec fn hist(&self) -> HistoryManager {
        self.history
    }

    /// No two entries share an id, the derived views agree with the entries, and the
    /// bounds of the history hold.
    pub open spec fn wf(&self) -> bool {
        &&& ids_unique(self.entries_v())
        &&& self.hist().wf()
        &&& filtered_out_ok(self.entries_v(), self.filter_v(), self.filtered_out_entries@)
        &&& is_sorted(self.sort_criteria(), self.sort_order(), self.entries_v())
    }

    /// Everything but the storage is the same in `a` and `b`.
    pub open spec fn same_state(a: &Self, b: &Self) -> bool {
        &&& Self::same_data(a, b)
        &&& a.history.undo_view() == b.history.undo_view()
        &&& a.history.redo_view() == b.history.redo_view()
    }

    /// Everything but the storage and the records of the history is the same in `a`
    /// and `b`.
    pub open spec fn same_data(a: &Self, b: &Self) -> bool {
        &&& a.entries_v() == b.entries_v()
        &&& a.filter_v() == b.filter_v()
        &&& a.filtered_out_entries@ == b.filtered_out_entries@
        &&& a.sort_criteria() == b.sort_criteria()
        &&& a.sort_order() == b.sort_order()
        &&& a.history.limit() == b.history.limit()
        &&& a.current_entry_id == b.current_entry_id
        &&& a.selected_entries@ == b.selected_entries@
    }

    /// The record names an entry by an id that no entry has any more.
    pub open spec fn is_stale(a: &Self, c: ChangeView) -> bool {
        record_target(c) is Some && !id_exists(a.entries_v(), record_target(c)->0)
    }

    /// `b` is `a` with the entries replaced by a sorted permutation of `es` and the
    /// filter, as given, applied again.
    pub open spec fn settled(
        a: &Self,
        b: &Self,
        es: Seq<EntryView>,
        f: Option<Seq<FilterCriterion>>,
    ) -> bool {
        &&& b.wf()
        &&& b.entries_v().to_multiset() == es.to_multiset()
        &&& b.filter_v() == f
        &&& b.sort_criteria() == a.sort_criteria()
        &&& b.sort_order() == a.sort_order()
        &&& b.current_entry_id == a.current_entry_id
        &&& b.selected_entries@ == a.selected_entries@
    }

    /// Nothing but the storage changed, and the error says why: the storage failed,
    /// it handed back an id in use, or no entry had the id asked for.
    pub open spec fn failed_cleanly(a: &Self, b: &Self, e: AppError) -> bool {
        &&& Self::same_state(a, b)
        &&& match e {
            AppError::Provider(_) => true,
            AppError::DuplicateId(id) => id_exists(a.entries_v(), id),
            AppError::EntryNotFound(id) => !id_exists(a.entries_v(), id),
        }
    }

    /// `b` is `a` with the entry `n` added, and the record of its creation pushed onto
    /// the stack `target` of a history whose stacks were `undo` and `redo`.
    pub open spec fn did_add(
        a: &Self,
        b: &Self,
        n: EntryView,
        target: HistoryTarget,
        undo: Seq<ChangeView>,
        redo: Seq<ChangeView>,
    ) -> bool {
        &&& !id_exists(a.entries_v(), n.id)
        &&& Self::settled(a, b, a.entries_v().push(n), a.filter_v())
        &&& history_after(undo, redo, a.history.limit(), target, add_record(n), b.history)
    }

    /// `b` is `a` with the first entry of id `id` deleted, the filter pruned of tags
    /// that no entry carries any more, and the entry's snapshot pushed onto the stack
    /// `target`.
    pub open spec fn did_delete(
        a: &Self,
        b: &Self,
        id: u32,
        target: HistoryTarget,
        undo: Seq<ChangeView>,
        redo: Seq<ChangeView>,
    ) -> bool {
        let es = a.entries_v();
        &&& id_exists(es, id)
        &&& forall|k: int|
            #[trigger] is_first(es, k, id) ==> {
                &&& Self::settled(a, b, es.remove(k), pruned_filter(a.filter_v(), es.remove(k)))
                &&& b.entries_v() == es.remove(k)
                &&& history_after(undo, redo, a.history.limit(), target, remove_record(es[k]), b.history)
            }
    }

    /// `b` is `a` with the attributes of the first entry of id `id` replaced, the
    /// filter pruned, and the attributes before the edit pushed onto the stack `target`.
    pub open spec fn did_set_attributes(
        a: &Self,
        b: &Self,
        id: u32,
        title: Seq<char>,
        date: i64,
        tags: Seq<String>,
        priority: Option<u32>,
        target: HistoryTarget,
        undo: Seq<ChangeView>,
        redo: Seq<ChangeView>,
    ) -> bool {
        let es = a.entries_v();
        &&& id_exists(es, id)
        &&& forall|k: int|
            #[trigger] is_first(es, k, id) ==> {
                let n = es.update(k, with_attributes(es[k], title, date, tags, priority));
                &&& Self::settled(a, b, n, pruned_filter(a.filter_v(), n))
                &&& history_after(undo, redo, a.history.limit(), target, attributes_record(es[k]), b.history)
            }
    }

    /// `b` is `a` with the content of the first entry of id `id` replaced, and the
    /// content before the edit pushed onto the stack `target`.
    pub open spec fn did_set_content(
        a: &Self,
        b: &Self,
        id: u32,
        content: Seq<char>,
        target: HistoryTarget,
        undo: Seq<ChangeView>,
        redo: Seq<ChangeView>,
    ) -> bool {
        let es = a.entries_v();
        &&& id_exists(es, id)
        &&& forall|k: int|
            #[trigger] is_first(es, k, id) ==> {
                let n = es.update(k, with_content(es[k], content));
                &&& Self::settled(a, b, n, a.filter_v())
                &&& b.entries_v() == n
                &&& history_after(undo, redo, a.history.limit(), target, content_record(es[k]), b.history)
            }
    }

    /// `b` is `a` after the record `c` was carried out, with its own inverse pushed
    /// onto the stack `target`; `r` is what the operation returns.
    pub open spec fn applied(
        a: &Self,
        b: &Self,
        c: ChangeView,
        target: HistoryTarget,
        r: Option<u32>,
        undo: Seq<ChangeView>,
        redo: Seq<ChangeView>,
    ) -> bool {
        match c {
            ChangeView::AddEntry { id } => r is None && Self::did_delete(a, b, id, target, undo, redo),
            ChangeView::RemoveEntry(e) => r is Some && Self::did_add(
                a,
                b,
                EntryView { id: r->0, ..e },
                target,
                undo,
                redo,
            ),
            ChangeView::ChangeAttribute { id, date, title, tags, priority } => r == Some(id)
                && Self::did_set_attributes(a, b, id, title, date, tags, priority, target, undo, redo),
            ChangeView::ChangeContent { id, content } => r == Some(id) && Self::did_set_content(
                a,
                b,
                id,
                content,
                target,
                undo,
                redo,
            ),
        }
    }

    /// An empty collection, with both history stacks bounded by `history_limit`.
    pub fn new(data_provide: D, history_limit: usize) -> (r: Self)
        ensures
            r.wf(),
            r.entries_v() == Seq::<EntryView>::empty(),
            r.filter_v() is None,
            r.hist().limit() == history_limit,
            r.hist().undo_view().len() == 0,
            r.hist().redo_view().len() == 0,
            r.current_entry_id is None,
            r.selected_entries@.len() == 0,
            r.filtered_out_entries@.len() == 0,
    {
        let r = App {
            data_provide,
            entries: Vec::new(),
            current_entry_id: None,
            selected_entries: Vec::new(),
            filtered_out_entries: Vec::new(),
            filter: None,
            sorter: Sorter::new(Vec::new(), SortOrder::Descending),
            history: HistoryManager::new(history_limit),
        };
        assert(r.entries_v() =~= Seq::<EntryView>::empty());
        r
    }

    /// Sorts the entries and recomputes the ids that the filter leaves out.
    fn settle(&mut self)
        requires
            old(self).hist().wf(),
            ids_unique(old(self).entries_v()),
        ensures
            Self::settled(old(self), final(self), old(self).entries_v(), old(self).filter_v()),
            final(self).hist() == old(self).hist(),
            is_sorted(old(self).sort_criteria(), old(self).sort_order(), old(self).entries_v())
                ==> final(self).entries_v() == old(self).entries_v(),
    {
        let mut entries: Vec<Entry> = Vec::new();
        core::mem::swap(&mut entries, &mut self.entries);
        self.entries = self.sorter.sort_entries(entries);
        proof {
            lemma_unique_perm(old(self).entries_v(), self.entries_v());
        }
        self.update_filtered_out_entries();
    }

    /// Recomputes the ids that the filter leaves out.
    fn update_filtered_out_entries(&mut self)
        ensures
            filtered_out_ok(final(self).entries_v(), final(self).filter_v(), final(self).filtered_out_entries@),
            final(self).entries@ == old(self).entries@,
            final(self).filter == old(self).filter,
            final(self).sorter == old(self).sorter,
            final(self).history == old(self).history,
            final(self).current_entry_id == old(self).current_entry_id,
            final(self).selected_entries == old(self).selected_entries,
    {
        match &self.filter {
            Some(filter) => {
                self.filtered_out_entries = collect_filtered_out(&self.entries, filter);
            },
            None => {
                self.filtered_out_entries = Vec::new();
            },
        }
        proof {
            let es = self.entries_v();
            assert forall|id: u32| self.filtered_out_entries@.contains(id) <==> exists|i: int|
                0 <= i < es.len() && #[trigger] es[i].id == id && !passes(self.filter_v(), es[i]) by {
                if self.filter is Some {
                    let crit = self.filter->0.criteria@;
                    assert(self.filter_v() == Some(crit));
                    assert(self.filtered_out_entries@.contains(id) == self.filtered_out_entries@.to_set().contains(id));
                    assert(self.filtered_out_entries@.to_set().contains(id) == rejected_ids(self.entries@, crit).contains(id));
                    if self.filtered_out_entries@.contains(id) {
                        let i = choose|i: int| 0 <= i < self.entries@.len() && self.entries@[i].id == id
                            && !matches_all(crit, #[trigger] self.entries@[i]@);
                        assert(es[i] == self.entries@[i]@);
                        assert(es[i].id == id && !passes(self.filter_v(), es[i]));
                    }
                    if exists|i: int| 0 <= i < es.len() && #[trigger] es[i].id == id && !passes(self.filter_v(), es[i]) {
                        let i = choose|i: int| 0 <= i < es.len() && #[trigger] es[i].id == id && !passes(self.filter_v(), es[i]);
                        assert(es[i] == self.entries@[i]@);
                        assert(rejected_ids(self.entries@, crit).contains(id));
                    }
                } else {
                    assert(!self.filtered_out_entries@.contains(id));
                }
            }
        }
    }

    /// Position of the first entry with the id.
    fn find_index(&self, entry_id: u32) -> (r: Option<usize>)
        ensures
            r is None ==> !id_exists(self.entries_v(), entry_id),
            r is Some ==> is_first(self.entries_v(), r->0 as int, entry_id),
    {
        let mut i: usize = 0;
        while i < self.entries.len()
            invariant
                i <= self.entries.len(),
                forall|j: int| 0 <= j < i ==> self.entries@[j].id != entry_id,
            decreases self.entries.len() - i,
        {
            if self.entries[i].id == entry_id {
                return Some(i);
            }
            i = i + 1;
        }
        None
    }

    /// Whether some entry carries the tag.
    fn tag_in_use(&self, tag: &String) -> (r: bool)
        ensures
            r == tag_exists(self.entries_v(), tag@),
    {
        let mut i: usize = 0;
        while i < self.entries.len()
            invariant
                i <= self.entries.len(),
                forall|j: int| 0 <= j < i ==> !has_tag(#[trigger] self.entries@[j]@.tags, tag@),
            decreases self.entries.len() - i,
        {
            if tags_contain(&self.entries[i].tags, tag) {
                assert(has_tag(self.entries_v()[i as int].tags, tag@));
                return true;
            }
            i = i + 1;
        }
        proof {
            if tag_exists(self.entries_v(), tag@) {
                let j = choose|j: int| 0 <= j < self.entries_v().len() && #[trigger] has_tag(self.entries_v()[j].tags, tag@);
                assert(self.entries_v()[j] == self.entries@[j]@);
            }
        }
        false
    }

    /// The criteria that stay while the entries are as they are.
    fn prune_criteria(&self, criteria: Vec<FilterCriterion>) -> (r: Vec<FilterCriterion>)
        ensures
            r@ == prune(criteria@, self.entries_v()),
    {
        let ghost orig = criteria@;
        let mut rest = criteria;
        let mut out: Vec<FilterCriterion> = Vec::new();
        let ghost mut k: int = 0;
        assert(orig.take(0).len() == 0);
        while rest.len() > 0
            invariant
                0 <= k <= orig.len(),
                rest@ == orig.skip(k),
                out@ == prune(orig.take(k), self.entries_v()),
            decreases rest.len(),
        {
            let c = rest.remove(0);
            assert(orig.take(k + 1).drop_last() =~= orig.take(k));
            assert(orig.take(k + 1).last() == c);
            let keep = match &c {
                FilterCriterion::Tag(t) => self.tag_in_use(t),
                _ => true,
            };
            if keep {
                out.push(c);
            }
            proof {
                k = k + 1;
                assert(rest@ =~= orig.skip(k));
            }
        }
        assert(orig.take(k) =~= orig);
        out
    }

    /// Drops the tag criteria whose tag no entry carries; drops the filter when no
    /// criterion is left.
    fn update_filter(&mut self)
        ensures
            final(self).filter_v() == pruned_filter(old(self).filter_v(), old(self).entries_v()),
            final(self).entries@ == old(self).entries@,
            final(self).filtered_out_entries == old(self).filtered_out_entries,
            final(self).sorter == old(self).sorter,
            final(self).history == old(self).history,
            final(self).current_entry_id == old(self).current_entry_id,
            final(self).selected_entries == old(self).selected_entries,
    {
        match self.filter.take() {
            None => {},
            Some(filter) => {
                let criteria = self.prune_criteria(filter.criteria);
                if criteria.len() == 0 {
                    self.filter = None;
                } else {
                    self.filter = Some(Filter { criteria });
                }
            },
        }
    }

    /// Takes in `entry`, as the storage handed it back after a creation, and records
    /// its creation on the stack named by `history_target`.
    pub fn commit_add(&mut self, entry: Entry, history_target: HistoryTarget) -> (r: Result<
        u32,
        AppError,
    >)
        requires
            old(self).wf(),
        ensures
            final(self).wf(),
            id_exists(old(self).entries_v(), entry.id) ==> r == Err::<u32, AppError>(
                AppError::DuplicateId(entry.id),
            ) && Self::same_state(old(self), final(self)),
            !id_exists(old(self).entries_v(), entry.id) ==> r == Ok::<u32, AppError>(entry.id)
                && Self::did_add(
                old(self),
                final(self),
                entry@,
                history_target,
                old(self).history.undo_view(),
                old(self).history.redo_view(),
            ),
    {
        if self.find_index(entry.id).is_some() {
            return Err(AppError::DuplicateId(entry.id));
        }
        let ghost pre = self.entries_v();
        let ghost ev = entry@;
        let entry_id = entry.id;
        self.history.register_add(history_target, &entry);
        self.entries.push(entry);
        assert(self.entries_v() =~= pre.push(ev));
        proof {
            lemma_unique_push(pre, ev);
        }
        self.settle();
        Ok(entry_id)
    }

    /// Asks the storage to create an entry from the given values and takes it in with
    /// the id that the storage assigned.
    fn add_entry_intern(
        &mut self,
        title: String,
        date: i64,
        tags: Vec<String>,
        priority: Option<u32>,
        content: Option<String>,
        history_target: HistoryTarget,
    ) -> (r: Result<u32, AppError>)
        requires
            old(self).wf(),
        ensures
            final(self).wf(),
            r is Err ==> Self::failed_cleanly(old(self), final(self), r->Err_0),
            r is Err ==> !(r->Err_0 is EntryNotFound),
            r is Ok ==> Self::did_add(
                old(self),
                final(self),
                EntryView {
                    id: r->Ok_0,
                    date,
                    title: title@,
                    tags: tags@,
                    priority,
                    content: text_or_empty(content),
                },
                history_target,
                old(self).history.undo_view(),
                old(self).history.redo_view(),
            ),
    {
        let mut draft = EntryDraft::new(date, title, tags, priority);
        if let Some(content) = content {
            draft = draft.with_content(content);
        }
        let kept = draft.duplicate();
        match self.data_provide.add_entry(draft) {
            Err(e) => Err(AppError::Provider(e)),
            Ok(stored) => {
                let entry = Entry {
                    id: stored.id,
                    date: kept.date,
                    title: kept.title,
                    tags: kept.tags,
                    priority: kept.priority,
                    content: kept.content,
                };
                self.commit_add(entry, history_target)
            },
        }
    }

    /// Creates an entry without content; its creation can be undone.
    pub fn add_entry(&mut self, title: String, date: i64, tags: Vec<String>, priority: Option<u32>) -> (r:
        Result<u32, AppError>)
        requires
            old(self).wf(),
        ensures
            final(self).wf(),
            r is Err ==> Self::failed_cleanly(old(self), final(self), r->Err_0),
            r is Ok ==> Self::did_add(
                old(self),
                final(self),
                EntryView {
                    id: r->Ok_0,
                    date,
                    title: title@,
                    tags: tags@,
                    priority,
                    content: Seq::empty(),
                },
                HistoryTarget::Undo,
                old(self).history.undo_view(),
                old(self).history.redo_view(),
            ),
    {
        self.add_entry_intern(title, date, tags, priority, None, HistoryTarget::Undo)
    }

    /// Deletes the entry with the id, in storage first, recording its snapshot on the
    /// stack named by `history_target`.
    pub fn delete_entry_intern(&mut self, entry_id: u32, history_target: HistoryTarget) -> (r: Result<
        (),
        AppError,
    >)
        requires
            old(self).wf(),
        ensures
            final(self).wf(),
            !id_exists(old(self).entries_v(), entry_id) ==> r == Err::<(), AppError>(
                AppError::EntryNotFound(entry_id),
            ),
            r is Err ==> Self::failed_cleanly(old(self), final(self), r->Err_0),
            r is Err && r->Err_0 is EntryNotFound ==> !id_exists(old(self).entries_v(), entry_id),
            r is Ok ==> Self::did_delete(
                old(self),
                final(self),
                entry_id,
                history_target,
                old(self).history.undo_view(),
                old(self).history.redo_view(),
            ),
    {
        let idx = match self.find_index(entry_id) {
            None => {
                return Err(AppError::EntryNotFound(entry_id));
            },
            Some(i) => i,
        };
        match self.data_provide.remove_entry(entry_id) {
            Err(e) => {
                return Err(AppError::Provider(e));
            },
            Ok(()) => {},
        }
        let ghost pre = self.entries_v();
        let removed = self.entries.remove(idx);
        assert(self.entries_v() =~= pre.remove(idx as int));
        proof {
            lemma_unique_remove(pre, idx as int);
            lemma_sorted_remove(self.sorter.criteria@, self.sorter.order, pre, idx as int);
        }
        self.history.register_remove(history_target, removed);
        self.update_filter();
        self.settle();
        proof {
            assert forall|k: int| is_first(pre, k, entry_id) implies k == idx by {
                if k < idx {
                } else if k > idx {
                    assert(pre[idx as int].id == entry_id);
                }
            }
        }
        Ok(())
    }

    /// Deletes the entry with the id; its deletion can be undone.
    pub fn delete_entry(&mut self, entry_id: u32) -> (r: Result<(), AppError>)
        requires
            old(self).wf(),
        ensures
            final(self).wf(),
            !id_exists(old(self).entries_v(), entry_id) ==> r == Err::<(), AppError>(
                AppError::EntryNotFound(entry_id),
            ),
            r is Err ==> Self::failed_cleanly(old(self), final(self), r->Err_0),
            r is Ok ==> Self::did_delete(
                old(self),
                final(self),
                entry_id,
                HistoryTarget::Undo,
                old(self).history.undo_view(),
                old(self).history.redo_view(),
            ),
    {
        self.delete_entry_intern(entry_id, HistoryTarget::Undo)
    }

    /// Replaces the attributes of the entry with the id, in storage first, recording
    /// the attributes before the edit on the stack named by `history_target`.
    fn update_entry_attributes(
        &mut self,
        entry_id: u32,
        title: String,
        date: i64,
        tags: Vec<String>,
        priority: Option<u32>,
        history_target: HistoryTarget,
    ) -> (r: Result<(), AppError>)
        requires
            old(self).wf(),
        ensures
            final(self).wf(),
            !id_exists(old(self).entries_v(), entry_id) ==> r == Err::<(), AppError>(
                AppError::EntryNotFound(entry_id),
            ),
            r is Err ==> Self::failed_cleanly(old(self), final(self), r->Err_0),
            r is Err && r->Err_0 is EntryNotFound ==> !id_exists(old(self).entries_v(), entry_id),
            r is Ok ==> Self::did_set_attributes(
                old(self),
                final(self),
                entry_id,
                title@,
                date,
                tags@,
                priority,
                history_target,
                old(self).history.undo_view(),
                old(self).history.redo_view(),
            ),
    {
        let idx = match self.find_index(entry_id) {
            None => {
                return Err(AppError::EntryNotFound(entry_id));
            },
            Some(i) => i,
        };
        let updated = edited_attributes(&self.entries[idx], title, date, tags, priority);
        match self.data_provide.update_entry(updated.duplicate()) {
            Err(e) => {
                return Err(AppError::Provider(e));
            },
            Ok(()) => {},
        }
        let ghost pre = self.entries_v();
        self.history.register_change_attributes(history_target, &self.entries[idx]);
        self.entries.set(idx, updated);
        assert(self.entries_v() =~= pre.update(
            idx as int,
            with_attributes(pre[idx as int], title@, date, tags@, priority),
        ));
        proof {
            lemma_unique_update(pre, idx as int, with_attributes(pre[idx as int], title@, date, tags@, priority));
        }
        self.update_filter();
        self.settle();
        proof {
            assert forall|k: int| is_first(pre, k, entry_id) implies k == idx by {
                if k > idx {
                    assert(pre[idx as int].id == entry_id);
                }
            }
        }
        Ok(())
    }

    /// Replaces the attributes of the current entry; the edit can be undone.
    pub fn update_current_entry_attributes(
        &mut self,
        title: String,
        date: i64,
        tags: Vec<String>,
        priority: Option<u32>,
    ) -> (r: Result<(), AppError>)
        requires
            old(self).wf(),
            old(self).current_entry_id is Some,
        ensures
            final(self).wf(),
            r is Err ==> Self::failed_cleanly(old(self), final(self), r->Err_0),
            r is Ok ==> Self::did_set_attributes(
                old(self),
                final(self),
                old(self).current_entry_id->0,
                title@,
                date,
                tags@,
                priority,
                HistoryTarget::Undo,
                old(self).history.undo_view(),
                old(self).history.redo_view(),
            ),
    {
        let current_entry_id = self.current_entry_id.unwrap();
        self.update_entry_attributes(current_entry_id, title, date, tags, priority, HistoryTarget::Undo)
    }

    /// Replaces the content of the entry with the id, in storage first, recording the
    /// content before the edit on the stack named by `history_target`. When the
    /// storage fails, nothing changes in memory and no record is pushed.
    pub fn update_entry_content(
        &mut self,
        entry_id: u32,
        entry_content: String,
        history_target: HistoryTarget,
    ) -> (r: Result<(), AppError>)
        requires
            old(self).wf(),
        ensures
            final(self).wf(),
            !id_exists(old(self).entries_v(), entry_id) ==> r == Err::<(), AppError>(
                AppError::EntryNotFound(entry_id),
            ),
            r is Err ==> Self::failed_cleanly(old(self), final(self), r->Err_0),
            r is Err && r->Err_0 is EntryNotFound ==> !id_exists(old(self).entries_v(), entry_id),
            r is Ok ==> Self::did_set_content(
                old(self),
                final(self),
                entry_id,
                entry_content@,
                history_target,
                old(self).history.undo_view(),
                old(self).history.redo_view(),
            ),
    {
        let idx = match self.find_index(entry_id) {
            None => {
                return Err(AppError::EntryNotFound(entry_id));
            },
            Some(i) => i,
        };
        let updated = edited_content(&self.entries[idx], entry_content);
        match self.data_provide.update_entry(updated.duplicate()) {
            Err(e) => {
                return Err(AppError::Provider(e));
            },
            Ok(()) => {},
        }
        let ghost pre = self.entries_v();
        self.history.register_change_content(history_target, &self.entries[idx]);
        self.entries.set(idx, updated);
        assert(self.entries_v() =~= pre.update(idx as int, with_content(pre[idx as int], entry_content@)));
        proof {
            lemma_unique_update(pre, idx as int, with_content(pre[idx as int], entry_content@));
            lemma_sorted_update_same_keys(
                self.sorter.criteria@,
                self.sorter.order,
                pre,
                idx as int,
                with_content(pre[idx as int], entry_content@),
            );
        }
        self.settle();
        proof {
            assert forall|k: int| is_first(pre, k, entry_id) implies k == idx by {
                if k > idx {
                    assert(pre[idx as int].id == entry_id);
                }
            }
        }
        Ok(())
    }

    /// Replaces the content of the current entry; the edit can be undone.
    pub fn update_current_entry_content(&mut self, entry_content: String) -> (r: Result<(), AppError>)
        requires
            old(self).wf(),
            old(self).current_entry_id is Some,
        ensures
            final(self).wf(),
            r is Err ==> Self::failed_cleanly(old(self), final(self), r->Err_0),
            r is Ok ==> Self::did_set_content(
                old(self),
                final(self),
                old(self).current_entry_id->0,
                entry_content@,
                HistoryTarget::Undo,
                old(self).history.undo_view(),
                old(self).history.redo_view(),
            ),
    {
        let current_entry_id = self.current_entry_id.unwrap();
        self.update_entry_content(current_entry_id, entry_content, HistoryTarget::Undo)
    }

    /// Carries out a change record and pushes its inverse onto the stack named by
    /// `history_target`.
    fn apply_change(&mut self, change: &Change, history_target: HistoryTarget) -> (r: Result<
        Option<u32>,
        AppError,
    >)
        requires
            old(self).wf(),
        ensures
            final(self).wf(),
            r is Err ==> Self::same_state(old(self), final(self)),
            Self::is_stale(old(self), change@) ==> r == Err::<Option<u32>, AppError>(
                AppError::EntryNotFound(record_target(change@)->0),
            ),
            r is Err && r->Err_0 is EntryNotFound ==> Self::is_stale(old(self), change@),
            r is Ok ==> Self::applied(
                old(self),
                final(self),
                change@,
                history_target,
                r->Ok_0,
                old(self).history.undo_view(),
                old(self).history.redo_view(),
            ),
    {
        match change {
            Change::AddEntry { id } => {
                match self.delete_entry_intern(*id, history_target) {
                    Ok(()) => Ok(None),
                    Err(e) => Err(e),
                }
            },
            Change::RemoveEntry(entry) => {
                let e = entry.duplicate();
                match self.add_entry_intern(
                    e.title,
                    e.date,
                    e.tags,
                    e.priority,
                    Some(e.content),
                    history_target,
                ) {
                    Ok(id) => Ok(Some(id)),
                    Err(err) => Err(err),
                }
            },
            Change::ChangeAttribute(attr) => {
                let title = attr.title.clone();
                let tags = clone_strings(&attr.tags);
                match self.update_entry_attributes(
                    attr.id,
                    title,
                    attr.date,
                    tags,
                    attr.priority,
                    history_target,
                ) {
                    Ok(()) => Ok(Some(attr.id)),
                    Err(e) => Err(e),
                }
            },
            Change::ChangeContent { id, content } => {
                match self.update_entry_content(*id, content.clone(), history_target) {
                    Ok(()) => Ok(Some(*id)),
                    Err(e) => Err(e),
                }
            },
        }
    }

    /// Carries out the most recent undo record, pushing its inverse onto the redo
    /// stack, and returns the id of the entry it touched. With nothing to undo it
    /// does nothing. A record whose entry is gone is dropped with `EntryNotFound`;
    /// when the storage fails, the record stays where it was.
    pub fn undo(&mut self) -> (r: Result<Option<u32>, AppError>)
        requires
            old(self).wf(),
        ensures
            final(self).wf(),
            old(self).history.undo_view().len() == 0 ==> r == Ok::<Option<u32>, AppError>(None)
                && Self::same_state(old(self), final(self)),
            r is Err ==> Self::same_data(old(self), final(self)),
            r is Err && !(r->Err_0 is EntryNotFound) ==> Self::same_state(old(self), final(self)),
            old(self).history.undo_view().len() > 0 && Self::is_stale(
                old(self),
                old(self).history.undo_view().last(),
            ) ==> r == Err::<Option<u32>, AppError>(
                AppError::EntryNotFound(record_target(old(self).history.undo_view().last())->0),
            ) && final(self).history.undo_view() == old(self).history.undo_view().drop_last()
                && final(self).history.redo_view() == old(self).history.redo_view(),
            r is Err && r->Err_0 is EntryNotFound ==> old(self).history.undo_view().len() > 0
                && Self::is_stale(old(self), old(self).history.undo_view().last()),
            old(self).history.undo_view().len() > 0 && r is Ok ==> Self::applied(
                old(self),
                final(self),
                old(self).history.undo_view().last(),
                HistoryTarget::Redo,
                r->Ok_0,
                old(self).history.undo_view().drop_last(),
                old(self).history.redo_view(),
            ),
    {
        let ghost u = self.history.undo_view();
        match self.history.pop_undo() {
            None => Ok(None),
            Some(change) => {
                match self.apply_change(&change, HistoryTarget::Redo) {
                    Ok(id) => Ok(id),
                    Err(AppError::EntryNotFound(id)) => Err(AppError::EntryNotFound(id)),
                    Err(e) => {
                        self.history.push(HistoryTarget::Undo, change);
                        assert(self.history.undo_view() =~= u);
                        Err(e)
                    },
                }
            },
        }
    }

    /// Carries out the most recent redo record, pushing its inverse onto the undo
    /// stack, and returns the id of the entry it touched. With nothing to redo it
    /// does nothing. A record whose entry is gone is dropped with `EntryNotFound`;
    /// when the storage fails, the record stays where it was.
    pub fn redo(&mut self) -> (r: Result<Option<u32>, AppError>)
        requires
            old(self).wf(),
        ensures
            final(self).wf(),
            old(self).history.redo_view().len() == 0 ==> r == Ok::<Option<u32>, AppError>(None)
                && Self::same_state(old(self), final(self)),
            r is Err ==> Self::same_data(old(self), final(self)),
            r is Err && !(r->Err_0 is EntryNotFound) ==> Self::same_state(old(self), final(self)),
            old(self).history.redo_view().len() > 0 && Self::is_stale(
                old(self),
                old(self).history.redo_view().last(),
            ) ==> r == Err::<Option<u32>, AppError>(
                AppError::EntryNotFound(record_target(old(self).history.redo_view().last())->0),
            ) && final(self).history.redo_view() == old(self).history.redo_view().drop_last()
                && final(self).history.undo_view() == old(self).history.undo_view(),
            r is Err && r->Err_0 is EntryNotFound ==> old(self).history.redo_view().len() > 0
                && Self::is_stale(old(self), old(self).history.redo_view().last()),
            old(self).history.redo_view().len() > 0 && r is Ok ==> Self::applied(
                old(self),
                final(self),
                old(self).history.redo_view().last(),
                HistoryTarget::Undo,
                r->Ok_0,
                old(self).history.undo_view(),
                old(self).history.redo_view().drop_last(),
            ),
    {
        let ghost u = self.history.redo_view();
        match self.history.pop_redo() {
            None => Ok(None),
            Some(change) => {
                match self.apply_change(&change, HistoryTarget::Undo) {
                    Ok(id) => Ok(id),
                    Err(AppError::EntryNotFound(id)) => Err(AppError::EntryNotFound(id)),
                    Err(e) => {
                        self.history.push(HistoryTarget::Redo, change);
                        assert(self.history.redo_view() =~= u);
                        Err(e)
                    },
                }
            },
        }
    }

    /// An id that two of the entries share, if any.
    fn shared_id(entries: &Vec<Entry>) -> (r: Option<u32>)
        ensures
            r is None ==> ids_unique(entries_view(entries@)),
            r is Some ==> exists|i: int, j: int|
                0 <= i < j < entries@.len() && entries@[i].id == r->0 && entries@[j].id == r->0,
    {
        let mut j: usize = 0;
        while j < entries.len()
            invariant
                j <= entries.len(),
                forall|a: int, b: int| 0 <= a < j && 0 <= b < j && a != b ==> entries@[a].id != entries@[b].id,
            decreases entries.len() - j,
        {
            let mut i: usize = 0;
            while i < j
                invariant
                    i <= j < entries.len(),
                    forall|a: int| 0 <= a < i ==> entries@[a].id != entries@[j as int].id,
                decreases j - i,
            {
                if entries[i].id == entries[j].id {
                    return Some(entries[j].id);
                }
                i = i + 1;
            }
            j = j + 1;
        }
        let ghost es = entries_view(entries@);
        assert forall|a: int, b: int| 0 <= a < es.len() && 0 <= b < es.len() && a != b implies es[a].id != es[b].id by {
            assert(es[a] == entries@[a]@ && es[b] == entries@[b]@);
        }
        None
    }

    /// Takes in the entries that the storage handed back, replacing those held; refuses
    /// them, changing nothing, when two share an id.
    pub fn commit_load(&mut self, entries: Vec<Entry>) -> (r: Result<(), AppError>)
        requires
            old(self).wf(),
        ensures
            final(self).wf(),
            ids_unique(entries_view(entries@)) ==> r is Ok,
            r is Err ==> Self::same_state(old(self), final(self)) && r->Err_0 is DuplicateId,
            r is Ok ==> Self::settled(old(self), final(self), entries_view(entries@), old(self).filter_v()),
            final(self).history.undo_view() == old(self).history.undo_view(),
            final(self).history.redo_view() == old(self).history.redo_view(),
            final(self).history.limit() == old(self).history.limit(),
    {
        match Self::shared_id(&entries) {
            Some(id) => {
                proof {
                    let (i, j) = choose|i: int, j: int|
                        0 <= i < j < entries@.len() && entries@[i].id == id && entries@[j].id == id;
                    let es = entries_view(entries@);
                    assert(es[i].id == id && es[j].id == id);
                }
                Err(AppError::DuplicateId(id))
            },
            None => {
                self.entries = entries;
                self.settle();
                Ok(())
            },
        }
    }

    /// Replaces the entries held with all those in storage.
    pub fn load_entries(&mut self) -> (r: Result<(), AppError>)
        requires
            old(self).wf(),
        ensures
            final(self).wf(),
            r is Err ==> Self::same_state(old(self), final(self)),
            final(self).filter_v() == old(self).filter_v(),
            final(self).history.undo_view() == old(self).history.undo_view(),
            final(self).history.redo_view() == old(self).history.redo_view(),
    {
        match self.data_provide.load_all_entries() {
            Err(e) => Err(AppError::Provider(e)),
            Ok(entries) => self.commit_load(entries),
        }
    }

    /// Whether the filter leaves the id out.
    fn is_filtered_out(&self, entry_id: u32) -> (r: bool)
        ensures
            r == self.filtered_out_entries@.contains(entry_id),
    {
        let mut i: usize = 0;
        while i < self.filtered_out_entries.len()
            invariant
                i <= self.filtered_out_entries.len(),
                forall|j: int| 0 <= j < i ==> self.filtered_out_entries@[j] != entry_id,
            decreases self.filtered_out_entries.len() - i,
        {
            if self.filtered_out_entries[i] == entry_id {
                return true;
            }
            i = i + 1;
        }
        false
    }

    /// Copies of the entries that the filter lets through, in order.
    pub fn get_active_entries(&self) -> (r: Vec<Entry>)
        ensures
            entries_view(r@) == active_view(self.entries_v(), self.filtered_out_entries@),
    {
        let mut r: Vec<Entry> = Vec::new();
        let mut i: usize = 0;
        while i < self.entries.len()
            invariant
                i <= self.entries.len(),
                entries_view(r@) == active_view(self.entries_v().take(i as int), self.filtered_out_entries@),
            decreases self.entries.len() - i,
        {
            let ghost before = r@;
            assert(self.entries_v().take(i + 1).drop_last() =~= self.entries_v().take(i as int));
            if !self.is_filtered_out(self.entries[i].id) {
                r.push(self.entries[i].duplicate());
                assert(entries_view(r@) =~= entries_view(before).push(self.entries@[i as int]@));
            }
            i = i + 1;
        }
        assert(self.entries_v().take(self.entries.len() as int) =~= self.entries_v());
        r
    }

    /// A copy of the first entry with the id among those that the filter lets through.
    pub fn get_entry(&self, entry_id: u32) -> (r: Option<Entry>)
        ensures
            r is None ==> self.filtered_out_entries@.contains(entry_id) || !id_exists(
                self.entries_v(),
                entry_id,
            ),
            r is Some ==> exists|k: int|
                is_first(self.entries_v(), k, entry_id) && r->0@ == self.entries_v()[k]
                    && !self.filtered_out_entries@.contains(entry_id),
    {
        if self.is_filtered_out(entry_id) {
            return None;
        }
        match self.find_index(entry_id) {
            None => None,
            Some(i) => {
                assert(self.entries_v()[i as int] == self.entries@[i as int]@);
                Some(self.entries[i].duplicate())
            },
        }
    }

    /// A copy of the current entry, when there is one and the filter lets it through.
    pub fn get_current_entry(&self) -> (r: Option<Entry>)
        ensures
            self.current_entry_id is None ==> r is None,
            self.current_entry_id is Some && id_exists(self.entries_v(), self.current_entry_id->0)
                && !self.filtered_out_entries@.contains(self.current_entry_id->0) ==> r is Some,
            r is Some ==> self.current_entry_id is Some && exists|k: int|
                is_first(self.entries_v(), k, self.current_entry_id->0) && r->0@ == self.entries_v()[k]
                    && !self.filtered_out_entries@.contains(self.current_entry_id->0),
    {
        match self.current_entry_id {
            None => None,
            Some(id) => self.get_entry(id),
        }
    }

    /// Sets the filter and recomputes the ids that it leaves out.
    pub fn apply_filter(&mut self, filter: Option<Filter>)
        requires
            old(self).wf(),
        ensures
            Self::settled(old(self), final(self), old(self).entries_v(), filter_view(filter)),
            final(self).entries_v() == old(self).entries_v(),
            final(self).history == old(self).history,
    {
        self.filter = filter;
        self.update_filtered_out_entries();
    }

    /// Sets the sort criteria and direction and sorts the entries again.
    pub fn apply_sort(&mut self, criteria: Vec<SortCriteria>, order: SortOrder)
        requires
            old(self).wf(),
        ensures
            final(self).wf(),
            final(self).sort_criteria() == criteria@,
            final(self).sort_order() == order,
            final(self).entries_v().to_multiset() == old(self).entries_v().to_multiset(),
            final(self).filter_v() == old(self).filter_v(),
            final(self).history == old(self).history,
    {
        self.sorter.set_criteria(criteria);
        self.sorter.order = order;
        self.settle();
    }

    /// Takes in a sort configuration saved earlier and sorts the entries by it.
    pub fn load_state(&mut self, sorter: Sorter)
        requires
            old(self).wf(),
        ensures
            final(self).wf(),
            final(self).sort_criteria() == sorter.criteria@,
            final(self).sort_order() == sorter.order,
            final(self).entries_v().to_multiset() == old(self).entries_v().to_multiset(),
            final(self).filter_v() == old(self).filter_v(),
            final(self).history == old(self).history,
    {
        self.sorter = sorter;
        self.settle();
    }

    /// The sort configuration, to be saved.
    pub fn persist_state(&self) -> (r: Sorter)
        ensures
            r.criteria@ == self.sort_criteria(),
            r.order == self.sort_order(),
    {
        self.sorter.duplicate()
    }

    /// Asks the storage to fill in `priority` on every entry that has none.
    pub fn assign_priority_to_entries(&mut self, priority: u32) -> (r: Result<(), AppError>)
        ensures
            r is Err ==> r->Err_0 is Provider,
            Self::same_state(old(self), final(self)),
    {
        match self.data_provide.assign_priority_to_entries(priority) {
            Err(e) => Err(AppError::Provider(e)),
            Ok(()) => Ok(()),
        }
    }

    /// The transfer document of the selected entries (of all entries when none is
    /// selected). It takes no part in undo and redo.
    pub fn export_entries(&mut self) -> (r: Result<EntriesDTO, AppError>)
        ensures
            r is Err ==> r->Err_0 is Provider,
            Self::same_state(old(self), final(self)),
    {
        let ids = self.selected_ids();
        match self.data_provide.get_export_object(&ids) {
            Err(e) => Err(AppError::Provider(e)),
            Ok(dto) => Ok(dto),
        }
    }

    /// A copy of the ids of the selected entries, in order.
    pub fn selected_ids(&self) -> (r: Vec<u32>)
        ensures
            r@ == self.selected_entries@,
    {
        let mut ids: Vec<u32> = Vec::new();
        let mut i: usize = 0;
        while i < self.selected_entries.len()
            invariant
                i <= self.selected_entries.len(),
                ids@ == self.selected_entries@.subrange(0, i as int),
            decreases self.selected_entries.len() - i,
        {
            ids.push(self.selected_entries[i]);
            i = i + 1;
        }
        assert(ids@ =~= self.selected_entries@);
        ids
    }

    /// Hands a transfer document to the storage, which assigns fresh ids. It takes no
    /// part in undo and redo.
    pub fn import_entries(&mut self, entries_dto: EntriesDTO) -> (r: Result<(), AppError>)
        ensures
            r is Err ==> r->Err_0 is Provider,
            Self::same_state(old(self), final(self)),
    {
        match self.data_provide.import_entries(entries_dto) {
            Err(e) => Err(AppError::Provider(e)),
            Ok(()) => Ok(()),
        }
    }

    /// Every tag that some entry carries, once each, in lexicographic order.
    pub fn get_all_tags(&self) -> (r: Vec<String>)
        ensures
            texts(r@).to_set() == tag_vocabulary(self.entries_v()),
            strictly_sorted(texts(r@)),
    {
        let mut out: Vec<String> = Vec::new();
        let ghost es = self.entries_v();
        let mut i: usize = 0;
        assert(texts(out@).to_set() =~= tag_vocabulary(es.take(0)));
        while i < self.entries.len()
            invariant
                i <= self.entries.len(),
                es == self.entries_v(),
                texts(out@).to_set() == tag_vocabulary(es.take(i as int)),
                strictly_sorted(texts(out@)),
            decreases self.entries.len() - i,
        {
            let tags = &self.entries[i].tags;
            let mut n: usize = 0;
            assert(texts(tags@.take(0)).to_set() =~= Set::<Seq<char>>::empty());
            assert(tag_vocabulary(es.take(i as int)).union(Set::<Seq<char>>::empty()) =~= tag_vocabulary(es.take(i as int)));
            while n < tags.len()
                invariant
                    n <= tags.len(),
                    texts(out@).to_set() == tag_vocabulary(es.take(i as int)).union(
                        texts(tags@.take(n as int)).to_set(),
                    ),
                    strictly_sorted(texts(out@)),
                decreases tags.len() - n,
            {
                insert_tag(&mut out, &tags[n]);
                proof {
                    lemma_texts_push(tags@.take(n as int), tags@[n as int]);
                    assert(tags@.take(n + 1) =~= tags@.take(n as int).push(tags@[n as int]));
                    assert(texts(out@).to_set() =~= tag_vocabulary(es.take(i as int)).union(
                        texts(tags@.take(n + 1)).to_set(),
                    ));
                }
                n = n + 1;
            }
            proof {
                assert(tags@.take(tags@.len() as int) =~= tags@);
                assert(es[i as int].tags == tags@);
                lemma_vocabulary_push(es.take(i as int), es[i as int]);
                assert(es.take(i + 1) =~= es.take(i as int).push(es[i as int]));
            }
            i = i + 1;
        }
        assert(es.take(self.entries.len() as int) =~= es);
        out
    }
}

/// A copy of the entry with the content replaced.
pub fn edited_content(e: &Entry, content: String) -> (r: Entry)
    ensures
        r@ == with_content(e@, content@),
{
    let mut r = e.duplicate();
    r.content = content;
    r
}

/// A copy of the entry with the attributes replaced.
pub fn edited_attributes(
    e: &Entry,
    title: String,
    date: i64,
    tags: Vec<String>,
    priority: Option<u32>,
) -> (r: Entry)
    ensures
        r@ == with_attributes(e@, title@, date, tags@, priority),
{
    let mut r = e.duplicate();
    r.title = title;
    r.date = date;
    r.tags = tags;
    r.priority = priority;
    r
}

/// The ids of the entries that fail some criterion.
pub open spec fn rejected_ids(es: Seq<Entry>, criteria: Seq<FilterCriterion>) -> Set<u32> {
    Set::new(
        |id: u32|
            exists|i: int|
                0 <= i < es.len() && es[i].id == id && !matches_all(criteria, #[trigger] es[i]@),
    )
}

/// The views of a sequence of strings.
pub open spec fn texts(s: Seq<String>) -> Seq<Seq<char>> {
    s.map_values(|x: String| x@)
}

/// Each text comes strictly before the next ones.
pub open spec fn strictly_sorted(s: Seq<Seq<char>>) -> bool {
    forall|a: int, b: int| 0 <= a < b < s.len() ==> lex_cmp(#[trigger] s[a], #[trigger] s[b]) == Ordering::Less
}

/// The tags that some entry carries.
pub open spec fn tag_vocabulary(es: Seq<EntryView>) -> Set<Seq<char>> {
    Set::new(|t: Seq<char>| tag_exists(es, t))
}

/// Adding a string adds its text to the set of texts.
proof fn lemma_texts_push(s: Seq<String>, x: String)
    ensures
        texts(s.push(x)).to_set() == texts(s).to_set().insert(x@),
{
    assert(texts(s.push(x)) =~= texts(s).push(x@));
    assert(texts(s).push(x@).to_set() =~= texts(s).to_set().insert(x@)) by {
        assert forall|t: Seq<char>| texts(s).push(x@).contains(t) implies #[trigger] texts(s).to_set().insert(x@).contains(t) by {
            let k = choose|k: int| 0 <= k < texts(s).push(x@).len() && texts(s).push(x@)[k] == t;
            if k < s.len() {
                assert(texts(s)[k] == t);
            }
        }
        assert forall|t: Seq<char>| texts(s).to_set().insert(x@).contains(t) implies #[trigger] texts(s).push(x@).contains(t) by {
            if t == x@ {
                assert(texts(s).push(x@)[s.len() as int] == t);
            } else {
                let k = choose|k: int| 0 <= k < texts(s).len() && texts(s)[k] == t;
                assert(texts(s).push(x@)[k] == t);
            }
        }
    }
}

/// The tags of one more entry join the vocabulary.
proof fn lemma_vocabulary_push(es: Seq<EntryView>, e: EntryView)
    ensures
        tag_vocabulary(es.push(e)) == tag_vocabulary(es).union(texts(e.tags).to_set()),
{
    let p = es.push(e);
    assert forall|t: Seq<char>| tag_vocabulary(p).contains(t) == tag_vocabulary(es).union(texts(e.tags).to_set()).contains(t) by {
        if tag_exists(p, t) {
            let x = choose|x: int| 0 <= x < p.len() && #[trigger] has_tag(p[x].tags, t);
            if x < es.len() {
                assert(es[x] == p[x]);
            } else {
                let m = choose|m: int| 0 <= m < e.tags.len() && #[trigger] e.tags[m]@ == t;
                assert(texts(e.tags)[m] == t);
            }
        }
        if tag_exists(es, t) {
            let x = choose|x: int| 0 <= x < es.len() && #[trigger] has_tag(es[x].tags, t);
            assert(p[x] == es[x]);
        }
        if texts(e.tags).to_set().contains(t) {
            let m = choose|m: int| 0 <= m < texts(e.tags).len() && texts(e.tags)[m] == t;
            assert(e.tags[m]@ == t);
            assert(has_tag(p[es.len() as int].tags, t));
        }
    }
    assert(tag_vocabulary(p) =~= tag_vocabulary(es).union(texts(e.tags).to_set()));
}

/// Adds the tag to a strictly sorted list of texts unless it is there already.
fn insert_tag(out: &mut Vec<String>, tag: &String)
    requires
        strictly_sorted(texts(old(out)@)),
    ensures
        strictly_sorted(texts(final(out)@)),
        texts(final(out)@).to_set() == texts(old(out)@).to_set().insert(tag@),
{
    let ghost prev = texts(out@);
    assert(strictly_sorted(prev));
    let mut j: usize = 0;
    while j < out.len()
        invariant
            j <= out.len(),
            out@ == old(out)@,
            prev == texts(out@),
            strictly_sorted(prev),
            forall|a: int| 0 <= a < j ==> lex_cmp(#[trigger] prev[a], tag@) == Ordering::Less,
        ensures
            j <= out.len(),
            out@ == old(out)@,
            prev == texts(out@),
            forall|a: int| 0 <= a < j ==> lex_cmp(#[trigger] prev[a], tag@) == Ordering::Less,
            j < out.len() ==> lex_cmp(prev[j as int], tag@) == Ordering::Greater,
        decreases out.len() - j,
    {
        match compare_text(&out[j], tag) {
            Ordering::Less => {},
            Ordering::Equal => {
                proof {
                    lemma_lex_cmp_equal(out@[j as int]@, tag@);
                    assert(prev[j as int] == tag@);
                    assert(prev.contains(tag@));
                    assert(prev.to_set().insert(tag@) =~= prev.to_set());
                }
                return;
            },
            Ordering::Greater => {
                break;
            },
        }
        j = j + 1;
    }
    proof {
        if j < out.len() {
            lemma_lex_cmp_antisym(prev[j as int], tag@);
        }
    }
    let ghost before = out@;
    out.insert(j, tag.clone());
    proof {
        let now = texts(out@);
        assert(now =~= prev.insert(j as int, tag@));
        assert forall|a: int, b: int| 0 <= a < b < now.len() implies lex_cmp(#[trigger] now[a], #[trigger] now[b]) == Ordering::Less by {
            if b < j {
            } else if b == j {
            } else if a == j {
                if b - 1 > j {
                    assert(lex_cmp(prev[j as int], prev[b - 1]) == Ordering::Less);
                    lemma_lex_cmp_less_trans(tag@, prev[j as int], prev[b - 1]);
                }
            } else if a < j {
                assert(lex_cmp(prev[a], prev[b - 1]) == Ordering::Less);
            } else {
                assert(lex_cmp(prev[a - 1], prev[b - 1]) == Ordering::Less);
            }
        }
        assert forall|t: Seq<char>| now.contains(t) == prev.to_set().insert(tag@).contains(t) by {
            if now.contains(t) {
                let k = choose|k: int| 0 <= k < now.len() && now[k] == t;
                if k < j {
                    assert(prev[k] == t);
                } else if k > j {
                    assert(prev[k - 1] == t);
                }
            }
            if prev.contains(t) {
                let k = choose|k: int| 0 <= k < prev.len() && prev[k] == t;
                if k < j {
                    assert(now[k] == t);
                } else {
                    assert(now[k + 1] == t);
                }
            }
            if t == tag@ {
                assert(now[j as int] == t);
            }
        }
        assert(now.to_set() =~= prev.to_set().insert(tag@));
    }
}

/// Relies on rayon's parallel `filter`, `map` and `collect` into a `Vec`: the result
/// holds the id of each entry that the filter rejects, and no other id.
#[verifier::external_body]
fn collect_filtered_out(entries: &Vec<Entry>, filter: &Filter) -> (r: Vec<u32>)
    ensures
        r@.to_set() == rejected_ids(entries@, filter.criteria@),
{
    entries.par_iter().filter(|e| filter.rejects(e)).map(|e| e.id).collect()
}

} // verus!
