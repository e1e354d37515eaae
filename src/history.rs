use vstd::prelude::*;

use crate::entry::{clone_strings, Entry, EntryView};

verus! {

/// The attributes of an entry (all but its content), with its id.
pub struct EntryAttributes {
    pub id: u32,
    pub date: i64,
    pub title: String,
    pub tags: Vec<String>,
    pub priority: Option<u32>,
}

/// How to undo a committed operation.
pub enum Change {
    /// An entry was created; undoing it deletes the entry.
    AddEntry { id: u32 },
    /// An entry was deleted; undoing it creates it again from this snapshot.
    RemoveEntry(Entry),
    /// The attributes of an entry were edited; these are the ones before the edit.
    ChangeAttribute(EntryAttributes),
    /// The content of an entry was edited; this is the content before the edit.
    ChangeContent { id: u32, content: String },
}

/// The mathematical value of a change record.
pub ghost enum ChangeView {
    AddEntry { id: u32 },
    RemoveEntry(EntryView),
    ChangeAttribute { id: u32, date: i64, title: Seq<char>, tags: Seq<String>, priority: Option<u32> },
    ChangeContent { id: u32, content: Seq<char> },
}

impl View for Change {
    type V = ChangeView;

    open spec fn view(&self) -> ChangeView {
        match self {
            Change::AddEntry { id } => ChangeView::AddEntry { id: *id },
            Change::RemoveEntry(e) => ChangeView::RemoveEntry(e@),
            Change::ChangeAttribute(a) => ChangeView::ChangeAttribute {
                id: a.id,
                date: a.date,
                title: a.title@,
                tags: a.tags@,
                priority: a.priority,
            },
            Change::ChangeContent { id, content } => ChangeView::ChangeContent {
                id: *id,
                content: content@,
            },
        }
    }
}

/// The stack that a record goes to.
#[derive(Clone, Copy, Debug, PartialEq, Eq, Structural)]
pub enum HistoryTarget {
    Undo,
    Redo,
}

/// The record that undoes a creation of `e`.
pub open spec fn add_record(e: EntryView) -> ChangeView {
    ChangeView::AddEntry { id: e.id }
}

/// The record that undoes a deletion of `e`.
pub open spec fn remove_record(e: EntryView) -> ChangeView {
    ChangeView::RemoveEntry(e)
}

/// The record that undoes an edit of the attributes of `e`.
pub open spec fn attributes_record(e: EntryView) -> ChangeView {
    ChangeView::ChangeAttribute {
        id: e.id,
        date: e.date,
        title: e.title,
        tags: e.tags,
        priority: e.priority,
    }
}

/// The record that undoes an edit of the content of `e`.
pub open spec fn content_record(e: EntryView) -> ChangeView {
    ChangeView::ChangeContent { id: e.id, content: e.content }
}

/// A bounded stack after a push: when full, the oldest record is evicted; with a
/// bound of zero nothing is kept.
pub open spec fn push_bounded(s: Seq<ChangeView>, c: ChangeView, limit: nat) -> Seq<ChangeView> {
    if limit == 0 {
        s
    } else if s.len() < limit {
        s.push(c)
    } else {
        s.drop_first().push(c)
    }
}

/// Two bounded stacks of change records.
pub struct HistoryManager {
    undo_stack: Vec<Change>,
    redo_stack: Vec<Change>,
    stacks_limit: usize,
}

impl HistoryManager {
    /// The undo records, oldest first.
    pub closed spec fn undo_view(&self) -> Seq<ChangeView> {
        self.undo_stack@.map_values(|c: Change| c@)
    }

    /// The redo records, oldest first.
    pub closed spec fn redo_view(&self) -> Seq<ChangeView> {
        self.redo_stack@.map_values(|c: Change| c@)
    }

    /// The records of the stack named by `target`, oldest first.
    pub open spec fn stack(&self, target: HistoryTarget) -> Seq<ChangeView> {
        match target {
            HistoryTarget::Undo => self.undo_view(),
            HistoryTarget::Redo => self.redo_view(),
        }
    }

    /// The bound of each stack.
    pub closed spec fn limit(&self) -> nat {
        self.stacks_limit as nat
    }

    /// Neither stack holds more records than the bound.
    pub open spec fn wf(&self) -> bool {
        self.undo_view().len() <= self.limit() && self.redo_view().len() <= self.limit()
    }

    /// The history after a push of `c` onto the stack named by `target`.
    pub open spec fn pushed(&self, target: HistoryTarget, c: ChangeView, next: HistoryManager) -> bool {
        &&& next.limit() == self.limit()
        &&& next.stack(target) == push_bounded(self.stack(target), c, self.limit())
        &&& target == HistoryTarget::Undo ==> next.redo_view() == self.redo_view()
        &&& target == HistoryTarget::Redo ==> next.undo_view() == self.undo_view()
    }

    /// Empty stacks, each bounded by `limit`.
    pub fn new(limit: usize) -> (r: HistoryManager)
        ensures
            r.wf(),
            r.limit() == limit,
            r.undo_view() == Seq::<ChangeView>::empty(),
            r.redo_view() == Seq::<ChangeView>::empty(),
    {
        let r = HistoryManager { undo_stack: Vec::new(), redo_stack: Vec::new(), stacks_limit: limit };
        assert(r.undo_view() =~= Seq::<ChangeView>::empty());
        assert(r.redo_view() =~= Seq::<ChangeView>::empty());
        r
    }

    /// The bound of each stack.
    pub fn history_limit(&self) -> (r: usize)
        ensures
            r == self.limit(),
    {
        self.stacks_limit
    }

    /// Number of records on the stack named by `target`.
    pub fn len(&self, target: HistoryTarget) -> (r: usize)
        ensures
            r == self.stack(target).len(),
    {
        match target {
            HistoryTarget::Undo => self.undo_stack.len(),
            HistoryTarget::Redo => self.redo_stack.len(),
        }
    }

    /// Pushes onto one bounded stack, evicting its oldest record when full.
    fn push_onto(stack: &mut Vec<Change>, limit: usize, change: Change)
        requires
            old(stack)@.len() <= limit,
        ensures
            final(stack)@.map_values(|c: Change| c@) == push_bounded(
                old(stack)@.map_values(|c: Change| c@),
                change@,
                limit as nat,
            ),
            final(stack)@.len() <= limit,
    {
        let ghost before = stack@;
        if limit == 0 {
            return;
        }
        if stack.len() >= limit {
            stack.remove(0);
        }
        stack.push(change);
        proof {
            if before.len() < limit {
                assert(stack@.map_values(|c: Change| c@) =~= before.map_values(|c: Change| c@).push(change@));
            } else {
                assert(stack@.map_values(|c: Change| c@) =~= before.map_values(|c: Change| c@).drop_first().push(change@));
            }
        }
    }

    /// Pushes a record onto the stack named by `target`.
    pub fn push(&mut self, target: HistoryTarget, change: Change)
        requires
            old(self).wf(),
        ensures
            final(self).wf(),
            old(self).pushed(target, change@, *final(self)),
    {
        match target {
            HistoryTarget::Undo => HistoryManager::push_onto(&mut self.undo_stack, self.stacks_limit, change),
            HistoryTarget::Redo => HistoryManager::push_onto(&mut self.redo_stack, self.stacks_limit, change),
        }
    }

    /// Records that `entry` was created.
    pub fn register_add(&mut self, target: HistoryTarget, entry: &Entry)
        requires
            old(self).wf(),
        ensures
            final(self).wf(),
            old(self).pushed(target, add_record(entry@), *final(self)),
    {
        self.push(target, Change::AddEntry { id: entry.id });
    }

    /// Records that `entry` is about to be deleted; it holds its state before.
    pub fn register_remove(&mut self, target: HistoryTarget, entry: Entry)
        requires
            old(self).wf(),
        ensures
            final(self).wf(),
            old(self).pushed(target, remove_record(entry@), *final(self)),
    {
        self.push(target, Change::RemoveEntry(entry));
    }

    /// Records the attributes of `entry` before they are edited.
    pub fn register_change_attributes(&mut self, target: HistoryTarget, entry: &Entry)
        requires
            old(self).wf(),
        ensures
            final(self).wf(),
            old(self).pushed(target, attributes_record(entry@), *final(self)),
    {
        let attr = EntryAttributes {
            id: entry.id,
            date: entry.date,
            title: entry.title.clone(),
            tags: clone_strings(&entry.tags),
            priority: entry.priority,
        };
        self.push(target, Change::ChangeAttribute(attr));
    }

    /// Records the content of `entry` before it is edited.
    pub fn register_change_content(&mut self, target: HistoryTarget, entry: &Entry)
        requires
            old(self).wf(),
        ensures
            final(self).wf(),
            old(self).pushed(target, content_record(entry@), *final(self)),
    {
        self.push(target, Change::ChangeContent { id: entry.id, content: entry.content.clone() });
    }

    /// Takes the most recent record off one stack.
    fn pop_from(stack: &mut Vec<Change>) -> (r: Option<Change>)
        ensures
            old(stack)@.len() == 0 ==> r is None && final(stack)@ == old(stack)@,
            old(stack)@.len() > 0 ==> r == Some(old(stack)@.last()) && final(stack)@ == old(stack)@.drop_last(),
    {
        stack.pop()
    }

    /// Takes the most recent record off the undo stack, if any.
    pub fn pop_undo(&mut self) -> (r: Option<Change>)
        requires
            old(self).wf(),
        ensures
            final(self).wf(),
            final(self).limit() == old(self).limit(),
            final(self).redo_view() == old(self).redo_view(),
            old(self).undo_view().len() == 0 ==> r is None && final(self).undo_view() == old(self).undo_view(),
            old(self).undo_view().len() > 0 ==> r is Some && r->0@ == old(self).undo_view().last()
                && final(self).undo_view() == old(self).undo_view().drop_last(),
    {
        let ghost before = self.undo_stack@;
        let r = HistoryManager::pop_from(&mut self.undo_stack);
        assert(self.undo_view() =~= if before.len() > 0 { before.map_values(|c: Change| c@).drop_last() } else { before.map_values(|c: Change| c@) });
        r
    }

    /// Takes the most recent record off the redo stack, if any.
    pub fn pop_redo(&mut self) -> (r: Option<Change>)
        requires
            old(self).wf(),
        ensures
            final(self).wf(),
            final(self).limit() == old(self).limit(),
            final(self).undo_view() == old(self).undo_view(),
            old(self).redo_view().len() == 0 ==> r is None && final(self).redo_view() == old(self).redo_view(),
            old(self).redo_view().len() > 0 ==> r is Some && r->0@ == old(self).redo_view().last()
                && final(self).redo_view() == old(self).redo_view().drop_last(),
    {
        let ghost before = self.redo_stack@;
        let r = HistoryManager::pop_from(&mut self.redo_stack);
        assert(self.redo_view() =~= if before.len() > 0 { before.map_values(|c: Change| c@).drop_last() } else { before.map_values(|c: Change| c@) });
        r
    }
}

} // verus!
