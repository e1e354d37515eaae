use tui_journal::app::{edited_attributes, edited_content};
use tui_journal::{
    get_default_json_path, App, AppError, DataProvider, EntriesDTO, Entry, EntryDraft, Filter,
    FilterCriterion, HistoryTarget, JsonBackend, ProviderError, SortCriteria, SortOrder, Sorter,
};

/// Storage kept in memory; `fail` makes every call fail.
struct MemoryProvider {
    entries: Vec<Entry>,
    next_id: u32,
    fail: bool,
}

impl MemoryProvider {
    fn new() -> Self {
        MemoryProvider { entries: Vec::new(), next_id: 1, fail: false }
    }

    fn check(&self) -> Result<(), ProviderError> {
        if self.fail {
            Err(ProviderError { message: String::from("storage unavailable") })
        } else {
            Ok(())
        }
    }
}

impl DataProvider for MemoryProvider {
    fn load_all_entries(&mut self) -> Result<Vec<Entry>, ProviderError> {
        self.check()?;
        Ok(self.entries.iter().map(|e| e.duplicate()).collect())
    }

    fn add_entry(&mut self, draft: EntryDraft) -> Result<Entry, ProviderError> {
        self.check()?;
        let entry = Entry {
            id: self.next_id,
            date: draft.date,
            title: draft.title,
            tags: draft.tags,
            priority: draft.priority,
            content: draft.content,
        };
        self.next_id += 1;
        self.entries.push(entry.duplicate());
        Ok(entry)
    }

    fn remove_entry(&mut self, entry_id: u32) -> Result<(), ProviderError> {
        self.check()?;
        self.entries.retain(|e| e.id != entry_id);
        Ok(())
    }

    fn update_entry(&mut self, entry: Entry) -> Result<(), ProviderError> {
        self.check()?;
        for e in self.entries.iter_mut() {
            if e.id == entry.id {
                *e = entry.duplicate();
            }
        }
        Ok(())
    }

    fn assign_priority_to_entries(&mut self, priority: u32) -> Result<(), ProviderError> {
        self.check()?;
        for e in self.entries.iter_mut() {
            if e.priority.is_none() {
                e.priority = Some(priority);
            }
        }
        Ok(())
    }

    fn get_export_object(&mut self, entries_ids: &Vec<u32>) -> Result<EntriesDTO, ProviderError> {
        self.check()?;
        let entries = self
            .entries
            .iter()
            .filter(|e| entries_ids.is_empty() || entries_ids.contains(&e.id))
            .map(|e| {
                EntryDraft::new(e.date, e.title.clone(), e.tags.clone(), e.priority)
                    .with_content(e.content.clone())
            })
            .collect();
        Ok(EntriesDTO { entries })
    }

    fn import_entries(&mut self, entries_dto: EntriesDTO) -> Result<(), ProviderError> {
        self.check()?;
        for draft in entries_dto.entries {
            self.add_entry(draft)?;
        }
        Ok(())
    }
}

fn new_app(limit: usize) -> App<MemoryProvider> {
    App::new(MemoryProvider::new(), limit)
}

fn tags(list: &[&str]) -> Vec<String> {
    list.iter().map(|t| t.to_string()).collect()
}

fn titles(app: &App<MemoryProvider>) -> Vec<String> {
    app.get_active_entries().into_iter().map(|e| e.title).collect()
}

fn ids(app: &App<MemoryProvider>) -> Vec<u32> {
    app.get_active_entries().into_iter().map(|e| e.id).collect()
}

fn make_entry(id: u32, title: &str, priority: Option<u32>) -> Entry {
    Entry { id, date: 0, title: title.to_string(), tags: Vec::new(), priority, content: String::new() }
}

#[test]
fn sort_by_priority_then_title_descending() {
    let sorter = Sorter::new(vec![SortCriteria::Priority, SortCriteria::Title], SortOrder::Descending);
    let sorted = sorter.sort_entries(vec![
        make_entry(1, "B", Some(1)),
        make_entry(2, "A", Some(2)),
        make_entry(3, "C", Some(1)),
    ]);
    let order: Vec<u32> = sorted.iter().map(|e| e.id).collect();
    assert_eq!(order, vec![2, 3, 1]);
}

#[test]
fn sort_by_priority_then_title_ascending() {
    let sorter = Sorter::new(vec![SortCriteria::Priority, SortCriteria::Title], SortOrder::Ascending);
    let sorted = sorter.sort_entries(vec![
        make_entry(1, "B", Some(1)),
        make_entry(2, "A", Some(2)),
        make_entry(3, "C", Some(1)),
    ]);
    let order: Vec<u32> = sorted.iter().map(|e| e.id).collect();
    assert_eq!(order, vec![1, 3, 2]);
}

#[test]
fn sort_compare_orders_missing_priority_first() {
    let sorter = Sorter::new(vec![SortCriteria::Priority], SortOrder::Ascending);
    let a = make_entry(1, "a", None);
    let b = make_entry(2, "b", Some(0));
    assert_eq!(sorter.sort(&a, &b), std::cmp::Ordering::Less);
    assert_eq!(sorter.sort(&b, &a), std::cmp::Ordering::Greater);
    assert_eq!(sorter.sort(&a, &a), std::cmp::Ordering::Equal);
}

#[test]
fn sort_by_date_descending() {
    let sorter = Sorter::new(vec![SortCriteria::Date], SortOrder::Descending);
    let mut a = make_entry(1, "a", None);
    a.date = 100;
    let mut b = make_entry(2, "b", None);
    b.date = 200;
    let sorted = sorter.sort_entries(vec![a, b]);
    assert_eq!(sorted[0].id, 2);
    assert_eq!(sorted[1].id, 1);
}

#[test]
fn apply_sort_reorders_entries() {
    let mut app = new_app(10);
    app.add_entry("b".to_string(), 1, vec![], None).unwrap();
    app.add_entry("c".to_string(), 2, vec![], None).unwrap();
    app.add_entry("a".to_string(), 3, vec![], None).unwrap();
    app.apply_sort(vec![SortCriteria::Title], SortOrder::Ascending);
    assert_eq!(titles(&app), vec!["a", "b", "c"]);
    app.apply_sort(vec![SortCriteria::Date], SortOrder::Descending);
    assert_eq!(titles(&app), vec!["a", "c", "b"]);
    let saved = app.persist_state();
    assert_eq!(saved.criteria, vec![SortCriteria::Date]);
    assert!(saved.order == SortOrder::Descending);
}

#[test]
fn add_delete_undo_recreates_entry() {
    let mut app = new_app(10);
    let n = app.add_entry("X".to_string(), 42, vec![], None).unwrap();
    app.delete_entry(n).unwrap();
    assert!(app.get_active_entries().is_empty());
    let m = app.undo().unwrap().expect("the entry is created again");
    assert_ne!(m, n);
    let active = app.get_active_entries();
    assert_eq!(active.len(), 1);
    assert_eq!(active[0].title, "X");
    assert_eq!(active[0].date, 42);
}

#[test]
fn undo_of_add_removes_entry_and_redo_restores_it() {
    let mut app = new_app(10);
    app.add_entry("A".to_string(), 1, tags(&["t"]), Some(3)).unwrap();
    assert_eq!(app.undo().unwrap(), None);
    assert!(app.get_active_entries().is_empty());
    let id = app.redo().unwrap().expect("redo creates the entry again");
    let e = app.get_entry(id).expect("entry is active");
    assert_eq!(e.title, "A");
    assert_eq!(e.tags, tags(&["t"]));
    assert_eq!(e.priority, Some(3));
}

#[test]
fn sequence_of_edits_undone_restores_collection() {
    let mut app = new_app(10);
    let a = app.add_entry("A".to_string(), 1, tags(&["x"]), None).unwrap();
    app.update_entry_content(a, "first".to_string(), HistoryTarget::Undo).unwrap();
    app.current_entry_id = Some(a);
    app.update_current_entry_attributes("A2".to_string(), 5, tags(&["y"]), Some(1)).unwrap();
    app.add_entry("B".to_string(), 2, vec![], None).unwrap();
    for _ in 0..4 {
        app.undo().unwrap();
    }
    assert!(app.get_active_entries().is_empty());
    assert_eq!(app.undo().unwrap(), None);
}

#[test]
fn undo_redo_undo_content_edit() {
    let mut app = new_app(10);
    let a = app.add_entry("A".to_string(), 1, vec![], None).unwrap();
    app.current_entry_id = Some(a);
    app.update_current_entry_content("one".to_string()).unwrap();
    app.update_current_entry_content("two".to_string()).unwrap();
    assert_eq!(app.undo().unwrap(), Some(a));
    assert_eq!(app.get_entry(a).unwrap().content, "one");
    assert_eq!(app.redo().unwrap(), Some(a));
    assert_eq!(app.get_entry(a).unwrap().content, "two");
    assert_eq!(app.undo().unwrap(), Some(a));
    assert_eq!(app.get_entry(a).unwrap().content, "one");
}

#[test]
fn undo_redo_undo_attribute_edit() {
    let mut app = new_app(10);
    let a = app.add_entry("A".to_string(), 1, tags(&["t"]), None).unwrap();
    app.current_entry_id = Some(a);
    app.update_current_entry_attributes("B".to_string(), 2, tags(&["u"]), Some(4)).unwrap();
    app.undo().unwrap();
    app.redo().unwrap();
    app.undo().unwrap();
    let e = app.get_current_entry().unwrap();
    assert_eq!(e.title, "A");
    assert_eq!(e.date, 1);
    assert_eq!(e.tags, tags(&["t"]));
    assert_eq!(e.priority, None);
}

#[test]
fn new_action_after_undo_keeps_redo_stack() {
    let mut app = new_app(10);
    app.add_entry("A".to_string(), 1, vec![], None).unwrap();
    app.undo().unwrap();
    app.add_entry("B".to_string(), 2, vec![], None).unwrap();
    assert_eq!(app.history.len(HistoryTarget::Redo), 1);
    app.redo().unwrap();
    let mut t = titles(&app);
    t.sort();
    assert_eq!(t, vec!["A", "B"]);
}

#[test]
fn history_limit_evicts_oldest_record() {
    let mut app = new_app(2);
    app.add_entry("A".to_string(), 1, vec![], None).unwrap();
    app.add_entry("B".to_string(), 2, vec![], None).unwrap();
    app.add_entry("C".to_string(), 3, vec![], None).unwrap();
    assert_eq!(app.history.len(HistoryTarget::Undo), 2);
    app.undo().unwrap();
    app.undo().unwrap();
    assert_eq!(app.undo().unwrap(), None);
    assert_eq!(titles(&app), vec!["A"]);
    assert_eq!(app.history.len(HistoryTarget::Redo), 2);
}

#[test]
fn history_limit_zero_keeps_nothing() {
    let mut app = new_app(0);
    app.add_entry("A".to_string(), 1, vec![], None).unwrap();
    assert_eq!(app.history.len(HistoryTarget::Undo), 0);
    assert_eq!(app.undo().unwrap(), None);
    assert_eq!(titles(&app), vec!["A"]);
}

#[test]
fn filter_excludes_and_includes_entries() {
    let mut app = new_app(10);
    let a = app.add_entry("morning walk".to_string(), 1, tags(&["health"]), Some(1)).unwrap();
    let b = app.add_entry("evening walk".to_string(), 2, tags(&["health", "fun"]), Some(2)).unwrap();
    let c = app.add_entry("work".to_string(), 3, tags(&["job"]), Some(2)).unwrap();
    app.apply_filter(Some(Filter {
        criteria: vec![FilterCriterion::Title("walk".to_string()), FilterCriterion::Priority(2)],
    }));
    assert_eq!(ids(&app), vec![b]);
    assert!(app.filtered_out_entries.contains(&a));
    assert!(app.filtered_out_entries.contains(&c));
    assert!(app.get_entry(a).is_none());
    app.apply_filter(Some(Filter { criteria: vec![FilterCriterion::Tag("health".to_string())] }));
    let mut active = ids(&app);
    active.sort();
    assert_eq!(active, vec![a, b]);
    app.apply_filter(None);
    assert_eq!(ids(&app).len(), 3);
    assert!(app.filtered_out_entries.is_empty());
}

#[test]
fn filter_on_content_follows_edits() {
    let mut app = new_app(10);
    let a = app.add_entry("A".to_string(), 1, vec![], None).unwrap();
    app.apply_filter(Some(Filter { criteria: vec![FilterCriterion::Content("needle".to_string())] }));
    assert!(ids(&app).is_empty());
    app.update_entry_content(a, "hay needle hay".to_string(), HistoryTarget::Undo).unwrap();
    assert_eq!(ids(&app), vec![a]);
}

#[test]
fn filter_check_entry_requires_exact_tag() {
    let e = Entry {
        id: 1,
        date: 0,
        title: "Title".to_string(),
        tags: tags(&["rust"]),
        priority: None,
        content: "body".to_string(),
    };
    let f = Filter { criteria: vec![FilterCriterion::Tag("rus".to_string())] };
    assert!(!f.check_entry(&e));
    let g = Filter { criteria: vec![FilterCriterion::Tag("rust".to_string()), FilterCriterion::Title("itl".to_string())] };
    assert!(g.check_entry(&e));
    let h = Filter { criteria: vec![FilterCriterion::Priority(1)] };
    assert!(!h.check_entry(&e));
}

#[test]
fn deleting_last_tagged_entry_prunes_filter() {
    let mut app = new_app(10);
    let a = app.add_entry("A".to_string(), 1, tags(&["solo"]), None).unwrap();
    app.add_entry("B".to_string(), 2, tags(&["other"]), None).unwrap();
    app.apply_filter(Some(Filter {
        criteria: vec![FilterCriterion::Tag("solo".to_string()), FilterCriterion::Title("A".to_string())],
    }));
    app.delete_entry(a).unwrap();
    let f = app.filter.as_ref().expect("title criterion stays");
    assert_eq!(f.criteria.len(), 1);
    assert!(matches!(f.criteria[0], FilterCriterion::Title(_)));
}

#[test]
fn deleting_last_tagged_entry_drops_single_criterion_filter() {
    let mut app = new_app(10);
    let a = app.add_entry("A".to_string(), 1, tags(&["solo"]), None).unwrap();
    app.add_entry("B".to_string(), 2, vec![], None).unwrap();
    app.apply_filter(Some(Filter { criteria: vec![FilterCriterion::Tag("solo".to_string())] }));
    app.delete_entry(a).unwrap();
    assert!(app.filter.is_none());
    assert_eq!(titles(&app), vec!["B"]);
}

#[test]
fn all_tags_sorted_and_deduplicated() {
    let mut app = new_app(10);
    app.add_entry("A".to_string(), 1, tags(&["zeta", "alpha", "zeta"]), None).unwrap();
    app.add_entry("B".to_string(), 2, tags(&["beta", "alpha"]), None).unwrap();
    assert_eq!(app.get_all_tags(), tags(&["alpha", "beta", "zeta"]));
    assert!(new_app(1).get_all_tags().is_empty());
}

#[test]
fn failed_content_update_leaves_state() {
    let mut app = new_app(10);
    let a = app.add_entry("A".to_string(), 1, vec![], None).unwrap();
    app.update_entry_content(a, "kept".to_string(), HistoryTarget::Undo).unwrap();
    let undo_before = app.history.len(HistoryTarget::Undo);
    app.data_provide.fail = true;
    let r = app.update_entry_content(a, "lost".to_string(), HistoryTarget::Undo);
    assert!(matches!(r, Err(AppError::Provider(_))));
    assert_eq!(app.get_entry(a).unwrap().content, "kept");
    assert_eq!(app.history.len(HistoryTarget::Undo), undo_before);
}

#[test]
fn failed_undo_keeps_record() {
    let mut app = new_app(10);
    app.add_entry("A".to_string(), 1, vec![], None).unwrap();
    app.data_provide.fail = true;
    assert!(matches!(app.undo(), Err(AppError::Provider(_))));
    assert_eq!(app.history.len(HistoryTarget::Undo), 1);
    assert_eq!(titles(&app), vec!["A"]);
    app.data_provide.fail = false;
    assert_eq!(app.undo().unwrap(), None);
    assert!(titles(&app).is_empty());
}

#[test]
fn missing_entry_is_reported() {
    let mut app = new_app(10);
    assert!(matches!(app.delete_entry(7), Err(AppError::EntryNotFound(7))));
    assert!(matches!(
        app.update_entry_content(7, "x".to_string(), HistoryTarget::Undo),
        Err(AppError::EntryNotFound(7))
    ));
}

#[test]
fn duplicate_id_is_refused() {
    let mut app = new_app(10);
    let a = app.add_entry("A".to_string(), 1, vec![], None).unwrap();
    let r = app.commit_add(make_entry(a, "again", None), HistoryTarget::Undo);
    assert!(matches!(r, Err(AppError::DuplicateId(id)) if id == a));
    assert_eq!(titles(&app), vec!["A"]);
}

#[test]
fn import_assigns_fresh_ids() {
    let mut app = new_app(10);
    let a = app.add_entry("A".to_string(), 1, vec![], None).unwrap();
    let b = app.add_entry("B".to_string(), 2, vec![], None).unwrap();
    let dto = EntriesDTO {
        entries: vec![
            EntryDraft::new(3, "C".to_string(), vec![], None),
            EntryDraft::new(4, "D".to_string(), vec![], None).with_content("d".to_string()),
        ],
    };
    app.import_entries(dto).unwrap();
    app.load_entries().unwrap();
    let active = app.get_active_entries();
    assert_eq!(active.len(), 4);
    let mut all: Vec<u32> = active.iter().map(|e| e.id).collect();
    all.sort();
    all.dedup();
    assert_eq!(all.len(), 4);
    assert_eq!(app.get_entry(a).unwrap().title, "A");
    assert_eq!(app.get_entry(b).unwrap().title, "B");
}

#[test]
fn export_uses_selected_entries() {
    let mut app = new_app(10);
    let a = app.add_entry("A".to_string(), 1, vec![], None).unwrap();
    app.add_entry("B".to_string(), 2, vec![], None).unwrap();
    app.selected_entries = vec![a];
    let dto = app.export_entries().unwrap();
    assert_eq!(dto.entries.len(), 1);
    assert_eq!(dto.entries[0].title, "A");
    app.selected_entries.clear();
    assert_eq!(app.export_entries().unwrap().entries.len(), 2);
}

#[test]
fn assign_priority_reaches_storage() {
    let mut app = new_app(10);
    app.add_entry("A".to_string(), 1, vec![], None).unwrap();
    app.assign_priority_to_entries(5).unwrap();
    app.load_entries().unwrap();
    assert_eq!(app.get_active_entries()[0].priority, Some(5));
}

#[test]
fn load_state_sorts_entries() {
    let mut app = new_app(10);
    app.add_entry("b".to_string(), 1, vec![], None).unwrap();
    app.add_entry("a".to_string(), 2, vec![], None).unwrap();
    app.load_state(Sorter::new(vec![SortCriteria::Title], SortOrder::Ascending));
    assert_eq!(titles(&app), vec!["a", "b"]);
}

#[test]
fn current_entry_lookup() {
    let mut app = new_app(10);
    assert!(app.get_current_entry().is_none());
    let a = app.add_entry("A".to_string(), 1, vec![], None).unwrap();
    app.current_entry_id = Some(a);
    assert_eq!(app.get_current_entry().unwrap().id, a);
}

#[test]
fn default_json_path_joins_file_name() {
    assert_eq!(get_default_json_path("/home/u/data"), "/home/u/data/entries.json");
    assert_eq!(get_default_json_path("/home/u/data/"), "/home/u/data/entries.json");
    assert_eq!(get_default_json_path(""), "entries.json");
    assert_eq!(JsonBackend::get_default("dir").file_path, "dir/entries.json");
}

#[test]
fn load_refuses_shared_ids() {
    let mut app = new_app(10);
    app.add_entry("A".to_string(), 1, vec![], None).unwrap();
    let r = app.commit_load(vec![make_entry(4, "x", None), make_entry(4, "y", None)]);
    assert!(matches!(r, Err(AppError::DuplicateId(4))));
    assert_eq!(titles(&app), vec!["A"]);
    app.commit_load(vec![make_entry(4, "x", None), make_entry(5, "y", None)]).unwrap();
    assert_eq!(app.get_active_entries().len(), 2);
}

#[test]
fn stale_undo_record_is_dropped() {
    let mut app = new_app(10);
    let a = app.add_entry("A".to_string(), 1, vec![], None).unwrap();
    app.update_entry_content(a, "c".to_string(), HistoryTarget::Undo).unwrap();
    app.delete_entry(a).unwrap();
    let a2 = app.undo().unwrap().expect("entry created again");
    assert_ne!(a2, a);
    assert!(matches!(app.undo(), Err(AppError::EntryNotFound(id)) if id == a));
    assert_eq!(app.history.len(HistoryTarget::Undo), 1);
    assert!(matches!(app.undo(), Err(AppError::EntryNotFound(id)) if id == a));
    assert_eq!(app.history.len(HistoryTarget::Undo), 0);
    assert_eq!(app.undo().unwrap(), None);
    assert_eq!(titles(&app), vec!["A"]);
    assert_eq!(app.get_entry(a2).unwrap().content, "c");
}

#[test]
fn new_app_is_empty() {
    let app = new_app(3);
    assert!(app.entries.is_empty());
    assert!(app.selected_entries.is_empty());
    assert!(app.filtered_out_entries.is_empty());
    assert!(app.filter.is_none());
    assert!(app.current_entry_id.is_none());
    assert_eq!(app.history.history_limit(), 3);
    assert_eq!(app.history.len(HistoryTarget::Undo), 0);
    assert_eq!(app.history.len(HistoryTarget::Redo), 0);
}

#[test]
fn selected_ids_copies_selection() {
    let mut app = new_app(3);
    app.selected_entries = vec![3, 1, 2];
    assert_eq!(app.selected_ids(), vec![3, 1, 2]);
}

#[test]
fn edited_copies_replace_fields() {
    let e = Entry {
        id: 9,
        date: 5,
        title: "t".to_string(),
        tags: tags(&["a"]),
        priority: Some(1),
        content: "old".to_string(),
    };
    let c = edited_content(&e, "new".to_string());
    assert_eq!((c.id, c.date, c.title.as_str(), c.content.as_str()), (9, 5, "t", "new"));
    let a = edited_attributes(&e, "u".to_string(), 7, tags(&["b"]), None);
    assert_eq!((a.id, a.date, a.title.as_str(), a.content.as_str()), (9, 7, "u", "old"));
    assert_eq!(a.tags, tags(&["b"]));
    assert_eq!(a.priority, None);
}

#[test]
fn delete_keeps_order_of_the_rest() {
    let mut app = new_app(10);
    app.apply_sort(vec![SortCriteria::Priority], SortOrder::Ascending);
    app.add_entry("x".to_string(), 1, vec![], Some(1)).unwrap();
    let m = app.add_entry("m".to_string(), 2, vec![], Some(1)).unwrap();
    app.add_entry("y".to_string(), 3, vec![], Some(1)).unwrap();
    let before: Vec<String> = titles(&app).into_iter().filter(|t| t != "m").collect();
    app.delete_entry(m).unwrap();
    assert_eq!(titles(&app), before);
}
