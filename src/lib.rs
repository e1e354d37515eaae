use vstd::prelude::*;

pub mod app;
pub mod entry;
pub mod filter;
pub mod history;
pub mod json_backend;
pub mod laws;
pub mod sorter;

pub use app::{App, AppError, DataProvider, EntriesDTO, ProviderError};
pub use entry::{Entry, EntryDraft};
pub use filter::{Filter, FilterCriterion};
pub use history::{Change, EntryAttributes, HistoryManager, HistoryTarget};
pub use json_backend::{get_default_json_path, JsonBackend};
pub use sorter::{SortCriteria, SortOrder, Sorter};

verus! {

} // verus!
