//! Shared read-only state: a value shared between the parts of a view, and
//! the model of the installed applications' desktop entries.
use std::sync::Arc;
use vstd::prelude::*;

verus! {

/// A value shared by reference between the parts of a view; every clone of
/// the context reads the same value.
pub struct SimpleContext<T> {
    inner: Arc<T>,
}

impl<T> View for SimpleContext<T> {
    type V = T;

    closed spec fn view(&self) -> T {
        *self.inner
    }
}

impl<T> SimpleContext<T> {
    /// Shares `value`.
    pub fn new(value: T) -> (r: Self)
        ensures
            r@ == value,
    {
        SimpleContext { inner: Arc::new(value) }
    }

    /// Reads the shared value.
    pub fn get(&self) -> (r: &T)
        ensures
            *r == self@,
    {
        &*self.inner
    }
}

/// An installed application as its desktop entry describes it.
pub struct DesktopEntry {
    pub app_id: String,
    pub name: String,
    pub command: Option<String>,
    pub icon_path: Option<String>,
}

/// The installed applications' desktop entries.
pub struct DesktopEntriesModel {
    pub entries: SimpleContext<Vec<DesktopEntry>>,
}

impl DesktopEntriesModel {
    /// A model holding `entries`.
    pub fn new(entries: Vec<DesktopEntry>) -> (r: Self)
        ensures
            r.entries@ == entries,
    {
        DesktopEntriesModel { entries: SimpleContext::new(entries) }
    }
}

} // verus!
