use vstd::prelude::*;

use crate::ident::{hyphenated, id_text};

verus! {

/// The mathematical state of one transfer's progress record.
pub struct ProgressView {
    pub url: Seq<char>,
    pub name: Seq<char>,
    pub ext: Seq<char>,
    /// Declared size in bytes; 0 means unknown.
    pub total: u64,
    /// Bytes copied to the staging area so far.
    pub transferred: u64,
    /// Set once a cancellation was requested; never reset.
    pub canceled: bool,
}

/// `a + b`, held at `u64::MAX` where it would overflow.
pub open spec fn saturating_sum(a: u64, b: u64) -> u64 {
    if a + b > u64::MAX {
        u64::MAX
    } else {
        (a + b) as u64
    }
}

impl ProgressView {
    /// A fresh record: nothing declared, nothing copied, not canceled.
    pub open spec fn fresh(url: Seq<char>, name: Seq<char>, ext: Seq<char>) -> ProgressView {
        ProgressView { url, name, ext, total: 0, transferred: 0, canceled: false }
    }

    pub open spec fn with_total(self, total: u64) -> ProgressView {
        ProgressView { total, ..self }
    }

    pub open spec fn advanced(self, delta: u64) -> ProgressView {
        ProgressView { transferred: saturating_sum(self.transferred, delta), ..self }
    }

    pub open spec fn canceled(self) -> ProgressView {
        ProgressView { canceled: true, ..self }
    }
}

/// A read-only snapshot of one registered transfer, for reporting.
#[derive(Debug, Clone, PartialEq, Eq)]
pub struct Item {
    pub id: String,
    pub url: String,
    pub name: String,
    pub ext: String,
    pub total: u64,
    pub transferred: u64,
    pub canceled: bool,
}

/// The snapshot that `to_item` produces for `id` and a record in state `p`.
pub open spec fn item_matches(item: Item, id: u128, p: ProgressView) -> bool {
    &&& item.id@ == id_text(id)
    &&& item.url@ == p.url
    &&& item.name@ == p.name
    &&& item.ext@ == p.ext
    &&& item.total == p.total
    &&& item.transferred == p.transferred
    &&& item.canceled == p.canceled
}

/// The progress record of one transfer: descriptive fields fixed at
/// creation, the declared size, the bytes copied and the cancellation flag.
#[derive(Debug)]
pub struct Progress {
    url: String,
    name: String,
    ext: String,
    total: u64,
    size: u64,
    is_canceled: bool,
}

impl View for Progress {
    type V = ProgressView;

    closed spec fn view(&self) -> ProgressView {
        ProgressView {
            url: self.url@,
            name: self.name@,
            ext: self.ext@,
            total: self.total,
            transferred: self.size,
            canceled: self.is_canceled,
        }
    }
}

impl Progress {
    pub fn new(url: String, name: String, ext: String) -> (r: Progress)
        ensures
            r@ == ProgressView::fresh(url@, name@, ext@),
    {
        Progress { url, name, ext, total: 0, size: 0, is_canceled: false }
    }

    pub fn url(&self) -> (r: &str)
        ensures
            r@ == self@.url,
    {
        self.url.as_str()
    }

    pub fn title(&self) -> (r: &str)
        ensures
            r@ == self@.name,
    {
        self.name.as_str()
    }

    pub fn ext(&self) -> (r: &str)
        ensures
            r@ == self@.ext,
    {
        self.ext.as_str()
    }

    pub fn total(&self) -> (r: u64)
        ensures
            r == self@.total,
    {
        self.total
    }

    pub fn size(&self) -> (r: u64)
        ensures
            r == self@.transferred,
    {
        self.size
    }

    /// The bytes copied so far (the same count as `size`).
    pub fn current(&self) -> (r: u64)
        ensures
            r == self@.transferred,
    {
        self.size
    }

    pub fn is_canceled(&self) -> (r: bool)
        ensures
            r == self@.canceled,
    {
        self.is_canceled
    }

    /// Records the declared size; called once, before the first byte.
    pub fn set_total(&mut self, total: u64)
        ensures
            final(self)@ == old(self)@.with_total(total),
    {
        self.total = total;
    }

    /// Adds `delta` copied bytes, saturating at `u64::MAX`.
    pub fn progress(&mut self, delta: u64)
        ensures
            final(self)@ == old(self)@.advanced(delta),
    {
        self.size = self.size.saturating_add(delta);
    }

    /// The snapshot of this record under identifier `id`.
    pub fn to_item(&self, id: u128) -> (r: Item)
        ensures
            item_matches(r, id, self@),
    {
        Item {
            id: hyphenated(id),
            url: self.url.clone(),
            name: self.name.clone(),
            ext: self.ext.clone(),
            total: self.total,
            transferred: self.size,
            canceled: self.is_canceled,
        }
    }

    /// Requests cancellation; idempotent.
    pub fn cancel(&mut self)
        ensures
            final(self)@ == old(self)@.canceled(),
    {
        self.is_canceled = true;
    }
}

} // verus!
