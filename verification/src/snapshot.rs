//! Comparing a page with the snapshot kept of it: the status of a resource
//! and what becomes of its snapshot.

use vstd::prelude::*;
use vstd::string::StringExecFns;
use crate::canonical::{canonical_form, serialized, CanonicalDocument, Canonicalizer};
use crate::error::{Error, ErrorView};
use crate::outside::{parsed_nodes, NodeSlot};
use crate::text::{decimal, decimal_string};

verus! {

/// How a resource stands against its snapshot.
#[derive(Debug, Clone, Copy, PartialEq, Eq, Structural)]
pub enum Status {
    /// The page equals its snapshot.
    NoUpdates,
    /// There was no snapshot.
    FirstFetched,
    /// The page differs from its snapshot.
    Updated,
}

impl Status {
    /// The token that stands for this status in machine-readable output.
    pub open spec fn label_text(self) -> Seq<char> {
        match self {
            Status::NoUpdates => "NoUpdates"@,
            Status::FirstFetched => "FirstFetched"@,
            Status::Updated => "Updated"@,
        }
    }

    /// The status that a comparison with the prior document comes to;
    /// `None` stands for no prior document.
    pub fn from_comparison(same_as_prior: Option<bool>) -> (status: Status)
        ensures
            status == status_of(same_as_prior),
    {
        match same_as_prior {
            None => Status::FirstFetched,
            Some(true) => Status::NoUpdates,
            Some(false) => Status::Updated,
        }
    }

    /// Whether a snapshot has to be written for a resource of this status:
    /// for every status but that of no updates.
    pub fn needs_snapshot(&self) -> (needed: bool)
        ensures
            needed == (*self != Status::NoUpdates),
    {
        match self {
            Status::NoUpdates => false,
            _ => true,
        }
    }

    /// The token that stands for this status in machine-readable output.
    pub fn label(&self) -> (text: &'static str)
        ensures
            text@ == self.label_text(),
    {
        match self {
            Status::NoUpdates => "NoUpdates",
            Status::FirstFetched => "FirstFetched",
            Status::Updated => "Updated",
        }
    }
}

/// The status that a comparison comes to: first fetched where there was
/// nothing to compare with, no updates where the two were equal, updated
/// where they were not.
pub open spec fn status_of(same_as_prior: Option<bool>) -> Status {
    match same_as_prior {
        None => Status::FirstFetched,
        Some(true) => Status::NoUpdates,
        Some(false) => Status::Updated,
    }
}

/// The status of a document against the one kept before, if any.
pub open spec fn classified(prior: Option<Seq<NodeSlot>>, current: Seq<NodeSlot>) -> Status {
    match prior {
        None => status_of(None),
        Some(kept) => status_of(Some(kept == current)),
    }
}

/// The tree of a document that may be absent.
pub open spec fn tree_of(doc: Option<&CanonicalDocument>) -> Option<Seq<NodeSlot>> {
    match doc {
        Some(d) => Some(d@),
        None => None,
    }
}

/// Classifies a document against the one kept before: first fetched where
/// there is none, no updates where the trees are equal, updated otherwise.
pub fn classify(prior: Option<&CanonicalDocument>, current: &CanonicalDocument) -> (status:
    Status)
    ensures
        status == classified(tree_of(prior), current@),
{
    match prior {
        None => Status::from_comparison(None),
        Some(kept) => Status::from_comparison(Some(kept.same_as(current))),
    }
}

/// What the check of one resource found: its status, and the markup to
/// store as its snapshot where the snapshot has to be written.
pub struct Assessment {
    pub status: Status,
    pub snapshot: Option<String>,
}

/// The view of an optional string.
pub open spec fn text_of(text: Option<String>) -> Option<Seq<char>> {
    match text {
        Some(t) => Some(t@),
        None => None,
    }
}

/// The view of an optional string slice.
pub open spec fn slice_of(text: Option<&str>) -> Option<Seq<char>> {
    match text {
        Some(t) => Some(t@),
        None => None,
    }
}

/// What an assessment found, as a plain value: the status and the markup to
/// store, if any.
pub type Finding = (Status, Option<Seq<char>>);

/// The document that a stored markup loads as, if there is one.
pub open spec fn loaded(stored: Option<Seq<char>>) -> Option<Seq<NodeSlot>> {
    match stored {
        Some(markup) => Some(parsed_nodes(markup)),
        None => None,
    }
}

/// The status of a document against the stored markup, if any, and the
/// markup to store: none where there are no updates, that of the document
/// otherwise.
pub open spec fn assessed(stored: Option<Seq<char>>, current: Seq<NodeSlot>) -> Finding {
    let status = classified(loaded(stored), current);
    if status == Status::NoUpdates {
        (status, None)
    } else {
        (status, serialized(current))
    }
}

/// What a snapshot store holds for a resource after a check: the markup to
/// store where one was given, what it held before otherwise.
pub open spec fn stored_after(stored: Option<Seq<char>>, snapshot: Option<Seq<char>>) -> Option<
    Seq<char>,
> {
    match snapshot {
        Some(markup) => Some(markup),
        None => stored,
    }
}

/// A snapshot store as a plain value: the markup kept for each resource, by
/// its id.
pub type Store = Map<u64, Seq<char>>;

/// What a store keeps for a resource, if anything.
pub open spec fn kept_in(store: Store, id: u64) -> Option<Seq<char>> {
    if store.dom().contains(id) {
        Some(store[id])
    } else {
        None
    }
}

/// A store after the check of one resource: the markup to store, where one
/// was given, stands in place of what was kept for that resource, and
/// nothing else changes.
pub open spec fn store_after_check(store: Store, id: u64, snapshot: Option<Seq<char>>) -> Store {
    match snapshot {
        Some(markup) => store.insert(id, markup),
        None => store,
    }
}

/// An assessment as a plain value.
pub open spec fn finding_of(found: Assessment) -> Finding {
    (found.status, text_of(found.snapshot))
}

/// A result that holds an assessment, as a plain value.
pub open spec fn finding_view(found: Result<Assessment, Error>) -> Result<Finding, ErrorView> {
    match found {
        Ok(a) => Ok(finding_of(a)),
        Err(error) => Err(error@),
    }
}

/// Assesses a document against the markup stored for its resource: the
/// stored markup is parsed and compared with the document.
pub fn assess(stored: Option<&str>, current: &CanonicalDocument) -> (found: Assessment)
    ensures
        finding_of(found) == assessed(slice_of(stored), current@),
{
    let status = match stored {
        None => classify(None, current),
        Some(text) => {
            let kept = CanonicalDocument::from_markup(text);
            classify(Some(&kept), current)
        },
    };
    if status.needs_snapshot() {
        let markup = String::from_str(current.markup());
        Assessment { status, snapshot: Some(markup) }
    } else {
        Assessment { status, snapshot: None }
    }
}

/// What the check of a raw page comes to: the failure of a page without a
/// canonical form, or the assessment of its canonical form.
pub open spec fn checked(
    raw: Seq<char>,
    token: Seq<char>,
    stored: Option<Seq<char>>,
    canonicalizer: &Canonicalizer,
) -> Result<Finding, ErrorView> {
    match canonical_form(raw, token, canonicalizer.anchor_rules(), canonicalizer.noise_rules()) {
        Err(error) => Err(error),
        Ok(current) => Ok(assessed(stored, current)),
    }
}

/// Checks one fetched page against the markup stored for its resource: the
/// page is brought into canonical form and assessed.
pub fn check_page(
    canonicalizer: &Canonicalizer,
    raw: &str,
    volatile_token: &str,
    stored: Option<&str>,
) -> (found: Result<Assessment, Error>)
    ensures
        finding_view(found) == checked(raw@, volatile_token@, slice_of(stored), canonicalizer),
{
    match canonicalizer.canonicalize(raw, volatile_token) {
        Ok(current) => Ok(assess(stored, &current)),
        Err(error) => Err(error),
    }
}

/// The name of the file that holds the snapshot of a resource.
pub open spec fn snapshot_file_name_text(id: u64) -> Seq<char> {
    decimal(id as nat) + ".html"@
}

/// The name of the file that holds the snapshot of a resource: its id in
/// decimal, with the extension of a markup file.
pub fn snapshot_file_name(id: u64) -> (name: String)
    ensures
        name@ == snapshot_file_name_text(id),
{
    let mut name = decimal_string(id);
    name.append(".html");
    name
}

} // verus!
