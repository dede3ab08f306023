//! Objects of a bucket, and what can happen to them between two runs.
use crate::timestamp::{Instant, Timestamp};
use crate::views::viewed;
use vstd::prelude::*;

verus! {

/// Represents an S3 object with its metadata
#[derive(Debug, PartialEq)]
pub struct S3Object {
    /// S3 object key (path)
    pub key: String,
    /// ETag for version tracking
    pub etag: String,
    /// Object size in bytes
    pub size: i64,
    /// Last modification timestamp
    pub last_modified: Timestamp,
}

/// What an [`S3Object`] stands for.
pub struct ObjectView {
    pub key: Seq<char>,
    pub etag: Seq<char>,
    pub size: i64,
    pub last_modified: Instant,
}

impl View for S3Object {
    type V = ObjectView;

    open spec fn view(&self) -> ObjectView {
        ObjectView {
            key: self.key@,
            etag: self.etag@,
            size: self.size,
            last_modified: self.last_modified@,
        }
    }
}

impl Clone for S3Object {
    fn clone(&self) -> (copy: S3Object)
        ensures
            copy@ == self@,
    {
        S3Object {
            key: self.key.clone(),
            etag: self.etag.clone(),
            size: self.size,
            last_modified: self.last_modified,
        }
    }
}

/// A difference between a bucket and the recorded state of it.
#[derive(Debug, PartialEq)]
pub enum Change {
    Added(S3Object),
    Modified { old: S3Object, new: S3Object },
    Deleted(S3Object),
}

/// What a [`Change`] stands for.
pub enum ChangeView {
    Added(ObjectView),
    Modified { old: ObjectView, new: ObjectView },
    Deleted(ObjectView),
}

impl View for Change {
    type V = ChangeView;

    open spec fn view(&self) -> ChangeView {
        match self {
            Change::Added(object) => ChangeView::Added(object@),
            Change::Modified { old, new } => ChangeView::Modified { old: old@, new: new@ },
            Change::Deleted(object) => ChangeView::Deleted(object@),
        }
    }
}

impl ChangeView {
    /// The key of the object that changed.
    pub open spec fn key(self) -> Seq<char> {
        match self {
            ChangeView::Added(object) => object.key,
            ChangeView::Modified { old, new } => new.key,
            ChangeView::Deleted(object) => object.key,
        }
    }
}

/// One entry of a bucket listing, as the service answered it: any of its fields may be missing.
#[derive(Debug)]
pub struct ListedObject {
    pub key: Option<String>,
    pub e_tag: Option<String>,
    pub size: Option<i64>,
    /// Seconds since the epoch, and nanoseconds since the last whole second.
    pub last_modified: Option<(i64, u32)>,
}

/// What a [`ListedObject`] stands for.
pub struct ListedView {
    pub key: Option<Seq<char>>,
    pub e_tag: Option<Seq<char>>,
    pub size: Option<i64>,
    pub last_modified: Option<(i64, u32)>,
}

impl View for ListedObject {
    type V = ListedView;

    open spec fn view(&self) -> ListedView {
        ListedView {
            key: viewed(self.key),
            e_tag: viewed(self.e_tag),
            size: self.size,
            last_modified: self.last_modified,
        }
    }
}

} // verus!
