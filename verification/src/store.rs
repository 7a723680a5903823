//! Application-local storage: opaque retained-event cursors and an atomic
//! in-memory view store.
use vstd::prelude::*;

use crate::keyed::TextMap;
use crate::text::copy_bytes;

verus! {

/// A retained-event cursor opaque to doctrine code.
#[derive(Clone, Debug, PartialEq, Eq)]
pub struct EventCursor(String);

impl EventCursor {
    pub closed spec fn text(&self) -> Seq<char> {
        self.0@
    }

    pub fn new(value: &str) -> (r: Self)
        ensures
            r.text() == value@,
    {
        EventCursor(String::from_str(value))
    }

    pub fn as_str(&self) -> (r: &str)
        ensures
            r@ == self.text(),
    {
        self.0.as_str()
    }
}

/// Opaque application view bytes associated with one retained-event cursor.
#[derive(Clone, Debug, PartialEq, Eq)]
pub struct ViewCommit {
    pub view: String,
    pub cursor: String,
    pub bytes: Vec<u8>,
}

/// Stored cursor and view loaded atomically.
#[derive(Clone, Debug, PartialEq, Eq)]
pub struct StoredView {
    pub cursor: String,
    pub bytes: Vec<u8>,
}

/// The content of a stored view.
pub struct StoredContent {
    pub cursor: Seq<char>,
    pub bytes: Seq<u8>,
}

impl View for StoredView {
    type V = StoredContent;

    open spec fn view(&self) -> StoredContent {
        StoredContent { cursor: self.cursor@, bytes: self.bytes@ }
    }
}

#[derive(Clone, Debug, PartialEq, Eq)]
pub enum StoreError {
    Failed(String),
}

/// Deterministic memory store: one cursor and view per view name.
#[derive(Debug)]
pub struct MemoryLocalStore {
    views: TextMap<StoredView>,
}

fn copy_stored(v: &StoredView) -> (r: StoredView)
    ensures
        r@ == v@,
{
    StoredView { cursor: v.cursor.clone(), bytes: copy_bytes(&v.bytes) }
}

impl MemoryLocalStore {
    pub closed spec fn wf(&self) -> bool {
        self.views.wf()
    }

    /// View name to stored content.
    pub closed spec fn contents(&self) -> Map<Seq<char>, StoredContent> {
        self.views.view_map().map_values(|v: StoredView| v@)
    }

    pub fn new() -> (r: Self)
        ensures
            r.wf(),
            r.contents() == Map::<Seq<char>, StoredContent>::empty(),
    {
        let r = MemoryLocalStore { views: TextMap::new() };
        assert(r.contents() =~= Map::<Seq<char>, StoredContent>::empty());
        r
    }

    /// Replaces a view's cursor and bytes together.
    pub fn commit_view(&mut self, commit: ViewCommit) -> (r: Result<(), StoreError>)
        requires
            old(self).wf(),
        ensures
            final(self).wf(),
            r is Ok,
            final(self).contents() == old(self).contents().insert(
                commit.view@,
                StoredContent { cursor: commit.cursor@, bytes: commit.bytes@ },
            ),
    {
        let ghost content = StoredContent { cursor: commit.cursor@, bytes: commit.bytes@ };
        self.views.upsert(commit.view, StoredView { cursor: commit.cursor, bytes: commit.bytes });
        assert(self.contents() =~= old(self).contents().insert(commit.view@, content));
        Ok(())
    }

    /// Loads a view's cursor and bytes, if the view was committed.
    pub fn load_view(&self, view: &str) -> (r: Result<Option<StoredView>, StoreError>)
        requires
            self.wf(),
        ensures
            match r {
                Ok(Some(stored)) => self.contents().contains_key(view@) && self.contents()[view@] == stored@,
                Ok(None) => !self.contents().contains_key(view@),
                Err(_) => false,
            },
    {
        let key = String::from_str(view);
        match self.views.get(&key) {
            Some(stored) => Ok(Some(copy_stored(stored))),
            None => Ok(None),
        }
    }
}

impl Default for MemoryLocalStore {
    fn default() -> (r: Self)
        ensures
            r.wf(),
            r.contents() == Map::<Seq<char>, StoredContent>::empty(),
    {
        MemoryLocalStore::new()
    }
}

/// A load returns exactly what the latest commit of that view stored, and a
/// commit leaves every other view as it was.
pub proof fn law_load_returns_latest_commit(
    before: Map<Seq<char>, StoredContent>,
    view: Seq<char>,
    content: StoredContent,
    other: Seq<char>,
)
    ensures
        before.insert(view, content).contains_key(view),
        before.insert(view, content)[view] == content,
        other != view ==> before.insert(view, content).contains_key(other) == before.contains_key(other),
        other != view && before.contains_key(other) ==> before.insert(view, content)[other] == before[other],
{
}

} // verus!
