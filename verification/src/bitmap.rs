//! Bookkeeping of the bitmaps used by layers: which handle stands for which file.
//! The pixel data itself is held next to this index by the caller.

use vstd::prelude::*;

use crate::id::{is_version7_uuid, BitmapId};

verus! {

/// `image::ImageError`, the error of decoding or reading an image file.
#[verifier::external_type_specification]
#[verifier::external_body]
pub struct ExImageError(image::ImageError);

/// A handle to a bitmap known to a [`BitmapServer`].
#[derive(Clone, Copy, Debug, PartialEq, Eq, Structural, Hash)]
pub struct BitmapHandle {
    id: BitmapId,
}

impl BitmapHandle {
    pub closed spec fn ident(self) -> BitmapId {
        self.id
    }

    pub fn id(&self) -> (r: BitmapId)
        ensures
            r == self.ident(),
    {
        self.id
    }

    pub fn from_id(id: BitmapId) -> (r: Self)
        ensures
            r.ident() == id,
    {
        BitmapHandle { id }
    }
}

/// How a bitmap is kept: embedded in the project, or linked to a file.
#[derive(Clone, Copy, Debug, PartialEq, Eq, Structural)]
pub enum LoadMode {
    Embedded,
    Linked,
}

impl Default for LoadMode {
    fn default() -> (r: Self)
        ensures
            r == LoadMode::Linked,
    {
        LoadMode::Linked
    }
}

/// Why a bitmap could not be found or loaded.
#[derive(Debug)]
pub enum BitmapError {
    ImageLoadError(image::ImageError),
    InvalidHandle(BitmapHandle),
    InvalidPath(String),
    LockPoisonError,
}

#[derive(Debug)]
enum BitmapData {
    Embedded { handle: BitmapHandle, original_path: String },
    Linked { handle: BitmapHandle, path: String },
}

/// One known bitmap: its handle, its path (the original path of an embedded one)
/// and how it is kept.
pub struct BitmapEntry {
    pub handle: BitmapHandle,
    pub path: Seq<char>,
    pub mode: LoadMode,
}

impl BitmapData {
    spec fn entry(self) -> BitmapEntry {
        match self {
            BitmapData::Embedded { handle, original_path } => BitmapEntry {
                handle,
                path: original_path@,
                mode: LoadMode::Embedded,
            },
            BitmapData::Linked { handle, path } => BitmapEntry {
                handle,
                path: path@,
                mode: LoadMode::Linked,
            },
        }
    }

    fn handle(&self) -> (r: BitmapHandle)
        ensures
            r == self.entry().handle,
    {
        match self {
            BitmapData::Embedded { handle, .. } => *handle,
            BitmapData::Linked { handle, .. } => *handle,
        }
    }
}

/// The entry is a linked bitmap with the given path.
pub open spec fn links_path(e: BitmapEntry, path: Seq<char>) -> bool {
    e.mode == LoadMode::Linked && e.path == path
}

/// `i` is the first linked entry with the given path.
pub open spec fn is_first_link(entries: Seq<BitmapEntry>, path: Seq<char>, i: int) -> bool {
    &&& 0 <= i < entries.len()
    &&& links_path(entries[i], path)
    &&& forall|k: int| 0 <= k < i ==> !links_path(entries[k], path)
}

/// The first linked entry with the given path, if any.
pub open spec fn find_link(entries: Seq<BitmapEntry>, path: Seq<char>) -> Option<int> {
    if exists|i: int| is_first_link(entries, path, i) {
        Some(choose|i: int| is_first_link(entries, path, i))
    } else {
        None
    }
}

/// A search for `path` meets only linked entries before it stops (embedded
/// bitmaps cannot be looked up by path yet).
pub open spec fn lookup_meets_links_only(entries: Seq<BitmapEntry>, path: Seq<char>) -> bool {
    forall|k: int|
        0 <= k < entries.len() && (forall|j: int| 0 <= j < k ==> !links_path(entries[j], path))
            ==> entries[k].mode == LoadMode::Linked
}

/// `i` is the first entry with the given handle.
pub open spec fn is_first_handle(entries: Seq<BitmapEntry>, handle: BitmapHandle, i: int) -> bool {
    &&& 0 <= i < entries.len()
    &&& entries[i].handle == handle
    &&& forall|k: int| 0 <= k < i ==> entries[k].handle != handle
}

/// The first entry with the given handle, if any.
pub open spec fn find_handle(entries: Seq<BitmapEntry>, handle: BitmapHandle) -> Option<int> {
    if exists|i: int| is_first_handle(entries, handle, i) {
        Some(choose|i: int| is_first_handle(entries, handle, i))
    } else {
        None
    }
}

/// No two linked entries share a path.
pub open spec fn paths_unique(entries: Seq<BitmapEntry>) -> bool {
    forall|i: int, j: int|
        0 <= i < entries.len() && 0 <= j < entries.len() && i != j && entries[i].mode
            == LoadMode::Linked && entries[j].mode == LoadMode::Linked ==> entries[i].path
            != entries[j].path
}

proof fn lemma_first_link_unique(entries: Seq<BitmapEntry>, path: Seq<char>, i: int)
    requires
        is_first_link(entries, path, i),
    ensures
        find_link(entries, path) == Some(i),
{
    let c = choose|c: int| is_first_link(entries, path, c);
    assert(is_first_link(entries, path, c));
    if c < i {
        assert(!links_path(entries[c], path));
    } else if i < c {
        assert(!links_path(entries[i], path));
    }
}

proof fn lemma_first_handle_unique(entries: Seq<BitmapEntry>, handle: BitmapHandle, i: int)
    requires
        is_first_handle(entries, handle, i),
    ensures
        find_handle(entries, handle) == Some(i),
{
    let c = choose|c: int| is_first_handle(entries, handle, c);
    assert(is_first_handle(entries, handle, c));
    if c < i {
        assert(entries[c].handle != handle);
    } else if i < c {
        assert(entries[i].handle != handle);
    }
}

/// The index of the bitmaps known to the editor.
#[derive(Debug)]
pub struct BitmapServer {
    images: Vec<BitmapData>,
}

impl View for BitmapServer {
    type V = Seq<BitmapEntry>;

    closed spec fn view(&self) -> Seq<BitmapEntry> {
        self.images@.map_values(|d: BitmapData| d.entry())
    }
}

impl Default for BitmapServer {
    fn default() -> (r: Self)
        ensures
            r@.len() == 0,
    {
        BitmapServer { images: Vec::new() }
    }
}

impl BitmapServer {
    pub fn len(&self) -> (r: usize)
        ensures
            r == self@.len(),
    {
        self.images.len()
    }

    /// The handle, load mode and path of the `i`-th known bitmap.
    pub fn entry(&self, i: usize) -> (r: (BitmapHandle, LoadMode, &String))
        requires
            i < self@.len(),
        ensures
            r.0 == self@[i as int].handle,
            r.1 == self@[i as int].mode,
            r.2@ == self@[i as int].path,
    {
        match &self.images[i] {
            BitmapData::Embedded { handle, original_path } => (*handle, LoadMode::Embedded, original_path),
            BitmapData::Linked { handle, path } => (*handle, LoadMode::Linked, path),
        }
    }

    /// Search the linked bitmaps for `path`; embedded ones cannot be searched yet.
    /// Whether a search for `path` meets only linked bitmaps before it stops, as
    /// `load` and `find_handle_from_path` need.
    pub fn path_lookup_supported(&self, path: &String) -> (r: bool)
        ensures
            r == lookup_meets_links_only(self@, path@),
    {
        let mut i: usize = 0;
        while i < self.images.len()
            invariant
                i <= self@.len(),
                self@.len() == self.images.len(),
                forall|k: int|
                    0 <= k < i ==> self@[k].mode == LoadMode::Linked && !links_path(self@[k], path@),
            decreases self.images.len() - i,
        {
            assert(self@[i as int] == self.images@[i as int].entry());
            match &self.images[i] {
                BitmapData::Embedded { .. } => {
                    proof {
                        let e = self@;
                        assert(forall|j: int| 0 <= j < i ==> !links_path(e[j], path@));
                        assert(e[i as int].mode != LoadMode::Linked);
                        assert(!lookup_meets_links_only(e, path@));
                    }
                    return false;
                },
                BitmapData::Linked { path: p, .. } => {
                    if *p == *path {
                        proof {
                            let e = self@;
                            assert(links_path(e[i as int], path@));
                            assert forall|k: int|
                                0 <= k < e.len() && (forall|j: int|
                                    0 <= j < k ==> !links_path(e[j], path@)) implies e[k].mode
                                == LoadMode::Linked by {
                                if k > i {
                                    assert(!links_path(e[i as int], path@));
                                }
                            }
                        }
                        return true;
                    }
                },
            }
            i = i + 1;
        }
        true
    }

    fn find_path_index(&self, path: &String) -> (r: Option<usize>)
        requires
            lookup_meets_links_only(self@, path@),
        ensures
            match r {
                Some(i) => find_link(self@, path@) == Some(i as int),
                None => find_link(self@, path@) is None,
            },
    {
        let mut i: usize = 0;
        while i < self.images.len()
            invariant
                i <= self@.len(),
                self@.len() == self.images.len(),
                lookup_meets_links_only(self@, path@),
                forall|k: int| 0 <= k < i ==> !links_path(self@[k], path@),
            decreases self.images.len() - i,
        {
            assert(self@[i as int] == self.images@[i as int].entry());
            match &self.images[i] {
                BitmapData::Embedded { .. } => {
                    assert(self@[i as int].mode == LoadMode::Linked);
                    assert(false);
                },
                BitmapData::Linked { path: p, .. } => {
                    if *p == *path {
                        proof {
                            assert(is_first_link(self@, path@, i as int));
                            lemma_first_link_unique(self@, path@, i as int);
                        }
                        return Some(i);
                    }
                },
            }
            i = i + 1;
        }
        proof {
            assert forall|c: int| !is_first_link(self@, path@, c) by {
                if is_first_link(self@, path@, c) {
                    assert(!links_path(self@[c], path@));
                }
            }
        }
        None
    }

    /// The position of the first bitmap with the given handle.
    fn find_handle_index(&self, handle: BitmapHandle) -> (r: Option<usize>)
        ensures
            match r {
                Some(i) => find_handle(self@, handle) == Some(i as int),
                None => find_handle(self@, handle) is None,
            },
    {
        let mut i: usize = 0;
        while i < self.images.len()
            invariant
                i <= self@.len(),
                self@.len() == self.images.len(),
                forall|k: int| 0 <= k < i ==> self@[k].handle != handle,
            decreases self.images.len() - i,
        {
            assert(self@[i as int] == self.images@[i as int].entry());
            if self.images[i].handle() == handle {
                proof {
                    assert(is_first_handle(self@, handle, i as int));
                    lemma_first_handle_unique(self@, handle, i as int);
                }
                return Some(i);
            }
            i = i + 1;
        }
        proof {
            assert forall|c: int| !is_first_handle(self@, handle, c) by {
                if is_first_handle(self@, handle, c) {
                    assert(self@[c].handle != handle);
                }
            }
        }
        None
    }

    /// Register the linked bitmap at `path` and give its handle: the handle it
    /// already has when the path is known, else a fresh one for a new entry at the
    /// end.
    pub fn load(&mut self, path: &String, load_mode: LoadMode) -> (r: BitmapHandle)
        requires
            load_mode == LoadMode::Linked,
            lookup_meets_links_only(old(self)@, path@),
        ensures
            final(self)@ == after_load(old(self)@, path@, r),
            r == loaded_handle(old(self)@, path@, r),
            match find_link(old(self)@, path@) {
                Some(i) => {
                    &&& r == old(self)@[i].handle
                    &&& final(self)@ == old(self)@
                },
                None => {
                    &&& is_version7_uuid(r.ident().value())
                    &&& final(self)@ == old(self)@.push(
                        BitmapEntry { handle: r, path: path@, mode: LoadMode::Linked },
                    )
                },
            },
    {
        match self.find_path_index(path) {
            Some(i) => {
                assert(self@[i as int] == self.images@[i as int].entry());
                self.images[i].handle()
            },
            None => {
                let handle = BitmapHandle { id: BitmapId::new() };
                self.images.push(BitmapData::Linked { handle, path: path.clone() });
                assert(self@ =~= old(self)@.push(
                    BitmapEntry { handle, path: path@, mode: LoadMode::Linked },
                ));
                handle
            },
        }
    }

    /// The handle of the linked bitmap at `path`.
    pub fn find_handle_from_path(&self, path: &String) -> (r: Result<BitmapHandle, BitmapError>)
        requires
            lookup_meets_links_only(self@, path@),
        ensures
            match find_link(self@, path@) {
                Some(i) => r matches Ok(h) && h == self@[i].handle,
                None => r matches Err(BitmapError::InvalidPath(p)) && p@ == path@,
            },
    {
        match self.find_path_index(path) {
            Some(i) => {
                assert(self@[i as int] == self.images@[i as int].entry());
                Ok(self.images[i].handle())
            },
            None => Err(BitmapError::InvalidPath(path.clone())),
        }
    }

    /// How the bitmap with the given handle is kept.
    pub fn get_load_mode(&self, handle: BitmapHandle) -> (r: Result<LoadMode, BitmapError>)
        ensures
            match find_handle(self@, handle) {
                Some(i) => r matches Ok(m) && m == self@[i].mode,
                None => r matches Err(BitmapError::InvalidHandle(h)) && h == handle,
            },
    {
        match self.find_handle_index(handle) {
            Some(i) => {
                assert(self@[i as int] == self.images@[i as int].entry());
                match &self.images[i] {
                    BitmapData::Embedded { .. } => Ok(LoadMode::Embedded),
                    BitmapData::Linked { .. } => Ok(LoadMode::Linked),
                }
            },
            None => Err(BitmapError::InvalidHandle(handle)),
        }
    }

    /// Forget every bitmap with the given handle; linked bitmaps only (embedded
    /// ones cannot be removed yet).
    pub fn remove(&mut self, handle: BitmapHandle) -> (r: Result<(), BitmapError>)
        requires
            match find_handle(old(self)@, handle) {
                Some(i) => old(self)@[i].mode == LoadMode::Linked,
                None => true,
            },
        ensures
            match find_handle(old(self)@, handle) {
                Some(i) => {
                    &&& r is Ok
                    &&& final(self)@ == without_handle(old(self)@, handle)
                },
                None => {
                    &&& r matches Err(BitmapError::InvalidHandle(h)) && h == handle
                    &&& final(self)@ == old(self)@
                },
            },
    {
        match self.get_load_mode(handle) {
            Err(e) => Err(e),
            Ok(_) => {
                let ghost orig = old(self)@;
                let ghost pred = |e: BitmapEntry| e.handle != handle;
                let mut rest: Vec<BitmapData> = Vec::new();
                std::mem::swap(&mut rest, &mut self.images);
                let ghost n = rest@.len();
                assert(n == rest.len());
                assert(rest@.map_values(|d: BitmapData| d.entry()) =~= orig.skip(0));
                assert(orig.take(0).filter(pred) =~= Seq::<BitmapEntry>::empty());
                assert(self@ =~= Seq::<BitmapEntry>::empty());
                let mut i: usize = 0;
                while rest.len() > 0
                    invariant
                        orig == old(self)@,
                        pred == (|e: BitmapEntry| e.handle != handle),
                        n == orig.len(),
                        n <= usize::MAX,
                        i + rest@.len() == n,
                        rest@.map_values(|d: BitmapData| d.entry()) == orig.skip(i as int),
                        self@ == orig.take(i as int).filter(pred),
                    decreases rest.len(),
                {
                    reveal_with_fuel(Seq::filter, 1);
                    assert(orig.take(i + 1).drop_last() =~= orig.take(i as int));
                    assert(orig.take(i + 1).last() == orig[i as int]);
                    assert(orig.skip(i as int)[0] == orig[i as int]);
                    assert(rest@[0].entry() == orig[i as int]);
                    let ghost prev = rest@;
                    let d = rest.remove(0);
                    assert(d == prev[0]);
                    assert(d.entry() == orig[i as int]);
                    assert forall|k: int| 0 <= k < rest@.len() implies rest@[k].entry() == orig.skip(
                        i + 1,
                    )[k] by {
                        assert(rest@[k] == prev[k + 1]);
                        assert(prev.map_values(|d: BitmapData| d.entry())[k + 1] == orig.skip(
                            i as int,
                        )[k + 1]);
                    }
                    assert(rest@.map_values(|d: BitmapData| d.entry()) =~= orig.skip(i + 1));
                    let ghost before = self@;
                    let keep = !(d.handle() == handle);
                    if keep {
                        self.images.push(d);
                    }
                    proof {
                        reveal(Seq::filter);
                        let t = orig.take(i + 1);
                        assert(t.len() > 0);
                        assert(t.filter(pred) == if pred(t.last()) {
                            t.drop_last().filter(pred).push(t.last())
                        } else {
                            t.drop_last().filter(pred)
                        });
                        assert(pred(orig[i as int]) == keep);
                        if keep {
                            assert(self@ =~= before.push(orig[i as int]));
                        } else {
                            assert(self@ =~= before);
                        }
                    }
                    i = i + 1;
                }
                assert(orig.take(n as int) =~= orig);
                Ok(())
            },
        }
    }
}

/// The known bitmaps without those with the given handle, in the same order.
pub open spec fn without_handle(entries: Seq<BitmapEntry>, handle: BitmapHandle) -> Seq<BitmapEntry> {
    entries.filter(|e: BitmapEntry| e.handle != handle)
}

/// After a bitmap is removed its handle is no longer found, and every other
/// bitmap is still known.
pub proof fn lemma_remove_then_lookup(entries: Seq<BitmapEntry>, handle: BitmapHandle, other: BitmapEntry)
    ensures
        find_handle(without_handle(entries, handle), handle) is None,
        entries.contains(other) && other.handle != handle ==> without_handle(entries, handle).contains(
            other,
        ),
{
    let pred = |e: BitmapEntry| e.handle != handle;
    let kept = entries.filter(pred);
    assert forall|c: int| !is_first_handle(kept, handle, c) by {
        if 0 <= c < kept.len() {
            entries.lemma_filter_pred(pred, c);
        }
    }
    if entries.contains(other) && other.handle != handle {
        let i = choose|i: int| 0 <= i < entries.len() && entries[i] == other;
        entries.lemma_filter_contains(pred, i);
    }
}

/// The known bitmaps after loading the linked bitmap at `path`, where `fresh` is
/// the handle given to it when it is new.
pub open spec fn after_load(entries: Seq<BitmapEntry>, path: Seq<char>, fresh: BitmapHandle) -> Seq<BitmapEntry> {
    match find_link(entries, path) {
        Some(_) => entries,
        None => entries.push(BitmapEntry { handle: fresh, path, mode: LoadMode::Linked }),
    }
}

/// The handle that loading the linked bitmap at `path` gives.
pub open spec fn loaded_handle(entries: Seq<BitmapEntry>, path: Seq<char>, fresh: BitmapHandle) -> BitmapHandle {
    match find_link(entries, path) {
        Some(i) => entries[i].handle,
        None => fresh,
    }
}

proof fn lemma_first_link_exists(entries: Seq<BitmapEntry>, path: Seq<char>, k: int)
    requires
        0 <= k < entries.len(),
        links_path(entries[k], path),
    ensures
        find_link(entries, path) is Some,
        is_first_link(entries, path, find_link(entries, path)->0),
    decreases k,
{
    if forall|j: int| 0 <= j < k ==> !links_path(entries[j], path) {
        assert(is_first_link(entries, path, k));
    } else {
        let j = choose|j: int| 0 <= j < k && links_path(entries[j], path);
        lemma_first_link_exists(entries, path, j);
    }
}

/// After a bitmap is loaded, looking its path up finds the handle the load gave,
/// a later lookup still meets linked bitmaps only, and no two linked bitmaps
/// share a path if none did before.  So loading the same path again gives the
/// same handle and adds nothing.
pub proof fn lemma_load_then_find(entries: Seq<BitmapEntry>, path: Seq<char>, fresh: BitmapHandle)
    requires
        lookup_meets_links_only(entries, path),
    ensures
        lookup_meets_links_only(after_load(entries, path, fresh), path),
        find_link(after_load(entries, path, fresh), path) matches Some(j) && after_load(
            entries,
            path,
            fresh,
        )[j].handle == loaded_handle(entries, path, fresh),
        after_load(after_load(entries, path, fresh), path, fresh) == after_load(entries, path, fresh),
        paths_unique(entries) ==> paths_unique(after_load(entries, path, fresh)),
{
    let after = after_load(entries, path, fresh);
    match find_link(entries, path) {
        Some(i) => {
            assert(exists|c: int| is_first_link(entries, path, c));
            assert(is_first_link(entries, path, i));
        },
        None => {
            assert forall|k: int| 0 <= k < entries.len() implies !links_path(entries[k], path) by {
                if links_path(entries[k], path) {
                    lemma_first_link_exists(entries, path, k);
                }
            }
            let n = entries.len() as int;
            assert(after[n] == BitmapEntry { handle: fresh, path, mode: LoadMode::Linked });
            assert(is_first_link(after, path, n));
            lemma_first_link_unique(after, path, n);
            assert forall|k: int|
                0 <= k < after.len() && (forall|j: int| 0 <= j < k ==> !links_path(after[j], path))
                    implies after[k].mode == LoadMode::Linked by {
                if k < n {
                    assert forall|j: int| 0 <= j < k implies !links_path(entries[j], path) by {
                        assert(after[j] == entries[j]);
                    }
                    assert(after[k] == entries[k]);
                }
            }
        },
    }
}

} // verus!
