//! Record tables kept in files: the free list that tracks which slots of a
//! table hold records, per-record versions, and the table itself.

use vstd::prelude::*;
use core::marker::PhantomData;
use crate::clock::{reading_wf, utc_now};
use crate::text::{append_str, decimal, push_decimal, signed_decimal, signed_decimal_string};

pub mod id;
pub mod types;

verus! {

// ----------------------------------------------------------------------
// Binary encoding
// ----------------------------------------------------------------------

/// The two little-endian bytes of `x`.
pub open spec fn le_u16(x: u16) -> Seq<u8> {
    seq![(x % 256) as u8, (x / 256) as u8]
}

/// The four little-endian bytes of `x`.
pub open spec fn le_u32(x: u32) -> Seq<u8> {
    seq![
        (x % 256) as u8,
        ((x / 256) % 256) as u8,
        ((x / 65536) % 256) as u8,
        (x / 16777216) as u8,
    ]
}

/// The stored form of a free-list entry: its start, then its end.
pub open spec fn free_bytes(f: Free) -> Seq<u8> {
    le_u16(f.start) + le_u16(f.end)
}

/// Encodes the pair `(a, b)` with `bincode::serialize`. Claims: with
/// bincode's default (fixed-width, little-endian) encoding a `u16` takes its
/// two little-endian bytes and a tuple is its elements in order.
#[verifier::external_body]
fn bincode_u16_pair(a: u16, b: u16) -> (r: Vec<u8>)
    ensures
        r@ == le_u16(a) + le_u16(b),
{
    bincode::serialize(&(a, b)).unwrap()
}

/// Encodes `x` with `bincode::serialize`. Claims: with bincode's default
/// (fixed-width, little-endian) encoding a `u32` takes its four
/// little-endian bytes.
#[verifier::external_body]
fn bincode_u32(x: u32) -> (r: Vec<u8>)
    ensures
        r@ == le_u32(x),
{
    bincode::serialize(&x).unwrap()
}

// ----------------------------------------------------------------------
// Tables
// ----------------------------------------------------------------------

/// What identifies a table and the size of its records.
#[derive(Debug, Clone, Copy, PartialEq, Eq, Structural)]
pub struct TableInfo {
    table_id: u16,
    element_size: u16,
}

impl TableInfo {
    /// The number of bytes that a stored `TableInfo` takes.
    pub fn buffer_size() -> (r: u16)
        ensures
            r == 4,
    {
        let info = TableInfo { table_id: 0, element_size: 0 };
        let bytes = bincode_u16_pair(info.table_id, info.element_size);
        bytes.len() as u16
    }
}

/// A run of slots `start..=end` of a table.
#[derive(Debug, Clone, Copy, PartialEq, Eq, Structural)]
pub struct Free {
    pub start: u16,
    pub end: u16,
}

impl Default for Free {
    fn default() -> (r: Self)
        ensures
            r == (Free { start: 0, end: 0 }),
    {
        Free { start: 0, end: 0 }
    }
}

/// A write that a change of a stored list asks for: the record at position
/// `index` of a file whose records start `offset` bytes in, and its bytes.
#[derive(Debug)]
pub struct FileElement {
    pub index: usize,
    pub offset: usize,
    pub data: Vec<u8>,
}

/// Whether a record is written over its slot or inserted before it.
#[derive(Debug)]
pub enum FileIntention {
    Update(FileElement),
    Insert(FileElement),
}

/// A write, as plain values: whether it inserts, where, and what.
pub struct WriteView {
    pub insert: bool,
    pub index: int,
    pub offset: int,
    pub data: Seq<u8>,
}

impl FileIntention {
    /// This write as plain values.
    pub open spec fn view_of(self) -> WriteView {
        match self {
            FileIntention::Update(e) => WriteView {
                insert: false,
                index: e.index as int,
                offset: e.offset as int,
                data: e.data@,
            },
            FileIntention::Insert(e) => WriteView {
                insert: true,
                index: e.index as int,
                offset: e.offset as int,
                data: e.data@,
            },
        }
    }
}

/// The writes of a list of intentions, as plain values.
pub open spec fn writes_of(ws: Seq<FileIntention>) -> Seq<WriteView> {
    ws.map_values(|w: FileIntention| w.view_of())
}

/// Overwrite of the free-list entry `index` with `f`.
pub open spec fn entry_write(index: int, offset: int, f: Free) -> WriteView {
    WriteView { insert: false, index, offset, data: free_bytes(f) }
}

/// Overwrite of the stored count with `size`.
pub open spec fn size_write(size: u32) -> WriteView {
    WriteView { insert: false, index: 0, offset: 0, data: le_u32(size) }
}

fn update_entry(index: usize, offset: usize, f: Free) -> (r: FileIntention)
    ensures
        r.view_of() == entry_write(index as int, offset as int, f),
{
    FileIntention::Update(FileElement { index, offset, data: bincode_u16_pair(f.start, f.end) })
}

fn update_size(size: u32) -> (r: FileIntention)
    ensures
        r.view_of() == size_write(size),
{
    FileIntention::Update(FileElement { index: 0, offset: 0, data: bincode_u32(size) })
}

/// The slots of a table that hold records, as runs `start..=end`, with the
/// number of records, stored in the file `name` after a count of `offset`
/// bytes.
pub struct FreeList {
    name: String,
    size: u32,
    vec: Vec<Free>,
    offset: usize,
}

// ----------------------------------------------------------------------
// Free-list model
// ----------------------------------------------------------------------

/// The runs are ordered, each run is non-empty, and between two runs at
/// least one slot is free.
pub open spec fn runs_wf(v: Seq<Free>) -> bool {
    &&& forall|k: int| 0 <= k < v.len() ==> (#[trigger] v[k]).start <= v[k].end
    &&& forall|j: int, k: int| 0 <= j < k < v.len() ==> #[trigger] v[j].end + 1 < #[trigger] v[k].start
}

/// Slot `i` lies in one of the runs.
pub open spec fn occupied(v: Seq<Free>, i: int) -> bool {
    exists|k: int| 0 <= k < v.len() && (#[trigger] v[k]).start <= i <= v[k].end
}

/// The first run, from `k` on, whose end lies after slot `idx`.
pub open spec fn first_hit_from(v: Seq<Free>, idx: u16, k: int) -> Option<int>
    decreases v.len() - k,
{
    if k < 0 || k >= v.len() {
        None
    } else if idx < v[k].end {
        Some(k)
    } else {
        first_hit_from(v, idx, k + 1)
    }
}

/// The first run whose end lies after slot `idx`.
pub open spec fn first_hit(v: Seq<Free>, idx: u16) -> Option<int> {
    first_hit_from(v, idx, 0)
}

/// `remove(idx)` finds a run that it shortens or splits.
pub open spec fn frees_slot(v: Seq<Free>, idx: u16) -> bool {
    match first_hit(v, idx) {
        Some(k) => v[k].start <= idx,
        None => false,
    }
}

/// The runs after `push`, and the slot it hands out (none when the list has
/// one run, which then grows by one slot at its end).
pub open spec fn pushed_runs(v: Seq<Free>) -> (Seq<Free>, Option<u16>) {
    let n = v.len() as int;
    if n > 1 {
        let ns = (v[n - 1].start - 1) as u16;
        if v[n - 2].end + 1 == ns {
            (v.take(n - 2).push(Free { start: v[n - 2].start, end: v[n - 1].end }), Some(ns))
        } else {
            (v.update(n - 1, Free { start: ns, end: v[n - 1].end }), Some(ns))
        }
    } else {
        (v.update(0, Free { start: v[0].start, end: (v[0].end + 1) as u16 }), None)
    }
}

/// The writes that `push` asks for.
pub open spec fn push_writes(v: Seq<Free>, offset: int, size: u32) -> Seq<WriteView> {
    let n = v.len() as int;
    let nv = pushed_runs(v).0;
    if n > 1 {
        let ns = (v[n - 1].start - 1) as u16;
        if v[n - 2].end + 1 == ns {
            seq![entry_write(n - 2, offset, nv[n - 2]), size_write(size)]
        } else {
            seq![entry_write(n - 1, offset, nv[n - 1]), size_write(size)]
        }
    } else {
        seq![entry_write(0, offset, nv[0]), size_write(size)]
    }
}

/// The runs after `remove(idx)`.
pub open spec fn removed_runs(v: Seq<Free>, idx: u16) -> Seq<Free> {
    match first_hit(v, idx) {
        Some(k) => if idx < v[k].start {
            v
        } else if idx == v[k].start {
            v.update(k, Free { start: (v[k].start + 1) as u16, end: v[k].end })
        } else {
            v.update(k, Free { start: (idx + 1) as u16, end: v[k].end }).insert(
                k,
                Free { start: v[k].start, end: (idx - 1) as u16 },
            )
        },
        None => v,
    }
}

/// The writes that `remove(idx)` asks for.
pub open spec fn remove_writes(v: Seq<Free>, idx: u16, offset: int, size: u32) -> Seq<WriteView> {
    match first_hit(v, idx) {
        Some(k) => if idx < v[k].start {
            Seq::empty()
        } else if idx == v[k].start {
            seq![
                entry_write(k, offset, Free { start: (v[k].start + 1) as u16, end: v[k].end }),
                size_write(size),
            ]
        } else {
            let first = Free { start: v[k].start, end: (idx - 1) as u16 };
            seq![
                entry_write(k, offset, first),
                WriteView { insert: true, index: k, offset, data: free_bytes(first) },
                size_write(size),
            ]
        },
        None => Seq::empty(),
    }
}



// ----------------------------------------------------------------------
// Versions
// ----------------------------------------------------------------------

/// The name of the archive file that holds records replaced or removed in
/// the given month: the year, then the month counted from zero.
pub open spec fn archive_name(year: i32, month0: u32) -> Seq<char> {
    signed_decimal(year as int) + decimal(month0 as nat)
}

/// The name of the archive file for records replaced or removed in the
/// given month.
pub fn archive_file_name(year: i32, month0: u32) -> (r: String)
    ensures
        r@ == archive_name(year, month0),
{
    let mut s = signed_decimal_string(year as i64);
    push_decimal(&mut s, month0 as u64);
    s
}

/// The archive file for a record replaced or removed now.
fn current_archive_file_name() -> (r: String)
    ensures
        exists|y: i32, m: u32| m < 12 && r@ == archive_name(y, m),
{
    let c = utc_now();
    archive_file_name(c.year, c.month0)
}

/// The current version of every record of a table, with the name of the
/// file that keeps them.
pub struct VersionControl<T> {
    ver: Vec<u16>,
    data: PhantomData<T>,
    version_filename: String,
}

impl<T> VersionControl<T> {
    /// The version of each record, by slot.
    pub closed spec fn versions(&self) -> Seq<u16> {
        self.ver@
    }

    /// The name of the file that keeps the versions.
    pub closed spec fn file_name(&self) -> Seq<char> {
        self.version_filename@
    }

    /// No versions yet, kept in `filename` with `_version` added.
    pub fn new(filename: &str) -> (r: Self)
        ensures
            r.versions() == Seq::<u16>::empty(),
            r.file_name() == filename@ + "_version"@,
    {
        let mut ver_filename = String::new();
        append_str(&mut ver_filename, filename);
        append_str(&mut ver_filename, "_version");
        Self { ver: Vec::new(), data: PhantomData, version_filename: ver_filename }
    }

    /// A new record starts at version zero.
    pub fn push(&mut self)
        ensures
            final(self).versions() == old(self).versions().push(0),
            final(self).file_name() == old(self).file_name(),
    {
        self.ver.push(0);
    }

    /// The record put into the free slot `index` starts a new version.
    pub fn update_empty_slot(&mut self, index: usize)
        requires
            index < old(self).versions().len(),
            old(self).versions()[index as int] < u16::MAX,
        ensures
            final(self).versions() == old(self).versions().update(
                index as int,
                (old(self).versions()[index as int] + 1) as u16,
            ),
            final(self).file_name() == old(self).file_name(),
    {
        let v = self.ver[index];
        self.ver.set(index, v + 1);
    }

    /// The record in slot `index` is replaced: it starts a new version, and
    /// the replaced record goes to the archive file that is given back.
    pub fn update_existing_slot(&mut self, index: usize) -> (r: String)
        requires
            index < old(self).versions().len(),
            old(self).versions()[index as int] < u16::MAX,
        ensures
            final(self).versions() == old(self).versions().update(
                index as int,
                (old(self).versions()[index as int] + 1) as u16,
            ),
            final(self).file_name() == old(self).file_name(),
            exists|y: i32, m: u32| m < 12 && r@ == archive_name(y, m),
    {
        let v = self.ver[index];
        self.ver.set(index, v + 1);
        current_archive_file_name()
    }

    /// A record is removed: it goes to the archive file that is given back.
    pub fn removed_existing_record(&self) -> (r: String)
        ensures
            exists|y: i32, m: u32| m < 12 && r@ == archive_name(y, m),
    {
        current_archive_file_name()
    }
}


// ----------------------------------------------------------------------
// The table
// ----------------------------------------------------------------------

/// Where a pushed record is stored: over a freed slot, or appended.
#[derive(Debug, Clone, Copy, PartialEq, Eq, Structural)]
pub enum RecordPlacement {
    Slot(usize),
    Append,
}

/// A table of records kept in the file `filename`: a slot per record (empty
/// where a record was removed), the free list of its slots, and the
/// versions of its records.
pub struct TableVer<T> {
    vec: Vec<Option<T>>,
    free: FreeList,
    version_control: VersionControl<T>,
    filename: String,
}

impl<T> TableVer<T> {
    /// The slots of the table.
    pub closed spec fn records(&self) -> Seq<Option<T>> {
        self.vec@
    }

    /// The free list of the table.
    pub closed spec fn free_list(&self) -> FreeList {
        self.free
    }

    /// The versions of the records.
    pub closed spec fn versions(&self) -> Seq<u16> {
        self.version_control.versions()
    }

    /// The file the records are kept in.
    pub closed spec fn file_name(&self) -> Seq<char> {
        self.filename@
    }

    /// The slot `index` of the table.
    pub fn get(&self, index: usize) -> (r: &Option<T>)
        requires
            index < self.records().len(),
        ensures
            *r == self.records()[index as int],
    {
        &self.vec[index]
    }

    /// The free list of the table.
    pub fn get_free(&self) -> (r: &FreeList)
        ensures
            *r == self.free_list(),
    {
        &self.free
    }

    /// The name of the file the records are kept in.
    pub fn get_filename(&self) -> (r: &String)
        ensures
            r@ == self.file_name(),
    {
        &self.filename
    }

    /// The number of slots of the table.
    pub fn len(&self) -> (r: usize)
        ensures
            r == self.records().len(),
    {
        self.vec.len()
    }

    /// Whether `push(data)` may be called.
    pub fn can_push(&self) -> (r: bool)
        ensures
            r == ({
                &&& self.free_list().runs().len() >= 1
                &&& self.free_list().count() < u32::MAX
                &&& self.free_list().runs().len() > 1 ==> {
                    let v = self.free_list().runs();
                    &&& v[v.len() - 1].start >= 1
                    &&& v[v.len() - 2].end < 65535
                }
                &&& self.free_list().runs().len() == 1 ==> self.free_list().runs()[0].end < 65535
                &&& match pushed_runs(self.free_list().runs()).1 {
                    Some(i) => {
                        &&& i < self.records().len()
                        &&& i < self.versions().len()
                        &&& self.versions()[i as int] < u16::MAX
                    },
                    None => true,
                }
            }),
    {
        if !self.free.can_push() {
            return false;
        }
        let n: usize = self.free.vec.len();
        if n > 1 {
            let i: u16 = self.free.vec[n - 1].start - 1;
            (i as usize) < self.vec.len() && (i as usize) < self.version_control.ver.len()
                && self.version_control.ver[i as usize] < u16::MAX
        } else {
            true
        }
    }

    /// Whether `remove(index_remove)` may be called.
    pub fn can_remove(&self, index_remove: u16) -> (r: bool)
        ensures
            r == (index_remove as int != self.records().len() && ((index_remove as int)
                < self.records().len() && self.records()[index_remove as int] is Some
                && frees_slot(self.free_list().runs(), index_remove) ==> self.free_list().count()
                >= 1)),
    {
        let i = index_remove as usize;
        if i == self.vec.len() {
            return false;
        }
        let holds = i < self.vec.len() && self.vec[i].is_some();
        !holds || !self.free.would_free(index_remove) || self.free.size >= 1
    }

    /// The name of the file that holds the free list of the table `name`.
    pub fn free_list_name(name: &str) -> (r: String)
        ensures
            r@ == name@ + "_freelist"@,
    {
        let mut s = String::new();
        append_str(&mut s, name);
        append_str(&mut s, "_freelist");
        s
    }

    /// The table `name`, with its free list and the slots its file held
    /// (none when the file could not be read).
    pub fn new(name: &str, free: FreeList, stored: Option<Vec<Option<T>>>) -> (r: Self)
        ensures
            r.records() == match stored {
                Some(v) => v@,
                None => Seq::<Option<T>>::empty(),
            },
            r.free_list() == free,
            r.versions() == Seq::<u16>::empty(),
            r.file_name() == name@,
    {
        let vec_list: Vec<Option<T>> = match stored {
            Some(list) => list,
            None => Vec::new(),
        };
        let mut filename = String::new();
        append_str(&mut filename, name);
        Self { version_control: VersionControl::new(name), vec: vec_list, free: free, filename }
    }

    /// Stores `data`: in the slot the free list hands out, or at the end.
    /// Gives the slot number (cut to 16 bits), where the record goes, and
    /// the writes that store the free list.
    pub fn push(&mut self, data: T) -> (r: (u16, RecordPlacement, Vec<FileIntention>))
        requires
            old(self).free_list().runs().len() >= 1,
            old(self).free_list().count() < u32::MAX,
            old(self).free_list().runs().len() > 1 ==> {
                let v = old(self).free_list().runs();
                &&& v[v.len() - 1].start >= 1
                &&& v[v.len() - 2].end < 65535
            },
            old(self).free_list().runs().len() == 1 ==> old(self).free_list().runs()[0].end < 65535,
            match pushed_runs(old(self).free_list().runs()).1 {
                Some(i) => {
                    &&& i < old(self).records().len()
                    &&& i < old(self).versions().len()
                    &&& old(self).versions()[i as int] < u16::MAX
                },
                None => true,
            },
        ensures
            final(self).free_list().count() == old(self).free_list().count() + 1,
            final(self).free_list().file_name() == old(self).free_list().file_name(),
            final(self).free_list().runs_offset() == old(self).free_list().runs_offset(),
            final(self).free_list().runs() == pushed_runs(old(self).free_list().runs()).0,
            writes_of(r.2@) == push_writes(
                old(self).free_list().runs(),
                old(self).free_list().runs_offset() as int,
                final(self).free_list().count(),
            ),
            final(self).file_name() == old(self).file_name(),
            match pushed_runs(old(self).free_list().runs()).1 {
                Some(i) => {
                    &&& r.0 == i
                    &&& r.1 == RecordPlacement::Slot(i as usize)
                    &&& final(self).records() == old(self).records().update(i as int, Some(data))
                    &&& final(self).versions() == old(self).versions().update(
                        i as int,
                        (old(self).versions()[i as int] + 1) as u16,
                    )
                },
                None => {
                    &&& r.0 == old(self).records().len() as u16
                    &&& r.1 == RecordPlacement::Append
                    &&& final(self).records() == old(self).records().push(Some(data))
                    &&& final(self).versions() == old(self).versions().push(0)
                },
            },
    {
        let (slot, writes) = self.free.push();
        match slot {
            Some(index) => {
                self.version_control.update_empty_slot(index as usize);
                self.vec.set(index as usize, Some(data));
                (index, RecordPlacement::Slot(index as usize), writes)
            },
            None => {
                self.version_control.push();
                self.vec.push(Some(data));
                (#[verifier::truncate] ((self.vec.len() - 1) as u16), RecordPlacement::Append, writes)
            },
        }
    }

    /// Meant to replace the record in slot `index`. The slot must not lie
    /// past the end of the table; the replacement only happens for a slot
    /// past the end, so every call leaves the table as it is.
    pub fn update(&mut self, index: usize, data: T)
        requires
            index <= old(self).records().len(),
        ensures
            final(self).records() == old(self).records(),
            final(self).free_list() == old(self).free_list(),
            final(self).versions() == old(self).versions(),
            final(self).file_name() == old(self).file_name(),
    {
        if self.vec.len() < index {
            let mut slot: Option<T> = Some(data);
            self.vec.set_and_swap(index, &mut slot);
        }
    }

    /// Empties slot `index_remove` when it holds a record, and gives up the
    /// slot in the free list. Gives the removed record, the writes that
    /// store the free list, and the archive file the record goes to.
    pub fn remove(&mut self, index_remove: u16) -> (r: Option<(T, Vec<FileIntention>, String)>)
        requires
            index_remove as int != old(self).records().len(),
            (index_remove as int) < old(self).records().len() && old(self).records()[index_remove as int] is Some
                && frees_slot(old(self).free_list().runs(), index_remove) ==> old(self).free_list().count()
                >= 1,
        ensures
            final(self).file_name() == old(self).file_name(),
            final(self).versions() == old(self).versions(),
            (index_remove as int > old(self).records().len()
                || old(self).records()[index_remove as int] is None) ==> {
                &&& r is None
                &&& final(self).records() == old(self).records()
                &&& final(self).free_list() == old(self).free_list()
            },
            (index_remove as int) < old(self).records().len()
                && old(self).records()[index_remove as int] is Some ==> {
                &&& r is Some
                &&& Some((r->0).0) == old(self).records()[index_remove as int]
                &&& final(self).records() == old(self).records().update(index_remove as int, None)
                &&& final(self).free_list().runs() == removed_runs(
                    old(self).free_list().runs(),
                    index_remove,
                )
                &&& final(self).free_list().count() == if frees_slot(
                    old(self).free_list().runs(),
                    index_remove,
                ) {
                    (old(self).free_list().count() - 1) as u32
                } else {
                    old(self).free_list().count()
                }
                &&& final(self).free_list().file_name() == old(self).free_list().file_name()
                &&& final(self).free_list().runs_offset() == old(self).free_list().runs_offset()
                &&& writes_of((r->0).1@) == remove_writes(
                    old(self).free_list().runs(),
                    index_remove,
                    old(self).free_list().runs_offset() as int,
                    final(self).free_list().count(),
                )
                &&& exists|y: i32, m: u32| m < 12 && (r->0).2@ == archive_name(y, m)
            },
    {
        if self.vec.len() < index_remove as usize {
            return None;
        }
        let i = index_remove as usize;
        if self.vec[i].is_none() {
            return None;
        }
        let writes = self.free.remove(index_remove);
        let archive = self.version_control.removed_existing_record();
        let mut slot: Option<T> = None;
        self.vec.set_and_swap(i, &mut slot);
        match slot {
            Some(x) => Some((x, writes, archive)),
            None => None,
        }
    }
}

// ----------------------------------------------------------------------
// Laws of the free list
// ----------------------------------------------------------------------

proof fn lemma_first_hit_from(v: Seq<Free>, idx: u16, i: int)
    requires
        0 <= i,
    ensures
        match first_hit_from(v, idx, i) {
            Some(k) => {
                &&& i <= k < v.len()
                &&& idx < v[k].end
                &&& forall|j: int| i <= j < k ==> idx >= #[trigger] v[j].end
            },
            None => forall|j: int| i <= j < v.len() ==> idx >= #[trigger] v[j].end,
        },
    decreases v.len() - i,
{
    if i < v.len() && !(idx < v[i].end) {
        lemma_first_hit_from(v, idx, i + 1);
    }
}

/// Pushing keeps the runs well formed and claims exactly one slot: with
/// more than one run it is the slot handed out, which was free before; with
/// a single run it is the slot just after that run.
pub proof fn law_push_claims_one_slot(v: Seq<Free>)
    requires
        runs_wf(v),
        v.len() >= 1,
        v.len() == 1 ==> v[0].end < 65535,
    ensures
        runs_wf(pushed_runs(v).0),
        v.len() > 1 ==> {
            &&& pushed_runs(v).1 is Some
            &&& !occupied(v, pushed_runs(v).1->0 as int)
            &&& forall|i: int|
                occupied(pushed_runs(v).0, i) <==> (occupied(v, i) || i == pushed_runs(v).1->0)
        },
        v.len() == 1 ==> {
            &&& pushed_runs(v).1 is None
            &&& forall|i: int|
                occupied(pushed_runs(v).0, i) <==> (occupied(v, i) || i == v[0].end + 1)
        },
{
    let n = v.len() as int;
    let nv = pushed_runs(v).0;
    if n > 1 {
        let ns = (v[n - 1].start - 1) as u16;
        assert(v[n - 2].end + 1 < v[n - 1].start);
        assert(ns == v[n - 1].start - 1);
        assert forall|k: int| 0 <= k < n implies !((#[trigger] v[k]).start <= ns <= v[k].end) by {
            if k < n - 2 {
                assert(v[k].end + 1 < v[n - 2].start);
            }
        }
        if v[n - 2].end + 1 == ns {
            let m = Free { start: v[n - 2].start, end: v[n - 1].end };
            assert(nv == v.take(n - 2).push(m));
            assert forall|k: int| 0 <= k < nv.len() implies (#[trigger] nv[k]).start <= nv[k].end by {
                if k < n - 2 {
                    assert(nv[k] == v[k]);
                }
            }
            assert forall|j: int, k: int| 0 <= j < k < nv.len() implies #[trigger] nv[j].end + 1
                < #[trigger] nv[k].start by {
                assert(nv[j] == v[j]);
                if k < n - 2 {
                    assert(nv[k] == v[k]);
                }
            }
            assert forall|i: int| occupied(nv, i) <==> (occupied(v, i) || i == ns) by {
                if occupied(nv, i) {
                    let k = choose|k: int| 0 <= k < nv.len() && (#[trigger] nv[k]).start <= i <= nv[k].end;
                    if k < n - 2 {
                        assert(nv[k] == v[k]);
                        assert(v[k].start <= i <= v[k].end);
                    } else if i <= v[n - 2].end {
                        assert(v[n - 2].start <= i <= v[n - 2].end);
                    } else if i >= v[n - 1].start {
                        assert(v[n - 1].start <= i <= v[n - 1].end);
                    }
                }
                if occupied(v, i) {
                    let k = choose|k: int| 0 <= k < v.len() && (#[trigger] v[k]).start <= i <= v[k].end;
                    if k < n - 2 {
                        assert(nv[k] == v[k]);
                        assert(nv[k].start <= i <= nv[k].end);
                    } else {
                        assert(nv[n - 2].start <= i <= nv[n - 2].end);
                    }
                }
                if i == ns {
                    assert(nv[n - 2].start <= i <= nv[n - 2].end);
                }
            }
        } else {
            let m = Free { start: ns, end: v[n - 1].end };
            assert(nv == v.update(n - 1, m));
            assert forall|k: int| 0 <= k < nv.len() implies (#[trigger] nv[k]).start <= nv[k].end by {
                if k < n - 1 {
                    assert(nv[k] == v[k]);
                }
            }
            assert forall|j: int, k: int| 0 <= j < k < nv.len() implies #[trigger] nv[j].end + 1
                < #[trigger] nv[k].start by {
                assert(nv[j] == v[j]);
                if k < n - 1 {
                    assert(nv[k] == v[k]);
                } else if j < n - 2 {
                    assert(v[j].end + 1 < v[n - 2].start);
                }
            }
            assert forall|i: int| occupied(nv, i) <==> (occupied(v, i) || i == ns) by {
                if occupied(nv, i) {
                    let k = choose|k: int| 0 <= k < nv.len() && (#[trigger] nv[k]).start <= i <= nv[k].end;
                    if k < n - 1 {
                        assert(nv[k] == v[k]);
                        assert(v[k].start <= i <= v[k].end);
                    } else if i != ns {
                        assert(v[n - 1].start <= i <= v[n - 1].end);
                    }
                }
                if occupied(v, i) {
                    let k = choose|k: int| 0 <= k < v.len() && (#[trigger] v[k]).start <= i <= v[k].end;
                    if k < n - 1 {
                        assert(nv[k] == v[k]);
                        assert(nv[k].start <= i <= nv[k].end);
                    } else {
                        assert(nv[n - 1].start <= i <= nv[n - 1].end);
                    }
                }
                if i == ns {
                    assert(nv[n - 1].start <= i <= nv[n - 1].end);
                }
            }
        }
    } else {
        let m = Free { start: v[0].start, end: (v[0].end + 1) as u16 };
        assert(nv == v.update(0, m));
        assert forall|i: int| occupied(nv, i) <==> (occupied(v, i) || i == v[0].end + 1) by {
            if occupied(nv, i) {
                assert(nv[0].start <= i <= nv[0].end);
                if i != v[0].end + 1 {
                    assert(v[0].start <= i <= v[0].end);
                }
            }
            if occupied(v, i) {
                assert(v[0].start <= i <= v[0].end);
                assert(nv[0].start <= i <= nv[0].end);
            }
            if i == v[0].end + 1 {
                assert(nv[0].start <= i <= nv[0].end);
            }
        }
    }
}

proof fn lemma_remove_at_start(v: Seq<Free>, idx: u16, k: int)
    requires
        runs_wf(v),
        0 <= k < v.len(),
        idx == v[k].start,
        idx < v[k].end,
    ensures
        ({
            let nv = v.update(k, Free { start: (v[k].start + 1) as u16, end: v[k].end });
            &&& runs_wf(nv)
            &&& forall|i: int| occupied(nv, i) <==> (occupied(v, i) && i != idx)
        }),
{
    let nv = v.update(k, Free { start: (v[k].start + 1) as u16, end: v[k].end });
    assert forall|q: int| 0 <= q < nv.len() implies (#[trigger] nv[q]).start <= nv[q].end by {
        if q != k {
            assert(nv[q] == v[q]);
        }
    }
    assert forall|j: int, q: int| 0 <= j < q < nv.len() implies #[trigger] nv[j].end + 1
        < #[trigger] nv[q].start by {
        assert(v[j].end + 1 < v[q].start);
    }
    assert forall|i: int| occupied(nv, i) <==> (occupied(v, i) && i != idx) by {
        if occupied(nv, i) {
            let q = choose|q: int| 0 <= q < nv.len() && (#[trigger] nv[q]).start <= i <= nv[q].end;
            assert(v[q].start <= i <= v[q].end);
            if q != k {
                assert(i != idx) by {
                    if q < k {
                        assert(v[q].end + 1 < v[k].start);
                    } else {
                        assert(v[k].end + 1 < v[q].start);
                    }
                }
            }
        }
        if occupied(v, i) && i != idx {
            let q = choose|q: int| 0 <= q < v.len() && (#[trigger] v[q]).start <= i <= v[q].end;
            assert(nv[q].start <= i <= nv[q].end);
        }
    }
}

proof fn lemma_remove_inside(v: Seq<Free>, idx: u16, k: int)
    requires
        runs_wf(v),
        0 <= k < v.len(),
        v[k].start < idx < v[k].end,
    ensures
        ({
            let nv = v.update(k, Free { start: (idx + 1) as u16, end: v[k].end }).insert(
                k,
                Free { start: v[k].start, end: (idx - 1) as u16 },
            );
            &&& runs_wf(nv)
            &&& forall|i: int| occupied(nv, i) <==> (occupied(v, i) && i != idx)
        }),
{
    let first = Free { start: v[k].start, end: (idx - 1) as u16 };
    let second = Free { start: (idx + 1) as u16, end: v[k].end };
    let nv = v.update(k, second).insert(k, first);
    assert(nv.len() == v.len() + 1);
    assert forall|q: int| 0 <= q < nv.len() implies #[trigger] nv[q] == if q < k {
        v[q]
    } else if q == k {
        first
    } else if q == k + 1 {
        second
    } else {
        v[q - 1]
    } by {}
    assert forall|q: int| 0 <= q < nv.len() implies (#[trigger] nv[q]).start <= nv[q].end by {
        if q < k {
            assert(nv[q] == v[q]);
        } else if q > k + 1 {
            assert(nv[q] == v[q - 1]);
        }
    }
    assert forall|j: int, q: int| 0 <= j < q < nv.len() implies #[trigger] nv[j].end + 1
        < #[trigger] nv[q].start by {
        let oj = if j <= k { j } else { j - 1 };
        let oq = if q <= k { q } else { q - 1 };
        assert(nv[j].end <= v[oj].end);
        assert(nv[q].start >= v[oq].start);
        if oj < oq {
            assert(v[oj].end + 1 < v[oq].start);
        }
    }
    assert forall|i: int| occupied(nv, i) <==> (occupied(v, i) && i != idx) by {
        if occupied(nv, i) {
            let q = choose|q: int| 0 <= q < nv.len() && (#[trigger] nv[q]).start <= i <= nv[q].end;
            let oq = if q <= k { q } else { q - 1 };
            assert(v[oq].start <= i <= v[oq].end);
            if oq != k {
                assert(i != idx) by {
                    if oq < k {
                        assert(v[oq].end + 1 < v[k].start);
                    } else {
                        assert(v[k].end + 1 < v[oq].start);
                    }
                }
            }
        }
        if occupied(v, i) && i != idx {
            let q = choose|q: int| 0 <= q < v.len() && (#[trigger] v[q]).start <= i <= v[q].end;
            if q < k {
                assert(nv[q].start <= i <= nv[q].end);
            } else if q > k {
                assert(nv[q + 1].start <= i <= nv[q + 1].end);
            } else if i < idx {
                assert(nv[k].start <= i <= nv[k].end);
            } else {
                assert(nv[k + 1].start <= i <= nv[k + 1].end);
            }
        }
    }
}

proof fn lemma_frees_slot_iff(v: Seq<Free>, idx: u16)
    requires
        runs_wf(v),
    ensures
        frees_slot(v, idx) <==> exists|k: int| 0 <= k < v.len() && (#[trigger] v[k]).start <= idx < v[k].end,
{
    lemma_first_hit_from(v, idx, 0);
    if exists|k: int| 0 <= k < v.len() && (#[trigger] v[k]).start <= idx < v[k].end {
        let k2 = choose|k: int| 0 <= k < v.len() && (#[trigger] v[k]).start <= idx < v[k].end;
        let k = first_hit(v, idx)->0;
        assert(first_hit(v, idx) is Some);
        if k < k2 {
            assert(v[k].end + 1 < v[k2].start);
        }
        assert(k == k2);
    }
}

/// The writes `ws` store the runs `nv` and the count `size` at `offset`:
/// every write but the last writes, at `offset`, the bytes that the run at
/// its position has in `nv`, and the last one writes the count.
pub open spec fn writes_store(ws: Seq<WriteView>, nv: Seq<Free>, offset: int, size: u32) -> bool {
    &&& ws.len() >= 1
    &&& ws.last() == size_write(size)
    &&& forall|i: int|
        0 <= i < ws.len() - 1 ==> {
            &&& 0 <= (#[trigger] ws[i]).index < nv.len()
            &&& ws[i].offset == offset
            &&& ws[i].data == free_bytes(nv[ws[i].index])
        }
}

/// What `remove(idx)` asks to write stores the runs as they are after the
/// removal: when it frees a slot, each entry write carries the bytes of the
/// new run at its position, and the count comes last; when it frees
/// nothing, it writes nothing and the runs stay.
pub proof fn law_remove_writes_store_the_new_runs(v: Seq<Free>, idx: u16, offset: int, size: u32)
    ensures
        frees_slot(v, idx) ==> writes_store(
            remove_writes(v, idx, offset, size),
            removed_runs(v, idx),
            offset,
            size,
        ),
        !frees_slot(v, idx) ==> remove_writes(v, idx, offset, size).len() == 0 && removed_runs(
            v,
            idx,
        ) == v,
{
    lemma_first_hit_from(v, idx, 0);
    match first_hit(v, idx) {
        Some(k) => {
            let nv = removed_runs(v, idx);
            let ws = remove_writes(v, idx, offset, size);
            if idx == v[k].start {
                assert(nv[k] == Free { start: (v[k].start + 1) as u16, end: v[k].end });
            } else if idx > v[k].start {
                let first = Free { start: v[k].start, end: (idx - 1) as u16 };
                assert(nv[k] == first);
                assert(ws[0].index == k && ws[1].index == k);
            }
        },
        None => {},
    }
}

/// What `push` asks to write stores the runs as they are after the push:
/// one entry write carrying the bytes of the changed run at its new
/// position, then the count.
pub proof fn law_push_writes_store_the_new_runs(v: Seq<Free>, offset: int, size: u32)
    requires
        v.len() >= 1,
    ensures
        writes_store(push_writes(v, offset, size), pushed_runs(v).0, offset, size),
{
}

/// Removing keeps the runs well formed and gives up exactly one slot, the
/// removed one, when that slot lies in a run and is not the last slot of
/// its run; otherwise the runs stay as they are.
pub proof fn law_remove_frees_one_slot(v: Seq<Free>, idx: u16)
    requires
        runs_wf(v),
    ensures
        runs_wf(removed_runs(v, idx)),
        frees_slot(v, idx) <==> exists|k: int| 0 <= k < v.len() && (#[trigger] v[k]).start <= idx < v[k].end,
        forall|i: int|
            occupied(removed_runs(v, idx), i) <==> (occupied(v, i) && !(frees_slot(v, idx) && i == idx)),
{
    lemma_first_hit_from(v, idx, 0);
    lemma_frees_slot_iff(v, idx);
    match first_hit(v, idx) {
        Some(k) => {
            if idx < v[k].start {
            } else if idx == v[k].start {
                lemma_remove_at_start(v, idx, k);
            } else {
                lemma_remove_inside(v, idx, k);
            }
        },
        None => {},
    }
}

impl FreeList {
    /// Whether `remove(index_remove)` finds a run that it shortens or
    /// splits.
    pub fn would_free(&self, index_remove: u16) -> (r: bool)
        ensures
            r == frees_slot(self.runs(), index_remove),
    {
        let n: usize = self.vec.len();
        let mut index: usize = 0;
        while index < n
            invariant
                n == self.vec@.len(),
                index <= n,
                first_hit(self.vec@, index_remove) == first_hit_from(self.vec@, index_remove, index as int),
            decreases n - index,
        {
            if index_remove < self.vec[index].end {
                return self.vec[index].start <= index_remove;
            }
            index = index + 1;
        }
        false
    }

    /// Whether `push` may be called: there is a run, the count can grow,
    /// and the slot or run end it moves stays within 16 bits.
    pub fn can_push(&self) -> (r: bool)
        ensures
            r == ({
                &&& self.runs().len() >= 1
                &&& self.count() < u32::MAX
                &&& self.runs().len() > 1 ==> {
                    let v = self.runs();
                    &&& v[v.len() - 1].start >= 1
                    &&& v[v.len() - 2].end < 65535
                }
                &&& self.runs().len() == 1 ==> self.runs()[0].end < 65535
            }),
    {
        let n: usize = self.vec.len();
        if n < 1 || self.size == u32::MAX {
            return false;
        }
        if n > 1 {
            self.vec[n - 1].start >= 1 && self.vec[n - 2].end < 65535
        } else {
            self.vec[0].end < 65535
        }
    }

    /// The file the list is stored in.
    pub closed spec fn file_name(&self) -> Seq<char> {
        self.name@
    }

    /// The number of records the list counts.
    pub closed spec fn count(&self) -> u32 {
        self.size
    }

    /// The runs of occupied slots.
    pub closed spec fn runs(&self) -> Seq<Free> {
        self.vec@
    }

    /// Where the runs start in the file.
    pub closed spec fn runs_offset(&self) -> usize {
        self.offset
    }

    /// A free list named `name`, made from what its file held: the stored
    /// count (zero when there is none) and the stored runs (one empty run
    /// `0..=0` when there are none).
    pub fn new(name: String, stored_size: Option<u32>, stored_runs: Option<Vec<Free>>) -> (r: Self)
        ensures
            r.file_name() == name@,
            r.count() == match stored_size {
                Some(s) => s,
                None => 0,
            },
            r.runs() == match stored_runs {
                Some(v) => v@,
                None => seq![Free { start: 0, end: 0 }],
            },
            r.runs_offset() == 4,
    {
        let offset = bincode_u32(5);
        let s: u32 = match stored_size {
            Some(s) => s,
            None => 0,
        };
        let v: Vec<Free> = match stored_runs {
            Some(list) => list,
            None => {
                let mut v = Vec::new();
                v.push(Free { start: 0, end: 0 });
                v
            },
        };
        FreeList { name, size: s, vec: v, offset: offset.len() }
    }

    /// The number of records, cut to 16 bits.
    pub fn get_size(&self) -> (r: u16)
        ensures
            r == self.count() as u16,
    {
        self.size as u16
    }

    /// The name of the file the list is stored in.
    pub fn get_name(&self) -> (r: &String)
        ensures
            r@ == self.file_name(),
    {
        &self.name
    }

    /// Where the runs start in the file.
    pub fn get_offset(&self) -> (r: usize)
        ensures
            r == self.runs_offset(),
    {
        self.offset
    }

    /// The runs of occupied slots.
    pub fn get_vec(&self) -> (r: &Vec<Free>)
        ensures
            r@ == self.runs(),
    {
        &self.vec
    }

    /// Claims one more slot: with more than one run, the slot just before
    /// the last run (merging it with the run before when they meet);
    /// otherwise the single run grows at its end and no slot is handed out.
    /// Gives the slot and the writes that store the change.
    pub fn push(&mut self) -> (r: (Option<u16>, Vec<FileIntention>))
        requires
            old(self).runs().len() >= 1,
            old(self).count() < u32::MAX,
            old(self).runs().len() > 1 ==> {
                let v = old(self).runs();
                &&& v[v.len() - 1].start >= 1
                &&& v[v.len() - 2].end < 65535
            },
            old(self).runs().len() == 1 ==> old(self).runs()[0].end < 65535,
        ensures
            final(self).count() == old(self).count() + 1,
            final(self).file_name() == old(self).file_name(),
            final(self).runs_offset() == old(self).runs_offset(),
            (final(self).runs(), r.0) == pushed_runs(old(self).runs()),
            writes_of(r.1@) == push_writes(
                old(self).runs(),
                old(self).runs_offset() as int,
                final(self).count(),
            ),
    {
        self.size = self.size + 1;
        let mut vec_data: Vec<FileIntention> = Vec::new();
        let mut ret_val: Option<u16> = None;
        let ghost v = self.vec@;
        let n: usize = self.vec.len();
        if n > 1 {
            let last_index: usize = n - 1;
            let second_to_last_index: usize = n - 2;
            let last = self.vec[last_index];
            let ns: u16 = last.start - 1;
            self.vec.set(last_index, Free { start: ns, end: last.end });
            ret_val = Some(ns);
            vec_data.push(update_entry(last_index, self.offset, self.vec[last_index]));
            let prev = self.vec[second_to_last_index];
            if prev.end + 1 == ns {
                self.vec.set(second_to_last_index, Free { start: prev.start, end: last.end });
                self.vec.pop();
                vec_data.pop();
                vec_data.push(
                    update_entry(second_to_last_index, self.offset, self.vec[second_to_last_index]),
                );
                assert(self.vec@ =~= pushed_runs(v).0);
            } else {
                assert(self.vec@ =~= pushed_runs(v).0);
            }
        } else {
            let first = self.vec[0];
            self.vec.set(0, Free { start: first.start, end: first.end + 1 });
            vec_data.push(update_entry(0, self.offset, self.vec[0]));
            assert(self.vec@ =~= pushed_runs(v).0);
        }
        vec_data.push(update_size(self.size));
        assert(writes_of(vec_data@) =~= push_writes(v, self.offset as int, self.size));
        (ret_val, vec_data)
    }

    /// Gives up slot `index_remove`: the first run whose end lies after it
    /// loses its first slot when the slot starts it, or is split around the
    /// slot when it lies inside; a slot before that run is already free.
    /// Gives the writes that store the change.
    pub fn remove(&mut self, index_remove: u16) -> (r: Vec<FileIntention>)
        requires
            frees_slot(old(self).runs(), index_remove) ==> old(self).count() >= 1,
        ensures
            final(self).count() == if frees_slot(old(self).runs(), index_remove) {
                (old(self).count() - 1) as u32
            } else {
                old(self).count()
            },
            final(self).file_name() == old(self).file_name(),
            final(self).runs_offset() == old(self).runs_offset(),
            final(self).runs() == removed_runs(old(self).runs(), index_remove),
            writes_of(r@) == remove_writes(
                old(self).runs(),
                index_remove,
                old(self).runs_offset() as int,
                final(self).count(),
            ),
    {
        let ghost v = self.vec@;
        let mut file_updates: Vec<FileIntention> = Vec::new();
        let n: usize = self.vec.len();
        let mut index: usize = 0;
        while index < n
            invariant
                n == self.vec.len(),
                self.vec@ == v,
                v == old(self).vec@,
                frees_slot(v, index_remove) ==> self.size >= 1,
                index <= n,
                first_hit(v, index_remove) == first_hit_from(v, index_remove, index as int),
                file_updates@.len() == 0,
                self.size == old(self).size,
                self.name == old(self).name,
                self.offset == old(self).offset,
            decreases n - index,
        {
            let cur = self.vec[index];
            if index_remove < cur.end {
                assert(first_hit(v, index_remove) == Some(index as int));
                if index_remove < cur.start {
                    assert(writes_of(file_updates@) =~= Seq::<WriteView>::empty());
                    return file_updates;
                }
                self.size = self.size - 1;
                if index_remove == cur.start {
                    self.vec.set(index, Free { start: cur.start + 1, end: cur.end });
                    file_updates.push(update_entry(index, self.offset, self.vec[index]));
                } else {
                    let first_part = Free { start: cur.start, end: index_remove - 1 };
                    self.vec.set(index, Free { start: index_remove + 1, end: cur.end });
                    self.vec.insert(index, first_part);
                    file_updates.push(update_entry(index, self.offset, self.vec[index]));
                    let again = update_entry(index, self.offset, self.vec[index]);
                    let inserted = match again {
                        FileIntention::Update(e) => FileIntention::Insert(e),
                        FileIntention::Insert(e) => FileIntention::Insert(e),
                    };
                    file_updates.push(inserted);
                }
                file_updates.push(update_size(self.size));
                assert(self.vec@ =~= removed_runs(v, index_remove));
                assert(writes_of(file_updates@) =~= remove_writes(
                    v,
                    index_remove,
                    self.offset as int,
                    self.size,
                ));
                return file_updates;
            }
            index = index + 1;
        }
        assert(first_hit(v, index_remove) is None);
        assert(writes_of(file_updates@) =~= Seq::<WriteView>::empty());
        file_updates
    }
}

} // verus!
