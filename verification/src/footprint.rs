//! Filesystem footprint evidence for storage engines and operator
//! diagnostics: file counts and byte totals, overall and per storage class.

use crate::error::{text, Error, Result};
use crate::path::{is_meaningful, split_segments, split_slash};
use vstd::prelude::*;

verus! {

/// Bytes and files counted for one class, or for the whole tree.
#[derive(Debug, Clone, Copy, PartialEq, Eq)]
pub struct FootprintBytes {
    pub apparent_bytes: u64,
    pub allocated_bytes: Option<u64>,
    pub files: u64,
}

impl Default for FootprintBytes {
    /// Nothing counted yet.
    fn default() -> (f: Self)
        ensures
            f == (FootprintBytes { apparent_bytes: 0, allocated_bytes: None, files: 0 }),
    {
        FootprintBytes { apparent_bytes: 0, allocated_bytes: None, files: 0 }
    }
}

/// The allocated total after one more file: known only while every file's
/// allocation is known (the first file's allocation starts it).
pub open spec fn next_allocated(total: Option<u64>, files: u64, allocated: Option<u64>) -> Option<int> {
    match (total, allocated) {
        (Some(t), Some(b)) => Some(t + b),
        (None, Some(b)) => if files == 0 { Some(b as int) } else { None },
        _ => None,
    }
}

/// `f` after counting one more file, or `None` where a count overflows.
pub open spec fn counted(f: FootprintBytes, apparent: u64, allocated: Option<u64>) -> Option<FootprintBytes> {
    let a = f.apparent_bytes + apparent;
    let n = f.files + 1;
    match next_allocated(f.allocated_bytes, f.files, allocated) {
        Some(t) => if a <= u64::MAX && t <= u64::MAX && n <= u64::MAX {
            Some(FootprintBytes { apparent_bytes: a as u64, allocated_bytes: Some(t as u64), files: n as u64 })
        } else {
            None
        },
        None => if a <= u64::MAX && n <= u64::MAX {
            Some(FootprintBytes { apparent_bytes: a as u64, allocated_bytes: None, files: n as u64 })
        } else {
            None
        },
    }
}

/// Whether `e` is the error of a footprint count that overflowed.
pub open spec fn is_footprint_overflow(e: Error) -> bool {
    e matches Error::Substrate(m) && m@ == "storage footprint byte count overflowed"@
}

/// The overflow error of a footprint count.
fn overflow() -> (e: Error)
    ensures
        is_footprint_overflow(e),
{
    Error::Substrate(text("storage footprint byte count overflowed"))
}

impl FootprintBytes {
    /// Counts one more file of `apparent` bytes and `allocated` bytes on
    /// disk, where the platform reports that. The apparent total is updated
    /// before the allocated total and the allocated total before the file
    /// count, each refusing to overflow; a refused count keeps what was
    /// updated before it.
    pub fn add_file(&mut self, apparent: u64, allocated: Option<u64>) -> (r: Result<()>)
        ensures
            r is Ok <==> counted(*old(self), apparent, allocated) is Some,
            r is Ok ==> Some(*final(self)) == counted(*old(self), apparent, allocated),
            r matches Err(e) ==> is_footprint_overflow(e),
            old(self).apparent_bytes + apparent > u64::MAX ==> *final(self) == *old(self),
            old(self).apparent_bytes + apparent <= u64::MAX && r is Err ==> final(self).apparent_bytes == old(self).apparent_bytes + apparent,
            r is Err ==> final(self).files == old(self).files,
    {
        let a = match self.apparent_bytes.checked_add(apparent) {
            Some(a) => a,
            None => {
                return Err(overflow());
            },
        };
        self.apparent_bytes = a;
        let next = match (self.allocated_bytes, allocated) {
            (None, None) => None,
            (Some(total), Some(bytes)) => match total.checked_add(bytes) {
                Some(t) => Some(t),
                None => {
                    return Err(overflow());
                },
            },
            (None, Some(bytes)) => if self.files == 0 { Some(bytes) } else { None },
            _ => None,
        };
        self.allocated_bytes = next;
        match self.files.checked_add(1) {
            Some(n) => {
                self.files = n;
                Ok(())
            },
            None => Err(overflow()),
        }
    }
}

/// A regular file found beneath a storage root: its path relative to the
/// root, its length, and the bytes allocated to it where the platform
/// reports them.
#[derive(Debug, Clone, PartialEq, Eq)]
pub struct FootprintFile {
    pub relative: String,
    pub apparent: u64,
    pub allocated: Option<u64>,
}

/// The measured footprint of a storage root.
#[derive(Debug, Clone, PartialEq, Eq)]
pub struct StorageFootprint {
    pub apparent_bytes: u64,
    pub allocated_bytes: Option<u64>,
    pub allocated_bytes_source: Option<String>,
    pub files: u64,
    /// The classes present, in ascending name order, with their counts.
    pub by_class: Vec<(String, FootprintBytes)>,
}

/// The meaningful segments of `segs`, in order: no empty or `.` segments.
pub open spec fn meaningful(segs: Seq<Seq<u8>>) -> Seq<Seq<u8>>
    decreases segs.len(),
{
    if segs.len() == 0 {
        Seq::empty()
    } else if is_meaningful(segs.last()) {
        meaningful(segs.drop_last()).push(segs.last())
    } else {
        meaningful(segs.drop_last())
    }
}

/// The components of a relative path.
pub open spec fn components(relative: Seq<u8>) -> Seq<Seq<u8>> {
    meaningful(split_slash(relative))
}

/// The position of the last `.` of `name`, or -1.
pub open spec fn last_dot(name: Seq<u8>) -> int
    decreases name.len(),
{
    if name.len() == 0 {
        -1
    } else if name.last() == 46u8 {
        name.len() - 1
    } else {
        last_dot(name.drop_last())
    }
}

/// A file name's extension: what follows its last `.`, when that dot is
/// not its first byte.
pub open spec fn extension(name: Seq<u8>) -> Option<Seq<u8>> {
    if last_dot(name) <= 0 {
        None
    } else {
        Some(name.subrange(last_dot(name) + 1, name.len() as int))
    }
}

/// The storage class of a file at `relative`: by its extension first, then
/// by a directory it sits under, then by its name.
pub open spec fn class_of(relative: Seq<u8>) -> Seq<char> {
    let cs = components(relative);
    let ext = if cs.len() == 0 { None } else { extension(cs.last()) };
    if ext == Some(seq![119u8, 97u8, 108u8]) {
        "wal"@
    } else if ext == Some(seq![106u8, 110u8, 108u8]) {
        "journal"@
    } else if ext == Some(seq![115u8, 101u8, 103u8]) {
        "segment"@
    } else if cs.contains(seq![116u8, 97u8, 98u8, 108u8, 101u8, 115u8]) {
        "table"@
    } else if cs.contains(seq![99u8, 104u8, 101u8, 99u8, 107u8, 112u8, 111u8, 105u8, 110u8, 116u8, 115u8]) {
        "checkpoint"@
    } else if cs.contains(seq![109u8, 97u8, 110u8, 105u8, 102u8, 101u8, 115u8, 116u8, 115u8]) || (cs.len() > 0 && (
        cs.last() == seq![67u8, 85u8, 82u8, 82u8, 69u8, 78u8, 84u8]
        || cs.last() == seq![99u8, 117u8, 114u8, 114u8, 101u8, 110u8, 116u8]
        || cs.last() == seq![118u8, 101u8, 114u8, 115u8, 105u8, 111u8, 110u8])) {
        "manifest"@
    } else {
        "metadata"@
    }
}

/// Copies a byte string.
fn copy_bytes(b: &[u8]) -> (c: Vec<u8>)
    ensures
        c@ == b@,
{
    let mut c: Vec<u8> = Vec::new();
    crate::bytes::push_all(&mut c, b);
    assert(c@ =~= b@);
    c
}

/// The components of a relative path.
fn path_components(relative: &[u8]) -> (cs: Vec<Vec<u8>>)
    ensures
        cs@.map_values(|v: Vec<u8>| v@) == components(relative@),
{
    let segs = split_segments(relative);
    let ghost sv = segs@.map_values(|v: Vec<u8>| v@);
    let mut cs: Vec<Vec<u8>> = Vec::new();
    let mut i: usize = 0;
    assert(sv.take(0) =~= Seq::<Seq<u8>>::empty());
    assert(cs@.map_values(|v: Vec<u8>| v@) =~= Seq::<Seq<u8>>::empty());
    while i < segs.len()
        invariant
            i <= segs@.len(),
            sv == segs@.map_values(|v: Vec<u8>| v@),
            sv == split_slash(relative@),
            cs@.map_values(|v: Vec<u8>| v@) == meaningful(sv.take(i as int)),
        decreases segs@.len() - i,
    {
        let seg = &segs[i];
        let ghost before = cs@.map_values(|v: Vec<u8>| v@);
        proof {
            assert(sv.take(i + 1).drop_last() =~= sv.take(i as int));
            assert(sv.take(i + 1).last() == seg@);
        }
        let dot = seg.len() == 1 && seg[0] == 46;
        proof {
            if seg@.len() == 1 && seg@[0] == 46 {
                assert(seg@ =~= seq![46u8]);
            }
        }
        if seg.len() > 0 && !dot {
            cs.push(copy_bytes(seg.as_slice()));
            proof {
                assert(cs@.map_values(|v: Vec<u8>| v@) =~= before.push(seg@));
            }
        }
        i = i + 1;
    }
    proof {
        assert(sv.take(segs@.len() as int) =~= sv);
    }
    cs
}

/// The position of the last `.` of `name`.
fn find_last_dot(name: &[u8]) -> (r: Option<usize>)
    ensures
        match r {
            Some(p) => last_dot(name@) == p && p < name@.len(),
            None => last_dot(name@) == -1,
        },
{
    let mut i: usize = name.len();
    assert(name@.take(name@.len() as int) =~= name@);
    while i > 0
        invariant
            i <= name@.len(),
            last_dot(name@) == last_dot(name@.take(i as int)),
        decreases i,
    {
        proof {
            assert(name@.take(i as int).drop_last() =~= name@.take(i - 1));
        }
        if name[i - 1] == 46 {
            return Some(i - 1);
        }
        i = i - 1;
    }
    None
}

/// Whether `name` after position `start` is exactly `target`.
fn rest_is(name: &[u8], start: usize, target: &[u8]) -> (r: bool)
    requires
        start <= name@.len(),
    ensures
        r == (name@.subrange(start as int, name@.len() as int) == target@),
{
    let n = name.len();
    if n - start != target.len() {
        return false;
    }
    let mut i: usize = 0;
    while i < target.len()
        invariant
            start + target@.len() == name@.len(),
            start <= name@.len(),
            name@.len() <= usize::MAX,
            i <= target@.len(),
            forall|j: int| 0 <= j < i ==> name@[start + j] == target@[j],
        decreases target@.len() - i,
    {
        if name[start + i] != target[i] {
            proof {
                assert(name@.subrange(start as int, name@.len() as int)[i as int] != target@[i as int]);
            }
            return false;
        }
        i = i + 1;
    }
    assert(name@.subrange(start as int, name@.len() as int) =~= target@);
    true
}

/// Whether the extension of `name` is `target`.
fn extension_is(name: &[u8], target: &[u8]) -> (r: bool)
    ensures
        r == (extension(name@) == Some(target@)),
{
    let n = name.len();
    match find_last_dot(name) {
        Some(p) => p > 0 && p < n && rest_is(name, p + 1, target),
        None => false,
    }
}

/// Whether `cs` holds the component `target`.
fn has_component(cs: &Vec<Vec<u8>>, target: &[u8]) -> (r: bool)
    ensures
        r == cs@.map_values(|v: Vec<u8>| v@).contains(target@),
{
    let ghost cv = cs@.map_values(|v: Vec<u8>| v@);
    let mut i: usize = 0;
    while i < cs.len()
        invariant
            i <= cs@.len(),
            cv == cs@.map_values(|v: Vec<u8>| v@),
            forall|j: int| 0 <= j < i ==> cv[j] != target@,
        decreases cs@.len() - i,
    {
        if crate::bytes::bytes_eq(cs[i].as_slice(), target) {
            assert(cv[i as int] == target@);
            return true;
        }
        i = i + 1;
    }
    false
}

/// The storage classes, in ascending name order.
pub open spec fn class_name(i: int) -> Seq<char> {
    if i == 0 {
        "checkpoint"@
    } else if i == 1 {
        "journal"@
    } else if i == 2 {
        "manifest"@
    } else if i == 3 {
        "metadata"@
    } else if i == 4 {
        "segment"@
    } else if i == 5 {
        "table"@
    } else {
        "wal"@
    }
}

/// Distinct storage classes have distinct names.
proof fn lemma_class_names_distinct(a: int, b: int)
    requires
        0 <= a < 7,
        0 <= b < 7,
        a != b,
    ensures
        class_name(a) != class_name(b),
{
    reveal_strlit("checkpoint");
    reveal_strlit("journal");
    reveal_strlit("manifest");
    reveal_strlit("metadata");
    reveal_strlit("segment");
    reveal_strlit("table");
    reveal_strlit("wal");
    if class_name(a) == class_name(b) {
        assert(class_name(a).len() == class_name(b).len());
        assert(class_name(a)[0] == class_name(b)[0]);
        assert(class_name(a)[2] == class_name(b)[2]);
    }
}

/// The number of storage classes.
pub const CLASS_COUNT: usize = 7;

/// The name of storage class `i`.
pub fn class_label(i: usize) -> (l: &'static str)
    requires
        i < CLASS_COUNT,
    ensures
        l@ == class_name(i as int),
{
    if i == 0 {
        "checkpoint"
    } else if i == 1 {
        "journal"
    } else if i == 2 {
        "manifest"
    } else if i == 3 {
        "metadata"
    } else if i == 4 {
        "segment"
    } else if i == 5 {
        "table"
    } else {
        "wal"
    }
}

/// The index of the storage class of the file at `relative`.
pub fn class_index(relative: &[u8]) -> (i: usize)
    ensures
        i < CLASS_COUNT,
        class_name(i as int) == class_of(relative@),
{
    let cs = path_components(relative);
    let ghost cv = cs@.map_values(|v: Vec<u8>| v@);
    let n = cs.len();
    let (wal, jnl, seg) = if n == 0 {
        (false, false, false)
    } else {
        let name = cs[n - 1].as_slice();
        (extension_is(name, &[119u8, 97, 108]), extension_is(name, &[106u8, 110, 108]), extension_is(name, &[115u8, 101, 103]))
    };
    proof {
        if n > 0 {
            assert(cv.last() == cs@[n - 1]@);
        }
    }
    if wal {
        6
    } else if jnl {
        1
    } else if seg {
        4
    } else if has_component(&cs, &[116u8, 97, 98, 108, 101, 115]) {
        5
    } else if has_component(&cs, &[99u8, 104, 101, 99, 107, 112, 111, 105, 110, 116, 115]) {
        0
    } else if has_component(&cs, &[109u8, 97, 110, 105, 102, 101, 115, 116, 115]) {
        2
    } else if n > 0 && (crate::bytes::bytes_eq(cs[n - 1].as_slice(), &[67u8, 85, 82, 82, 69, 78, 84])
        || crate::bytes::bytes_eq(cs[n - 1].as_slice(), &[99u8, 117, 114, 114, 101, 110, 116])
        || crate::bytes::bytes_eq(cs[n - 1].as_slice(), &[118u8, 101, 114, 115, 105, 111, 110])) {
        2
    } else {
        3
    }
}

/// The storage class of the file at `relative`.
pub fn classify(relative: &[u8]) -> (class: &'static str)
    ensures
        class@ == class_of(relative@),
{
    class_label(class_index(relative))
}

/// The UTF-8 bytes of a file's relative path.
pub open spec fn file_path(f: FootprintFile) -> Seq<u8> {
    crate::function::utf8(f.relative@)
}

/// The count of `files`, in order, restricted to class `class` where one is
/// given; `None` where a count overflows.
pub open spec fn fold_files(files: Seq<FootprintFile>, class: Option<Seq<char>>) -> Option<FootprintBytes>
    decreases files.len(),
{
    if files.len() == 0 {
        Some(FootprintBytes { apparent_bytes: 0, allocated_bytes: None, files: 0 })
    } else {
        match fold_files(files.drop_last(), class) {
            None => None,
            Some(f) => {
                let last = files.last();
                if class is None || class == Some(class_of(file_path(last))) {
                    counted(f, last.apparent, last.allocated)
                } else {
                    Some(f)
                }
            },
        }
    }
}

/// An overflowed count stays overflowed as more files are counted.
pub proof fn lemma_fold_overflow_persists(files: Seq<FootprintFile>, class: Option<Seq<char>>, i: int)
    requires
        0 <= i <= files.len(),
        fold_files(files.take(i), class) is None,
    ensures
        fold_files(files, class) is None,
    decreases files.len() - i,
{
    if i < files.len() {
        assert(files.take(i + 1).drop_last() =~= files.take(i));
        lemma_fold_overflow_persists(files, class, i + 1);
    } else {
        assert(files.take(i) =~= files);
    }
}

/// Every class count of `files` stays within `u64`.
pub open spec fn classes_fit(files: Seq<FootprintFile>) -> bool {
    forall|c: int| 0 <= c < CLASS_COUNT ==> #[trigger] fold_files(files, Some(class_name(c))) is Some
}

/// The classes present among `files`, in ascending name order, with their counts.
pub open spec fn class_entries(files: Seq<FootprintFile>, upto: int) -> Seq<(Seq<char>, FootprintBytes)>
    decreases upto,
{
    if upto <= 0 {
        Seq::empty()
    } else {
        let earlier = class_entries(files, upto - 1);
        let f = fold_files(files, Some(class_name(upto - 1))).unwrap();
        if f.files > 0 {
            earlier.push((class_name(upto - 1), f))
        } else {
            earlier
        }
    }
}

/// The footprint of the regular files beneath a storage root, counted in
/// the order given (ascending relative path), overall and per storage
/// class; a count that overflows refuses the measurement. The allocated
/// totals are known only when every file's allocation is.
pub fn summarize_footprint(files: &Vec<FootprintFile>) -> (r: Result<StorageFootprint>)
    ensures
        r is Ok <==> fold_files(files@, None) is Some && classes_fit(files@),
        r matches Err(e) ==> is_footprint_overflow(e),
        r matches Ok(fp) ==> {
            let total = fold_files(files@, None).unwrap();
            &&& fp.apparent_bytes == total.apparent_bytes
            &&& fp.allocated_bytes == total.allocated_bytes
            &&& fp.files == total.files
            &&& (fp.allocated_bytes is Some <==> fp.allocated_bytes_source is Some)
            &&& (fp.allocated_bytes_source matches Some(src) ==> src@ == "unix_st_blocks_times_512"@)
            &&& fp.by_class@.map_values(|e: (String, FootprintBytes)| (e.0@, e.1)) == class_entries(files@, CLASS_COUNT as int)
        },
{
    let mut total = FootprintBytes::default();
    let mut by_class: Vec<FootprintBytes> = Vec::new();
    let mut c: usize = 0;
    while c < CLASS_COUNT
        invariant
            c <= CLASS_COUNT,
            by_class@.len() == c,
            forall|k: int| 0 <= k < c ==> by_class@[k] == (FootprintBytes { apparent_bytes: 0, allocated_bytes: None, files: 0 }),
        decreases CLASS_COUNT - c,
    {
        by_class.push(FootprintBytes::default());
        c = c + 1;
    }
    let mut i: usize = 0;
    assert(files@.take(0) =~= Seq::<FootprintFile>::empty());
    while i < files.len()
        invariant
            i <= files@.len(),
            by_class@.len() == CLASS_COUNT,
            fold_files(files@.take(i as int), None) == Some(total),
            forall|k: int| 0 <= k < CLASS_COUNT ==> fold_files(files@.take(i as int), Some(#[trigger] class_name(k))) == Some(by_class@[k]),
        decreases files@.len() - i,
    {
        let file = &files[i];
        let ghost prefix = files@.take(i + 1);
        proof {
            assert(prefix.drop_last() =~= files@.take(i as int));
            assert(prefix.last() == *file);
        }
        let k = class_index(file.relative.as_str().as_bytes());
        if total.add_file(file.apparent, file.allocated).is_err() {
            proof {
                lemma_fold_overflow_persists(files@, None, i + 1);
            }
            return Err(overflow());
        }
        let mut entry = by_class[k];
        if entry.add_file(file.apparent, file.allocated).is_err() {
            proof {
                lemma_fold_overflow_persists(files@, Some(class_name(k as int)), i + 1);
            }
            return Err(overflow());
        }
        let ghost old_classes = by_class@;
        by_class.set(k, entry);
        proof {
            assert forall|j: int| 0 <= j < CLASS_COUNT implies fold_files(prefix, Some(#[trigger] class_name(j))) == Some(by_class@[j]) by {
                assert(fold_files(files@.take(i as int), Some(class_name(j))) == Some(old_classes[j]));
                if j != k {
                    lemma_class_names_distinct(j, k as int);
                }
            }
        }
        i = i + 1;
    }
    proof {
        assert(files@.take(files@.len() as int) =~= files@);
    }
    let mut entries: Vec<(String, FootprintBytes)> = Vec::new();
    let mut c: usize = 0;
    while c < CLASS_COUNT
        invariant
            c <= CLASS_COUNT,
            by_class@.len() == CLASS_COUNT,
            forall|k: int| 0 <= k < CLASS_COUNT ==> fold_files(files@, Some(#[trigger] class_name(k))) == Some(by_class@[k]),
            entries@.map_values(|e: (String, FootprintBytes)| (e.0@, e.1)) == class_entries(files@, c as int),
        decreases CLASS_COUNT - c,
    {
        let f = by_class[c];
        let ghost before = entries@.map_values(|e: (String, FootprintBytes)| (e.0@, e.1));
        if f.files > 0 {
            entries.push((text(class_label(c)), f));
            proof {
                assert(entries@.map_values(|e: (String, FootprintBytes)| (e.0@, e.1)) =~= before.push((class_name(c as int), f)));
            }
        }
        c = c + 1;
    }
    let source = match total.allocated_bytes {
        Some(_) => Some(text("unix_st_blocks_times_512")),
        None => None,
    };
    Ok(StorageFootprint {
        apparent_bytes: total.apparent_bytes,
        allocated_bytes: total.allocated_bytes,
        allocated_bytes_source: source,
        files: total.files,
        by_class: entries,
    })
}

} // verus!
