//! Turning one compressed layer into the entries to write under its
//! directory: decompress, read the archive, and sanitise each path.

use vstd::prelude::*;
use std::io::Read;
use crate::paths::{strip_leading_slashes, strip_root};
use crate::size::{decimal, push_decimal};

verus! {

#[verifier::external_type_specification]
#[verifier::external_body]
pub struct ExIoError(std::io::Error);

/// The mode every extracted file is created with: read and write for all.
pub const FILE_MODE: u32 = 0o666;

/// The bytes that gzip-decompressing `data` yields; none when `data` is not
/// a valid gzip stream.
pub uninterp spec fn gunzip_of(data: Seq<u8>) -> Option<Seq<u8>>;

/// The entries of the tar archive `data`, in archive order: path, whether
/// it is a directory, and content; none when `data` cannot be read as a tar
/// archive.
pub uninterp spec fn tar_entries_of(data: Seq<u8>) -> Option<Seq<(Seq<char>, bool, Seq<u8>)>>;

/// One entry read from an archive.
pub struct ArchiveEntry {
    pub path: String,
    pub is_dir: bool,
    pub data: Vec<u8>,
}

/// An archive entry as plain values.
pub open spec fn archive_view(v: Seq<ArchiveEntry>) -> Seq<(Seq<char>, bool, Seq<u8>)> {
    v.map_values(|e: ArchiveEntry| (e.path@, e.is_dir, e.data@))
}

/// Relies on flate2's `GzDecoder` over a byte slice, read to its end:
/// whether it succeeds, and the bytes it yields, depend on `data` alone.
#[verifier::external_body]
fn gunzip(data: &Vec<u8>) -> (r: Result<Vec<u8>, std::io::Error>)
    ensures
        r is Ok <==> gunzip_of(data@) is Some,
        r is Ok ==> r->Ok_0@ == gunzip_of(data@)->Some_0,
{
    let mut out = Vec::new();
    flate2::read::GzDecoder::new(&data[..]).read_to_end(&mut out).map(|_| out)
}

/// Relies on tar's `Archive::entries`, with each entry's `path`, its
/// header's entry type and its content, over a byte slice: whether it
/// succeeds, and the entries, depend on `data` alone.
#[verifier::external_body]
fn read_archive(data: &Vec<u8>) -> (r: Result<Vec<ArchiveEntry>, std::io::Error>)
    ensures
        r is Ok <==> tar_entries_of(data@) is Some,
        r is Ok ==> archive_view(r->Ok_0@) == tar_entries_of(data@)->Some_0,
{
    let mut archive = tar::Archive::new(&data[..]);
    let mut out = Vec::new();
    for entry in archive.entries()? {
        let mut entry = entry?;
        let path = entry.path()?.to_string_lossy().into_owned();
        let is_dir = entry.header().entry_type().is_dir();
        let mut bytes = Vec::new();
        entry.read_to_end(&mut bytes)?;
        out.push(ArchiveEntry { path, is_dir, data: bytes });
    }
    Ok(out)
}

/// `p` has a `..` component.
pub open spec fn climbs(p: Seq<char>) -> bool {
    exists|i: int|
        0 <= i && i + 2 <= p.len() && #[trigger] p[i] == '.' && p[i + 1] == '.' && (i == 0 || p[i
            - 1] == '/') && (i + 2 == p.len() || p[i + 2] == '/')
}

/// An entry to write under a layer's directory: its path relative to that
/// directory, whether it is a directory, its content, and the mode a file
/// is created with.
pub struct PlannedEntry {
    pub rel: String,
    pub is_dir: bool,
    pub data: Vec<u8>,
    pub mode: u32,
}

/// Planned entries as plain values.
pub open spec fn planned_view(v: Seq<PlannedEntry>) -> Seq<(Seq<char>, bool, Seq<u8>, u32)> {
    v.map_values(|e: PlannedEntry| (e.rel@, e.is_dir, e.data@, e.mode))
}

/// What to write for archive entries `s`, in order: each path made
/// relative, entries that climb out with `..` left out, every file with
/// `FILE_MODE` whatever the archive recorded.
pub open spec fn plan_of(s: Seq<(Seq<char>, bool, Seq<u8>)>) -> Seq<(Seq<char>, bool, Seq<u8>, u32)>
    decreases s.len(),
{
    if s.len() == 0 {
        Seq::empty()
    } else {
        let rest = plan_of(s.drop_last());
        let e = s.last();
        let rel = strip_root(e.0);
        if climbs(rel) {
            rest
        } else {
            rest.push((rel, e.1, e.2, FILE_MODE))
        }
    }
}

/// Why a layer could not be read.
pub enum LayerError {
    /// The payload is not a valid gzip stream.
    Decompress,
    /// The decompressed bytes are not a valid tar archive.
    Unpack,
}

/// Whether `p` has a `..` component.
pub fn has_parent_ref(p: &str) -> (r: bool)
    ensures
        r == climbs(p@),
{
    let n = p.unicode_len();
    let mut i: usize = 0;
    while n >= 2 && i <= n - 2
        invariant
            n == p@.len(),
            forall|k: int|
                0 <= k < i ==> !(k + 2 <= p@.len() && #[trigger] p@[k] == '.' && p@[k + 1] == '.'
                    && (k == 0 || p@[k - 1] == '/') && (k + 2 == p@.len() || p@[k + 2] == '/')),
        decreases n - i,
    {
        if p.get_char(i) == '.' && p.get_char(i + 1) == '.' && (i == 0 || p.get_char(i - 1)
            == '/') && (i + 2 == n || p.get_char(i + 2) == '/') {
            return true;
        }
        i = i + 1;
    }
    false
}

/// What to write for `entries`, read from a layer's archive.
pub fn plan_entries(entries: Vec<ArchiveEntry>) -> (r: Vec<PlannedEntry>)
    ensures
        planned_view(r@) == plan_of(archive_view(entries@)),
{
    let ghost all = archive_view(entries@);
    let mut out: Vec<PlannedEntry> = Vec::new();
    let mut i: usize = 0;
    let n = entries.len();
    while i < n
        invariant
            i <= n,
            n == entries@.len(),
            all == archive_view(entries@),
            planned_view(out@) == plan_of(all.take(i as int)),
        decreases n - i,
    {
        let rel = strip_leading_slashes(entries[i].path.as_str());
        let ghost before = out@;
        proof {
            assert(all.take(i + 1).drop_last() =~= all.take(i as int));
            assert(all.take(i + 1).last() == all[i as int]);
        }
        if !has_parent_ref(rel.as_str()) {
            let e = PlannedEntry {
                rel,
                is_dir: entries[i].is_dir,
                data: entries[i].data.clone(),
                mode: FILE_MODE,
            };
            out.push(e);
            proof {
                assert(planned_view(out@) =~= planned_view(before).push(
                    (strip_root(all[i as int].0), all[i as int].1, all[i as int].2, FILE_MODE),
                ));
            }
        }
        i = i + 1;
    }
    proof {
        assert(all.take(n as int) =~= all);
    }
    out
}

/// What to write for the compressed layer `payload`: it is decompressed,
/// read as a tar archive, and planned by `plan_entries`. It fails with
/// `Decompress` when the payload is not gzip, and with `Unpack` when what
/// it decompresses to is not a tar archive.
pub fn prepare_layer(payload: &Vec<u8>) -> (r: Result<Vec<PlannedEntry>, LayerError>)
    ensures
        gunzip_of(payload@) is None ==> r == Err::<Vec<PlannedEntry>, LayerError>(
            LayerError::Decompress,
        ),
        gunzip_of(payload@) is Some && tar_entries_of(gunzip_of(payload@)->Some_0) is None ==> r
            == Err::<Vec<PlannedEntry>, LayerError>(LayerError::Unpack),
        gunzip_of(payload@) is Some && tar_entries_of(gunzip_of(payload@)->Some_0) is Some ==> r is Ok
            && planned_view(r->Ok_0@) == plan_of(
            tar_entries_of(gunzip_of(payload@)->Some_0)->Some_0,
        ),
{
    let raw = match gunzip(payload) {
        Ok(b) => b,
        Err(_) => return Err(LayerError::Decompress),
    };
    let entries = match read_archive(&raw) {
        Ok(v) => v,
        Err(_) => return Err(LayerError::Unpack),
    };
    Ok(plan_entries(entries))
}

/// The directory of the layer at position `index` (from 0) under `root`:
/// `root/layer_<index + 1>`.
pub fn layer_dir(root: &str, index: usize) -> (r: String)
    ensures
        r@ == root@ + seq!['/', 'l', 'a', 'y', 'e', 'r', '_'] + decimal(index as nat + 1),
{
    proof {
        reveal_strlit("/layer_");
    }
    let mut out = String::from_str(root);
    out.append("/layer_");
    push_decimal(&mut out, index as u128 + 1);
    out
}

/// Every planned file is created with `FILE_MODE`, whatever mode the
/// archive recorded, and that mode lets its owner write it.
pub proof fn lemma_plan_files_writable(s: Seq<(Seq<char>, bool, Seq<u8>)>)
    ensures
        forall|i: int| 0 <= i < plan_of(s).len() ==> #[trigger] plan_of(s)[i].3 == FILE_MODE,
        (FILE_MODE & 0o200u32) != 0,
    decreases s.len(),
{
    assert((0o666u32 & 0o200u32) != 0) by (bit_vector);
    if s.len() > 0 {
        lemma_plan_files_writable(s.drop_last());
        let rest = plan_of(s.drop_last());
        assert forall|i: int| 0 <= i < plan_of(s).len() implies #[trigger] plan_of(s)[i].3
            == FILE_MODE by {
            if i < rest.len() {
                assert(plan_of(s)[i] == rest[i]);
            }
        }
    }
}

} // verus!
