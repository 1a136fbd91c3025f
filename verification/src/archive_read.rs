//! Reading the listing of an archive from its bytes: the zip, tar and gzip
//! crates parse them, and the entries they give become archive entries.

use vstd::prelude::*;
use crate::archive::{zip_seconds, zip_time_secs, ArchiveBrowser, ArchiveEntry, ArchiveType};
use crate::text::{append_str, owned};

verus! {

/// What the zip crate lists of an archive's bytes (`ZipArchive::new` on
/// them, then each entry that `by_index` opens): name, whether it is a
/// directory, size, compressed size and the modification date (year,
/// month, day, hour, minute) when the entry has one; or the text of the
/// crate's error when the bytes are no zip archive.
pub uninterp spec fn zip_listing(bytes: Seq<u8>) -> Result<Seq<(Seq<char>, bool, u64, u64, Option<(u16, u8, u8, u8, u8)>)>, Seq<char>>;

/// What the tar crate lists of an archive's bytes (`Archive::entries`,
/// each entry it reads): path (lossily as text, empty when unreadable),
/// whether it is a directory, size (0 when unreadable) and modification
/// time in seconds when readable; or the text of the crate's error.
pub uninterp spec fn tar_listing(bytes: Seq<u8>) -> Result<Seq<(Seq<char>, bool, u64, Option<u64>)>, Seq<char>>;

/// What the gzip decoder of the flate2 crate yields for some bytes when
/// read to the end: the decompressed bytes up to the end of the stream or
/// up to its first error.
pub uninterp spec fn gunzipped(bytes: Seq<u8>) -> Seq<u8>;

/// The zip records as plain values.
pub open spec fn zip_records(v: Seq<(String, bool, u64, u64, Option<(u16, u8, u8, u8, u8)>)>) -> Seq<
    (Seq<char>, bool, u64, u64, Option<(u16, u8, u8, u8, u8)>),
> {
    v.map_values(|r: (String, bool, u64, u64, Option<(u16, u8, u8, u8, u8)>)| (r.0@, r.1, r.2, r.3, r.4))
}

/// The tar records as plain values.
pub open spec fn tar_records(v: Seq<(String, bool, u64, Option<u64>)>) -> Seq<(Seq<char>, bool, u64, Option<u64>)> {
    v.map_values(|r: (String, bool, u64, Option<u64>)| (r.0@, r.1, r.2, r.3))
}

/// `ZipArchive::new` on the bytes, then name, kind, sizes and date of each
/// entry `by_index` opens (entries it cannot open are left out, as the
/// crate's error for them is).
#[verifier::external_body]
fn zip_entries(bytes: &[u8]) -> (r: Result<Vec<(String, bool, u64, u64, Option<(u16, u8, u8, u8, u8)>)>, String>)
    ensures
        match r {
            Ok(v) => zip_listing(bytes@) == Ok::<_, Seq<char>>(zip_records(v@)),
            Err(e) => zip_listing(bytes@) == Err::<Seq<(Seq<char>, bool, u64, u64, Option<(u16, u8, u8, u8, u8)>)>, _>(e@),
        },
{
    let mut a = zip::ZipArchive::new(std::io::Cursor::new(bytes)).map_err(|e| e.to_string())?;
    let mut out = Vec::new();
    for i in 0..a.len() {
        if let Ok(f) = a.by_index(i) {
            let t = f.last_modified().map(|d| (d.year(), d.month(), d.day(), d.hour(), d.minute()));
            out.push((f.name().to_string(), f.is_dir(), f.size(), f.compressed_size(), t));
        }
    }
    Ok(out)
}

/// `tar::Archive::entries` on the bytes, then path, kind, size and
/// modification time of each entry it reads (entries it cannot read are
/// left out, an unreadable path or size reads as empty or 0, as the
/// crate's error for them is).
#[verifier::external_body]
fn tar_entries(bytes: &[u8]) -> (r: Result<Vec<(String, bool, u64, Option<u64>)>, String>)
    ensures
        match r {
            Ok(v) => tar_listing(bytes@) == Ok::<_, Seq<char>>(tar_records(v@)),
            Err(e) => tar_listing(bytes@) == Err::<Seq<(Seq<char>, bool, u64, Option<u64>)>, _>(e@),
        },
{
    let mut a = tar::Archive::new(bytes);
    let mut out = Vec::new();
    for f in a.entries().map_err(|e| e.to_string())?.flatten() {
        let h = f.header();
        let path = f.path().map(|p| p.to_string_lossy().to_string()).unwrap_or_default();
        out.push((path, h.entry_type().is_dir(), h.size().unwrap_or(0), h.mtime().ok()));
    }
    Ok(out)
}

/// `flate2::read::GzDecoder` read to the end (`Read::read_to_end`): the
/// decompressed bytes; on a read error, those read before it (which
/// `read_to_end` leaves in the buffer), the error itself dropped.
#[verifier::external_body]
fn gunzip(bytes: &[u8]) -> (d: Vec<u8>)
    ensures
        d@ == gunzipped(bytes@),
{
    let mut out = Vec::new();
    let _ = std::io::Read::read_to_end(&mut flate2::read::GzDecoder::new(bytes), &mut out);
    out
}

/// Nanoseconds of `s` seconds, at most the largest `u64`.
pub open spec fn nanos_of(s: int) -> u64 {
    if s * 1_000_000_000 <= u64::MAX {
        (s * 1_000_000_000) as u64
    } else {
        u64::MAX
    }
}

fn nanos_exec(s: u64) -> (r: u64)
    ensures
        r == nanos_of(s as int),
{
    if s <= u64::MAX / 1_000_000_000 {
        s * 1_000_000_000
    } else {
        u64::MAX
    }
}

/// An archive entry's fields as plain values: name, path, whether it is a
/// directory, size, compressed size and modification time.
pub open spec fn entry_fields(e: ArchiveEntry) -> (Seq<char>, Seq<char>, bool, u64, u64, Option<u64>) {
    (e.name@, e.path@, e.is_dir, e.size, e.compressed_size, e.modified)
}

/// The entry a zip record gives: its name as name and path, and the
/// modification time of its date (see `zip_seconds`) when the date is from
/// 1970 on with a month.
pub open spec fn zip_entry(r: (Seq<char>, bool, u64, u64, Option<(u16, u8, u8, u8, u8)>)) -> (
    Seq<char>,
    Seq<char>,
    bool,
    u64,
    u64,
    Option<u64>,
) {
    let modified = match r.4 {
        Some(d) => if d.0 >= 1970 && d.1 >= 1 {
            Some(nanos_of(zip_seconds(d.0, d.1, d.2, d.3, d.4)))
        } else {
            None::<u64>
        },
        None => None::<u64>,
    };
    (r.0, r.0, r.1, r.2, r.3, modified)
}

/// The entry a tar record gives: its path as name and path, its size also
/// as compressed size, and its modification time.
pub open spec fn tar_entry(r: (Seq<char>, bool, u64, Option<u64>)) -> (Seq<char>, Seq<char>, bool, u64, u64, Option<u64>) {
    let modified = match r.3 {
        Some(t) => Some(nanos_of(t as int)),
        None => None::<u64>,
    };
    (r.0, r.0, r.1, r.2, r.2, modified)
}

/// The listing of a tar archive's bytes, or the error to report.
pub open spec fn tar_result(bytes: Seq<u8>) -> Result<Seq<(Seq<char>, Seq<char>, bool, u64, u64, Option<u64>)>, Seq<char>> {
    match tar_listing(bytes) {
        Ok(rs) => Ok(rs.map_values(|r: (Seq<char>, bool, u64, Option<u64>)| tar_entry(r))),
        Err(e) => Err("Cannot read tar: "@ + e),
    }
}

/// The listing of an archive of kind `kind` from its bytes, or the error
/// to report: "Invalid ZIP archive: " or "Cannot read tar: " and the
/// crate's error text. A gzipped tar is read as the tar of what the
/// decompression yields, so a damaged or cut stream lists the entries
/// before the damage.
pub open spec fn archive_result(kind: ArchiveType, bytes: Seq<u8>) -> Result<
    Seq<(Seq<char>, Seq<char>, bool, u64, u64, Option<u64>)>,
    Seq<char>,
> {
    match kind {
        ArchiveType::Zip => match zip_listing(bytes) {
            Ok(rs) => Ok(
                rs.map_values(|r: (Seq<char>, bool, u64, u64, Option<(u16, u8, u8, u8, u8)>)| zip_entry(r)),
            ),
            Err(e) => Err("Invalid ZIP archive: "@ + e),
        },
        ArchiveType::TarGz => tar_result(gunzipped(bytes)),
        ArchiveType::Tar => tar_result(bytes),
    }
}

/// Entries as plain values.
pub open spec fn entries_fields(v: Seq<ArchiveEntry>) -> Seq<(Seq<char>, Seq<char>, bool, u64, u64, Option<u64>)> {
    v.map_values(|e: ArchiveEntry| entry_fields(e))
}

/// The result of listing as plain values.
pub open spec fn listing_view(r: Result<Vec<ArchiveEntry>, String>) -> Result<
    Seq<(Seq<char>, Seq<char>, bool, u64, u64, Option<u64>)>,
    Seq<char>,
> {
    match r {
        Ok(v) => Ok(entries_fields(v@)),
        Err(e) => Err(e@),
    }
}

/// The entries of the records a zip archive lists (name, whether a
/// directory, size, compressed size, date), in order (see `zip_entry`).
pub fn zip_to_entries(v: &Vec<(String, bool, u64, u64, Option<(u16, u8, u8, u8, u8)>)>) -> (r: Vec<ArchiveEntry>)
    ensures
        entries_fields(r@) == zip_records(v@).map_values(
            |x: (Seq<char>, bool, u64, u64, Option<(u16, u8, u8, u8, u8)>)| zip_entry(x),
        ),
{
    let ghost want = zip_records(v@).map_values(
        |x: (Seq<char>, bool, u64, u64, Option<(u16, u8, u8, u8, u8)>)| zip_entry(x),
    );
    let mut out: Vec<ArchiveEntry> = Vec::new();
    let mut i: usize = 0;
    while i < v.len()
        invariant
            i <= v@.len(),
            want == zip_records(v@).map_values(
                |x: (Seq<char>, bool, u64, u64, Option<(u16, u8, u8, u8, u8)>)| zip_entry(x),
            ),
            entries_fields(out@) == want.take(i as int),
        decreases v@.len() - i,
    {
        let r = &v[i];
        let modified = match r.4 {
            Some(d) => {
                if d.0 >= 1970 && d.1 >= 1 {
                    Some(nanos_exec(zip_time_secs(d.0, d.1, d.2, d.3, d.4)))
                } else {
                    None
                }
            },
            None => None,
        };
        let e = ArchiveEntry {
            name: owned(r.0.as_str()),
            path: owned(r.0.as_str()),
            is_dir: r.1,
            size: r.2,
            compressed_size: r.3,
            modified,
        };
        let ghost before = out@;
        out.push(e);
        assert(entries_fields(out@) =~= entries_fields(before).push(entry_fields(e)));
        assert(want.take(i + 1) =~= want.take(i as int).push(want[i as int]));
        i += 1;
    }
    assert(want.take(v@.len() as int) =~= want);
    out
}

/// The entries of the records a tar archive lists (path, whether a
/// directory, size, modification time in seconds), in order (see
/// `tar_entry`).
pub fn tar_to_entries(v: &Vec<(String, bool, u64, Option<u64>)>) -> (r: Vec<ArchiveEntry>)
    ensures
        entries_fields(r@) == tar_records(v@).map_values(|x: (Seq<char>, bool, u64, Option<u64>)| tar_entry(x)),
{
    let ghost want = tar_records(v@).map_values(|x: (Seq<char>, bool, u64, Option<u64>)| tar_entry(x));
    let mut out: Vec<ArchiveEntry> = Vec::new();
    let mut i: usize = 0;
    while i < v.len()
        invariant
            i <= v@.len(),
            want == tar_records(v@).map_values(|x: (Seq<char>, bool, u64, Option<u64>)| tar_entry(x)),
            entries_fields(out@) == want.take(i as int),
        decreases v@.len() - i,
    {
        let r = &v[i];
        let modified = match r.3 {
            Some(t) => Some(nanos_exec(t)),
            None => None,
        };
        let e = ArchiveEntry {
            name: owned(r.0.as_str()),
            path: owned(r.0.as_str()),
            is_dir: r.1,
            size: r.2,
            compressed_size: r.2,
            modified,
        };
        let ghost before = out@;
        out.push(e);
        assert(entries_fields(out@) =~= entries_fields(before).push(entry_fields(e)));
        assert(want.take(i + 1) =~= want.take(i as int).push(want[i as int]));
        i += 1;
    }
    assert(want.take(v@.len() as int) =~= want);
    out
}

/// The error text: `prefix` followed by `e`.
fn prefixed(prefix: &str, e: &str) -> (r: String)
    ensures
        r@ == prefix@ + e@,
{
    let mut r = owned(prefix);
    append_str(&mut r, e);
    r
}

/// The entries of a tar archive's bytes.
fn tar_listing_of(bytes: &[u8]) -> (r: Result<Vec<ArchiveEntry>, String>)
    ensures
        listing_view(r) == tar_result(bytes@),
{
    match tar_entries(bytes) {
        Ok(v) => Ok(tar_to_entries(&v)),
        Err(e) => Err(prefixed("Cannot read tar: ", e.as_str())),
    }
}

/// The entries of an archive of kind `kind` with contents `bytes` (see
/// `archive_result`).
pub fn archive_listing(kind: ArchiveType, bytes: &[u8]) -> (r: Result<Vec<ArchiveEntry>, String>)
    ensures
        listing_view(r) == archive_result(kind, bytes@),
{
    match kind {
        ArchiveType::Zip => match zip_entries(bytes) {
            Ok(v) => Ok(zip_to_entries(&v)),
            Err(e) => Err(prefixed("Invalid ZIP archive: ", e.as_str())),
        },
        ArchiveType::TarGz => {
            let d = gunzip(bytes);
            tar_listing_of(d.as_slice())
        },
        ArchiveType::Tar => tar_listing_of(bytes),
    }
}

/// The entries after adding a listing, or the error.
pub open spec fn read_outcome(
    before: Seq<ArchiveEntry>,
    after: Seq<ArchiveEntry>,
    listing: Result<Seq<(Seq<char>, Seq<char>, bool, u64, u64, Option<u64>)>, Seq<char>>,
    r: Result<(), String>,
) -> bool {
    match r {
        Ok(_) => listing matches Ok(es) && entries_fields(after) == entries_fields(before) + es,
        Err(e) => listing == Err::<Seq<(Seq<char>, Seq<char>, bool, u64, u64, Option<u64>)>, Seq<char>>(e@)
            && after == before,
    }
}

impl ArchiveBrowser {
    /// Adds the listing of `kind` from `bytes` to the entries, or returns
    /// its error and leaves them.
    fn add_listing(&mut self, kind: ArchiveType, bytes: &[u8]) -> (r: Result<(), String>)
        ensures
            read_outcome(old(self).entries@, final(self).entries@, archive_result(kind, bytes@), r),
            final(self).archive_type == old(self).archive_type,
            final(self).archive_path == old(self).archive_path,
            final(self).current_dir == old(self).current_dir,
            final(self).cursor == old(self).cursor,
            final(self).scroll_offset == old(self).scroll_offset,
            final(self).visible_height == old(self).visible_height,
    {
        match archive_listing(kind, bytes) {
            Ok(v) => {
                let ghost before = self.entries@;
                let mut i: usize = 0;
                while i < v.len()
                    invariant
                        i <= v@.len(),
                        entries_fields(self.entries@) == entries_fields(before) + entries_fields(v@).take(i as int),
                        self.archive_type == old(self).archive_type,
                        self.archive_path == old(self).archive_path,
                        self.current_dir == old(self).current_dir,
                        self.cursor == old(self).cursor,
                        self.scroll_offset == old(self).scroll_offset,
                        self.visible_height == old(self).visible_height,
                    decreases v@.len() - i,
                {
                    let e = ArchiveEntry {
                        name: owned(v[i].name.as_str()),
                        path: owned(v[i].path.as_str()),
                        is_dir: v[i].is_dir,
                        size: v[i].size,
                        compressed_size: v[i].compressed_size,
                        modified: v[i].modified,
                    };
                    let ghost prev = self.entries@;
                    self.entries.push(e);
                    assert(entries_fields(self.entries@) =~= entries_fields(prev).push(entry_fields(e)));
                    assert(entries_fields(v@).take(i + 1) =~= entries_fields(v@).take(i as int).push(entry_fields(v@[i as int])));
                    assert(entries_fields(before) + entries_fields(v@).take(i + 1) =~= (entries_fields(before)
                        + entries_fields(v@).take(i as int)).push(entry_fields(e)));
                    i += 1;
                }
                assert(entries_fields(v@).take(v@.len() as int) =~= entries_fields(v@));
                Ok(())
            },
            Err(e) => Err(e),
        }
    }

    /// Adds the entries of the zip archive whose bytes are `bytes`.
    pub fn read_zip(&mut self, bytes: &[u8]) -> (r: Result<(), String>)
        ensures
            read_outcome(old(self).entries@, final(self).entries@, archive_result(ArchiveType::Zip, bytes@), r),
            final(self).archive_type == old(self).archive_type,
            final(self).current_dir == old(self).current_dir,
            final(self).cursor == old(self).cursor,
    {
        self.add_listing(ArchiveType::Zip, bytes)
    }

    /// Adds the entries of the gzipped tar archive whose bytes are `bytes`.
    pub fn read_tar_gz(&mut self, bytes: &[u8]) -> (r: Result<(), String>)
        ensures
            read_outcome(old(self).entries@, final(self).entries@, archive_result(ArchiveType::TarGz, bytes@), r),
            final(self).archive_type == old(self).archive_type,
            final(self).current_dir == old(self).current_dir,
            final(self).cursor == old(self).cursor,
    {
        self.add_listing(ArchiveType::TarGz, bytes)
    }

    /// Adds the entries of the tar archive whose bytes are `bytes`.
    pub fn read_tar_from(&mut self, bytes: &[u8]) -> (r: Result<(), String>)
        ensures
            read_outcome(old(self).entries@, final(self).entries@, archive_result(ArchiveType::Tar, bytes@), r),
            final(self).archive_type == old(self).archive_type,
            final(self).current_dir == old(self).current_dir,
            final(self).cursor == old(self).cursor,
    {
        self.add_listing(ArchiveType::Tar, bytes)
    }

    /// Reads the entries of the archive from its bytes, by its kind: on
    /// success the entries are its listing, else there are none and the
    /// error is returned.
    pub fn read_archive(&mut self, bytes: &[u8]) -> (r: Result<(), String>)
        ensures
            read_outcome(Seq::empty(), final(self).entries@, archive_result(old(self).archive_type, bytes@), r),
            final(self).archive_type == old(self).archive_type,
            final(self).archive_path == old(self).archive_path,
            final(self).current_dir == old(self).current_dir,
            final(self).cursor == old(self).cursor,
            final(self).scroll_offset == old(self).scroll_offset,
            final(self).visible_height == old(self).visible_height,
    {
        self.entries = Vec::new();
        self.add_listing(self.archive_type, bytes)
    }
}

} // verus!
