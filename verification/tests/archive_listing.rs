use std::io::Write;

use rdn::archive::{ArchiveBrowser, ArchiveType};
use rdn::archive_read::{archive_listing, tar_to_entries, zip_to_entries};

fn tar_bytes() -> Vec<u8> {
    let mut b = tar::Builder::new(Vec::new());
    let mut h = tar::Header::new_gnu();
    h.set_size(5);
    h.set_mtime(60);
    h.set_mode(0o644);
    h.set_cksum();
    b.append_data(&mut h, "docs/a.txt", &b"hello"[..]).unwrap();
    let mut d = tar::Header::new_gnu();
    d.set_entry_type(tar::EntryType::Directory);
    d.set_size(0);
    d.set_mtime(0);
    d.set_cksum();
    b.append_data(&mut d, "docs/", &b""[..]).unwrap();
    b.into_inner().unwrap()
}

#[test]
fn tar_listing_entries() {
    let v = archive_listing(ArchiveType::Tar, &tar_bytes()).unwrap();
    assert_eq!(v.len(), 2);
    assert_eq!(v[0].path, "docs/a.txt");
    assert_eq!(v[0].name, "docs/a.txt");
    assert_eq!(v[0].size, 5);
    assert_eq!(v[0].compressed_size, 5);
    assert_eq!(v[0].modified, Some(60_000_000_000));
    assert!(!v[0].is_dir);
    assert!(v[1].is_dir);
}

#[test]
fn gzipped_tar_listing() {
    let mut enc = flate2::write::GzEncoder::new(Vec::new(), flate2::Compression::default());
    enc.write_all(&tar_bytes()).unwrap();
    let gz = enc.finish().unwrap();
    let v = archive_listing(ArchiveType::TarGz, &gz).unwrap();
    assert_eq!(v.len(), 2);
    assert_eq!(v[0].path, "docs/a.txt");
    let cut = archive_listing(ArchiveType::TarGz, &gz[..gz.len() - 8]).unwrap();
    assert_eq!(cut.len(), 2);
    let bad = archive_listing(ArchiveType::TarGz, b"not gzip").unwrap();
    assert!(bad.is_empty());
}

#[test]
fn zip_listing_entries() {
    let mut w = zip::ZipWriter::new(std::io::Cursor::new(Vec::new()));
    let opts = zip::write::SimpleFileOptions::default().compression_method(zip::CompressionMethod::Stored);
    w.start_file("a/b.txt", opts).unwrap();
    w.write_all(b"abc").unwrap();
    w.add_directory("a/", opts).unwrap();
    let bytes = w.finish().unwrap().into_inner();
    let v = archive_listing(ArchiveType::Zip, &bytes).unwrap();
    assert_eq!(v.len(), 2);
    assert_eq!(v[0].name, "a/b.txt");
    assert_eq!(v[0].size, 3);
    assert_eq!(v[0].compressed_size, 3);
    assert!(v[0].modified.is_some());
    assert!(v[1].is_dir);
    let bad = archive_listing(ArchiveType::Zip, b"nope");
    assert!(bad.unwrap_err().starts_with("Invalid ZIP archive: "));
}

#[test]
fn browser_reads_its_archive() {
    let mut b = ArchiveBrowser::open("x.tar".to_string()).unwrap();
    b.read_archive(&tar_bytes()).unwrap();
    assert_eq!(b.entries.len(), 2);
    let names: Vec<String> = b.visible_entries().iter().map(|e| e.name.clone()).collect();
    assert_eq!(names, vec!["docs"]);
    let mut z = ArchiveBrowser::open("x.zip".to_string()).unwrap();
    assert!(z.read_archive(b"nope").is_err());
    assert!(z.entries.is_empty());
}

#[test]
fn records_become_entries() {
    let z = zip_to_entries(&vec![
        ("a/b.txt".to_string(), false, 3, 2, Some((1970, 1, 2, 0, 1))),
        ("old".to_string(), false, 1, 1, Some((1969, 12, 31, 0, 0))),
        ("a/".to_string(), true, 0, 0, None),
    ]);
    assert_eq!(z.len(), 3);
    assert_eq!((z[0].name.as_str(), z[0].path.as_str(), z[0].size, z[0].compressed_size), ("a/b.txt", "a/b.txt", 3, 2));
    assert_eq!(z[0].modified, Some((2 * 86_400 + 60) * 1_000_000_000));
    assert_eq!(z[1].modified, None);
    assert!(z[2].is_dir);
    let t = tar_to_entries(&vec![("x/y".to_string(), false, 7, Some(5)), ("x/".to_string(), true, 0, None)]);
    assert_eq!((t[0].name.as_str(), t[0].size, t[0].compressed_size, t[0].modified), ("x/y", 7, 7, Some(5_000_000_000)));
    assert_eq!(t[1].modified, None);
    assert!(t[1].is_dir);
}
