use tarball::listing::{format_listing, format_size, path_le_exec, sort_by_path, widest_path, ArchiveEntry};
use tarball::placement::{
    confirm, is_single_component_exec, join_exec, place, report, unpack_placement, DirContents, Placement,
    UnpackError,
};
use tarball::prefix::{acceptable_entry_path_exec, common_top_level, first_component_exec};
use tarball::stem::{file_stem, stem_of_name};

fn build_tar(files: &[(&str, usize)]) -> Vec<u8> {
    let mut builder = tar::Builder::new(Vec::new());
    for (name, size) in files {
        let data = vec![b'x'; *size];
        let mut header = tar::Header::new_gnu();
        header.set_size(*size as u64);
        header.set_mode(0o644);
        header.set_cksum();
        builder.append_data(&mut header, name, data.as_slice()).unwrap();
    }
    builder.into_inner().unwrap()
}

fn read_entries(bytes: &[u8]) -> Vec<ArchiveEntry> {
    let mut archive = tar::Archive::new(bytes);
    let mut out = Vec::new();
    for file in archive.entries().unwrap() {
        let file = file.unwrap();
        let header = file.header();
        out.push(ArchiveEntry {
            path: header.path().unwrap().display().to_string(),
            size: header.size().unwrap(),
        });
    }
    out
}

fn entry(path: &str, size: u64) -> ArchiveEntry {
    ArchiveEntry { path: path.to_string(), size }
}

fn strings(v: &[&str]) -> Vec<String> {
    v.iter().map(|s| s.to_string()).collect()
}

#[test]
fn test_list_tarball() {
    let file = build_tar(&[("Cargo.lock", 4915), ("Cargo.toml", 187), ("LICENSE", 11356)]);
    let entries = read_entries(&file);

    let lines = format_listing(&entries);

    assert_eq!(
        lines,
        vec!["Cargo.lock 4.80 KiB", "Cargo.toml 187 B", "LICENSE    11.09 KiB",]
    );
}

#[test]
fn test_file_stem() {
    assert_eq!(file_stem("foo").unwrap(), "foo");
    assert_eq!(file_stem("foo.tar").unwrap(), "foo");
    assert_eq!(file_stem("foo.tar.gz").unwrap(), "foo");
    assert_eq!(file_stem("foo.bar.tar").unwrap(), "foo.bar");
}

#[test]
fn test_unpack_tarball() {
    let placement = unpack_placement(&DirContents::Multiple, "archives/widgets.tar.gz", "dest/.tmp1", "dest")
        .unwrap();
    assert!(matches!(&placement, Placement::MoveStaging { to } if to == "dest/widgets"));
    assert_eq!(report(&placement), "unpacked to dest/widgets");
}

#[test]
fn stem_of_already_stripped_names() {
    assert_eq!(stem_of_name("foo"), "foo");
    assert_eq!(stem_of_name("foo.tar"), "foo");
    assert_eq!(stem_of_name("foo.tar.gz"), "foo");
    assert_eq!(stem_of_name(&stem_of_name("foo.tar.gz")), "foo");
    assert_eq!(stem_of_name("foo.bar.gz"), "foo.bar");
}

#[test]
fn stem_edge_cases() {
    assert_eq!(stem_of_name(".bashrc"), ".bashrc");
    assert_eq!(stem_of_name(".tar.gz"), ".tar");
    assert_eq!(stem_of_name("foo."), "foo");
    assert_eq!(stem_of_name("a.tar.tar"), "a");
    assert_eq!(stem_of_name("a.tarx.gz"), "a.tarx");
    assert_eq!(stem_of_name(".."), "..");
}

#[test]
fn file_stem_ignores_directories() {
    assert_eq!(file_stem("some/dir/widgets.tar.gz").unwrap(), "widgets");
    assert_eq!(file_stem("/abs/dir.d/foo.bar.gz").unwrap(), "foo.bar");
    assert_eq!(file_stem("/"), None);
    assert_eq!(file_stem(""), None);
    assert_eq!(file_stem("a/.."), None);
}

#[test]
fn listing_sorted_and_padded() {
    let entries = vec![entry("zeta", 0), entry("a/longer/path", 1024), entry("b", 2048)];
    let lines = format_listing(&entries);
    assert_eq!(
        lines,
        vec!["a/longer/path 1.00 KiB", "b             2.00 KiB", "zeta          0 B",]
    );
    assert_eq!(widest_path(&entries), 13);
}

#[test]
fn listing_pads_wide_characters_by_cells() {
    let entries = vec![entry("日本", 1), entry("abc", 2)];
    let lines = format_listing(&entries);
    assert_eq!(lines, vec!["abc  2 B", "日本 1 B"]);
    assert_eq!(widest_path(&entries), 4);
}

#[test]
fn listing_keeps_order_of_equal_paths() {
    let entries = vec![entry("x", 3), entry("a", 1), entry("x", 5)];
    let sorted = sort_by_path(&entries);
    let got: Vec<(String, u64)> = sorted.into_iter().map(|e| (e.path, e.size)).collect();
    assert_eq!(
        got,
        vec![("a".to_string(), 1), ("x".to_string(), 3), ("x".to_string(), 5)]
    );
}

#[test]
fn listing_of_no_entries_is_empty() {
    assert!(format_listing(&Vec::new()).is_empty());
    assert_eq!(widest_path(&Vec::new()), 0);
}

#[test]
fn path_order_is_lexicographic() {
    assert!(path_le_exec("Cargo.lock", "Cargo.toml"));
    assert!(!path_le_exec("LICENSE", "Cargo.toml"));
    assert!(path_le_exec("a", "ab"));
    assert!(!path_le_exec("ab", "a"));
    assert!(path_le_exec("", ""));
    assert!(path_le_exec("Z", "a"));
}

#[test]
fn dir_contents_classification() {
    assert!(matches!(DirContents::new(&Vec::new()), DirContents::Empty));
    assert!(matches!(DirContents::new(&strings(&["X"])), DirContents::One(n) if n == "X"));
    assert!(matches!(DirContents::new(&strings(&["a", "b"])), DirContents::Multiple));
}

#[test]
fn single_top_level_directory_collapses() {
    let r = place(&DirContents::One("X".to_string()), &Some("arch".to_string()), "dest/.tmp", "dest").unwrap();
    assert!(matches!(&r, Placement::MoveChild { from, to } if from == "dest/.tmp/X" && to == "dest/X"));
    assert_eq!(report(&r), "unpacked to dest/X");
}

#[test]
fn several_top_level_entries_are_wrapped() {
    let r = place(&DirContents::Multiple, &Some("arch".to_string()), "/d/.tmp", "/d/").unwrap();
    assert!(matches!(&r, Placement::MoveStaging { to } if to == "/d/arch"));
}

#[test]
fn empty_archive_reports_empty() {
    let r = place(&DirContents::Empty, &None, "dest/.tmp", "dest").unwrap();
    assert!(matches!(r, Placement::Empty));
    assert_eq!(report(&r), "empty tarball");
}

#[test]
fn widgets_scenario() {
    let file = build_tar(&[("Cargo.lock", 4915), ("Cargo.toml", 187), ("LICENSE", 11356)]);
    let entries = read_entries(&file);
    assert_eq!(
        format_listing(&entries),
        vec!["Cargo.lock 4.80 KiB", "Cargo.toml 187 B", "LICENSE    11.09 KiB",]
    );
    let paths: Vec<String> = entries.iter().map(|e| e.path.clone()).collect();
    assert_eq!(common_top_level(&paths), Ok(false));
    let contents = DirContents::new(&strings(&["Cargo.lock", "Cargo.toml"]));
    let r = unpack_placement(&contents, "widgets.tar.gz", "/dest/.tmpX", "/dest").unwrap();
    assert_eq!(report(&r), "unpacked to /dest/widgets");
}

#[test]
fn placement_errors() {
    assert_eq!(
        place(&DirContents::One("..".to_string()), &None, "s", "d").err(),
        Some(UnpackError::UnsupportedPath)
    );
    assert_eq!(
        place(&DirContents::Multiple, &None, "s", "d").err(),
        Some(UnpackError::StemDerivation)
    );
    assert_eq!(
        unpack_placement(&DirContents::Multiple, "/", "s", "d").err(),
        Some(UnpackError::StemDerivation)
    );
    assert_eq!(
        unpack_placement(&DirContents::Multiple, "...", "s", "d").err(),
        Some(UnpackError::StemDerivation)
    );
}

#[test]
fn single_component_names() {
    assert!(is_single_component_exec("widgets"));
    assert!(is_single_component_exec(".hidden"));
    assert!(!is_single_component_exec(""));
    assert!(!is_single_component_exec("."));
    assert!(!is_single_component_exec(".."));
    assert!(!is_single_component_exec("a/b"));
}

#[test]
fn joining_paths() {
    assert_eq!(join_exec("dest", "x"), "dest/x");
    assert_eq!(join_exec("dest/", "x"), "dest/x");
    assert_eq!(join_exec("", "x"), "x");
}

#[test]
fn common_prefix_detection() {
    assert_eq!(common_top_level(&Vec::new()), Ok(true));
    assert_eq!(common_top_level(&strings(&["X/", "X/a", "X/b/c"])), Ok(true));
    assert_eq!(common_top_level(&strings(&["X/a", "Y/b"])), Ok(false));
    assert_eq!(common_top_level(&strings(&["X/a", "Y/b", "/etc/passwd"])), Err(UnpackError::UnsupportedPath));
    assert_eq!(common_top_level(&strings(&["X/../../a"])), Err(UnpackError::UnsupportedPath));
    assert_eq!(common_top_level(&strings(&["./a"])), Err(UnpackError::UnsupportedPath));
    assert_eq!(first_component_exec("X/b/c"), "X");
    assert_eq!(first_component_exec("file"), "file");
}

#[test]
fn entry_path_acceptance() {
    assert!(acceptable_entry_path_exec("a/..b/c"));
    assert!(acceptable_entry_path_exec("a/./b"));
    assert!(!acceptable_entry_path_exec(""));
    assert!(!acceptable_entry_path_exec(".."));
    assert!(!acceptable_entry_path_exec("a/.."));
    assert!(!acceptable_entry_path_exec("/a"));
}

#[test]
fn size_display_formats() {
    assert_eq!(format_size(0), "0 B");
    assert_eq!(format_size(187), "187 B");
    assert_eq!(format_size(1023), "1023 B");
    assert_eq!(format_size(1024), "1.00 KiB");
    assert_eq!(format_size(1536), "1.50 KiB");
    assert_eq!(format_size(4915), "4.80 KiB");
    assert_eq!(format_size(11356), "11.09 KiB");
    assert_eq!(format_size(1048576), "1.00 MiB");
}

#[test]
fn existing_target_is_refused() {
    let p = Placement::MoveStaging { to: "d/arch".to_string() };
    assert_eq!(confirm(p, true).err(), Some(UnpackError::TargetExists));
    let p = Placement::MoveStaging { to: "d/arch".to_string() };
    assert!(matches!(confirm(p, false), Ok(Placement::MoveStaging { to }) if to == "d/arch"));
    assert!(matches!(confirm(Placement::Empty, true), Ok(Placement::Empty)));
}
