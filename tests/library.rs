use std::io::Write;

use dockerdump::browse::{entry_lines, menu_items, BrowseStep, Browser};
use dockerdump::display::{format_paths_for_display, metadata_tag};
use dockerdump::engine::{action_at, menu_labels, MenuAction, SelectionEngine};
use dockerdump::layer::{
    has_parent_ref, layer_dir, plan_entries, prepare_layer, ArchiveEntry, LayerError, FILE_MODE,
};
use dockerdump::listing::{name_before, sort_listing, Entry};
use dockerdump::paths::{
    copy_destination, file_name, relative_display, strip_leading_slashes, trim_trailing_slashes,
};
use dockerdump::search::{contains_folded, filter_matches, name_matches};
use dockerdump::selection::SelectionList;
use dockerdump::size::format_size;

fn s(x: &str) -> String {
    x.to_string()
}

fn strings(v: &[&str]) -> Vec<String> {
    v.iter().map(|x| x.to_string()).collect()
}

#[test]
fn format_size_examples() {
    assert_eq!(format_size(0), "0 B");
    assert_eq!(format_size(1536), "1.50 KB");
    assert_eq!(format_size(1_073_741_824), "1.00 GB");
}

#[test]
fn format_size_edges() {
    assert_eq!(format_size(1023), "1023 B");
    assert_eq!(format_size(1024), "1.00 KB");
    assert_eq!(format_size(1_048_575), "1024.00 KB");
    assert_eq!(format_size(1_048_576), "1.00 MB");
    assert_eq!(format_size(1_099_511_627_776), "1.00 TB");
    assert_eq!(format_size(1_125_899_906_842_624), "1.00 PB");
    assert_eq!(format_size(u64::MAX), "16384.00 PB");
}

#[test]
fn format_size_rounds_ties_to_even() {
    // 1152 bytes is exactly 1.125 KB, 1408 bytes exactly 1.375 KB
    assert_eq!(format_size(1152), "1.12 KB");
    assert_eq!(format_size(1408), "1.38 KB");
    assert_eq!(format_size(1100), "1.07 KB");
}

#[test]
fn selection_keeps_first_insertion_order() {
    let mut l = SelectionList::new();
    l.add(s("/a"));
    l.add(s("/b"));
    l.add(s("/a"));
    l.add_all(&strings(&["/c", "/b", "/d", "/c"]));
    assert_eq!(l.paths(), &strings(&["/a", "/b", "/c", "/d"]));
    assert_eq!(l.len(), 4);
    assert!(l.contains(&s("/d")));
    assert!(!l.contains(&s("/e")));
}

#[test]
fn selection_add_all_twice_is_once() {
    let items = strings(&["/x", "/y", "/x"]);
    let mut once = SelectionList::new();
    once.add(s("/y"));
    once.add_all(&items);
    let mut twice = SelectionList::new();
    twice.add(s("/y"));
    twice.add_all(&items);
    twice.add_all(&items);
    assert_eq!(once.paths(), twice.paths());
    assert_eq!(once.paths(), &strings(&["/y", "/x"]));
}

#[test]
fn selection_remove_indices_keeps_the_rest() {
    let mut l = SelectionList::new();
    l.add_all(&strings(&["/0", "/1", "/2", "/3", "/4", "/5"]));
    l.remove_indices(&vec![1, 3, 4]);
    assert_eq!(l.paths(), &strings(&["/0", "/2", "/5"]));
    l.remove_indices(&vec![]);
    assert_eq!(l.paths(), &strings(&["/0", "/2", "/5"]));
    l.remove_indices(&vec![2, 0, 9]);
    assert_eq!(l.paths(), &strings(&["/2"]));
    l.remove_indices(&vec![0]);
    assert!(l.is_empty());
}

#[test]
fn listing_puts_directories_first_then_names() {
    let entries = vec![
        Entry::new(s("b.txt"), false),
        Entry::new(s("usr"), true),
        Entry::new(s("B.txt"), false),
        Entry::new(s("etc"), true),
        Entry::new(s("a"), false),
    ];
    let sorted = sort_listing(entries);
    let names: Vec<(String, bool)> = sorted.iter().map(|e| (e.name.clone(), e.is_dir)).collect();
    assert_eq!(
        names,
        vec![
            (s("etc"), true),
            (s("usr"), true),
            (s("B.txt"), false),
            (s("a"), false),
            (s("b.txt"), false),
        ]
    );
    assert!(name_before("ab", "abc"));
    assert!(!name_before("abc", "ab"));
    assert!(!name_before("x", "x"));
}

#[test]
fn browse_empty_directory_has_only_fixed_options() {
    let entries: Vec<Entry> = Vec::new();
    let menu = menu_items(&entries, &Vec::new());
    assert_eq!(
        menu,
        strings(&["[<-] Parent Directory", "[Done browsing]", "[Select files in current directory]"])
    );
    let mut b = Browser::new(s("/tmp/dockerdump"));
    assert!(matches!(b.pick_option(&entries, 2), BrowseStep::BulkSelect));
    b.bulk_select(&entries, &Vec::new());
    assert!(b.picked.is_empty());
    assert!(matches!(b.pick_option(&entries, 1), BrowseStep::Finish));
}

#[test]
fn browse_walks_and_bulk_selects() {
    let root = vec![Entry::new(s("layer_1"), true), Entry::new(s("notes"), false)];
    let mut b = Browser::new(s("/tmp/dockerdump"));
    assert_eq!(b.location(), "/");
    // the parent of the root is the root
    assert!(matches!(b.pick_option(&root, 0), BrowseStep::Stay));
    assert_eq!(b.current_dir(), "/tmp/dockerdump");
    // a file is not entered
    assert!(matches!(b.pick_option(&root, 2), BrowseStep::Stay));
    assert_eq!(b.current_dir(), "/tmp/dockerdump");
    assert!(matches!(b.pick_option(&root, 1), BrowseStep::Stay));
    assert_eq!(b.current_dir(), "/tmp/dockerdump/layer_1");
    let layer = vec![Entry::new(s("etc"), true)];
    b.pick_option(&layer, 1);
    assert_eq!(b.location(), "layer_1/etc");
    let etc = vec![Entry::new(s("group"), false), Entry::new(s("passwd"), false)];
    b.bulk_select(&etc, &vec![1, 0]);
    b.bulk_select(&etc, &vec![1, 0]);
    assert_eq!(
        b.picked.paths(),
        &strings(&["/tmp/dockerdump/layer_1/etc/passwd", "/tmp/dockerdump/layer_1/etc/group"])
    );
    b.pick_option(&etc, 0);
    assert_eq!(b.current_dir(), "/tmp/dockerdump/layer_1");
    assert!(matches!(b.pick_option(&layer, 2), BrowseStep::Finish));
}

#[test]
fn browse_entry_lines_show_kind_tag_and_name() {
    let entries = vec![Entry::new(s("etc"), true), Entry::new(s("a.txt"), false)];
    let tags = strings(&["[4.00 KB] [DIR]", "[12 B] [FILE]"]);
    assert_eq!(
        entry_lines(&entries, &tags),
        strings(&["[DIR] [4.00 KB] [DIR] etc", "[FILE] [12 B] [FILE] a.txt"])
    );
    let menu = menu_items(&entries, &tags);
    assert_eq!(menu.len(), 5);
    assert_eq!(menu[1], "[DIR] [4.00 KB] [DIR] etc");
    assert_eq!(menu[3], "[Done browsing]");
}

#[test]
fn search_finds_one_path_per_layer() {
    let paths = strings(&[
        "/tmp/dockerdump/layer_1",
        "/tmp/dockerdump/layer_1/etc",
        "/tmp/dockerdump/layer_1/etc/passwd",
        "/tmp/dockerdump/layer_2",
        "/tmp/dockerdump/layer_2/etc",
        "/tmp/dockerdump/layer_2/etc/passwd",
    ]);
    let names = strings(&["layer_1", "etc", "passwd", "layer_2", "etc", "passwd"]);
    let found = filter_matches(&paths, &names, "passwd");
    assert_eq!(
        found,
        strings(&["/tmp/dockerdump/layer_1/etc/passwd", "/tmp/dockerdump/layer_2/etc/passwd"])
    );
}

#[test]
fn search_ignores_case() {
    assert!(name_matches("PassWD", "passwd"));
    assert!(name_matches("passwd", "ASS"));
    assert!(!name_matches("passwd", "xyz"));
    assert!(name_matches("anything", ""));
    assert!(contains_folded("abc", "bc"));
    assert!(!contains_folded("abc", "B"));
    assert!(!contains_folded("ab", "abc"));
}

#[test]
fn copy_destination_keeps_last_component() {
    assert_eq!(
        copy_destination("/tmp/dockerdump/layer_1/usr/bin", "/out"),
        Some(s("/out/bin"))
    );
    // the contents of a copied directory land under its copy
    assert_eq!(
        copy_destination("/tmp/dockerdump/layer_1/usr/bin/ls", "/out/bin"),
        Some(s("/out/bin/ls"))
    );
    assert_eq!(copy_destination("/a/..", "/out"), None);
    assert_eq!(copy_destination("/", "/out"), None);
    assert_eq!(file_name("/a/b/c.txt"), "c.txt");
    assert_eq!(file_name("plain"), "plain");
}

#[test]
fn relative_display_strips_the_root() {
    assert_eq!(relative_display("/tmp/dockerdump/layer_1/etc", "/tmp/dockerdump"), "layer_1/etc");
    assert_eq!(relative_display("/tmp/dockerdump", "/tmp/dockerdump"), "");
    assert_eq!(relative_display("/tmp/dockerdumpx/a", "/tmp/dockerdump"), "/tmp/dockerdumpx/a");
    assert_eq!(relative_display("/other", "/tmp/dockerdump"), "/other");
}

#[test]
fn metadata_tags_and_display_lines() {
    assert_eq!(metadata_tag(Some(1536), "FILE"), "[1.50 KB] [FILE]");
    assert_eq!(metadata_tag(Some(0), "DIR"), "[0 B] [DIR]");
    assert_eq!(metadata_tag(None, "DIR"), "[Unknown] [????]");
    let lines = format_paths_for_display(
        &strings(&["/tmp/dockerdump/layer_1/etc/passwd"]),
        "/tmp/dockerdump",
        &strings(&["[1.50 KB] [FILE]"]),
    );
    assert_eq!(lines, strings(&["[1.50 KB] [FILE] layer_1/etc/passwd"]));
}

#[test]
fn engine_menu_and_actions() {
    assert_eq!(menu_labels().len(), 5);
    assert!(action_at(0) == MenuAction::Browse);
    assert!(action_at(1) == MenuAction::Search);
    assert!(action_at(2) == MenuAction::Edit);
    assert!(action_at(3) == MenuAction::Extract);
    assert!(action_at(4) == MenuAction::Exit);
}

#[test]
fn engine_failed_copies_stay_selected() {
    let mut e = SelectionEngine::new(s("/tmp/dockerdump"));
    e.merge_browsed(&strings(&["/p", "/q"]));
    e.add_search_picks(&strings(&["/q", "/r", "/s"]), &vec![0, 1]);
    assert_eq!(e.extraction_targets(), strings(&["/p", "/q", "/r"]));
    let failed = e.extraction_failures(&vec![true, false, true]);
    assert_eq!(failed, strings(&["/q"]));
    assert_eq!(e.extraction_targets(), strings(&["/p", "/q", "/r"]));
    e.remove_checked(&vec![0, 2]);
    assert_eq!(e.extraction_targets(), strings(&["/q"]));
}

fn raw_header(name: &[u8], dir: bool, size: u64) -> tar::Header {
    let mut h = tar::Header::new_old();
    h.as_old_mut().name[..name.len()].copy_from_slice(name);
    h.set_entry_type(if dir { tar::EntryType::Directory } else { tar::EntryType::Regular });
    h.set_size(size);
    h.set_mode(0o400);
    h.set_cksum();
    h
}

fn layer_payload() -> Vec<u8> {
    let mut b = tar::Builder::new(Vec::new());
    b.append(&raw_header(b"/etc/", true, 0), &[][..]).unwrap();
    b.append(&raw_header(b"/etc/passwd", false, 5), &b"root\n"[..]).unwrap();
    b.append(&raw_header(b"../evil", false, 1), &b"x"[..]).unwrap();
    b.append(&raw_header(b"usr/..data", false, 2), &b"ok"[..]).unwrap();
    let tar_bytes = b.into_inner().unwrap();
    let mut gz = flate2::write::GzEncoder::new(Vec::new(), flate2::Compression::default());
    gz.write_all(&tar_bytes).unwrap();
    gz.finish().unwrap()
}

#[test]
fn prepare_layer_plans_relative_writable_entries() {
    let plan = match prepare_layer(&layer_payload()) {
        Ok(p) => p,
        Err(_) => panic!("layer should read"),
    };
    let got: Vec<(String, bool, Vec<u8>, u32)> =
        plan.iter().map(|e| (e.rel.clone(), e.is_dir, e.data.clone(), e.mode)).collect();
    assert_eq!(
        got,
        vec![
            (s("etc/"), true, vec![], FILE_MODE),
            (s("etc/passwd"), false, b"root\n".to_vec(), FILE_MODE),
            (s("usr/..data"), false, b"ok".to_vec(), FILE_MODE),
        ]
    );
    assert_eq!(FILE_MODE & 0o200, 0o200);
}

#[test]
fn prepare_layer_rejects_bad_payloads() {
    assert!(matches!(prepare_layer(&b"not gzip".to_vec()), Err(LayerError::Decompress)));
    let mut gz = flate2::write::GzEncoder::new(Vec::new(), flate2::Compression::default());
    gz.write_all(&[7u8; 600]).unwrap();
    let bad_tar = gz.finish().unwrap();
    assert!(matches!(prepare_layer(&bad_tar), Err(LayerError::Unpack)));
}

#[test]
fn plan_entries_and_path_helpers() {
    let plan = plan_entries(vec![
        ArchiveEntry { path: s("//a/b"), is_dir: false, data: vec![1] },
        ArchiveEntry { path: s("a/../b"), is_dir: false, data: vec![2] },
        ArchiveEntry { path: s(".."), is_dir: true, data: vec![] },
    ]);
    assert_eq!(plan.len(), 1);
    assert_eq!(plan[0].rel, "a/b");
    assert!(has_parent_ref("x/.."));
    assert!(!has_parent_ref("x/..y"));
    assert_eq!(strip_leading_slashes("///x"), "x");
    assert_eq!(layer_dir("/tmp/dockerdump", 0), "/tmp/dockerdump/layer_1");
    assert_eq!(layer_dir("/tmp/dockerdump", 11), "/tmp/dockerdump/layer_12");
}

#[test]
fn trailing_separators_are_skipped() {
    assert_eq!(copy_destination("/tmp/dockerdump/layer_1/usr/bin/", "/out"), Some(s("/out/bin")));
    assert_eq!(file_name("/a/b//"), "b");
    assert_eq!(file_name("///"), "");
    assert_eq!(trim_trailing_slashes("/a/b//"), "/a/b");
    assert_eq!(relative_display("/tmp/dockerdump/layer_1", "/tmp/dockerdump/"), "layer_1");
    assert_eq!(relative_display("/tmp/dockerdump//layer_1/", "/tmp/dockerdump"), "layer_1");
    assert_eq!(relative_display("/tmp/dockerdump/", "/tmp/dockerdump"), "");
    assert_eq!(relative_display("/etc/passwd", "/"), "etc/passwd");
}

#[test]
fn engine_has_nothing_to_do_only_when_empty() {
    let mut e = SelectionEngine::new(s("/tmp/dockerdump"));
    assert!(e.has_nothing_to_do(&MenuAction::Edit));
    assert!(e.has_nothing_to_do(&MenuAction::Extract));
    assert!(!e.has_nothing_to_do(&MenuAction::Browse));
    assert!(!e.has_nothing_to_do(&MenuAction::Search));
    e.merge_browsed(&strings(&["/p"]));
    assert!(!e.has_nothing_to_do(&MenuAction::Edit));
    assert!(!e.has_nothing_to_do(&MenuAction::Extract));
}

#[test]
fn prepare_layer_reads_an_empty_archive() {
    let tar_bytes = tar::Builder::new(Vec::new()).into_inner().unwrap();
    let mut gz = flate2::write::GzEncoder::new(Vec::new(), flate2::Compression::default());
    gz.write_all(&tar_bytes).unwrap();
    let plan = prepare_layer(&gz.finish().unwrap());
    assert!(matches!(plan, Ok(ref p) if p.is_empty()));
}
