use show_files::config::Config;
use show_files::entry::build_entries;
use show_files::entry::split_suffix;
use show_files::entry::EntryKind;
use show_files::entry::FileInfo;
use show_files::entry::RawEntry;
use show_files::layout::readable_size;
use show_files::layout::render;
use show_files::layout::render_line;
use show_files::layout::set_background;
use show_files::layout::spaces;
use show_files::listing::filter_hidden;
use show_files::listing::list_lines;
use show_files::order::apply_chain;
use show_files::order::default_order;
use show_files::order::SortOption;

fn file(name: &str, size: u64) -> FileInfo {
    FileInfo::from_dir_entry(RawEntry {
        name: name.to_string(),
        kind: EntryKind::File,
        size,
        created: 0,
        modified: 0,
    })
}

fn dir(name: &str) -> FileInfo {
    FileInfo::from_dir_entry(RawEntry {
        name: name.to_string(),
        kind: EntryKind::Directory,
        size: 0,
        created: 0,
        modified: 0,
    })
}

#[test]
fn split_suffix_basic() {
    let (name, suffix) = split_suffix("main.rs".to_string());
    assert_eq!(name, "main");
    assert_eq!(suffix, Some("rs".to_string()));
}

#[test]
fn split_suffix_last_dot_wins() {
    let (name, suffix) = split_suffix("archive.tar.gz".to_string());
    assert_eq!(name, "archive.tar");
    assert_eq!(suffix, Some("gz".to_string()));
}

#[test]
fn split_suffix_leading_dot_only() {
    let (name, suffix) = split_suffix(".config".to_string());
    assert_eq!(name, ".config");
    assert_eq!(suffix, None);
}

#[test]
fn split_suffix_no_dot() {
    let (name, suffix) = split_suffix("Makefile".to_string());
    assert_eq!(name, "Makefile");
    assert_eq!(suffix, None);
}

#[test]
fn split_suffix_hidden_with_extension() {
    let (name, suffix) = split_suffix(".tar.gz".to_string());
    assert_eq!(name, ".tar");
    assert_eq!(suffix, Some("gz".to_string()));
}

#[test]
fn split_suffix_roundtrip() {
    for original in ["a.b.c", "x.y", "notes.txt", "v1.2.3.tar"] {
        let (name, suffix) = split_suffix(original.to_string());
        let rejoined = format!("{}.{}", name, suffix.unwrap());
        assert_eq!(rejoined, original);
    }
}

#[test]
fn split_suffix_absent_keeps_name() {
    for original in ["plain", ".hidden", "."] {
        let (name, suffix) = split_suffix(original.to_string());
        assert_eq!(name, original);
        assert_eq!(suffix, None);
    }
}

#[test]
fn split_suffix_trailing_dot_no_extension() {
    // A dot in the last position does not qualify: an extension is never
    // empty, so the name stays whole.
    for original in ["foo.", "a.b.", "..", ".hidden."] {
        let (name, suffix) = split_suffix(original.to_string());
        assert_eq!(name, original);
        assert_eq!(suffix, None);
    }
}

#[test]
fn from_dir_entry_directory_keeps_dotted_name() {
    let e = dir("backups.old");
    assert_eq!(e.name, "backups.old");
    assert_eq!(e.suffix, None);
    assert!(e.is_dir());
}

#[test]
fn from_dir_entry_file_splits() {
    let e = file("photo.jpeg", 77);
    assert_eq!(e.name, "photo");
    assert_eq!(e.suffix, Some("jpeg".to_string()));
    assert_eq!(e.get_suffix_len(), 4);
    assert_eq!(e.size, 77);
    assert!(!e.is_dir());
}

#[test]
fn build_entries_keeps_order() {
    let raws = vec![
        RawEntry {
            name: "b.txt".to_string(),
            kind: EntryKind::File,
            size: 1,
            created: 2,
            modified: 3,
        },
        RawEntry {
            name: "a".to_string(),
            kind: EntryKind::Directory,
            size: 0,
            created: 4,
            modified: 5,
        },
    ];
    let entries = build_entries(raws);
    assert_eq!(entries.len(), 2);
    assert_eq!(entries[0].name, "b");
    assert_eq!(entries[0].created, 2);
    assert_eq!(entries[1].name, "a");
    assert_eq!(entries[1].modified, 5);
}

#[test]
fn default_order_directories_first() {
    let entries = vec![file("aaa.txt", 1), dir("zzz")];
    let ordered = default_order(entries);
    assert!(ordered[0].is_dir());
    assert_eq!(ordered[0].name, "zzz");
    assert_eq!(ordered[1].name, "aaa");
}

#[test]
fn default_order_name_case_insensitive() {
    // If lowercasing did nothing, "Beta" (B = 66) would sort before
    // "alpha" (a = 97); case-insensitively "alpha" comes first.
    let entries = vec![file("Beta.txt", 1), file("alpha.txt", 1)];
    let ordered = default_order(entries);
    assert_eq!(ordered[0].name, "alpha");
    assert_eq!(ordered[1].name, "Beta");
}

#[test]
fn sort_by_size_ascending() {
    let entries = vec![file("a", 500), file("b", 2000), file("c", 10)];
    let sorted = SortOption::Size.sort(entries);
    let sizes: Vec<u64> = sorted.iter().map(|e| e.size).collect();
    assert_eq!(sizes, vec![10, 500, 2000]);
}

#[test]
fn chain_size_then_reverse() {
    let entries = vec![file("a", 500), file("b", 2000), file("c", 10)];
    let chain = vec![SortOption::Size, SortOption::Reverse];
    let out = apply_chain(&chain, entries);
    let sizes: Vec<u64> = out.iter().map(|e| e.size).collect();
    assert_eq!(sizes, vec![2000, 500, 10]);
}

#[test]
fn chain_stable_ties_keep_previous_order() {
    // Equal sizes: the size pass must keep the order the name pass made.
    let entries = vec![file("delta", 7), file("Alpha", 7), file("charlie", 7)];
    let chain = vec![SortOption::Name, SortOption::Size];
    let out = apply_chain(&chain, entries);
    let names: Vec<&str> = out.iter().map(|e| e.name.as_str()).collect();
    assert_eq!(names, vec!["Alpha", "charlie", "delta"]);
}

#[test]
fn readable_size_bytes() {
    assert_eq!(readable_size(512, 0), "512B");
    assert_eq!(readable_size(512, 6), "  512B");
    assert_eq!(readable_size(0, 0), "0B");
    assert_eq!(readable_size(1023, 6), " 1023B");
}

#[test]
fn readable_size_kilobytes() {
    assert_eq!(readable_size(2048, 0), "2KB");
    assert_eq!(readable_size(1024, 0), "1KB");
    assert_eq!(readable_size(1048575, 6), "1023KB");
}

#[test]
fn readable_size_megabytes_two_decimals() {
    assert_eq!(readable_size(1572864, 0), "1.50MB");
    assert_eq!(readable_size(1048576, 0), "1.00MB");
}

#[test]
fn readable_size_gigabytes_divides() {
    // 1 GiB exactly: dividing (not multiplying) by 1024^3 gives 1.00.
    assert_eq!(readable_size(1073741824, 0), "1.00GB");
    assert_eq!(readable_size(1610612736, 0), "1.50GB");
}

#[test]
fn readable_size_never_truncates() {
    // Wider than the 6-character field: no padding, nothing cut off.
    assert_eq!(readable_size(524288000, 6), "500.00MB");
}

#[test]
fn spaces_builds_padding() {
    assert_eq!(spaces(0), "");
    assert_eq!(spaces(5), "     ");
}

#[test]
fn set_background_wraps_line() {
    assert_eq!(
        set_background("x".to_string(), 244),
        "\u{1b}[48;5;244mx\u{1b}[0m"
    );
}

#[test]
fn render_line_fixed_columns() {
    // name_width 10, suffix_width 3: the content before terminal padding
    // is exactly 10 + 2 + 3 + 1 + 6 characters.
    let e = file("hello.rs", 512);
    let line = render_line(&e, 10, 3, 0, true);
    let content = "hello      |rs |  512B";
    assert_eq!(content.chars().count(), 10 + 2 + 3 + 1 + 6);
    assert_eq!(line, format!("\u{1b}[48;5;140m{}\u{1b}[0m", content));
}

#[test]
fn render_line_pads_to_terminal_width() {
    let e = file("hello.rs", 512);
    let line = render_line(&e, 10, 3, 30, true);
    let content = "hello      |rs |  512B        ";
    assert_eq!(content.chars().count(), 30);
    assert_eq!(line, format!("\u{1b}[48;5;140m{}\u{1b}[0m", content));
}

#[test]
fn render_colors_by_kind_and_parity() {
    let entries = vec![dir("a"), dir("b"), file("c", 1), file("d", 1)];
    let lines = render(&entries, 0);
    assert!(lines[0].starts_with("\u{1b}[48;5;244m"));
    assert!(lines[1].starts_with("\u{1b}[48;5;243m"));
    assert!(lines[2].starts_with("\u{1b}[48;5;140m"));
    assert!(lines[3].starts_with("\u{1b}[48;5;146m"));
}

#[test]
fn row_parity_follows_rendered_position() {
    // Re-order by size before rendering: the colors must follow the new
    // positions, not the name order the entries arrived in.
    let entries = vec![file("aa", 300), file("bb", 100), file("cc", 200)];
    let lines = list_lines(entries, false, &vec![SortOption::Size], 0);
    assert!(lines[0].contains("bb"));
    assert!(lines[0].starts_with("\u{1b}[48;5;140m"));
    assert!(lines[1].contains("cc"));
    assert!(lines[1].starts_with("\u{1b}[48;5;146m"));
    assert!(lines[2].contains("aa"));
    assert!(lines[2].starts_with("\u{1b}[48;5;140m"));
}

#[test]
fn filter_hidden_excludes_dot_names() {
    let entries = vec![file(".config", 1), file("visible.txt", 1)];
    let kept = filter_hidden(entries, false);
    assert_eq!(kept.len(), 1);
    assert_eq!(kept[0].name, "visible");
}

#[test]
fn filter_hidden_show_all_keeps_everything() {
    let entries = vec![file(".config", 1), file("visible.txt", 1)];
    let kept = filter_hidden(entries, true);
    assert_eq!(kept.len(), 2);
    assert_eq!(kept[0].name, ".config");
    assert_eq!(kept[1].name, "visible");
}

#[test]
fn list_lines_filters_orders_and_renders() {
    let entries = vec![
        file(".hidden", 1),
        file("beta.txt", 10),
        dir("src"),
        file("Alpha.txt", 20),
    ];
    let lines = list_lines(entries, false, &Vec::new(), 0);
    assert_eq!(lines.len(), 3);
    assert!(lines[0].contains("src"));
    assert!(lines[1].contains("Alpha"));
    assert!(lines[2].contains("beta"));
}

#[test]
fn list_lines_chain_is_applied() {
    // The user chain really runs after the default ordering: a size sort
    // must override the default name order.
    let entries = vec![file("aa.txt", 300), file("bb.txt", 100)];
    let lines = list_lines(entries, false, &vec![SortOption::Size], 0);
    assert!(lines[0].contains("bb"));
    assert!(lines[1].contains("aa"));
}

#[test]
fn config_new_defaults() {
    let c = Config::new();
    assert!(!c.show_header);
    assert!(!c.show_size);
    assert!(!c.show_creation);
    assert!(!c.show_modification);
    assert!(!c.print_all);
    assert_eq!(c.sort_by, vec![SortOption::IsDirectory, SortOption::Name]);
}

#[test]
fn config_setters() {
    let c = Config::new()
        .set_show_header()
        .set_show_size()
        .set_show_creation()
        .set_show_modification()
        .set_show_print_all();
    assert!(c.show_header);
    assert!(c.show_size);
    assert!(c.show_creation);
    assert!(c.show_modification);
    assert!(c.print_all);
}

#[test]
fn from_args_empty_gives_defaults() {
    let Ok(c) = Config::from_args(&Vec::new()) else {
        panic!("expected success");
    };
    assert!(!c.print_all);
    assert_eq!(c.sort_by, vec![SortOption::IsDirectory, SortOption::Name]);
}

#[test]
fn from_args_flags() {
    let args = vec!["-a".to_string(), "-h".to_string(), "-s".to_string()];
    let Ok(c) = Config::from_args(&args) else {
        panic!("expected success");
    };
    assert!(c.print_all);
    assert!(c.show_header);
    assert!(c.show_size);
    assert!(!c.show_creation);
    assert!(!c.show_modification);
}

#[test]
fn from_args_sort_directive() {
    let args = vec!["sort=s!".to_string()];
    let Ok(c) = Config::from_args(&args) else {
        panic!("expected success");
    };
    assert_eq!(c.sort_by, vec![SortOption::Size, SortOption::Reverse]);
}

#[test]
fn from_args_last_directive_wins() {
    let args = vec!["sort=n".to_string(), "sort=dm".to_string()];
    let Ok(c) = Config::from_args(&args) else {
        panic!("expected success");
    };
    assert_eq!(
        c.sort_by,
        vec![SortOption::IsDirectory, SortOption::Modification]
    );
}

#[test]
fn from_args_unknown_argument() {
    let args = vec!["bogus".to_string()];
    match Config::from_args(&args) {
        Err(e) => assert_eq!(e, "bogus"),
        Ok(_) => panic!("expected an error"),
    }
}

#[test]
fn from_args_rejects_malformed_directive() {
    // The pattern matches inside "xsort=d", but the argument is not a
    // well-formed directive, so it is rejected at parse time.
    let args = vec!["xsort=d".to_string()];
    assert!(Config::from_args(&args).is_err());
    // "sort=" with no token at all is not a directive either.
    let args = vec!["sort=".to_string()];
    assert!(Config::from_args(&args).is_err());
    // A junk token inside an otherwise valid directive is rejected.
    let args = vec!["sort=dz".to_string()];
    assert!(Config::from_args(&args).is_err());
}

#[test]
fn sort_by_kind_groups_directories_last() {
    // ByKind sorts by the bare is_directory flag: false before true, so
    // files group in front of directories, stably.
    let entries = vec![dir("d1"), file("f1", 1), dir("d2"), file("f2", 1)];
    let sorted = SortOption::IsDirectory.sort(entries);
    let names: Vec<&str> = sorted.iter().map(|e| e.name.as_str()).collect();
    assert_eq!(names, vec!["f1", "f2", "d1", "d2"]);
}

#[test]
fn sort_by_timestamps() {
    let mut a = file("a", 1);
    a.created = 30;
    a.modified = 1;
    let mut b = file("b", 1);
    b.created = 10;
    b.modified = 3;
    let mut c = file("c", 1);
    c.created = 20;
    c.modified = 2;
    let by_created = SortOption::Creation.sort(vec![a, b, c]);
    let names: Vec<&str> = by_created.iter().map(|e| e.name.as_str()).collect();
    assert_eq!(names, vec!["b", "c", "a"]);
    let mut a = file("a", 1);
    a.modified = 1;
    let mut b = file("b", 1);
    b.modified = 3;
    let mut c = file("c", 1);
    c.modified = 2;
    let by_modified = SortOption::Modification.sort(vec![b, a, c]);
    let names: Vec<&str> = by_modified.iter().map(|e| e.name.as_str()).collect();
    assert_eq!(names, vec!["a", "c", "b"]);
}

#[test]
fn reverse_alone_flips_order() {
    let entries = vec![file("x", 1), file("y", 2), file("z", 3)];
    let reversed = SortOption::Reverse.sort(entries);
    let names: Vec<&str> = reversed.iter().map(|e| e.name.as_str()).collect();
    assert_eq!(names, vec!["z", "y", "x"]);
}

#[test]
fn empty_listing_renders_nothing() {
    let lines = list_lines(Vec::new(), true, &Vec::new(), 80);
    assert!(lines.is_empty());
}
