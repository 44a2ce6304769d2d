use shell::ls_args::{blank_line_before, ls_layout, parse_args, parse_flag, Flag, PathKind};
use shell::ls_format::{
    align_and_format, date_pattern, decorate_name, format_date, format_device, format_permissions,
    prepare_long_entry, EntryFacts, FileKind, LinkTarget, LongEntry,
};
use shell::ls_order::{dir_listing_names, long_listing_order, ListingEntry};

fn words(v: &[&str]) -> Vec<String> {
    v.iter().map(|s| s.to_string()).collect()
}

fn no_flag() -> Flag {
    Flag { a: false, l: false, f: false }
}

#[test]
fn parse_flag_reads_option_words() {
    let mut f = no_flag();
    assert!(parse_flag("-la", &mut f));
    assert_eq!(f, Flag { a: true, l: true, f: false });
    assert!(parse_flag("-F", &mut f));
    assert_eq!(f, Flag { a: true, l: true, f: true });
    let mut g = no_flag();
    assert!(!parse_flag("-", &mut g));
    assert!(!parse_flag("-lx", &mut g));
    assert!(!parse_flag("", &mut g));
    assert_eq!(g, no_flag());
    assert_eq!(Flag::default(), no_flag());
}

#[test]
fn parse_args_sorts_out_names() {
    let args = words(&["-l", "f", "d", "missing", "--", "-a"]);
    let kinds = vec![PathKind::Other, PathKind::Other, PathKind::Directory, PathKind::Missing,
        PathKind::Other, PathKind::Other];
    let r = parse_args(args, &kinds);
    assert_eq!(r.flag, Flag { a: false, l: true, f: false });
    assert_eq!(r.files, words(&["f", "-a"]));
    assert_eq!(r.dirs, words(&["d"]));
    assert_eq!(r.errors, words(&["missing"]));
    assert!(r.bad_option.is_none());
}

#[test]
fn parse_args_stops_on_bad_option() {
    let args = words(&["f", "-z", "d"]);
    let kinds = vec![PathKind::Other, PathKind::Missing, PathKind::Directory];
    let r = parse_args(args, &kinds);
    assert!(r.files.is_empty() && r.dirs.is_empty());
    assert_eq!(r.errors, words(&["__STOP__"]));
    assert_eq!(r.bad_option, Some("-z".to_string()));
}

#[test]
fn parse_args_stop_marker_name() {
    let r = parse_args(words(&["__STOP__", "f"]), &vec![PathKind::Missing, PathKind::Other]);
    assert!(r.files.is_empty());
    assert_eq!(r.errors, words(&["__STOP__"]));
    assert!(r.bad_option.is_none());
}

#[test]
fn layout_defaults_and_headers() {
    let l = ls_layout(parse_args(vec![], &vec![]));
    assert_eq!(l.dirs, words(&["."]));
    assert!(!l.stop_after_errors && !l.show_headers);
    let l = ls_layout(parse_args(words(&["x"]), &vec![PathKind::Missing]));
    assert!(l.dirs.is_empty());
    assert!(l.stop_after_errors && l.show_headers);
    let l = ls_layout(parse_args(words(&["a", "b"]), &vec![PathKind::Directory, PathKind::Directory]));
    assert!(!l.stop_after_errors && l.show_headers);
    let l = ls_layout(parse_args(words(&["a"]), &vec![PathKind::Directory]));
    assert!(!l.show_headers);
    assert!(!blank_line_before(0, false));
    assert!(blank_line_before(0, true));
    assert!(blank_line_before(2, false));
}

#[test]
fn short_listing_order() {
    let names = words(&["b", ".hidden", "C", "a", "..x"]);
    assert_eq!(dir_listing_names(true, true, names.clone(), false), words(&["a", "b", "C"]));
    assert_eq!(
        dir_listing_names(true, true, names.clone(), true),
        words(&[".", "..", "a", "b", "C", ".hidden", "..x"])
    );
    assert_eq!(dir_listing_names(false, true, names, true)[0], "..");
    // Lowercasing goes through the Unicode tables: `É` sorts as `é`.
    assert_eq!(dir_listing_names(false, false, words(&["f", "É", "e"]), false), words(&["e", "f", "É"]));
    // Names equal up to case keep their order.
    assert_eq!(dir_listing_names(false, false, words(&["B", "b"]), false), words(&["B", "b"]));
    assert_eq!(dir_listing_names(false, false, words(&["b", "B"]), false), words(&["b", "B"]));
}

fn long_names(dot: bool, dotdot: bool, names: &Vec<String>, show_hidden: bool) -> Vec<String> {
    long_listing_order(dot, dotdot, names, show_hidden)
        .into_iter()
        .map(|r| match r {
            ListingEntry::Dot => ".".to_string(),
            ListingEntry::DotDot => "..".to_string(),
            ListingEntry::Entry(i) => names[i].clone(),
        })
        .collect()
}

#[test]
fn long_listing_rows() {
    let names = words(&["b-2", "a_1", "A1", ".z"]);
    assert_eq!(
        long_listing_order(true, true, &names, false),
        vec![ListingEntry::Entry(2), ListingEntry::Entry(1), ListingEntry::Entry(0)]
    );
    assert_eq!(long_names(true, false, &names, true), words(&[".", "A1", "a_1", "b-2", ".z"]));
    assert_eq!(long_names(false, true, &names, true)[0], "..");
    // Equal names keep their positions in order.
    let twins = words(&["x", "x"]);
    assert_eq!(
        long_listing_order(false, false, &twins, false),
        vec![ListingEntry::Entry(0), ListingEntry::Entry(1)]
    );
}

#[test]
fn decorations() {
    assert_eq!(decorate_name("d".to_string(), FileKind::Directory, 0o755), "d/");
    assert_eq!(decorate_name("l".to_string(), FileKind::Symlink, 0o777), "l@");
    assert_eq!(decorate_name("p".to_string(), FileKind::Fifo, 0), "p|");
    assert_eq!(decorate_name("s".to_string(), FileKind::Socket, 0), "s=");
    assert_eq!(decorate_name("x".to_string(), FileKind::Regular, 0o100), "x*");
    assert_eq!(decorate_name("f".to_string(), FileKind::Regular, 0o644), "f");
    assert_eq!(decorate_name("c".to_string(), FileKind::CharDevice, 0o001), "c*");
}

#[test]
fn permissions() {
    assert_eq!(format_permissions(FileKind::Directory, 0o40755, false), "drwxr-xr-x ");
    assert_eq!(format_permissions(FileKind::Regular, 0o100640, true), "-rw-r-----+");
    assert_eq!(format_permissions(FileKind::Symlink, 0o777, false), "lrwxrwxrwx ");
    assert_eq!(format_permissions(FileKind::CharDevice, 0o620, false), "crw--w---- ");
    assert_eq!(format_permissions(FileKind::BlockDevice, 0, false), "b--------- ");
    assert_eq!(format_permissions(FileKind::Fifo, 0o001, false), "p--------x ");
    assert_eq!(format_permissions(FileKind::Socket, 0o002, false), "s-------w- ");
}

#[test]
fn device_numbers() {
    assert_eq!(format_device((8 << 8) | 1), "  8,   1");
    assert_eq!(format_device(0x10010300), "259, 65536");
    assert_eq!(format_device(0), "  0,   0");
}

fn facts(name: &str, kind: FileKind) -> EntryFacts {
    EntryFacts {
        name: name.to_string(),
        kind,
        mode: 0o644,
        has_xattr: false,
        nlink: 1,
        uid: 1000,
        user_name: Some("alice".to_string()),
        gid: 100,
        group_name: None,
        len: 1234,
        rdev: 0,
        date: "Jan 01 12:00".to_string(),
        blocks: 8,
        link: None,
    }
}

#[test]
fn long_entries() {
    let e = prepare_long_entry(facts("f", FileKind::Regular), no_flag());
    assert_eq!(e.perms, "-rw-r--r-- ");
    assert_eq!(e.links, "1");
    assert_eq!(e.user, "alice");
    assert_eq!(e.group, "100");
    assert_eq!(e.size, "1234");
    assert_eq!(e.name, "f");
    assert_eq!(e.blocks, 8);

    let mut l = facts("ln", FileKind::Symlink);
    l.link = Some(LinkTarget { target: "dir".to_string(), resolved: Some((FileKind::Directory, 0o755)) });
    let flag = Flag { a: false, l: true, f: true };
    assert_eq!(prepare_long_entry(l, flag).name, "ln -> dir/");
    let mut l = facts("ln", FileKind::Symlink);
    l.link = Some(LinkTarget { target: "dir".to_string(), resolved: Some((FileKind::Directory, 0o755)) });
    assert_eq!(prepare_long_entry(l, no_flag()).name, "ln -> dir");

    let mut x = facts("run", FileKind::Regular);
    x.mode = 0o755;
    assert_eq!(prepare_long_entry(x, flag).name, "run*");

    let mut d = facts("sda1", FileKind::BlockDevice);
    d.rdev = (8 << 8) | 1;
    assert_eq!(prepare_long_entry(d, no_flag()).size, "  8,   1");
}

fn entry(links: &str, user: &str, size: &str, name: &str, blocks: u64) -> LongEntry {
    LongEntry {
        perms: "-rw-r--r-- ".to_string(),
        links: links.to_string(),
        user: user.to_string(),
        group: "g".to_string(),
        size: size.to_string(),
        date: "Jan 01 12:00".to_string(),
        name: name.to_string(),
        blocks,
    }
}

#[test]
fn align_and_format_columns() {
    let text = align_and_format(
        vec![entry("1", "root", "10", "a", 8), entry("12", "al", "3", "b", 5)],
        true,
    );
    assert_eq!(
        text,
        "total 6\n-rw-r--r--   1 root g 10 Jan 01 12:00 a\n-rw-r--r--  12 al   g  3 Jan 01 12:00 b\n"
    );
    let text = align_and_format(vec![entry("1", "u", "1", "a", 3)], false);
    assert_eq!(text, "-rw-r--r--  1 u g 1 Jan 01 12:00 a\n");
    assert_eq!(align_and_format(vec![], true), "");
}

#[test]
fn date_patterns() {
    let now: i128 = 1_700_000_000_000_000_000;
    let day: i128 = 86_400_000_000_000;
    assert_eq!(date_pattern(now, now - day), "%b %d %H:%M");
    assert_eq!(date_pattern(now, now - 180 * day), "%b %d %H:%M");
    assert_eq!(date_pattern(now, now - 180 * day - 1), "%b %d  %Y");
    assert_eq!(date_pattern(now, now + 1), "%b %d  %Y");
}

#[test]
fn law_listings_hide_dot_names_example() {
    let names = words(&[".a", "b", ".", "..", ".git"]);
    for n in dir_listing_names(true, true, names.clone(), false) {
        assert!(!n.starts_with('.'));
    }
    for n in long_names(true, true, &names, false) {
        assert!(!n.starts_with('.'));
    }
}

#[test]
fn law_sort_is_stable_and_complete_example() {
    let names = words(&["b", "B", "a", "A", "c"]);
    let out = dir_listing_names(false, false, names.clone(), true);
    assert_eq!(out, words(&["a", "A", "b", "B", "c"]));
    let mut sorted_in = names.clone();
    sorted_in.sort();
    let mut sorted_out = out.clone();
    sorted_out.sort();
    assert_eq!(sorted_in, sorted_out);
}

#[test]
fn date_column_text() {
    let now: i128 = 1_700_000_000_000_000_000;
    // 2023-11-14 22:13:20 UTC, shown one hour later.
    assert_eq!(format_date(now, 1_700_000_000, 0, 0).as_deref(), Some("Nov 14 23:13"));
    assert_eq!(format_date(now, 1_700_000_000, 0, 3600).as_deref(), Some("Nov 15 00:13"));
    // Older than six months: the year.
    assert_eq!(format_date(now, 1_600_000_000, 0, 0).as_deref(), Some("Sep 13  2020"));
    // An offset of a day or more cannot be represented.
    assert_eq!(format_date(now, 1_700_000_000, 0, 86_400), None);
    assert_eq!(format_date(now, 1_700_000_000, 0, -86_400), None);
    // Before the epoch, and a day less a second east.
    assert_eq!(format_date(now, -1_000_000_000, 0, 0).as_deref(), Some("Apr 24  1938"));
    assert!(format_date(now, 1_700_000_000, 0, 86_399).is_some());
}
