use vstd::prelude::*;
use vstd::string::StringExecFns;
use crate::ls_args::Flag;
use crate::text::{
    decimal, decimal_string, pad_left, pad_right, push_char, push_decimal, push_padded_left,
    push_padded_right,
};

verus! {

/// The type of a file, as its metadata tells it.
#[derive(Debug, Clone, Copy, PartialEq, Eq, Structural)]
pub enum FileKind {
    Directory,
    Symlink,
    CharDevice,
    BlockDevice,
    Fifo,
    Socket,
    Regular,
}

/// The indicator that `-F` appends to a name: `/` for a directory, `@`
/// for a symbolic link, `|` for a FIFO, `=` for a socket, `*` for a file
/// that someone may execute, none otherwise.
pub open spec fn indicator(kind: FileKind, mode: u32) -> Option<char> {
    match kind {
        FileKind::Directory => Some('/'),
        FileKind::Symlink => Some('@'),
        FileKind::Fifo => Some('|'),
        FileKind::Socket => Some('='),
        _ => if mode & 0o111u32 != 0 {
            Some('*')
        } else {
            None
        },
    }
}

/// The indicators of `-F`: `/` for a directory, `@` for a symbolic link,
/// `|` for a named pipe, `=` for a socket, and for anything else `*`
/// exactly where some execute bit is set, else none.
pub proof fn law_indicators(kind: FileKind, mode: u32)
    ensures
        kind == FileKind::Directory ==> indicator(kind, mode) == Some('/'),
        kind == FileKind::Symlink ==> indicator(kind, mode) == Some('@'),
        kind == FileKind::Fifo ==> indicator(kind, mode) == Some('|'),
        kind == FileKind::Socket ==> indicator(kind, mode) == Some('='),
        (kind == FileKind::Regular || kind == FileKind::CharDevice || kind
            == FileKind::BlockDevice) ==> (indicator(kind, mode) == if (mode >> 6u32) & 1 == 1 || (
        mode >> 3u32) & 1 == 1 || mode & 1 == 1 {
            Some('*')
        } else {
            None
        }),
{
    assert((mode & 0o111u32 != 0) == ((mode >> 6u32) & 1 == 1 || (mode >> 3u32) & 1 == 1 || mode & 1
        == 1)) by (bit_vector);
}

/// `name` with the indicator of its type appended.
pub open spec fn decorated(name: Seq<char>, kind: FileKind, mode: u32) -> Seq<char> {
    match indicator(kind, mode) {
        Some(c) => name.push(c),
        None => name,
    }
}

/// Appends to `name` the indicator of its type (see `indicator`); `mode`
/// holds the file's permission bits.
pub fn decorate_name(name: String, kind: FileKind, mode: u32) -> (r: String)
    ensures
        r@ == decorated(name@, kind, mode),
{
    let mut name = name;
    match kind {
        FileKind::Directory => push_char(&mut name, '/'),
        FileKind::Symlink => push_char(&mut name, '@'),
        FileKind::Fifo => push_char(&mut name, '|'),
        FileKind::Socket => push_char(&mut name, '='),
        _ => {
            if mode & 0o111u32 != 0 {
                push_char(&mut name, '*');
            }
        },
    }
    name
}

/// The character that stands for the type of a file in a long listing.
pub open spec fn type_char(kind: FileKind) -> char {
    match kind {
        FileKind::Directory => 'd',
        FileKind::Symlink => 'l',
        FileKind::CharDevice => 'c',
        FileKind::BlockDevice => 'b',
        FileKind::Fifo => 'p',
        FileKind::Socket => 's',
        FileKind::Regular => '-',
    }
}

/// `c` where `mode` has `bit` set, else `-`.
pub open spec fn perm_char(mode: u32, bit: u32, c: char) -> char {
    if mode & bit != 0 {
        c
    } else {
        '-'
    }
}

/// The permission column of a long listing: the type, read/write/execute
/// for the owner, the group and others, then `+` where the file has
/// extended attributes, else a space.
pub open spec fn permissions_of(kind: FileKind, mode: u32, has_xattr: bool) -> Seq<char> {
    seq![
        type_char(kind),
        perm_char(mode, 0o400, 'r'),
        perm_char(mode, 0o200, 'w'),
        perm_char(mode, 0o100, 'x'),
        perm_char(mode, 0o040, 'r'),
        perm_char(mode, 0o020, 'w'),
        perm_char(mode, 0o010, 'x'),
        perm_char(mode, 0o004, 'r'),
        perm_char(mode, 0o002, 'w'),
        perm_char(mode, 0o001, 'x'),
        if has_xattr {
            '+'
        } else {
            ' '
        },
    ]
}

/// The letter of the `j`-th permission of a class: read, write, execute.
pub open spec fn rwx(j: int) -> char {
    if j == 0 {
        'r'
    } else if j == 1 {
        'w'
    } else {
        'x'
    }
}

/// The permission column shows the nine low bits of the mode, from the
/// highest: the `k`-th letter after the type is `r`, `w` or `x` (by `k`
/// modulo 3) exactly where bit `8 - k` of the mode is set, else `-`; the
/// column is eleven characters wide and ends in `+` exactly where the file
/// has extended attributes.
pub proof fn law_permission_bits(kind: FileKind, mode: u32, has_xattr: bool)
    ensures
        permissions_of(kind, mode, has_xattr).len() == 11,
        permissions_of(kind, mode, has_xattr)[0] == type_char(kind),
        forall|k: int|
            0 <= k < 9 ==> #[trigger] permissions_of(kind, mode, has_xattr)[1 + k] == if (mode
                >> ((8 - k) as u32)) & 1 == 1 {
                rwx(k % 3)
            } else {
                '-'
            },
        (permissions_of(kind, mode, has_xattr)[10] == '+') == has_xattr,
{
    assert((mode & 0o400 != 0) == ((mode >> 8u32) & 1 == 1)) by (bit_vector);
    assert((mode & 0o200 != 0) == ((mode >> 7u32) & 1 == 1)) by (bit_vector);
    assert((mode & 0o100 != 0) == ((mode >> 6u32) & 1 == 1)) by (bit_vector);
    assert((mode & 0o040 != 0) == ((mode >> 5u32) & 1 == 1)) by (bit_vector);
    assert((mode & 0o020 != 0) == ((mode >> 4u32) & 1 == 1)) by (bit_vector);
    assert((mode & 0o010 != 0) == ((mode >> 3u32) & 1 == 1)) by (bit_vector);
    assert((mode & 0o004 != 0) == ((mode >> 2u32) & 1 == 1)) by (bit_vector);
    assert((mode & 0o002 != 0) == ((mode >> 1u32) & 1 == 1)) by (bit_vector);
    assert((mode & 0o001 != 0) == ((mode >> 0u32) & 1 == 1)) by (bit_vector);
    let p = permissions_of(kind, mode, has_xattr);
    assert forall|k: int| 0 <= k < 9 implies #[trigger] p[1 + k] == if (mode >> ((8 - k) as u32))
        & 1 == 1 {
        rwx(k % 3)
    } else {
        '-'
    } by {
        if k == 0 {
        } else if k == 1 {
        } else if k == 2 {
        } else if k == 3 {
        } else if k == 4 {
        } else if k == 5 {
        } else if k == 6 {
        } else if k == 7 {
        } else {
        }
    }
}

fn bit_char(mode: u32, bit: u32, c: char) -> (r: char)
    ensures
        r == perm_char(mode, bit, c),
{
    if mode & bit != 0 {
        c
    } else {
        '-'
    }
}

/// The permission column of a long listing (see `permissions_of`).
pub fn format_permissions(kind: FileKind, mode: u32, has_xattr: bool) -> (r: String)
    ensures
        r@ == permissions_of(kind, mode, has_xattr),
{
    let mut s = String::new();
    let t = match kind {
        FileKind::Directory => 'd',
        FileKind::Symlink => 'l',
        FileKind::CharDevice => 'c',
        FileKind::BlockDevice => 'b',
        FileKind::Fifo => 'p',
        FileKind::Socket => 's',
        FileKind::Regular => '-',
    };
    push_char(&mut s, t);
    push_char(&mut s, bit_char(mode, 0o400, 'r'));
    push_char(&mut s, bit_char(mode, 0o200, 'w'));
    push_char(&mut s, bit_char(mode, 0o100, 'x'));
    push_char(&mut s, bit_char(mode, 0o040, 'r'));
    push_char(&mut s, bit_char(mode, 0o020, 'w'));
    push_char(&mut s, bit_char(mode, 0o010, 'x'));
    push_char(&mut s, bit_char(mode, 0o004, 'r'));
    push_char(&mut s, bit_char(mode, 0o002, 'w'));
    push_char(&mut s, bit_char(mode, 0o001, 'x'));
    push_char(&mut s, if has_xattr { '+' } else { ' ' });
    assert(s@ =~= permissions_of(kind, mode, has_xattr));
    s
}

/// The major number of the device number `dev`, as Linux packs it.
pub open spec fn dev_major(dev: u64) -> u32 {
    (((dev & 0x00000000000fff00u64) >> 8u64) | ((dev & 0xfffff00000000000u64) >> 32u64)) as u32
}

/// The minor number of the device number `dev`, as Linux packs it.
pub open spec fn dev_minor(dev: u64) -> u32 {
    (((dev & 0x00000000000000ffu64) >> 0u64) | ((dev & 0x00000ffffff00000u64) >> 12u64)) as u32
}

/// The major number of a device.
/// Trusted: calls `libc::major`, which on Linux takes bits 8 to 19 and 44
/// to 63 of `dev` (the formula of `dev_major`).
#[verifier::external_body]
fn major(dev: u64) -> (r: u32)
    ensures
        r == dev_major(dev),
{
    libc::major(dev)
}

/// The minor number of a device.
/// Trusted: calls `libc::minor`, which on Linux takes bits 0 to 7 and 20
/// to 43 of `dev` (the formula of `dev_minor`).
#[verifier::external_body]
fn minor(dev: u64) -> (r: u32)
    ensures
        r == dev_minor(dev),
{
    libc::minor(dev)
}

/// The size column for a device: `major, minor`, each right-aligned in
/// three characters.
pub open spec fn device_size(dev: u64) -> Seq<char> {
    pad_left(decimal(dev_major(dev) as nat), 3) + seq![',', ' '] + pad_left(
        decimal(dev_minor(dev) as nat),
        3,
    )
}

/// The size column of a long listing for a device (see `device_size`).
pub fn format_device(dev: u64) -> (r: String)
    ensures
        r@ == device_size(dev),
{
    let maj = decimal_string(major(dev) as u64);
    let min = decimal_string(minor(dev) as u64);
    let mut s = String::new();
    push_padded_left(&mut s, maj.as_str(), 3);
    push_char(&mut s, ',');
    push_char(&mut s, ' ');
    push_padded_left(&mut s, min.as_str(), 3);
    assert(s@ =~= device_size(dev));
    s
}

/// One line of a long listing, its columns as text.
#[derive(Debug)]
pub struct LongEntry {
    pub perms: String,
    pub links: String,
    pub user: String,
    pub group: String,
    pub size: String,
    pub date: String,
    pub name: String,
    pub blocks: u64,
}

pub struct LongEntryView {
    pub perms: Seq<char>,
    pub links: Seq<char>,
    pub user: Seq<char>,
    pub group: Seq<char>,
    pub size: Seq<char>,
    pub date: Seq<char>,
    pub name: Seq<char>,
    pub blocks: u64,
}

impl DeepView for LongEntry {
    type V = LongEntryView;

    open spec fn deep_view(&self) -> LongEntryView {
        LongEntryView {
            perms: self.perms@,
            links: self.links@,
            user: self.user@,
            group: self.group@,
            size: self.size@,
            date: self.date@,
            name: self.name@,
            blocks: self.blocks,
        }
    }
}

impl View for LongEntry {
    type V = LongEntryView;

    open spec fn view(&self) -> LongEntryView {
        self.deep_view()
    }
}

/// Where a symbolic link points: its target as written and, where `-F`
/// needs it and the target exists, the target's type and permission bits.
#[derive(Debug)]
pub struct LinkTarget {
    pub target: String,
    pub resolved: Option<(FileKind, u32)>,
}

/// What the metadata of a file tells about it, and what was looked up for
/// it: the owner's and the group's names where they are known, the date
/// column already formatted, the link's target where it is a link whose
/// target could be read.
#[derive(Debug)]
pub struct EntryFacts {
    pub name: String,
    pub kind: FileKind,
    pub mode: u32,
    pub has_xattr: bool,
    pub nlink: u64,
    pub uid: u32,
    pub user_name: Option<String>,
    pub gid: u32,
    pub group_name: Option<String>,
    pub len: u64,
    pub rdev: u64,
    pub date: String,
    pub blocks: u64,
    pub link: Option<LinkTarget>,
}

/// The name column of a long listing: with `-F` the name of anything but
/// a link gets its indicator; a link is followed by ` -> ` and its target,
/// which with `-F` gets the indicator of what it points to.
pub open spec fn long_name(f: EntryFacts, flag: Flag) -> Seq<char> {
    let base = if flag.f && f.kind != FileKind::Symlink {
        decorated(f.name@, f.kind, f.mode)
    } else {
        f.name@
    };
    match f.link {
        Some(t) => if f.kind == FileKind::Symlink {
            let target = match t.resolved {
                Some(km) => if flag.f {
                    decorated(t.target@, km.0, km.1)
                } else {
                    t.target@
                },
                None => t.target@,
            };
            base + " -> "@ + target
        } else {
            base
        },
        None => base,
    }
}

/// A name where it is known, else the number.
pub open spec fn name_or_id(name: Option<String>, id: u32) -> Seq<char> {
    match name {
        Some(n) => n@,
        None => decimal(id as nat),
    }
}

/// The line of a long listing for a file (see `long_name`, `name_or_id`,
/// `permissions_of`, `device_size`).
pub open spec fn long_entry_of(f: EntryFacts, flag: Flag) -> LongEntryView {
    LongEntryView {
        perms: permissions_of(f.kind, f.mode, f.has_xattr),
        links: decimal(f.nlink as nat),
        user: name_or_id(f.user_name, f.uid),
        group: name_or_id(f.group_name, f.gid),
        size: if f.kind == FileKind::BlockDevice || f.kind == FileKind::CharDevice {
            device_size(f.rdev)
        } else {
            decimal(f.len as nat)
        },
        date: f.date@,
        name: long_name(f, flag),
        blocks: f.blocks,
    }
}

/// The size column of a long listing: for a character or block device
/// its major and minor numbers, each right-aligned in three columns and
/// separated by a comma and a space; for anything else its length in
/// bytes.
pub proof fn law_size_column(f: EntryFacts, flag: Flag)
    ensures
        f.kind == FileKind::CharDevice || f.kind == FileKind::BlockDevice ==> long_entry_of(
            f,
            flag,
        ).size == pad_left(decimal(dev_major(f.rdev) as nat), 3) + seq![',', ' '] + pad_left(
            decimal(dev_minor(f.rdev) as nat),
            3,
        ),
        !(f.kind == FileKind::CharDevice || f.kind == FileKind::BlockDevice) ==> long_entry_of(
            f,
            flag,
        ).size == decimal(f.len as nat),
{
}

fn name_or_number(name: Option<String>, id: u32) -> (r: String)
    ensures
        r@ == name_or_id(name, id),
{
    match name {
        Some(n) => n,
        None => decimal_string(id as u64),
    }
}

/// Builds the line of a long listing for a file from what its metadata
/// tells (see `long_entry_of`).
pub fn prepare_long_entry(facts: EntryFacts, flag: Flag) -> (r: LongEntry)
    ensures
        r@ == long_entry_of(facts, flag),
        facts.kind == FileKind::CharDevice || facts.kind == FileKind::BlockDevice ==> r.size@
            == pad_left(decimal(dev_major(facts.rdev) as nat), 3) + seq![',', ' '] + pad_left(
            decimal(dev_minor(facts.rdev) as nat),
            3,
        ),
        !(facts.kind == FileKind::CharDevice || facts.kind == FileKind::BlockDevice) ==> r.size@
            == decimal(facts.len as nat),
        r.links@ == decimal(facts.nlink as nat),
        r.user@ == match facts.user_name {
            Some(n) => n@,
            None => decimal(facts.uid as nat),
        },
        r.group@ == match facts.group_name {
            Some(n) => n@,
            None => decimal(facts.gid as nat),
        },
        r.date@ == facts.date@,
        r.blocks == facts.blocks,
        r.perms@ == permissions_of(facts.kind, facts.mode, facts.has_xattr),
{
    let ghost f = facts;
    let EntryFacts {
        name,
        kind,
        mode,
        has_xattr,
        nlink,
        uid,
        user_name,
        gid,
        group_name,
        len,
        rdev,
        date,
        blocks,
        link,
    } = facts;
    let mut name = if flag.f && kind != FileKind::Symlink {
        decorate_name(name, kind, mode)
    } else {
        name
    };
    if kind == FileKind::Symlink {
        if let Some(t) = link {
            let LinkTarget { target, resolved } = t;
            let target = match resolved {
                Some(km) => if flag.f {
                    decorate_name(target, km.0, km.1)
                } else {
                    target
                },
                None => target,
            };
            let ghost base = name@;
            name.append(" -> ");
            name.append(target.as_str());
            assert(name@ =~= base + " -> "@ + target@);
        }
    }
    let perms = format_permissions(kind, mode, has_xattr);
    let links = decimal_string(nlink);
    let user = name_or_number(user_name, uid);
    let group = name_or_number(group_name, gid);
    let size = if kind == FileKind::BlockDevice || kind == FileKind::CharDevice {
        format_device(rdev)
    } else {
        decimal_string(len)
    };
    LongEntry { perms, links, user, group, size, date, name, blocks }
}

/// The length of `s` in UTF-8 bytes, as `str::len` gives it.
pub open spec fn byte_len(s: Seq<char>) -> usize {
    vstd::utf8::encode_utf8(s).len() as usize
}

/// The widest of `col`, in bytes.
pub open spec fn max_width(col: Seq<Seq<char>>) -> usize
    decreases col.len(),
{
    if col.len() == 0 {
        0
    } else {
        let w = max_width(col.drop_last());
        if byte_len(col.last()) > w {
            byte_len(col.last())
        } else {
            w
        }
    }
}

/// The width of a column is that of its widest entry: no entry is wider,
/// and some entry is that wide where the column has any.
pub proof fn law_max_width_is_widest(col: Seq<Seq<char>>)
    ensures
        forall|i: int| 0 <= i < col.len() ==> byte_len(#[trigger] col[i]) <= max_width(col),
        col.len() > 0 ==> exists|i: int| 0 <= i < col.len() && byte_len(#[trigger] col[i]) == max_width(col),
        col.len() == 0 ==> max_width(col) == 0,
    decreases col.len(),
{
    if col.len() > 0 {
        let d = col.drop_last();
        law_max_width_is_widest(d);
        assert forall|i: int| 0 <= i < col.len() implies byte_len(#[trigger] col[i]) <= max_width(col) by {
            if i < col.len() - 1 {
                assert(col[i] == d[i]);
            }
        }
        if byte_len(col.last()) > max_width(d) || d.len() == 0 {
            assert(byte_len(col[col.len() - 1]) == max_width(col));
        } else {
            let i = choose|i: int| 0 <= i < d.len() && byte_len(#[trigger] d[i]) == max_width(d);
            assert(col[i] == d[i]);
        }
    }
}

/// The sum of the block counts.
pub open spec fn total_blocks(es: Seq<LongEntryView>) -> nat
    decreases es.len(),
{
    if es.len() == 0 {
        0
    } else {
        total_blocks(es.drop_last()) + (es.last().blocks as nat)
    }
}

/// The column widths of a long listing: links, user, group, size, date.
#[derive(Clone, Copy, PartialEq, Eq, Structural)]
pub struct Widths {
    pub links: usize,
    pub user: usize,
    pub group: usize,
    pub size: usize,
    pub date: usize,
}

pub open spec fn widths_of(es: Seq<LongEntryView>) -> Widths {
    Widths {
        links: max_width(es.map_values(|e: LongEntryView| e.links)),
        user: max_width(es.map_values(|e: LongEntryView| e.user)),
        group: max_width(es.map_values(|e: LongEntryView| e.group)),
        size: max_width(es.map_values(|e: LongEntryView| e.size)),
        date: max_width(es.map_values(|e: LongEntryView| e.date)),
    }
}

/// One line of a long listing: the permissions, the link count and the
/// size right-aligned, user and group left-aligned, the date
/// right-aligned, then the name.
pub open spec fn format_line(e: LongEntryView, w: Widths) -> Seq<char> {
    e.perms + seq![' '] + pad_left(e.links, w.links as int) + seq![' '] + pad_right(
        e.user,
        w.user as int,
    ) + seq![' '] + pad_right(e.group, w.group as int) + seq![' '] + pad_left(
        e.size,
        w.size as int,
    ) + seq![' '] + pad_left(e.date, w.date as int) + seq![' '] + e.name + seq!['\n']
}

/// The lines of a long listing, in order.
pub open spec fn format_lines(es: Seq<LongEntryView>, w: Widths) -> Seq<char>
    decreases es.len(),
{
    if es.len() == 0 {
        seq![]
    } else {
        format_lines(es.drop_last(), w) + format_line(es.last(), w)
    }
}

/// A long listing: nothing for no entries; else, where `show_total`, a
/// line `total N` with half the blocks the entries take, then a line per
/// entry, its columns aligned.
pub open spec fn long_listing_text(es: Seq<LongEntryView>, show_total: bool) -> Seq<char> {
    if es.len() == 0 {
        seq![]
    } else {
        (if show_total {
            "total "@ + decimal(total_blocks(es) / 2) + seq!['\n']
        } else {
            seq![]
        }) + format_lines(es, widths_of(es))
    }
}

/// Formats a long listing (see `long_listing_text`).
pub fn align_and_format(entries: Vec<LongEntry>, show_total: bool) -> (r: String)
    requires
        total_blocks(entries.deep_view()) <= u64::MAX,
    ensures
        r@ == long_listing_text(entries.deep_view(), show_total),
{
    let ghost es = entries.deep_view();
    if entries.len() == 0 {
        return String::new();
    }
    let mut w_links: usize = 0;
    let mut w_user: usize = 0;
    let mut w_group: usize = 0;
    let mut w_size: usize = 0;
    let mut w_date: usize = 0;
    let mut total: u64 = 0;
    let mut i: usize = 0;
    while i < entries.len()
        invariant
            es == entries.deep_view(),
            i <= entries.len(),
            total_blocks(es) <= u64::MAX,
            w_links == max_width(es.take(i as int).map_values(|e: LongEntryView| e.links)),
            w_user == max_width(es.take(i as int).map_values(|e: LongEntryView| e.user)),
            w_group == max_width(es.take(i as int).map_values(|e: LongEntryView| e.group)),
            w_size == max_width(es.take(i as int).map_values(|e: LongEntryView| e.size)),
            w_date == max_width(es.take(i as int).map_values(|e: LongEntryView| e.date)),
            total == total_blocks(es.take(i as int)),
        decreases entries.len() - i,
    {
        let ghost t = es.take(i as int);
        let ghost t1 = es.take(i + 1);
        assert(t1.drop_last() =~= t);
        assert(t1.last() == entries[i as int]@);
        assert(t1.map_values(|e: LongEntryView| e.links).drop_last() =~= t.map_values(
            |e: LongEntryView| e.links,
        ));
        assert(t1.map_values(|e: LongEntryView| e.user).drop_last() =~= t.map_values(
            |e: LongEntryView| e.user,
        ));
        assert(t1.map_values(|e: LongEntryView| e.group).drop_last() =~= t.map_values(
            |e: LongEntryView| e.group,
        ));
        assert(t1.map_values(|e: LongEntryView| e.size).drop_last() =~= t.map_values(
            |e: LongEntryView| e.size,
        ));
        assert(t1.map_values(|e: LongEntryView| e.date).drop_last() =~= t.map_values(
            |e: LongEntryView| e.date,
        ));
        proof {
            lemma_total_blocks_prefix(es, i + 1);
        }
        let e = &entries[i];
        let l = e.links.as_str().len();
        if l > w_links {
            w_links = l;
        }
        let l = e.user.as_str().len();
        if l > w_user {
            w_user = l;
        }
        let l = e.group.as_str().len();
        if l > w_group {
            w_group = l;
        }
        let l = e.size.as_str().len();
        if l > w_size {
            w_size = l;
        }
        let l = e.date.as_str().len();
        if l > w_date {
            w_date = l;
        }
        total = total + e.blocks;
        i = i + 1;
    }
    assert(es.take(i as int) =~= es);
    let ghost w = widths_of(es);
    let wx = Widths { links: w_links, user: w_user, group: w_group, size: w_size, date: w_date };
    assert(wx == w);
    let mut out = String::new();
    if show_total {
        out.append("total ");
        push_decimal(&mut out, total / 2);
        push_char(&mut out, '\n');
    }
    let ghost head = out@;
    let mut i: usize = 0;
    while i < entries.len()
        invariant
            es == entries.deep_view(),
            i <= entries.len(),
            w == widths_of(es),
            wx == w,
            out@ == head + format_lines(es.take(i as int), w),
        decreases entries.len() - i,
    {
        let ghost before = out@;
        let e = &entries[i];
        push_line(&mut out, e, &wx);
        assert(es.take(i + 1).drop_last() =~= es.take(i as int));
        assert(es.take(i + 1).last() == e@);
        assert(out@ =~= before + format_line(e@, w));
        i = i + 1;
    }
    assert(es.take(i as int) =~= es);
    out
}

/// Appends the line of a long listing for `e`.
#[verifier::rlimit(40)]
#[verifier::spinoff_prover]
fn push_line(out: &mut String, e: &LongEntry, w: &Widths)
    ensures
        final(out)@ == old(out)@ + format_line(e@, *w),
{
    let ghost s0 = out@;
    out.append(e.perms.as_str());
    push_char(out, ' ');
    push_padded_left(out, e.links.as_str(), w.links);
    push_char(out, ' ');
    let ghost s1 = out@;
    assert(s1 =~= s0 + e.perms@ + seq![' '] + pad_left(e.links@, w.links as int) + seq![' ']);
    push_padded_right(out, e.user.as_str(), w.user);
    push_char(out, ' ');
    push_padded_right(out, e.group.as_str(), w.group);
    push_char(out, ' ');
    let ghost s2 = out@;
    assert(s2 =~= s1 + pad_right(e.user@, w.user as int) + seq![' '] + pad_right(
        e.group@,
        w.group as int,
    ) + seq![' ']);
    push_padded_left(out, e.size.as_str(), w.size);
    push_char(out, ' ');
    push_padded_left(out, e.date.as_str(), w.date);
    push_char(out, ' ');
    out.append(e.name.as_str());
    push_char(out, '\n');
    assert(out@ =~= s2 + pad_left(e.size@, w.size as int) + seq![' '] + pad_left(
        e.date@,
        w.date as int,
    ) + seq![' '] + e.name@ + seq!['\n']);
    assert(out@ =~= s0 + format_line(e@, *w));
}

/// The total of a prefix is no larger than the whole.
proof fn lemma_total_blocks_prefix(es: Seq<LongEntryView>, n: int)
    requires
        0 <= n <= es.len(),
    ensures
        total_blocks(es.take(n)) <= total_blocks(es),
    decreases es.len() - n,
{
    if n < es.len() {
        lemma_total_blocks_prefix(es, n + 1);
        assert(es.take(n + 1).drop_last() =~= es.take(n));
    } else {
        assert(es.take(n) =~= es);
    }
}

/// Six months of 180 days, in nanoseconds.
pub open spec fn six_months_ns() -> int {
    15_552_000_000_000_000int
}

/// Whether a long listing shows the year of a modification time rather
/// than the time of day: so for a time in the future or more than six
/// months (180 days) in the past. Times are nanoseconds since the epoch.
pub open spec fn shows_year(now_ns: int, modified_ns: int) -> bool {
    modified_ns > now_ns || now_ns - modified_ns > six_months_ns()
}

/// The `strftime` pattern of the date column for a file modified at
/// `modified_ns` when it is `now_ns` (nanoseconds since the epoch): month,
/// day and year for old or future times, else month, day and time.
pub fn date_pattern(now_ns: i128, modified_ns: i128) -> (r: &'static str)
    requires
        -0x1_0000_0000_0000_0000_0000_0000 < now_ns < 0x1_0000_0000_0000_0000_0000_0000,
        -0x1_0000_0000_0000_0000_0000_0000 < modified_ns < 0x1_0000_0000_0000_0000_0000_0000,
    ensures
        r@ == pattern_of(now_ns as int, modified_ns as int),
{
    let six_months: i128 = 15_552_000_000_000_000;
    if modified_ns > now_ns || now_ns - modified_ns > six_months {
        "%b %d  %Y"
    } else {
        "%b %d %H:%M"
    }
}

} // verus!

verus! {

/// The text that chrono writes, by the `strftime` pattern `pattern`, for
/// the instant `secs` seconds and `nanos` nanoseconds after the epoch,
/// seen at `offset_secs` seconds east of UTC.
pub uninterp spec fn chrono_format(secs: i64, nanos: u32, offset_secs: i32, pattern: Seq<char>) -> Seq<
    char,
>;

/// Formats an instant at a fixed offset from UTC.
/// Trusted: calls `chrono::FixedOffset::east_opt`, which gives `None`
/// exactly for an offset of a day or more either way, and
/// `chrono::DateTime::from_timestamp`, which gives `None` only for a
/// nanosecond part of two seconds or more or an instant beyond chrono's
/// range of years (more than 262,000 years from the epoch, so not for
/// fewer than 2^40 seconds), then `format(pattern).to_string()`; the text
/// is a function of the arguments alone (chrono's month names are
/// English). Not stated: where, beyond 2^40 seconds, chrono's range ends.
#[verifier::external_body]
fn format_at_offset(secs: i64, nanos: u32, offset_secs: i32, pattern: &str) -> (r: Option<String>)
    requires
        pattern@ == "%b %d  %Y"@ || pattern@ == "%b %d %H:%M"@,
    ensures
        r matches Some(s) ==> s@ == chrono_format(secs, nanos, offset_secs, pattern@),
        !(-86_400 < offset_secs < 86_400) ==> r is None,
        (-86_400 < offset_secs < 86_400 && -0x100_0000_0000 < secs < 0x100_0000_0000 && nanos
            < 1_000_000_000) ==> r is Some,
{
    let offset = chrono::FixedOffset::east_opt(offset_secs)?;
    let utc = chrono::DateTime::from_timestamp(secs, nanos)?;
    Some(utc.with_timezone(&offset).format(pattern).to_string())
}

/// The pattern of the date column (see `date_pattern`).
pub open spec fn pattern_of(now_ns: int, modified_ns: int) -> Seq<char> {
    if shows_year(now_ns, modified_ns) {
        "%b %d  %Y"@
    } else {
        "%b %d %H:%M"@
    }
}

/// The date column of a long listing for a file modified `modified_secs`
/// seconds and `modified_nanos` nanoseconds after the epoch, when it is
/// `now_ns` nanoseconds after it: the modification time one hour later,
/// seen at `offset_secs` east of UTC (the local offset at that later
/// instant), with the year for old or future times, else with the time
/// of day. `None` where the offset is a day or more either way, and only
/// else where chrono cannot represent the instant, which is not so for
/// fewer than 2^40 seconds from the epoch.
pub fn format_date(now_ns: i128, modified_secs: i64, modified_nanos: u32, offset_secs: i32) -> (r:
    Option<String>)
    requires
        -0x1_0000_0000_0000_0000_0000_0000 < now_ns < 0x1_0000_0000_0000_0000_0000_0000,
        modified_nanos < 1_000_000_000,
        modified_secs <= i64::MAX - 3600,
    ensures
        !(-86_400 < offset_secs < 86_400) ==> r is None,
        (-86_400 < offset_secs < 86_400 && -0x100_0000_0000 < modified_secs + 3600
            < 0x100_0000_0000) ==> r is Some,
        r matches Some(s) ==> s@ == chrono_format(
            (modified_secs + 3600) as i64,
            modified_nanos,
            offset_secs,
            pattern_of(now_ns as int, modified_secs * 1_000_000_000 + modified_nanos),
        ),
{
    assert(-0x1_0000_0000_0000_0000_0000_0000 < modified_secs * 1_000_000_000 + modified_nanos
        < 0x1_0000_0000_0000_0000_0000_0000) by (nonlinear_arith)
        requires
            modified_nanos < 1_000_000_000,
    ;
    let modified_ns = (modified_secs as i128) * 1_000_000_000 + (modified_nanos as i128);
    let pattern = date_pattern(now_ns, modified_ns);
    format_at_offset(modified_secs + 3600, modified_nanos, offset_secs, pattern)
}

} // verus!
