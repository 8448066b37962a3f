//! What the inventory walk skips, and the order of the inventory.
use vstd::prelude::*;

use crate::order::{merge_sort, SortOrder};

use crate::graph::InventoryFile;
use crate::parse::{file_name_exec, path_file_name};
use crate::text::{
    chars_of, ends_with, ends_with_seq, lemma_key_text_order, lower_of, lower_text, seq_eq,
    seq_less, seq_less_exec,
};

verus! {

/// Folder names that the walk never enters.
pub open spec fn skip_dir_names() -> Seq<Seq<char>> {
    seq![
        ".atlas"@,
        ".git"@,
        ".hg"@,
        ".svn"@,
        ".cursor"@,
        ".vscode"@,
        ".idea"@,
        ".codex"@,
        ".agents"@,
        "node_modules"@,
        "vendor"@,
        "target"@,
        "dist"@,
        "build"@,
        "out"@,
        "__pycache__"@,
        ".pytest_cache"@,
        ".mypy_cache"@,
        ".next"@,
        ".nuxt"@,
        ".turbo"@,
        ".venv"@,
        "venv"@,
        ".tox"@,
        "coverage"@,
        "htmlcov"@,
    ]
}

fn skip_dir_list() -> (r: Vec<&'static str>)
    ensures
        r@.map_values(|s: &'static str| s@) == skip_dir_names(),
{
    let v = vec![
        ".atlas",
        ".git",
        ".hg",
        ".svn",
        ".cursor",
        ".vscode",
        ".idea",
        ".codex",
        ".agents",
        "node_modules",
        "vendor",
        "target",
        "dist",
        "build",
        "out",
        "__pycache__",
        ".pytest_cache",
        ".mypy_cache",
        ".next",
        ".nuxt",
        ".turbo",
        ".venv",
        "venv",
        ".tox",
        "coverage",
        "htmlcov",
    ];
    assert(v@.map_values(|s: &'static str| s@) =~= skip_dir_names());
    v
}

/// Whether the walk skips a folder with this name.
pub fn is_skipped_dir_name(name: &str) -> (r: bool)
    ensures
        r == skip_dir_names().contains(name@),
{
    let names = skip_dir_list();
    let nc = chars_of(name);
    let mut i: usize = 0;
    while i < names.len()
        invariant
            i <= names@.len(),
            nc@ == name@,
            names@.map_values(|s: &'static str| s@) == skip_dir_names(),
            forall|k: int| 0 <= k < i ==> skip_dir_names()[k] != name@,
        decreases names.len() - i,
    {
        assert(skip_dir_names()[i as int] == names@[i as int]@);
        let c = chars_of(names[i]);
        if seq_eq(c.as_slice(), nc.as_slice()) {
            return true;
        }
        i = i + 1;
    }
    false
}

/// Extensions of binaries and assets, which the inventory skips.
pub open spec fn skip_extensions() -> Seq<Seq<char>> {
    seq![
        "exe"@,
        "dll"@,
        "so"@,
        "dylib"@,
        "a"@,
        "lib"@,
        "o"@,
        "obj"@,
        "pdb"@,
        "class"@,
        "jar"@,
        "war"@,
        "ear"@,
        "zip"@,
        "tar"@,
        "gz"@,
        "bz2"@,
        "xz"@,
        "7z"@,
        "rar"@,
        "png"@,
        "jpg"@,
        "jpeg"@,
        "gif"@,
        "webp"@,
        "ico"@,
        "bmp"@,
        "svg"@,
        "mp3"@,
        "mp4"@,
        "wav"@,
        "avi"@,
        "mov"@,
        "mkv"@,
        "woff"@,
        "woff2"@,
        "ttf"@,
        "eot"@,
        "pdf"@,
        "doc"@,
        "docx"@,
        "xls"@,
        "xlsx"@,
        "ppt"@,
        "pptx"@,
        "bin"@,
        "dat"@,
        "db"@,
        "sqlite"@,
        "sqlite3"@,
        "lock"@,
        "min.js"@,
        "min.css"@,
    ]
}

fn skip_extension_list() -> (r: Vec<&'static str>)
    ensures
        r@.map_values(|s: &'static str| s@) == skip_extensions(),
{
    let v = vec![
        "exe",
        "dll",
        "so",
        "dylib",
        "a",
        "lib",
        "o",
        "obj",
        "pdb",
        "class",
        "jar",
        "war",
        "ear",
        "zip",
        "tar",
        "gz",
        "bz2",
        "xz",
        "7z",
        "rar",
        "png",
        "jpg",
        "jpeg",
        "gif",
        "webp",
        "ico",
        "bmp",
        "svg",
        "mp3",
        "mp4",
        "wav",
        "avi",
        "mov",
        "mkv",
        "woff",
        "woff2",
        "ttf",
        "eot",
        "pdf",
        "doc",
        "docx",
        "xls",
        "xlsx",
        "ppt",
        "pptx",
        "bin",
        "dat",
        "db",
        "sqlite",
        "sqlite3",
        "lock",
        "min.js",
        "min.css",
    ];
    assert(v@.map_values(|s: &'static str| s@) =~= skip_extensions());
    v
}

/// A lowercased file name with a skipped extension (or that is one).
pub open spec fn skipped_name(lower: Seq<char>) -> bool {
    exists|k: int|
        0 <= k < skip_extensions().len() && (ends_with(lower, "."@ + #[trigger] skip_extensions()[k])
            || lower == skip_extensions()[k])
}

/// Why the inventory skips a file, from its path and the first bytes of its
/// content: a binary or asset extension, else a NUL byte in the content.
pub open spec fn skip_reason(path: Seq<char>, head: Seq<u8>) -> Option<Seq<char>> {
    match path_file_name(path) {
        None => None,
        Some(name) => if skipped_name(lower_text(name)) {
            Some("binary or asset extension"@)
        } else if head.contains(0u8) {
            Some("binary content"@)
        } else {
            None
        },
    }
}

/// Whether content that starts with these bytes is binary: it holds a NUL byte.
pub fn is_probably_binary(head: &[u8]) -> (r: bool)
    ensures
        r == head@.contains(0u8),
{
    let mut i: usize = 0;
    while i < head.len()
        invariant
            i <= head@.len(),
            forall|k: int| 0 <= k < i ==> head@[k] != 0u8,
        decreases head.len() - i,
    {
        if head[i] == 0 {
            assert(head@[i as int] == 0u8);
            return true;
        }
        i = i + 1;
    }
    false
}

/// Why the inventory skips a file (the first bytes of its content given, or
/// none when it cannot be read), if it does.
pub fn skip_file_reason(path: &str, head: &[u8]) -> (r: Option<&'static str>)
    ensures
        match r {
            None => skip_reason(path@, head@) is None,
            Some(s) => skip_reason(path@, head@) == Some(s@),
        },
{
    let pc = chars_of(path);
    let name = match file_name_exec(pc.as_slice()) {
        Some(n) => n,
        None => return None,
    };
    let lower = lower_of(name.as_slice());
    let exts = skip_extension_list();
    let mut i: usize = 0;
    while i < exts.len()
        invariant
            i <= exts@.len(),
            path_file_name(path@) == Some(name@),
            lower@ == lower_text(name@),
            exts@.map_values(|s: &'static str| s@) == skip_extensions(),
            forall|k: int|
                0 <= k < i ==> !(ends_with(lower@, "."@ + #[trigger] skip_extensions()[k])
                    || lower@ == skip_extensions()[k]),
        decreases exts.len() - i,
    {
        assert(skip_extensions()[i as int] == exts@[i as int]@);
        let mut dotted = chars_of(".");
        let e = chars_of(exts[i]);
        crate::text::append_chars(&mut dotted, e.as_slice());
        if ends_with_seq(lower.as_slice(), dotted.as_slice()) || seq_eq(lower.as_slice(), e.as_slice()) {
            assert(dotted@ == "."@ + skip_extensions()[i as int]);
            assert(ends_with(lower@, "."@ + skip_extensions()[i as int]) || lower@
                == skip_extensions()[i as int]);
            assert(skipped_name(lower@));
            return Some("binary or asset extension");
        }
        i = i + 1;
    }
    if is_probably_binary(head) {
        return Some("binary content");
    }
    None
}

/// Inventory files in path order.
pub open spec fn inventory_sorted(s: Seq<InventoryFile>) -> bool {
    forall|i: int, j: int|
        0 <= i < j < s.len() ==> !seq_less(#[trigger] s[j].path@, #[trigger] s[i].path@)
}

/// The path order of inventory files.
struct InventoryPathOrder;

impl SortOrder<InventoryFile> for InventoryPathOrder {
    open spec fn before(a: InventoryFile, b: InventoryFile) -> bool {
        seq_less(a.path@, b.path@)
    }

    proof fn lemma_order(x: InventoryFile, a: InventoryFile, b: InventoryFile) {
        lemma_key_text_order(0, x.path@, 0, a.path@, 0, b.path@);
    }

    fn goes_before(a: &InventoryFile, b: &InventoryFile) -> (r: bool) {
        let pa = chars_of(a.path.as_str());
        let pb = chars_of(b.path.as_str());
        seq_less_exec(pa.as_slice(), pb.as_slice())
    }
}

/// The inventory in path order; a permutation of the files found.
pub fn sort_inventory(files: Vec<InventoryFile>) -> (r: Vec<InventoryFile>)
    ensures
        inventory_sorted(r@),
        r@.to_multiset() == files@.to_multiset(),
{
    let r = merge_sort::<InventoryFile, InventoryPathOrder>(files);
    assert forall|i: int, j: int| 0 <= i < j < r@.len() implies !seq_less(
        #[trigger] r@[j].path@,
        #[trigger] r@[i].path@,
    ) by {
        assert(!InventoryPathOrder::before(r@[j], r@[i]));
    }
    r
}

/// The file list of a scan shows at most this many paths.
pub const LIST_LIMIT: usize = 50;

/// How many paths of an inventory of `total` files the list shows, and how
/// many it leaves out (when any are left out).
pub fn list_counts(total: usize) -> (r: (usize, Option<usize>))
    ensures
        total <= LIST_LIMIT ==> r == (total, None::<usize>),
        total > LIST_LIMIT ==> r == (LIST_LIMIT, Some((total - LIST_LIMIT) as usize)),
{
    if total <= LIST_LIMIT {
        (total, None)
    } else {
        (LIST_LIMIT, Some(total - LIST_LIMIT))
    }
}

} // verus!
