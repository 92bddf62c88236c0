//! Icon resolution: an icon name is looked up in an ordered list of
//! directories, most specific first, and within a directory by extension in
//! the fixed priority order svg, xpm, png. The first hit wins.
use vstd::prelude::*;
use crate::text::{chars_of, has_prefix, has_suffix, signed_decimal, signed_digits, string_of};

verus! {

/// The system-wide icon root.
pub const ICON_ROOT: &'static str = "/usr/share/icons";

/// One file or directory met while walking a directory tree.
pub struct WalkEntry {
    /// The last component of the path.
    pub file_name: String,
    /// The full path of the entry.
    pub path: String,
}

/// The view of an optional string.
pub open spec fn opt_view(o: Option<String>) -> Option<Seq<char>> {
    match o {
        Some(s) => Some(s@),
        None => None,
    }
}

/// The extensions tried, in priority order.
pub open spec fn icon_exts() -> Seq<Seq<char>> {
    seq![seq!['s', 'v', 'g'], seq!['x', 'p', 'm'], seq!['p', 'n', 'g']]
}

/// The file name `<name>.<ext>`.
pub open spec fn icon_file_name(name: Seq<char>, ext: Seq<char>) -> Seq<char> {
    name + seq!['.'] + ext
}

/// The path of the first entry, from index `i` on, whose file name is `fname`.
pub open spec fn first_named_from(es: Seq<WalkEntry>, fname: Seq<char>, i: int) -> Option<Seq<char>>
    decreases es.len() - i,
{
    if i < 0 || i >= es.len() {
        None
    } else if es[i].file_name@ == fname {
        Some(es[i].path@)
    } else {
        first_named_from(es, fname, i + 1)
    }
}

/// The path of the first entry of a walk whose file name is `fname`.
pub open spec fn first_named(es: Seq<WalkEntry>, fname: Seq<char>) -> Option<Seq<char>> {
    first_named_from(es, fname, 0)
}

/// The match within one directory's walk: the extensions are tried in
/// priority order, and for each the first entry in walk order wins.
pub open spec fn dir_match(es: Seq<WalkEntry>, name: Seq<char>) -> Option<Seq<char>> {
    let exts = icon_exts();
    if first_named(es, icon_file_name(name, exts[0])) is Some {
        first_named(es, icon_file_name(name, exts[0]))
    } else if first_named(es, icon_file_name(name, exts[1])) is Some {
        first_named(es, icon_file_name(name, exts[1]))
    } else {
        first_named(es, icon_file_name(name, exts[2]))
    }
}

/// The match over the walks of the candidate directories from index `i` on.
pub open spec fn resolve_from(ls: Seq<Vec<WalkEntry>>, name: Seq<char>, i: int) -> Option<Seq<char>>
    decreases ls.len() - i,
{
    if i < 0 || i >= ls.len() {
        None
    } else if dir_match(ls[i]@, name) is Some {
        dir_match(ls[i]@, name)
    } else {
        resolve_from(ls, name, i + 1)
    }
}

/// The icon that the walks of the candidate directories, in order, resolve `name` to.
pub open spec fn resolve_listings(ls: Seq<Vec<WalkEntry>>, name: Seq<char>) -> Option<Seq<char>> {
    resolve_from(ls, name, 0)
}

/// `<size>x<size>`.
pub open spec fn size_dir_name(size: i64) -> Seq<char> {
    signed_decimal(size as int) + seq!['x'] + signed_decimal(size as int)
}

/// `<root>/<theme>/<size>x<size>`, when both theme and size are given.
pub open spec fn sized_dirs(root: Seq<char>, theme: Option<Seq<char>>, size: Option<i64>) -> Seq<Seq<char>> {
    if theme is Some && size is Some {
        seq![root + seq!['/'] + theme->0 + seq!['/'] + size_dir_name(size->0)]
    } else {
        Seq::empty()
    }
}

/// `<root>/<theme>`, when a theme is given.
pub open spec fn themed_dirs(root: Seq<char>, theme: Option<Seq<char>>) -> Seq<Seq<char>> {
    if theme is Some {
        seq![root + seq!['/'] + theme->0]
    } else {
        Seq::empty()
    }
}

/// `<home>/.icons`, when the home directory is known.
pub open spec fn user_dirs(home: Option<Seq<char>>) -> Seq<Seq<char>> {
    if home is Some {
        seq![home->0 + seq!['/', '.', 'i', 'c', 'o', 'n', 's']]
    } else {
        Seq::empty()
    }
}

/// The candidate directories, most specific first:
/// `<root>/<theme>/<size>x<size>` when both theme and size are given,
/// `<root>/<theme>` when a theme is given, `<root>`, and `<home>/.icons`
/// when the home directory is known.
pub open spec fn candidate_dirs(
    root: Seq<char>,
    home: Option<Seq<char>>,
    theme: Option<Seq<char>>,
    size: Option<i64>,
) -> Seq<Seq<char>> {
    sized_dirs(root, theme, size) + themed_dirs(root, theme) + seq![root] + user_dirs(home)
}

fn ext_chars(k: usize) -> (r: Vec<char>)
    requires
        k < 3,
    ensures
        r@ == icon_exts()[k as int],
{
    if k == 0 {
        vec!['s', 'v', 'g']
    } else if k == 1 {
        vec!['x', 'p', 'm']
    } else {
        vec!['p', 'n', 'g']
    }
}

fn concat_chars(a: &Vec<char>, b: &Vec<char>) -> (r: Vec<char>)
    ensures
        r@ == a@ + b@,
{
    let mut r: Vec<char> = a.clone();
    let mut i: usize = 0;
    while i < b.len()
        invariant
            i <= b@.len(),
            r@ == a@ + b@.take(i as int),
        decreases b@.len() - i,
    {
        r.push(b[i]);
        i = i + 1;
        assert(b@.take(i as int) == b@.take(i - 1).push(b@[i - 1]));
    }
    assert(b@.take(i as int) == b@);
    r
}

/// The path of the first entry of `entries` whose file name is `fname`.
pub fn find_named(entries: &Vec<WalkEntry>, fname: &String) -> (r: Option<String>)
    ensures
        opt_view(r) == first_named(entries@, fname@),
{
    let mut i: usize = 0;
    while i < entries.len()
        invariant
            i <= entries@.len(),
            first_named(entries@, fname@) == first_named_from(entries@, fname@, i as int),
        decreases entries@.len() - i,
    {
        if entries[i].file_name == *fname {
            return Some(entries[i].path.clone());
        }
        i = i + 1;
    }
    None
}

/// The match for `name` within one directory's walk.
pub fn match_in_dir(entries: &Vec<WalkEntry>, name: &str) -> (r: Option<String>)
    ensures
        opt_view(r) == dir_match(entries@, name@),
{
    let name_chars = chars_of(name);
    let mut k: usize = 0;
    while k < 3
        invariant
            k <= 3,
            name_chars@ == name@,
            forall|j: int|
                0 <= j < k ==> first_named(entries@, icon_file_name(name@, #[trigger] icon_exts()[j])) is None,
        decreases 3 - k,
    {
        let dot: Vec<char> = vec!['.'];
        assert(dot@ =~= seq!['.']);
        let with_dot = concat_chars(&name_chars, &dot);
        let ext = ext_chars(k);
        let joined = concat_chars(&with_dot, &ext);
        let fname = string_of(&joined);
        assert(joined@ == name@ + seq!['.'] + icon_exts()[k as int]);
        assert(fname@ == icon_file_name(name@, icon_exts()[k as int]));
        let found = find_named(entries, &fname);
        if found.is_some() {
            return found;
        }
        k = k + 1;
    }
    None
}

/// The icon that the walks of the candidate directories resolve `name` to:
/// the first directory with a match decides.
pub fn resolve_in_listings(listings: &Vec<Vec<WalkEntry>>, name: &str) -> (r: Option<String>)
    ensures
        opt_view(r) == resolve_listings(listings@, name@),
{
    let mut i: usize = 0;
    while i < listings.len()
        invariant
            i <= listings@.len(),
            resolve_listings(listings@, name@) == resolve_from(listings@, name@, i as int),
        decreases listings@.len() - i,
    {
        let found = match_in_dir(&listings[i], name);
        if found.is_some() {
            return found;
        }
        i = i + 1;
    }
    None
}

/// The view of an optional string slice.
pub open spec fn opt_str_view(o: Option<&str>) -> Option<Seq<char>> {
    match o {
        Some(s) => Some(s@),
        None => None,
    }
}

fn path_join(base: &Vec<char>, part: &Vec<char>) -> (r: Vec<char>)
    ensures
        r@ == base@ + seq!['/'] + part@,
{
    let slash: Vec<char> = vec!['/'];
    assert(slash@ =~= seq!['/']);
    concat_chars(&concat_chars(base, &slash), part)
}

/// The candidate directories for a lookup, most specific first.
pub fn icon_dirs(root: &str, home: Option<&str>, theme: Option<&str>, size: Option<i64>) -> (r: Vec<String>)
    ensures
        r@.len() == candidate_dirs(root@, opt_str_view(home), opt_str_view(theme), size).len(),
        forall|i: int|
            0 <= i < r@.len() ==> #[trigger] r@[i]@ == candidate_dirs(
                root@,
                opt_str_view(home),
                opt_str_view(theme),
                size,
            )[i],
{
    let ghost want = candidate_dirs(root@, opt_str_view(home), opt_str_view(theme), size);
    let root_chars = chars_of(root);
    let mut dirs: Vec<String> = Vec::new();
    let ghost mut got: Seq<Seq<char>> = Seq::empty();
    if let Some(t) = theme {
        let theme_chars = chars_of(t);
        let themed = path_join(&root_chars, &theme_chars);
        if let Some(n) = size {
            let label = signed_digits(n);
            let ex: Vec<char> = vec!['x'];
            assert(ex@ =~= seq!['x']);
            let sized = path_join(&themed, &concat_chars(&concat_chars(&label, &ex), &label));
            assert(sized@ =~= root@ + seq!['/'] + t@ + seq!['/'] + size_dir_name(n));
            dirs.push(string_of(&sized));
            proof {
                got = got.push(sized@);
            }
        }
        dirs.push(string_of(&themed));
        proof {
            got = got.push(themed@);
        }
    }
    assert(got =~= sized_dirs(root@, opt_str_view(theme), size) + themed_dirs(root@, opt_str_view(theme)));
    dirs.push(root.to_owned());
    proof {
        got = got.push(root@);
    }
    let ghost before_user = got;
    if let Some(h) = home {
        let suffix: Vec<char> = vec!['.', 'i', 'c', 'o', 'n', 's'];
        assert(suffix@ =~= seq!['.', 'i', 'c', 'o', 'n', 's']);
        let user = path_join(&chars_of(h), &suffix);
        assert(user@ =~= h@ + seq!['/', '.', 'i', 'c', 'o', 'n', 's']);
        dirs.push(string_of(&user));
        proof {
            got = got.push(user@);
        }
    }
    assert(got =~= before_user + user_dirs(opt_str_view(home)));
    assert(got =~= want);
    assert(forall|i: int| 0 <= i < dirs@.len() ==> dirs@[i]@ == got[i]);
    dirs
}

/// Relies on `walkdir::WalkDir`: every entry of the tree under `dir`, the
/// directory itself included, in the walk's order; entries that could not be
/// read are skipped, and a missing directory gives no entries. Each entry's
/// path is `dir` joined with the entry's path below it: `dir` itself for the
/// directory, and a path ending in `/` and the file name for the others.
#[verifier::external_body]
fn walk_tree(dir: &str) -> (r: Vec<WalkEntry>)
    ensures
        forall|k: int| 0 <= k < r@.len() ==> entry_under((#[trigger] r@[k]), dir@),
{
    walkdir::WalkDir::new(dir).into_iter().filter_map(|e| e.ok()).map(
        |e| WalkEntry {
            file_name: e.file_name().to_string_lossy().into_owned(),
            path: e.path().to_string_lossy().into_owned(),
        },
    ).collect()
}

/// Relies on `dirs::home_dir`: the current user's home directory, if known.
#[verifier::external_body]
fn home_dir() -> (r: Option<String>) {
    dirs::home_dir().map(|p| p.to_string_lossy().into_owned())
}

/// Whether a walked entry lies under `dir`: its path is `dir` itself, or
/// starts with `dir` and ends with `/` and the entry's file name.
pub open spec fn entry_under(e: WalkEntry, dir: Seq<char>) -> bool {
    has_prefix(e.path@, dir) && (e.path@ == dir || has_suffix(e.path@, seq!['/'] + e.file_name@))
}

/// Whether each walk lists entries under its directory.
pub open spec fn walks_under(ls: Seq<Vec<WalkEntry>>, dirs: Seq<Seq<char>>) -> bool {
    forall|j: int, k: int| 0 <= j < ls.len() && 0 <= k < ls[j]@.len() ==> entry_under(#[trigger] ls[j]@[k], dirs[j])
}

/// Whether `p` is `dir` itself or a path under `dir` whose last component
/// is `<name>.<ext>` for one of the extensions.
pub open spec fn icon_path_under(p: Seq<char>, dir: Seq<char>, name: Seq<char>) -> bool {
    has_prefix(p, dir) && (p == dir || exists|x: int|
        0 <= x < 3 && has_suffix(p, seq!['/'] + icon_file_name(name, #[trigger] icon_exts()[x])))
}

/// `r` is what walks of the first directories of `dirs`, in order, resolve
/// `name` to.
pub open spec fn resolved_by_walks(dirs: Seq<Seq<char>>, name: Seq<char>, r: Option<Seq<char>>) -> bool {
    exists|ls: Seq<Vec<WalkEntry>>|
        ls.len() <= dirs.len() && walks_under(ls, dirs) && r == #[trigger] resolve_listings(ls, name)
}

/// Looks `name` up under the candidate directories of `root` and `home`.
/// Each directory is walked in turn, and the search stops at the first one
/// that holds a match: the result is the resolution of the walks made.
pub fn find_icon_under(
    root: &str,
    home: Option<&str>,
    name: &str,
    theme: Option<&str>,
    size: Option<i64>,
) -> (r: Option<String>)
    ensures
        resolved_by_walks(candidate_dirs(root@, opt_str_view(home), opt_str_view(theme), size), name@, opt_view(r)),
        r is Some ==> exists|j: int|
            0 <= j < candidate_dirs(root@, opt_str_view(home), opt_str_view(theme), size).len() && icon_path_under(
                r->0@,
                #[trigger] candidate_dirs(root@, opt_str_view(home), opt_str_view(theme), size)[j],
                name@,
            ),
{
    let ghost cand = candidate_dirs(root@, opt_str_view(home), opt_str_view(theme), size);
    let dirs = icon_dirs(root, home, theme, size);
    let ghost mut walked: Seq<Vec<WalkEntry>> = Seq::empty();
    let mut i: usize = 0;
    while i < dirs.len()
        invariant
            i <= dirs@.len(),
            cand == candidate_dirs(root@, opt_str_view(home), opt_str_view(theme), size),
            dirs@.len() == cand.len(),
            forall|j: int| 0 <= j < dirs@.len() ==> #[trigger] dirs@[j]@ == cand[j],
            walked.len() == i,
            walks_under(walked, cand),
            resolve_listings(walked, name@) is None,
        decreases dirs@.len() - i,
    {
        let dir = dirs[i].as_str();
        let entries = walk_tree(dir);
        let found = match_in_dir(&entries, name);
        proof {
            assert(dir@ == cand[i as int]);
            lemma_resolve_push(walked, entries, name@);
            let prev = walked;
            walked = walked.push(entries);
            assert forall|j: int, k: int| 0 <= j < walked.len() && 0 <= k < walked[j]@.len() implies entry_under(
                #[trigger] walked[j]@[k],
                cand[j],
            ) by {
                if j < prev.len() {
                    assert(walked[j] == prev[j]);
                }
            }
        }
        if found.is_some() {
            assert(opt_view(found) == resolve_listings(walked, name@));
            assert(resolved_by_walks(cand, name@, opt_view(found)));
            proof {
                lemma_found_under_candidate(cand, name@, opt_view(found));
            }
            return found;
        }
        i = i + 1;
    }
    assert(opt_view(None::<String>) == resolve_listings(walked, name@));
    None
}

/// Looks `name` up under the system icon root and the user's `.icons`
/// directory; the latter is left out when the home directory is unknown.
pub fn find_icon(name: &str, theme: Option<&str>, size: Option<i64>) -> (r: Option<String>)
    ensures
        exists|home: Option<Seq<char>>|
            #[trigger] resolved_by_walks(candidate_dirs(ICON_ROOT@, home, opt_str_view(theme), size), name@, opt_view(r)),
{
    let home = home_dir();
    match &home {
        Some(h) => {
            let hs = h.as_str();
            let r = find_icon_under(ICON_ROOT, Some(hs), name, theme, size);
            assert(resolved_by_walks(candidate_dirs(ICON_ROOT@, opt_str_view(Some(hs)), opt_str_view(theme), size), name@, opt_view(r)));
            r
        },
        None => {
            let r = find_icon_under(ICON_ROOT, None, name, theme, size);
            assert(resolved_by_walks(candidate_dirs(ICON_ROOT@, opt_str_view(None), opt_str_view(theme), size), name@, opt_view(r)));
            r
        },
    }
}

proof fn lemma_first_named_is_entry(es: Seq<WalkEntry>, f: Seq<char>, i: int)
    requires
        0 <= i,
        first_named_from(es, f, i) is Some,
    ensures
        exists|k: int|
            i <= k < es.len() && (#[trigger] es[k]).file_name@ == f && es[k].path@ == first_named_from(es, f, i)->0,
    decreases es.len() - i,
{
    if es[i].file_name@ != f {
        lemma_first_named_is_entry(es, f, i + 1);
    }
}

proof fn lemma_resolve_from_is_dir_match(ls: Seq<Vec<WalkEntry>>, name: Seq<char>, i: int)
    requires
        0 <= i,
        resolve_from(ls, name, i) is Some,
    ensures
        exists|j: int| i <= j < ls.len() && dir_match(#[trigger] ls[j]@, name) == resolve_from(ls, name, i),
    decreases ls.len() - i,
{
    if dir_match(ls[i]@, name) is None {
        lemma_resolve_from_is_dir_match(ls, name, i + 1);
    }
}

/// A resolved icon is a walked entry: its path is the path of an entry of
/// one of the walks whose file name is `<name>.<ext>` for one of the
/// extensions.
pub proof fn lemma_resolved_is_walked_file(ls: Seq<Vec<WalkEntry>>, name: Seq<char>)
    requires
        resolve_listings(ls, name) is Some,
    ensures
        exists|j: int, k: int, x: int|
            0 <= j < ls.len() && 0 <= k < ls[j]@.len() && 0 <= x < 3 && (#[trigger] ls[j]@[k]).path@
                == resolve_listings(ls, name)->0 && ls[j]@[k].file_name@ == icon_file_name(name, #[trigger] icon_exts()[x]),
{
    lemma_resolve_from_is_dir_match(ls, name, 0);
    let j = choose|j: int| 0 <= j < ls.len() && dir_match(#[trigger] ls[j]@, name) == resolve_from(ls, name, 0);
    let es = ls[j]@;
    let exts = icon_exts();
    let x: int = if first_named(es, icon_file_name(name, exts[0])) is Some {
        0
    } else if first_named(es, icon_file_name(name, exts[1])) is Some {
        1
    } else {
        2
    };
    lemma_first_named_is_entry(es, icon_file_name(name, exts[x]), 0);
    let k = choose|k: int|
        0 <= k < es.len() && (#[trigger] es[k]).file_name@ == icon_file_name(name, exts[x]) && es[k].path@
            == first_named_from(es, icon_file_name(name, exts[x]), 0)->0;
    assert(ls[j]@[k].path@ == resolve_listings(ls, name)->0);
}

/// What a lookup finds lies under one of the directories searched, and is
/// named `<name>.<ext>` for one of the extensions (or is that directory).
pub proof fn lemma_found_under_candidate(dirs: Seq<Seq<char>>, name: Seq<char>, r: Option<Seq<char>>)
    requires
        resolved_by_walks(dirs, name, r),
        r is Some,
    ensures
        exists|j: int| 0 <= j < dirs.len() && icon_path_under(r->0, #[trigger] dirs[j], name),
{
    let ls = choose|ls: Seq<Vec<WalkEntry>>|
        ls.len() <= dirs.len() && walks_under(ls, dirs) && r == #[trigger] resolve_listings(ls, name);
    lemma_resolved_is_walked_file(ls, name);
    let (j, k, x) = choose|j: int, k: int, x: int|
        0 <= j < ls.len() && 0 <= k < ls[j]@.len() && 0 <= x < 3 && (#[trigger] ls[j]@[k]).path@
            == resolve_listings(ls, name)->0 && ls[j]@[k].file_name@ == icon_file_name(name, #[trigger] icon_exts()[x]);
    assert(entry_under(ls[j]@[k], dirs[j]));
    assert(icon_path_under(r->0, dirs[j], name));
}

/// Walking one more directory after directories that held no match: the
/// resolution is that directory's match.
proof fn lemma_resolve_push(ls: Seq<Vec<WalkEntry>>, next: Vec<WalkEntry>, name: Seq<char>)
    requires
        resolve_listings(ls, name) is None,
    ensures
        resolve_listings(ls.push(next), name) == dir_match(next@, name),
{
    lemma_no_match_before(ls, name, 0);
    let all = ls.push(next);
    assert(forall|j: int| 0 <= j < ls.len() ==> #[trigger] all[j] == ls[j]);
    if dir_match(next@, name) is Some {
        lemma_first_match_decides(all, name, ls.len() as int);
    } else {
        assert(forall|j: int| 0 <= j < all.len() ==> dir_match(#[trigger] all[j]@, name) is None);
        lemma_all_absent(all, name, 0);
    }
}

/// When no directory from `i` on matches, none of them holds a match.
proof fn lemma_no_match_before(ls: Seq<Vec<WalkEntry>>, name: Seq<char>, i: int)
    requires
        0 <= i,
        resolve_from(ls, name, i) is None,
    ensures
        forall|j: int| i <= j < ls.len() ==> dir_match(#[trigger] ls[j]@, name) is None,
    decreases ls.len() - i,
{
    if i < ls.len() {
        lemma_no_match_before(ls, name, i + 1);
    }
}

/// The first directory that holds a match decides the resolution.
pub proof fn lemma_first_match_decides(ls: Seq<Vec<WalkEntry>>, name: Seq<char>, i: int)
    requires
        0 <= i < ls.len(),
        dir_match(ls[i]@, name) is Some,
        forall|j: int| 0 <= j < i ==> dir_match(#[trigger] ls[j]@, name) is None,
    ensures
        resolve_listings(ls, name) == dir_match(ls[i]@, name),
{
    lemma_resolve_skips(ls, name, 0, i);
}

proof fn lemma_resolve_skips(ls: Seq<Vec<WalkEntry>>, name: Seq<char>, j: int, i: int)
    requires
        0 <= j <= i < ls.len(),
        dir_match(ls[i]@, name) is Some,
        forall|k: int| 0 <= k < i ==> dir_match(#[trigger] ls[k]@, name) is None,
    ensures
        resolve_from(ls, name, j) == dir_match(ls[i]@, name),
    decreases i - j,
{
    if j < i {
        lemma_resolve_skips(ls, name, j + 1, i);
    }
}

/// An entry named `fname` at index `k` makes the search from any `i <= k` succeed.
proof fn lemma_named_found(es: Seq<WalkEntry>, fname: Seq<char>, i: int, k: int)
    requires
        0 <= i <= k < es.len(),
        es[k].file_name@ == fname,
    ensures
        first_named_from(es, fname, i) is Some,
    decreases k - i,
{
    if es[i].file_name@ != fname {
        lemma_named_found(es, fname, i + 1, k);
    }
}

/// With no entry named `fname` from `i` on, the search from `i` finds nothing.
proof fn lemma_named_absent(es: Seq<WalkEntry>, fname: Seq<char>, i: int)
    requires
        0 <= i,
        forall|k: int| i <= k < es.len() ==> (#[trigger] es[k]).file_name@ != fname,
    ensures
        first_named_from(es, fname, i) is None,
    decreases es.len() - i,
{
    if i < es.len() {
        lemma_named_absent(es, fname, i + 1);
    }
}

/// Extension priority: when a directory's walk holds both `<name>.svg` and
/// `<name>.png`, and no earlier directory holds a match, the resolution is
/// the first `<name>.svg` entry of that walk, never a `.png` one.
pub proof fn lemma_extension_priority(ls: Seq<Vec<WalkEntry>>, name: Seq<char>, i: int, k_svg: int, k_png: int)
    requires
        0 <= i < ls.len(),
        0 <= k_svg < ls[i]@.len(),
        0 <= k_png < ls[i]@.len(),
        ls[i]@[k_svg].file_name@ == icon_file_name(name, icon_exts()[0]),
        ls[i]@[k_png].file_name@ == icon_file_name(name, icon_exts()[2]),
        forall|j: int| 0 <= j < i ==> dir_match(#[trigger] ls[j]@, name) is None,
    ensures
        resolve_listings(ls, name) == first_named(ls[i]@, icon_file_name(name, icon_exts()[0])),
        resolve_listings(ls, name) is Some,
{
    lemma_named_found(ls[i]@, icon_file_name(name, icon_exts()[0]), 0, k_svg);
    lemma_first_match_decides(ls, name, i);
}

/// Fallback order: with a theme and a size, the first candidate is the
/// `<root>/<theme>/<size>x<size>` directory, and when its walk holds
/// `<name>.png` the resolution comes from that walk, whatever the later
/// directories hold.
pub proof fn lemma_fallback_order(
    root: Seq<char>,
    home: Option<Seq<char>>,
    theme: Seq<char>,
    size: i64,
    ls: Seq<Vec<WalkEntry>>,
    name: Seq<char>,
    k: int,
)
    requires
        ls.len() == candidate_dirs(root, home, Some(theme), Some(size)).len(),
        0 <= k < ls[0]@.len(),
        ls[0]@[k].file_name@ == icon_file_name(name, icon_exts()[2]),
    ensures
        candidate_dirs(root, home, Some(theme), Some(size))[0] == root + seq!['/'] + theme + seq!['/']
            + size_dir_name(size),
        resolve_listings(ls, name) == dir_match(ls[0]@, name),
        resolve_listings(ls, name) is Some,
{
    let want = candidate_dirs(root, home, Some(theme), Some(size));
    assert(want.len() >= 1);
    lemma_named_found(ls[0]@, icon_file_name(name, icon_exts()[2]), 0, k);
    lemma_first_match_decides(ls, name, 0);
}

/// Absence is not failure: when no walk holds `<name>.<ext>` for any of the
/// extensions, the resolution is `None`.
pub proof fn lemma_absent_icon(ls: Seq<Vec<WalkEntry>>, name: Seq<char>)
    requires
        forall|i: int, k: int, x: int|
            0 <= i < ls.len() && 0 <= k < ls[i]@.len() && 0 <= x < 3 ==> (#[trigger] ls[i]@[k]).file_name@
                != icon_file_name(name, #[trigger] icon_exts()[x]),
    ensures
        resolve_listings(ls, name) is None,
{
    assert forall|i: int| 0 <= i < ls.len() implies dir_match(#[trigger] ls[i]@, name) is None by {
        assert forall|x: int| 0 <= x < 3 implies first_named(ls[i]@, icon_file_name(name, #[trigger] icon_exts()[x])) is None by {
            assert forall|k: int| 0 <= k < ls[i]@.len() implies (#[trigger] ls[i]@[k]).file_name@
                != icon_file_name(name, icon_exts()[x]) by {}
            lemma_named_absent(ls[i]@, icon_file_name(name, icon_exts()[x]), 0);
        }
        assert(first_named(ls[i]@, icon_file_name(name, icon_exts()[0])) is None);
        assert(first_named(ls[i]@, icon_file_name(name, icon_exts()[1])) is None);
        assert(first_named(ls[i]@, icon_file_name(name, icon_exts()[2])) is None);
    }
    lemma_all_absent(ls, name, 0);
}

proof fn lemma_all_absent(ls: Seq<Vec<WalkEntry>>, name: Seq<char>, i: int)
    requires
        0 <= i,
        forall|j: int| 0 <= j < ls.len() ==> dir_match(#[trigger] ls[j]@, name) is None,
    ensures
        resolve_from(ls, name, i) is None,
    decreases ls.len() - i,
{
    if i < ls.len() {
        assert(dir_match(ls[i]@, name) is None);
        lemma_all_absent(ls, name, i + 1);
    }
}

} // verus!
