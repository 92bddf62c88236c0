//! Desktop entry reading: of a `Key=value` text, only the `Icon=` and
//! `Exec=` lines are read, each line on its own, and the last occurrence of
//! a key wins.
use vstd::prelude::*;
use crate::icons::{candidate_dirs, find_icon, opt_str_view, opt_view, resolved_by_walks, ICON_ROOT};
use crate::text::{chars_of, has_prefix, string_of};

verus! {

/// The two keys read from an entry, as found in the text.
pub struct EntryFields {
    /// The value of the last `Icon=` line.
    pub icon_name: Option<String>,
    /// The executable of the last `Exec=` line: the first whitespace-delimited
    /// token of its value.
    pub command: Option<String>,
}

/// What the dock needs of one application: its icon file and its command.
pub struct AppEntry {
    pub icon_path: Option<String>,
    pub command: Option<String>,
}

/// The pieces of a text between newlines, in order; a text ending in a
/// newline has an empty last piece.
pub open spec fn raw_lines(s: Seq<char>) -> Seq<Seq<char>>
    decreases s.len(),
{
    if s.len() == 0 {
        seq![Seq::empty()]
    } else {
        let p = raw_lines(s.drop_last());
        if s.last() == '\n' {
            p.push(Seq::empty())
        } else {
            p.update(p.len() - 1, p.last().push(s.last()))
        }
    }
}

/// A line without its trailing carriage return.
pub open spec fn strip_cr(l: Seq<char>) -> Seq<char> {
    if l.len() > 0 && l.last() == '\r' {
        l.drop_last()
    } else {
        l
    }
}

pub open spec fn icon_key() -> Seq<char> {
    seq!['I', 'c', 'o', 'n', '=']
}

pub open spec fn exec_key() -> Seq<char> {
    seq!['E', 'x', 'e', 'c', '=']
}

/// Whitespace: the characters with Unicode's White_Space property.
pub open spec fn is_white(c: char) -> bool {
    let u = c as u32;
    (9 <= u <= 13) || u == 32 || u == 0x85 || u == 0xA0 || u == 0x1680 || (0x2000 <= u <= 0x200A) || u
        == 0x2028 || u == 0x2029 || u == 0x202F || u == 0x205F || u == 0x3000
}

/// The first index from `i` on that holds no whitespace, or the length.
pub open spec fn token_start(s: Seq<char>, i: int) -> int
    decreases s.len() - i,
{
    if i < 0 || i >= s.len() {
        s.len() as int
    } else if !is_white(s[i]) {
        i
    } else {
        token_start(s, i + 1)
    }
}

/// The first index from `i` on that holds whitespace, or the length.
pub open spec fn token_end(s: Seq<char>, i: int) -> int
    decreases s.len() - i,
{
    if i < 0 || i >= s.len() {
        s.len() as int
    } else if is_white(s[i]) {
        i
    } else {
        token_end(s, i + 1)
    }
}

/// The first whitespace-delimited token of a value: leading whitespace is
/// skipped, and the token ends at the next whitespace character. A value of
/// whitespace alone gives the empty token.
pub open spec fn exec_token(v: Seq<char>) -> Seq<char> {
    v.subrange(token_start(v, 0), token_end(v, token_start(v, 0)))
}

/// The fields after reading one more line.
pub open spec fn apply_line(
    f: (Option<Seq<char>>, Option<Seq<char>>),
    l: Seq<char>,
) -> (Option<Seq<char>>, Option<Seq<char>>) {
    if has_prefix(l, icon_key()) {
        (Some(l.skip(5)), f.1)
    } else if has_prefix(l, exec_key()) {
        (f.0, Some(exec_token(l.skip(5))))
    } else {
        f
    }
}

/// The icon name and the command read from these lines, in order.
pub open spec fn fields_of_lines(ls: Seq<Seq<char>>) -> (Option<Seq<char>>, Option<Seq<char>>)
    decreases ls.len(),
{
    if ls.len() == 0 {
        (None, None)
    } else {
        apply_line(fields_of_lines(ls.drop_last()), strip_cr(ls.last()))
    }
}

/// The icon name and the command read from an entry text.
pub open spec fn entry_fields(s: Seq<char>) -> (Option<Seq<char>>, Option<Seq<char>>) {
    fields_of_lines(raw_lines(s))
}

pub open spec fn opt_chars_view(o: Option<Vec<char>>) -> Option<Seq<char>> {
    match o {
        Some(v) => Some(v@),
        None => None,
    }
}

proof fn lemma_raw_lines_nonempty(s: Seq<char>)
    ensures
        raw_lines(s).len() >= 1,
    decreases s.len(),
{
    if s.len() > 0 {
        lemma_raw_lines_nonempty(s.drop_last());
    }
}

fn slice_chars(v: &Vec<char>, from: usize, to: usize) -> (r: Vec<char>)
    requires
        from <= to <= v@.len(),
    ensures
        r@ == v@.subrange(from as int, to as int),
{
    let mut r: Vec<char> = Vec::new();
    let mut i: usize = from;
    while i < to
        invariant
            from <= i <= to <= v@.len(),
            r@ == v@.subrange(from as int, i as int),
        decreases to - i,
    {
        r.push(v[i]);
        i = i + 1;
        assert(r@ =~= v@.subrange(from as int, i as int));
    }
    r
}

fn starts_with_chars(l: &Vec<char>, p: &Vec<char>) -> (r: bool)
    ensures
        r == has_prefix(l@, p@),
{
    if p.len() > l.len() {
        return false;
    }
    let mut i: usize = 0;
    while i < p.len()
        invariant
            p@.len() <= l@.len(),
            i <= p@.len(),
            forall|j: int| 0 <= j < i ==> l@[j] == p@[j],
        decreases p@.len() - i,
    {
        if l[i] != p[i] {
            assert(l@.take(p@.len() as int)[i as int] != p@[i as int]);
            return false;
        }
        i = i + 1;
    }
    assert(l@.take(p@.len() as int) =~= p@);
    true
}

fn white(c: char) -> (r: bool)
    ensures
        r == is_white(c),
{
    let u = c as u32;
    (9 <= u && u <= 13) || u == 32 || u == 0x85 || u == 0xA0 || u == 0x1680 || (0x2000 <= u && u <= 0x200A)
        || u == 0x2028 || u == 0x2029 || u == 0x202F || u == 0x205F || u == 0x3000
}

fn token_of(v: &Vec<char>) -> (r: Vec<char>)
    ensures
        r@ == exec_token(v@),
{
    let mut start: usize = 0;
    while start < v.len() && white(v[start])
        invariant
            start <= v@.len(),
            token_start(v@, 0) == token_start(v@, start as int),
        decreases v@.len() - start,
    {
        start = start + 1;
    }
    let mut end: usize = start;
    while end < v.len() && !white(v[end])
        invariant
            start <= end <= v@.len(),
            token_start(v@, 0) == start,
            token_end(v@, start as int) == token_end(v@, end as int),
        decreases v@.len() - end,
    {
        end = end + 1;
    }
    slice_chars(v, start, end)
}

/// Reads one line into the fields found so far.
fn read_line(
    icon: &mut Option<Vec<char>>,
    command: &mut Option<Vec<char>>,
    raw: &Vec<char>,
)
    ensures
        (opt_chars_view(*final(icon)), opt_chars_view(*final(command))) == apply_line(
            (opt_chars_view(*old(icon)), opt_chars_view(*old(command))),
            strip_cr(raw@),
        ),
{
    let end: usize = if raw.len() > 0 && raw[raw.len() - 1] == '\r' {
        raw.len() - 1
    } else {
        raw.len()
    };
    let line = slice_chars(raw, 0, end);
    assert(line@ =~= strip_cr(raw@));
    let icon_prefix: Vec<char> = vec!['I', 'c', 'o', 'n', '='];
    let exec_prefix: Vec<char> = vec!['E', 'x', 'e', 'c', '='];
    assert(icon_prefix@ =~= icon_key());
    assert(exec_prefix@ =~= exec_key());
    if starts_with_chars(&line, &icon_prefix) {
        *icon = Some(slice_chars(&line, 5, line.len()));
        assert(line@.subrange(5, line@.len() as int) =~= line@.skip(5));
    } else if starts_with_chars(&line, &exec_prefix) {
        let value = slice_chars(&line, 5, line.len());
        assert(value@ =~= line@.skip(5));
        *command = Some(token_of(&value));
    }
}

/// Reads the `Icon=` and `Exec=` fields of an entry text.
pub fn parse_entry(contents: &str) -> (r: EntryFields)
    ensures
        opt_view(r.icon_name) == entry_fields(contents@).0,
        opt_view(r.command) == entry_fields(contents@).1,
{
    let chars = chars_of(contents);
    let mut icon: Option<Vec<char>> = None;
    let mut command: Option<Vec<char>> = None;
    let mut cur: Vec<char> = Vec::new();
    let mut i: usize = 0;
    proof {
        assert(chars@.take(0) =~= Seq::<char>::empty());
    }
    while i < chars.len()
        invariant
            i <= chars@.len(),
            raw_lines(chars@.take(i as int)).len() >= 1,
            raw_lines(chars@.take(i as int)).last() == cur@,
            (opt_chars_view(icon), opt_chars_view(command)) == fields_of_lines(
                raw_lines(chars@.take(i as int)).drop_last(),
            ),
        decreases chars@.len() - i,
    {
        let c = chars[i];
        let ghost before = raw_lines(chars@.take(i as int));
        proof {
            let next = chars@.take(i + 1);
            assert(next.drop_last() =~= chars@.take(i as int));
            assert(next.last() == c);
        }
        if c == '\n' {
            read_line(&mut icon, &mut command, &cur);
            cur = Vec::new();
            proof {
                let after = raw_lines(chars@.take(i + 1));
                assert(after == before.push(Seq::empty()));
                assert(after.drop_last() =~= before);
                assert(before =~= before.drop_last().push(before.last()));
            }
        } else {
            cur.push(c);
            proof {
                let after = raw_lines(chars@.take(i + 1));
                assert(after.drop_last() =~= before.drop_last());
            }
        }
        i = i + 1;
    }
    read_line(&mut icon, &mut command, &cur);
    proof {
        let all = raw_lines(chars@.take(i as int));
        assert(chars@.take(i as int) =~= chars@);
        assert(all =~= all.drop_last().push(all.last()));
    }
    let icon_name = match icon {
        Some(v) => Some(string_of(&v)),
        None => None,
    };
    let command = match command {
        Some(v) => Some(string_of(&v)),
        None => None,
    };
    EntryFields { icon_name, command }
}

/// Reads an entry text and resolves its icon name: the icon path is the
/// lookup of the last `Icon=` value, and `None` without an `Icon=` line.
pub fn read_app_entry(contents: &str, theme: Option<&str>, size: Option<i64>) -> (r: AppEntry)
    ensures
        opt_view(r.command) == entry_fields(contents@).1,
        entry_fields(contents@).0 is None ==> r.icon_path is None,
        entry_fields(contents@).0 is Some ==> exists|home: Option<Seq<char>>|
            #[trigger] resolved_by_walks(
                candidate_dirs(ICON_ROOT@, home, opt_str_view(theme), size),
                entry_fields(contents@).0->0,
                opt_view(r.icon_path),
            ),
{
    let fields = parse_entry(contents);
    let icon_path = match &fields.icon_name {
        Some(name) => {
            let ns = name.as_str();
            let found = find_icon(ns, theme, size);
            assert(ns@ == entry_fields(contents@).0->0);
            found
        },
        None => None,
    };
    AppEntry { icon_path, command: fields.command }
}

/// Only `Exec=` lines change the command.
proof fn lemma_command_after(ls: Seq<Seq<char>>, i: int)
    requires
        0 <= i < ls.len(),
        has_prefix(strip_cr(ls[i]), exec_key()),
        forall|j: int| i < j < ls.len() ==> !has_prefix(strip_cr(#[trigger] ls[j]), exec_key()),
    ensures
        fields_of_lines(ls).1 == Some(exec_token(strip_cr(ls[i]).skip(5))),
    decreases ls.len(),
{
    let l = strip_cr(ls.last());
    let prev = ls.drop_last();
    if i == ls.len() - 1 {
        assert(l.take(5)[0] == 'E');
        assert(!has_prefix(l, icon_key()));
    } else {
        assert(forall|j: int| i < j < prev.len() ==> #[trigger] prev[j] == ls[j]);
        lemma_command_after(prev, i);
        assert(!has_prefix(l, exec_key()));
    }
}

/// The last `Exec=` line decides the command: when line `i` of an entry
/// text is an `Exec=` line and no later line is, the command is the token of
/// line `i`'s value, whatever the earlier `Exec=` lines held.
pub proof fn lemma_last_exec_wins(s: Seq<char>, i: int)
    requires
        0 <= i < raw_lines(s).len(),
        has_prefix(strip_cr(raw_lines(s)[i]), exec_key()),
        forall|j: int| i < j < raw_lines(s).len() ==> !has_prefix(strip_cr(#[trigger] raw_lines(s)[j]), exec_key()),
    ensures
        entry_fields(s).1 == Some(exec_token(strip_cr(raw_lines(s)[i]).skip(5))),
{
    lemma_command_after(raw_lines(s), i);
}

proof fn lemma_no_icon_lines(ls: Seq<Seq<char>>)
    requires
        forall|j: int| 0 <= j < ls.len() ==> !has_prefix(strip_cr(#[trigger] ls[j]), icon_key()),
    ensures
        fields_of_lines(ls).0 is None,
    decreases ls.len(),
{
    if ls.len() > 0 {
        let prev = ls.drop_last();
        assert(forall|j: int| 0 <= j < prev.len() ==> #[trigger] prev[j] == ls[j]);
        lemma_no_icon_lines(prev);
        assert(!has_prefix(strip_cr(ls[ls.len() - 1]), icon_key()));
    }
}

proof fn lemma_some_exec_line(ls: Seq<Seq<char>>, i: int)
    requires
        0 <= i < ls.len(),
        has_prefix(strip_cr(ls[i]), exec_key()),
    ensures
        fields_of_lines(ls).1 is Some,
    decreases ls.len(),
{
    let l = strip_cr(ls.last());
    let prev = ls.drop_last();
    if i == ls.len() - 1 {
        assert(l.take(5)[0] == 'E');
        assert(!has_prefix(l, icon_key()));
    } else {
        assert(prev[i] == ls[i]);
        lemma_some_exec_line(prev, i);
    }
}

/// An entry text with no `Icon=` line reads as no icon, and still yields the
/// command of its `Exec=` lines.
pub proof fn lemma_missing_icon(s: Seq<char>, i: int)
    requires
        forall|j: int| 0 <= j < raw_lines(s).len() ==> !has_prefix(strip_cr(#[trigger] raw_lines(s)[j]), icon_key()),
        0 <= i < raw_lines(s).len(),
        has_prefix(strip_cr(raw_lines(s)[i]), exec_key()),
    ensures
        entry_fields(s).0 is None,
        entry_fields(s).1 is Some,
{
    lemma_no_icon_lines(raw_lines(s));
    lemma_some_exec_line(raw_lines(s), i);
}

} // verus!
