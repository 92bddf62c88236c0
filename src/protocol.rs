//! The window-property protocol: atoms interned per connection and kept in
//! a cache, atom-list property writes that replace the prior value, and the
//! class-hint query with its decoding.
use vstd::prelude::*;
use vstd::utf8::{decode_utf8, length_of_first_scalar, pop_first_scalar, valid_utf8};
use crate::icons::opt_view;
use crate::text::chars_of;

verus! {

/// The predefined atom of the `ATOM` type.
pub const XA_ATOM: u64 = 4;

/// The predefined atom of the `STRING` type.
pub const XA_STRING: u64 = 31;

/// The most bytes of the class hint that are read.
pub const CLASS_HINT_BYTES: usize = 1024;

/// How much of the class hint is requested, in the 32-bit units of a
/// property read: 1024 bytes.
pub const CLASS_HINT_LENGTH: i64 = 256;

/// The atoms interned on one connection, by name. Entries are only added;
/// a later entry for a name takes the place of an earlier one.
pub struct AtomCache {
    names: Vec<String>,
    atoms: Vec<u64>,
}

/// The map that these names and atoms, in order, describe.
pub open spec fn atom_map(names: Seq<String>, atoms: Seq<u64>) -> Map<Seq<char>, u64>
    decreases names.len(),
{
    if names.len() == 0 || atoms.len() == 0 {
        Map::empty()
    } else {
        atom_map(names.drop_last(), atoms.drop_last()).insert(names.last()@, atoms.last())
    }
}

/// The entry of `m` at `k`, if any.
pub open spec fn map_get<K, V>(m: Map<K, V>, k: K) -> Option<V> {
    if m.contains_key(k) {
        Some(m[k])
    } else {
        None
    }
}

/// The views of a sequence of strings.
pub open spec fn names_view(v: Seq<String>) -> Seq<Seq<char>> {
    v.map_values(|s: String| s@)
}

/// Whether every name has an atom in `m`.
pub open spec fn all_interned(m: Map<Seq<char>, u64>, names: Seq<Seq<char>>) -> bool {
    forall|i: int| 0 <= i < names.len() ==> m.contains_key(#[trigger] names[i])
}

/// The atoms of the names, in order.
pub open spec fn atoms_for(m: Map<Seq<char>, u64>, names: Seq<Seq<char>>) -> Seq<u64> {
    names.map_values(|n: Seq<char>| m[n])
}

impl AtomCache {
    pub closed spec fn wf(&self) -> bool {
        self.names@.len() == self.atoms@.len()
    }

    pub closed spec fn view(&self) -> Map<Seq<char>, u64> {
        atom_map(self.names@, self.atoms@)
    }

    /// An empty cache, for a new connection.
    pub fn new() -> (r: AtomCache)
        ensures
            r.wf(),
            r.view() == Map::<Seq<char>, u64>::empty(),
    {
        AtomCache { names: Vec::new(), atoms: Vec::new() }
    }

    /// The atom cached for `name`.
    pub fn lookup(&self, name: &str) -> (r: Option<u64>)
        requires
            self.wf(),
        ensures
            r == map_get(self.view(), name@),
    {
        let wanted: String = name.to_owned();
        let mut found: Option<u64> = None;
        let mut i: usize = 0;
        proof {
            assert(self.names@.take(0).len() == 0);
        }
        while i < self.names.len()
            invariant
                self.wf(),
                i <= self.names@.len(),
                wanted@ == name@,
                found == map_get(atom_map(self.names@.take(i as int), self.atoms@.take(i as int)), name@),
            decreases self.names@.len() - i,
        {
            proof {
                assert(self.names@.take(i + 1).drop_last() =~= self.names@.take(i as int));
                assert(self.atoms@.take(i + 1).drop_last() =~= self.atoms@.take(i as int));
            }
            if self.names[i] == wanted {
                found = Some(self.atoms[i]);
            }
            i = i + 1;
        }
        proof {
            assert(self.names@.take(i as int) =~= self.names@);
            assert(self.atoms@.take(i as int) =~= self.atoms@);
        }
        found
    }

    /// Records the atom that the connection gave for `name`.
    pub fn record(&mut self, name: String, atom: u64)
        requires
            old(self).wf(),
        ensures
            final(self).wf(),
            final(self).view() == old(self).view().insert(name@, atom),
    {
        self.names.push(name);
        self.atoms.push(atom);
        proof {
            assert(self.names@.drop_last() =~= old(self).names@);
            assert(self.atoms@.drop_last() =~= old(self).atoms@);
        }
    }

    /// The names that still need interning: each name of `names` without a
    /// cached atom, and nothing else.
    pub fn missing(&self, names: &Vec<String>) -> (r: Vec<String>)
        requires
            self.wf(),
        ensures
            forall|i: int|
                0 <= i < names@.len() && !self.view().contains_key(#[trigger] names@[i]@) ==> names_view(
                    r@,
                ).contains(names@[i]@),
            forall|j: int|
                0 <= j < r@.len() ==> !self.view().contains_key((#[trigger] r@[j])@) && names_view(
                    names@,
                ).contains(r@[j]@),
    {
        let mut out: Vec<String> = Vec::new();
        let mut i: usize = 0;
        while i < names.len()
            invariant
                self.wf(),
                i <= names@.len(),
                forall|k: int|
                    0 <= k < i && !self.view().contains_key(#[trigger] names@[k]@) ==> names_view(out@).contains(
                        names@[k]@,
                    ),
                forall|j: int|
                    0 <= j < out@.len() ==> !self.view().contains_key((#[trigger] out@[j])@) && names_view(
                        names@,
                    ).contains(out@[j]@),
            decreases names@.len() - i,
        {
            if self.lookup(names[i].as_str()).is_none() {
                let ghost before = out@;
                out.push(names[i].clone());
                proof {
                    assert(names_view(out@)[out@.len() - 1] == names@[i as int]@);
                    assert forall|k: int|
                        0 <= k < i && !self.view().contains_key(#[trigger] names@[k]@) implies names_view(
                        out@,
                    ).contains(names@[k]@) by {
                        let t = choose|t: int| 0 <= t < before.len() && names_view(before)[t] == names@[k]@;
                        assert(names_view(out@)[t] == names@[k]@);
                    }
                    assert forall|j: int| 0 <= j < out@.len() implies !self.view().contains_key(
                        (#[trigger] out@[j])@,
                    ) && names_view(names@).contains(out@[j]@) by {
                        if j == out@.len() - 1 {
                            assert(names_view(names@)[i as int] == out@[j]@);
                        } else {
                            assert(out@[j] == before[j]);
                        }
                    }
                }
            }
            i = i + 1;
        }
        out
    }

    /// The atoms of `names`, in order, when all of them are cached.
    pub fn atoms_of(&self, names: &Vec<String>) -> (r: Option<Vec<u64>>)
        requires
            self.wf(),
        ensures
            r is Some <==> all_interned(self.view(), names_view(names@)),
            r is Some ==> r->0@ == atoms_for(self.view(), names_view(names@)),
    {
        let mut out: Vec<u64> = Vec::new();
        let mut i: usize = 0;
        while i < names.len()
            invariant
                self.wf(),
                i <= names@.len(),
                all_interned(self.view(), names_view(names@).take(i as int)),
                out@ == atoms_for(self.view(), names_view(names@).take(i as int)),
            decreases names@.len() - i,
        {
            match self.lookup(names[i].as_str()) {
                Some(a) => {
                    out.push(a);
                    proof {
                        let nv = names_view(names@);
                        assert(nv.take(i + 1) =~= nv.take(i as int).push(nv[i as int]));
                        assert(out@ =~= atoms_for(self.view(), nv.take(i + 1)));
                    }
                },
                None => {
                    proof {
                        let nv = names_view(names@);
                        assert(!self.view().contains_key(nv[i as int]));
                    }
                    return None;
                },
            }
            i = i + 1;
        }
        proof {
            assert(names_view(names@).take(i as int) =~= names_view(names@));
        }
        Some(out)
    }
}

/// How a property write combines with the value the property had.
#[derive(PartialEq, Eq, Structural, Clone, Copy)]
pub enum ChangeMode {
    /// The written items take the place of the old value.
    Replace,
    /// The written items go before the old ones.
    Prepend,
    /// The written items go after the old ones.
    Append,
}

/// A property write: a list of 32-bit atoms stored under `property` on
/// `window`, combined with its old value as `mode` says.
pub struct PropertyWrite {
    pub window: u64,
    pub property: u64,
    pub type_atom: u64,
    pub format: u8,
    pub mode: ChangeMode,
    pub values: Vec<u64>,
}

/// The write that sets `property` on `window` to the atoms of `values`, when
/// the property name and every value name are cached.
pub fn atom_list_write(cache: &AtomCache, window: u64, property: &str, values: &Vec<String>) -> (r: Option<
    PropertyWrite,
>)
    requires
        cache.wf(),
    ensures
        r is Some <==> (cache.view().contains_key(property@) && all_interned(cache.view(), names_view(values@))),
        r is Some ==> r->0.window == window && r->0.property == cache.view()[property@] && r->0.type_atom
            == XA_ATOM && r->0.format == 32 && r->0.mode == ChangeMode::Replace && r->0.values@ == atoms_for(
            cache.view(),
            names_view(values@),
        ),
{
    let property_atom = match cache.lookup(property) {
        Some(a) => a,
        None => return None,
    };
    match cache.atoms_of(values) {
        Some(atoms) => Some(
            PropertyWrite {
                window,
                property: property_atom,
                type_atom: XA_ATOM,
                format: 32,
                mode: ChangeMode::Replace,
                values: atoms,
            },
        ),
        None => None,
    }
}

/// A stored property value: its type atom, its format, and its items.
pub type StoredValue = (u64, u8, Seq<u64>);

/// The properties stored on the windows of a display, as the server keeps
/// them: one value per window and property.
pub struct PropertyTable {
    writes: Vec<PropertyWrite>,
}

/// Whether every write replaces.
pub open spec fn all_replace(ws: Seq<PropertyWrite>) -> bool {
    forall|i: int| 0 <= i < ws.len() ==> (#[trigger] ws[i]).mode == ChangeMode::Replace
}

/// The table that these writes, in order, leave behind.
pub open spec fn table_of(ws: Seq<PropertyWrite>) -> Map<(u64, u64), StoredValue>
    decreases ws.len(),
{
    if ws.len() == 0 {
        Map::empty()
    } else {
        table_of(ws.drop_last()).insert(
            (ws.last().window, ws.last().property),
            (ws.last().type_atom, ws.last().format, ws.last().values@),
        )
    }
}

/// The table after `property` on `window` is set to the atoms of `values`,
/// when all of them are cached; unchanged otherwise.
pub open spec fn after_atom_list(
    t: Map<(u64, u64), StoredValue>,
    cache: Map<Seq<char>, u64>,
    window: u64,
    property: Seq<char>,
    values: Seq<Seq<char>>,
) -> Map<(u64, u64), StoredValue> {
    if cache.contains_key(property) && all_interned(cache, values) {
        t.insert((window, cache[property]), (XA_ATOM, 32u8, atoms_for(cache, values)))
    } else {
        t
    }
}

impl PropertyTable {
    pub closed spec fn view(&self) -> Map<(u64, u64), StoredValue> {
        table_of(self.writes@)
    }

    pub closed spec fn wf(&self) -> bool {
        all_replace(self.writes@)
    }

    /// A display whose windows hold no property.
    pub fn new() -> (r: PropertyTable)
        ensures
            r.wf(),
            r.view() == Map::<(u64, u64), StoredValue>::empty(),
    {
        PropertyTable { writes: Vec::new() }
    }

    /// Performs a replacing write: the value takes the place of whatever the
    /// property held.
    pub fn apply(&mut self, w: PropertyWrite)
        requires
            old(self).wf(),
            w.mode == ChangeMode::Replace,
        ensures
            final(self).wf(),
            final(self).view() == old(self).view().insert((w.window, w.property), (w.type_atom, w.format, w.values@)),
    {
        self.writes.push(w);
        proof {
            assert(self.writes@.drop_last() =~= old(self).writes@);
            assert(forall|i: int| 0 <= i < old(self).writes@.len() ==> self.writes@[i] == old(self).writes@[i]);
        }
    }

    /// The last write of `property` on `window`, if there was one: its
    /// type, format and items are the stored value.
    pub fn get(&self, window: u64, property: u64) -> (r: Option<PropertyWrite>)
        requires
            self.wf(),
        ensures
            r is Some <==> self.view().contains_key((window, property)),
            r is Some ==> r->0.window == window && r->0.property == property && r->0.mode == ChangeMode::Replace && (
            r->0.type_atom,
            r->0.format,
            r->0.values@,
            ) == self.view()[(window, property)],
    {
        let ghost key = (window, property);
        let mut i: usize = self.writes.len();
        while i > 0
            invariant
                i <= self.writes@.len(),
                key == (window, property),
                forall|j: int|
                    i <= j < self.writes@.len() ==> ((#[trigger] self.writes@[j]).window, self.writes@[j].property)
                        != key,
            decreases i,
        {
            let w = &self.writes[i - 1];
            if w.window == window && w.property == property {
                let values = w.values.clone();
                proof {
                    lemma_table_suffix(self.writes@, i as int, key);
                    let pre = self.writes@.take(i as int);
                    assert(pre.last() == self.writes@[i - 1]);
                    assert(values@ =~= w.values@);
                }
                return Some(
                    PropertyWrite {
                        window: w.window,
                        property: w.property,
                        type_atom: w.type_atom,
                        format: w.format,
                        mode: ChangeMode::Replace,
                        values,
                    },
                );
            }
            i = i - 1;
        }
        proof {
            lemma_table_suffix(self.writes@, 0, key);
            assert(self.writes@.take(0) =~= Seq::<PropertyWrite>::empty());
        }
        None
    }
}

/// Writes after index `i` to other keys leave the value at `k` as it was
/// after the first `i` writes.
proof fn lemma_table_suffix(ws: Seq<PropertyWrite>, i: int, k: (u64, u64))
    requires
        0 <= i <= ws.len(),
        forall|j: int| i <= j < ws.len() ==> ((#[trigger] ws[j]).window, ws[j].property) != k,
    ensures
        table_of(ws).contains_key(k) == table_of(ws.take(i)).contains_key(k),
        table_of(ws).contains_key(k) ==> table_of(ws)[k] == table_of(ws.take(i))[k],
    decreases ws.len(),
{
    if i < ws.len() {
        let prev = ws.drop_last();
        assert(forall|j: int| i <= j < prev.len() ==> #[trigger] prev[j] == ws[j]);
        lemma_table_suffix(prev, i, k);
        assert(prev.take(i) =~= ws.take(i));
    } else {
        assert(ws.take(i) =~= ws);
    }
}

/// Sets `property` on `window` to the list of atoms of `values`, replacing
/// any value it had. Returns false, and changes nothing, when a name has no
/// cached atom.
pub fn set_atom_list_property(
    table: &mut PropertyTable,
    cache: &AtomCache,
    window: u64,
    property: &str,
    values: &Vec<String>,
) -> (r: bool)
    requires
        cache.wf(),
        old(table).wf(),
    ensures
        final(table).wf(),
        r == (cache.view().contains_key(property@) && all_interned(cache.view(), names_view(values@))),
        final(table).view() == after_atom_list(old(table).view(), cache.view(), window, property@, names_view(values@)),
{
    match atom_list_write(cache, window, property, values) {
        Some(w) => {
            table.apply(w);
            true
        },
        None => false,
    }
}

/// Interning completes: once the missing names have atoms, in a cache that
/// kept its other entries, every name has one.
pub proof fn lemma_interning_completes(
    before: Map<Seq<char>, u64>,
    after: Map<Seq<char>, u64>,
    names: Seq<Seq<char>>,
    missing: Seq<Seq<char>>,
)
    requires
        forall|i: int| 0 <= i < names.len() && !before.contains_key(#[trigger] names[i]) ==> missing.contains(names[i]),
        forall|k: Seq<char>| before.contains_key(k) ==> after.contains_key(k),
        all_interned(after, missing),
    ensures
        all_interned(after, names),
{
    assert forall|i: int| 0 <= i < names.len() implies after.contains_key(#[trigger] names[i]) by {
        if !before.contains_key(names[i]) {
            let t = choose|t: int| 0 <= t < missing.len() && missing[t] == names[i];
            assert(after.contains_key(missing[t]));
        }
    }
}

/// Setting an atom-list property twice on the same window leaves only the
/// second list: the table is as if the first write had not been made.
pub proof fn lemma_property_replaced(
    t: Map<(u64, u64), StoredValue>,
    cache: Map<Seq<char>, u64>,
    window: u64,
    property: Seq<char>,
    first: Seq<Seq<char>>,
    second: Seq<Seq<char>>,
)
    requires
        cache.contains_key(property),
        all_interned(cache, first),
        all_interned(cache, second),
    ensures
        after_atom_list(after_atom_list(t, cache, window, property, first), cache, window, property, second)
            == after_atom_list(t, cache, window, property, second),
        after_atom_list(after_atom_list(t, cache, window, property, first), cache, window, property, second)[(
            window,
            cache[property],
        )] == (XA_ATOM, 32u8, atoms_for(cache, second)),
{
    let k = (window, cache[property]);
    let v1 = (XA_ATOM, 32u8, atoms_for(cache, first));
    let v2 = (XA_ATOM, 32u8, atoms_for(cache, second));
    assert(t.insert(k, v1).insert(k, v2) =~= t.insert(k, v2));
}

/// The name of the class-hint property.
pub open spec fn wm_class_name() -> Seq<char> {
    seq!['W', 'M', '_', 'C', 'L', 'A', 'S', 'S']
}

/// A property read: up to `length` 32-bit units of `property` on `window`
/// from `offset` on, of type `req_type`, with `delete` telling whether the
/// property is removed once read.
pub struct PropertyQuery {
    pub window: u64,
    pub property: u64,
    pub offset: i64,
    pub length: i64,
    pub delete: bool,
    pub req_type: u64,
}

/// The read of a window's class hint, as a string of at most the fixed
/// length, when the class-hint atom is cached.
pub fn class_hint_query(cache: &AtomCache, window: u64) -> (r: Option<PropertyQuery>)
    requires
        cache.wf(),
    ensures
        r is Some <==> cache.view().contains_key(wm_class_name()),
        r is Some ==> (r->0 == PropertyQuery {
            window,
            property: cache.view()[wm_class_name()],
            offset: 0,
            length: CLASS_HINT_LENGTH,
            delete: false,
            req_type: XA_STRING,
        }),
{
    proof {
        reveal_strlit("WM_CLASS");
    }
    assert("WM_CLASS"@ =~= wm_class_name());
    match cache.lookup("WM_CLASS") {
        Some(atom) => Some(
            PropertyQuery {
                window,
                property: atom,
                offset: 0,
                length: CLASS_HINT_LENGTH,
                delete: false,
                req_type: XA_STRING,
            },
        ),
        None => None,
    }
}

/// The index of the first NUL byte from `i` on, or the length.
pub open spec fn nul_end(d: Seq<u8>, i: int) -> int
    decreases d.len() - i,
{
    if i < 0 || i >= d.len() {
        d.len() as int
    } else if d[i] == 0 {
        i
    } else {
        nul_end(d, i + 1)
    }
}

/// At most the first 1024 bytes of property data.
pub open spec fn capped(d: Seq<u8>) -> Seq<u8> {
    if d.len() > CLASS_HINT_BYTES {
        d.take(CLASS_HINT_BYTES as int)
    } else {
        d
    }
}

/// The bytes before the first NUL, within the first 1024 bytes.
pub open spec fn first_segment(d: Seq<u8>) -> Seq<u8> {
    capped(d).take(nul_end(capped(d), 0))
}

/// The class hint that property data holds: the text of its first
/// NUL-terminated segment within its first 1024 bytes, or `None` when that
/// segment is empty or not UTF-8.
pub open spec fn class_hint_of(d: Seq<u8>) -> Option<Seq<char>> {
    let seg = first_segment(d);
    if seg.len() > 0 && valid_utf8(seg) {
        Some(decode_utf8(seg))
    } else {
        None
    }
}

/// Relies on `String::from_utf8`: the text that the bytes encode, and an
/// error exactly when they are not valid UTF-8.
#[verifier::external_body]
fn utf8_text(bytes: Vec<u8>) -> (r: Option<String>)
    ensures
        r is Some <==> valid_utf8(bytes@),
        r is Some ==> r->0@ == decode_utf8(bytes@),
{
    String::from_utf8(bytes).ok()
}

/// UTF-8 takes at least one byte per character.
proof fn lemma_decoded_len(b: Seq<u8>)
    requires
        valid_utf8(b),
    ensures
        decode_utf8(b).len() <= b.len(),
    decreases b.len(),
{
    if b.len() > 0 {
        assert(length_of_first_scalar(b) >= 1);
        assert(pop_first_scalar(b).len() == b.len() - length_of_first_scalar(b));
        lemma_decoded_len(pop_first_scalar(b));
    }
}

/// Decodes class-hint property data: the instance name, which is the first
/// NUL-terminated segment; only the first 1024 bytes are read, so a hint
/// holds at most 1024 characters, none of them NUL.
pub fn decode_class_hint(data: &Vec<u8>) -> (r: Option<String>)
    ensures
        opt_view(r) == class_hint_of(data@),
        r is Some ==> r->0@.len() <= CLASS_HINT_BYTES,
{
    let limit: usize = if data.len() > CLASS_HINT_BYTES {
        CLASS_HINT_BYTES
    } else {
        data.len()
    };
    let ghost c = capped(data@);
    assert(c =~= data@.take(limit as int));
    let mut end: usize = 0;
    while end < limit && data[end] != 0
        invariant
            limit <= data@.len(),
            c == data@.take(limit as int),
            end <= limit,
            nul_end(c, 0) == nul_end(c, end as int),
        decreases limit - end,
    {
        end = end + 1;
    }
    if end == 0 {
        return None;
    }
    let mut seg: Vec<u8> = Vec::new();
    let mut i: usize = 0;
    while i < end
        invariant
            end <= limit <= data@.len(),
            i <= end,
            seg@ == data@.take(i as int),
        decreases end - i,
    {
        seg.push(data[i]);
        i = i + 1;
        assert(seg@ =~= data@.take(i as int));
    }
    assert(seg@ =~= first_segment(data@));
    let r = utf8_text(seg);
    proof {
        if r is Some {
            lemma_decoded_len(first_segment(data@));
        }
    }
    r
}

/// A UTF-8 text property to set on a window's surface, for hints that some
/// window managers read. Neither the name nor the value holds a NUL.
pub struct TextProperty {
    pub name: String,
    pub value: String,
}

/// Whether the text holds no NUL character.
pub open spec fn nul_free(s: Seq<char>) -> bool {
    forall|i: int| 0 <= i < s.len() ==> s[i] != '\0'
}

fn has_no_nul(s: &str) -> (r: bool)
    ensures
        r == nul_free(s@),
{
    let chars = chars_of(s);
    let mut i: usize = 0;
    while i < chars.len()
        invariant
            chars@ == s@,
            i <= chars@.len(),
            forall|j: int| 0 <= j < i ==> chars@[j] != '\0',
        decreases chars@.len() - i,
    {
        if chars[i] == '\0' {
            return false;
        }
        i = i + 1;
    }
    true
}

/// The text property `name` = `value`, refused when either holds a NUL.
pub fn text_property(name: &str, value: &str) -> (r: Option<TextProperty>)
    ensures
        r is Some <==> (nul_free(name@) && nul_free(value@)),
        r is Some ==> r->0.name@ == name@ && r->0.value@ == value@,
{
    if has_no_nul(name) && has_no_nul(value) {
        Some(TextProperty { name: name.to_owned(), value: value.to_owned() })
    } else {
        None
    }
}

} // verus!
