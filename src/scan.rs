//! Enumeration of the top-level windows: each child of the root window is
//! reported with its class hint, or with none; no window is dropped.
use vstd::prelude::*;
use crate::icons::opt_view;
use crate::protocol::{class_hint_of, decode_class_hint};

verus! {

/// One enumerated window and its class hint, if it has a decodable one.
pub struct ScanEntry {
    pub window: u64,
    pub class_hint: Option<String>,
}

/// The class hint of a window whose property read gave `d` (`None` when the
/// read failed or the property is absent).
pub open spec fn hint_of(d: Option<Vec<u8>>) -> Option<Seq<char>> {
    match d {
        Some(b) => class_hint_of(b@),
        None => None,
    }
}

/// What the scan reports: each child with the class hint of its data.
pub open spec fn scan_view(children: Seq<u64>, data: Seq<Option<Vec<u8>>>) -> Seq<(u64, Option<Seq<char>>)> {
    Seq::new(children.len(), |i: int| (children[i], hint_of(data[i])))
}

/// How many reported windows carry no class hint.
pub open spec fn unnamed_count(s: Seq<(u64, Option<Seq<char>>)>) -> nat
    decreases s.len(),
{
    if s.len() == 0 {
        0
    } else {
        unnamed_count(s.drop_last()) + if s.last().1 is None {
            1nat
        } else {
            0nat
        }
    }
}

/// How many property reads hold a decodable class hint.
pub open spec fn hinted_count(d: Seq<Option<Vec<u8>>>) -> nat
    decreases d.len(),
{
    if d.len() == 0 {
        0
    } else {
        hinted_count(d.drop_last()) + if hint_of(d.last()) is Some {
            1nat
        } else {
            0nat
        }
    }
}

/// Reports every child of the root window, in order, with the class hint
/// decoded from its property read.
pub fn scan_windows(children: &Vec<u64>, hint_data: &Vec<Option<Vec<u8>>>) -> (r: Vec<ScanEntry>)
    requires
        children@.len() == hint_data@.len(),
    ensures
        r@.len() == children@.len(),
        forall|i: int|
            0 <= i < r@.len() ==> (#[trigger] r@[i]).window == children@[i] && opt_view(r@[i].class_hint)
                == scan_view(children@, hint_data@)[i].1,
{
    let mut out: Vec<ScanEntry> = Vec::new();
    let mut i: usize = 0;
    while i < children.len()
        invariant
            children@.len() == hint_data@.len(),
            i <= children@.len(),
            out@.len() == i,
            forall|j: int|
                0 <= j < i ==> (#[trigger] out@[j]).window == children@[j] && opt_view(out@[j].class_hint)
                    == hint_of(hint_data@[j]),
        decreases children@.len() - i,
    {
        let class_hint = match &hint_data[i] {
            Some(d) => decode_class_hint(d),
            None => None,
        };
        out.push(ScanEntry { window: children[i], class_hint });
        i = i + 1;
    }
    out
}

/// A scan never drops a window: it reports exactly one entry per child, and
/// the entries without a class hint are the children whose data held none.
pub proof fn lemma_scan_keeps_all(children: Seq<u64>, data: Seq<Option<Vec<u8>>>)
    requires
        children.len() == data.len(),
    ensures
        scan_view(children, data).len() == children.len(),
        unnamed_count(scan_view(children, data)) + hinted_count(data) == children.len(),
    decreases children.len(),
{
    if children.len() > 0 {
        let c = children.drop_last();
        let d = data.drop_last();
        lemma_scan_keeps_all(c, d);
        assert(scan_view(children, data).drop_last() =~= scan_view(c, d));
    }
}

} // verus!
