//! The total order on listing entries: every directory precedes every file,
//! and within one variant entries are ordered by name, compared code point by
//! code point (which, for valid text, coincides with byte-wise comparison of
//! the UTF-8 encodings).

use crate::explorer::{EntryModel, ExplorerEntry};
use vstd::prelude::*;
use vstd::string::StrSliceExecFns;

verus! {

/// The sort rank of an entry: directories before files.
pub open spec fn rank_of(e: EntryModel) -> int {
    match e {
        EntryModel::Directory { .. } => 0,
        EntryModel::File { .. } => 1,
    }
}

/// The name an entry is ordered by within its rank.
pub open spec fn name_of(e: EntryModel) -> Seq<char> {
    match e {
        EntryModel::Directory { name, .. } => name,
        EntryModel::File { name, .. } => name,
    }
}

/// Lexicographic order on character sequences, by code point.
pub open spec fn chars_le(a: Seq<char>, b: Seq<char>) -> bool
    decreases a.len(),
{
    if a.len() == 0 {
        true
    } else if b.len() == 0 {
        false
    } else if (a[0] as u32) < (b[0] as u32) {
        true
    } else if (b[0] as u32) < (a[0] as u32) {
        false
    } else {
        chars_le(a.skip(1), b.skip(1))
    }
}

/// The total order on entries: first by rank, then by name.
pub open spec fn entry_le(a: EntryModel, b: EntryModel) -> bool {
    rank_of(a) < rank_of(b) || (rank_of(a) == rank_of(b) && chars_le(name_of(a), name_of(b)))
}

/// The name order relates every pair of sequences, one way or the other.
pub proof fn lemma_chars_le_total(a: Seq<char>, b: Seq<char>)
    ensures
        chars_le(a, b) || chars_le(b, a),
    decreases a.len(),
{
    if a.len() != 0 && b.len() != 0 && (a[0] as u32) == (b[0] as u32) {
        lemma_chars_le_total(a.skip(1), b.skip(1));
    }
}

/// The name order is transitive.
pub proof fn lemma_chars_le_trans(a: Seq<char>, b: Seq<char>, c: Seq<char>)
    requires
        chars_le(a, b),
        chars_le(b, c),
    ensures
        chars_le(a, c),
    decreases a.len(),
{
    if a.len() == 0 {
    } else {
        if (a[0] as u32) == (b[0] as u32) && (b[0] as u32) == (c[0] as u32) {
            lemma_chars_le_trans(a.skip(1), b.skip(1), c.skip(1));
        }
    }
}

/// The entry order relates every pair of entries, one way or the other.
pub proof fn lemma_entry_le_total(a: EntryModel, b: EntryModel)
    ensures
        entry_le(a, b) || entry_le(b, a),
{
    lemma_chars_le_total(name_of(a), name_of(b));
}

/// The entry order is transitive.
pub proof fn lemma_entry_le_trans(a: EntryModel, b: EntryModel, c: EntryModel)
    requires
        entry_le(a, b),
        entry_le(b, c),
    ensures
        entry_le(a, c),
{
    if rank_of(a) == rank_of(b) && rank_of(b) == rank_of(c) {
        lemma_chars_le_trans(name_of(a), name_of(b), name_of(c));
    }
}

/// Lexicographic comparison of two names.
fn names_le(a: &str, b: &str) -> (r: bool)
    ensures
        r == chars_le(a@, b@),
{
    let a_len = a.unicode_len();
    let b_len = b.unicode_len();
    let mut i: usize = 0;
    proof {
        assert(a@.skip(0) =~= a@);
        assert(b@.skip(0) =~= b@);
    }
    loop
        invariant
            i <= a_len,
            i <= b_len,
            a_len == a@.len(),
            b_len == b@.len(),
            chars_le(a@, b@) == chars_le(a@.skip(i as int), b@.skip(i as int)),
        decreases a_len - i,
    {
        proof {
            assert(a@.skip(i as int).len() == a@.len() - i);
            assert(b@.skip(i as int).len() == b@.len() - i);
        }
        if i == a_len {
            return true;
        }
        if i == b_len {
            return false;
        }
        let ca = a.get_char(i);
        let cb = b.get_char(i);
        proof {
            assert(a@.skip(i as int)[0] == a@[i as int]);
            assert(b@.skip(i as int)[0] == b@[i as int]);
            assert(a@.skip(i as int).skip(1) =~= a@.skip(i + 1));
            assert(b@.skip(i as int).skip(1) =~= b@.skip(i + 1));
        }
        if (ca as u32) < (cb as u32) {
            return true;
        }
        if (cb as u32) < (ca as u32) {
            return false;
        }
        i = i + 1;
    }
}

impl ExplorerEntry {
    /// Whether `self` precedes (or equals) `other` in the listing order.
    pub fn le(&self, other: &ExplorerEntry) -> (r: bool)
        ensures
            r == entry_le(self@, other@),
    {
        match (self, other) {
            (ExplorerEntry::Directory { name: na, .. }, ExplorerEntry::Directory {
                name: nb,
                ..
            }) => names_le(na.as_str(), nb.as_str()),
            (ExplorerEntry::File { name: na, .. }, ExplorerEntry::File { name: nb, .. }) => names_le(
                na.as_str(),
                nb.as_str(),
            ),
            (ExplorerEntry::Directory { .. }, ExplorerEntry::File { .. }) => true,
            (ExplorerEntry::File { .. }, ExplorerEntry::Directory { .. }) => false,
        }
    }
}

} // verus!
