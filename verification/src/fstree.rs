//! In-memory model of a directory subtree.
//!
//! The scanner works on a mirrored tree of regular files and directories:
//! each file carries its apparent size in bytes, each directory its entries
//! in directory order. Aggregation over the tree — total size and the list
//! of file names, in depth-first order — is defined here, together with the
//! law that the total size does not depend on the order entries are visited
//! in.

use vstd::prelude::*;

verus! {

/// One entry of a mirrored directory subtree: a regular file with its
/// apparent size, or a directory with its entries in directory order.
/// Only regular files and directories are modelled; other kinds of entry
/// do not contribute to any aggregate.
pub enum FsEntry {
    File { name: String, size: u64 },
    Dir { name: String, entries: Vec<FsEntry> },
}

/// Total bytes of the regular files in the subtree rooted at `e`.
pub open spec fn entry_size(e: FsEntry) -> nat
    decreases e,
{
    match e {
        FsEntry::File { size, .. } => size as nat,
        FsEntry::Dir { entries, .. } => entries_size(entries@),
    }
}

/// Total bytes of the regular files under all entries of `s`.
pub open spec fn entries_size(s: Seq<FsEntry>) -> nat
    decreases s,
{
    if s.len() == 0 {
        0
    } else {
        entry_size(s[0]) + entries_size(s.drop_first())
    }
}

/// The names of the regular files in the subtree rooted at `e`, in
/// depth-first order.
pub open spec fn entry_file_names(e: FsEntry) -> Seq<Seq<char>>
    decreases e,
{
    match e {
        FsEntry::File { name, .. } => seq![name@],
        FsEntry::Dir { entries, .. } => entries_file_names(entries@),
    }
}

/// The names of the regular files under all entries of `s`, in depth-first
/// order.
pub open spec fn entries_file_names(s: Seq<FsEntry>) -> Seq<Seq<char>>
    decreases s,
{
    if s.len() == 0 {
        Seq::empty()
    } else {
        entry_file_names(s[0]) + entries_file_names(s.drop_first())
    }
}

/// Count of regular files under all entries of `s`.
pub open spec fn entries_file_count(s: Seq<FsEntry>) -> nat {
    entries_file_names(s).len()
}

/// `n` held below the largest `u64` value.
pub open spec fn clamp_u64(n: nat) -> nat {
    if n <= u64::MAX {
        n
    } else {
        u64::MAX as nat
    }
}

/// Sum of `a` and `b`, stopping at the largest `u64` value.
pub fn sat_add_u64(a: u64, b: u64) -> (r: u64)
    ensures
        r == clamp_u64((a + b) as nat),
{
    if a <= u64::MAX - b {
        a + b
    } else {
        u64::MAX
    }
}

proof fn lemma_entries_size_push(s: Seq<FsEntry>, e: FsEntry)
    ensures
        entries_size(s.push(e)) == entries_size(s) + entry_size(e),
    decreases s,
{
    if s.len() == 0 {
        assert(entries_size(s) == 0);
        assert(s.push(e)[0] == e);
        assert(s.push(e).drop_first() =~= s);
        assert(entries_size(s.push(e)) == entry_size(e) + entries_size(s.push(e).drop_first()));
    } else {
        assert(s.push(e)[0] == s[0]);
        assert(s.push(e).len() > 0);
        assert(s.push(e).drop_first() =~= s.drop_first().push(e));
        lemma_entries_size_push(s.drop_first(), e);
        assert(entries_size(s.push(e)) == entry_size(s[0]) + entries_size(
            s.drop_first().push(e),
        ));
    }
}

pub(crate) proof fn lemma_entries_names_push(s: Seq<FsEntry>, e: FsEntry)
    ensures
        entries_file_names(s.push(e)) == entries_file_names(s) + entry_file_names(e),
    decreases s,
{
    if s.len() == 0 {
        assert(entries_file_names(s) =~= Seq::<Seq<char>>::empty());
        assert(s.push(e)[0] == e);
        assert(s.push(e).drop_first() =~= s);
        assert(entries_file_names(s.push(e)) =~= entry_file_names(e) + entries_file_names(s));
        assert(entries_file_names(s.push(e)) =~= entries_file_names(s) + entry_file_names(e));
    } else {
        assert(s.push(e)[0] == s[0]);
        assert(s.push(e).drop_first() =~= s.drop_first().push(e));
        lemma_entries_names_push(s.drop_first(), e);
        assert(entries_file_names(s.push(e)) =~= entries_file_names(s) + entry_file_names(e));
    }
}

fn entry_dir_size(e: &FsEntry) -> (r: u64)
    ensures
        r == clamp_u64(entry_size(*e)),
    decreases *e,
{
    match e {
        FsEntry::File { size, .. } => *size,
        FsEntry::Dir { entries, .. } => get_dir_size(entries),
    }
}

/// Total bytes of the regular files under `entries`, recursing into
/// subdirectories; the sum stops at the largest `u64` value where the tree
/// holds more than that.
pub fn get_dir_size(entries: &Vec<FsEntry>) -> (r: u64)
    ensures
        r == clamp_u64(entries_size(entries@)),
    decreases entries@,
{
    let mut total: u64 = 0;
    let mut i: usize = 0;
    while i < entries.len()
        invariant
            i <= entries@.len(),
            total == clamp_u64(entries_size(entries@.take(i as int))),
        decreases entries@.len() - i,
    {
        let s = entry_dir_size(&entries[i]);
        proof {
            assert(entries@.take(i + 1) =~= entries@.take(i as int).push(entries@[i as int]));
            lemma_entries_size_push(entries@.take(i as int), entries@[i as int]);
        }
        total = sat_add_u64(total, s);
        i += 1;
    }
    proof {
        assert(entries@.take(entries@.len() as int) =~= entries@);
    }
    total
}

proof fn lemma_entries_size_remove(s: Seq<FsEntry>, i: int)
    requires
        0 <= i < s.len(),
    ensures
        entries_size(s) == entry_size(s[i]) + entries_size(s.remove(i)),
    decreases i,
{
    if i == 0 {
        assert(s.remove(0) =~= s.drop_first());
    } else {
        lemma_entries_size_remove(s.drop_first(), i - 1);
        assert(s.remove(i).drop_first() =~= s.drop_first().remove(i - 1));
        assert(s.remove(i)[0] == s[0]);
        assert(s.drop_first()[i - 1] == s[i]);
    }
}

/// The total size of a collection of entries depends only on which entries
/// are there, not on the order a traversal visits them in.
pub proof fn lemma_entries_size_permutation(s1: Seq<FsEntry>, s2: Seq<FsEntry>)
    requires
        s1.to_multiset() == s2.to_multiset(),
    ensures
        entries_size(s1) == entries_size(s2),
    decreases s1.len(),
{
    broadcast use vstd::seq_lib::group_to_multiset_ensures;

    if s1.len() == 0 {
        assert(s2.to_multiset().len() == 0);
        assert(s2.len() == 0);
    } else {
        let x = s1[0];
        assert(s1.contains(x));
        assert(s1.to_multiset().count(x) > 0);
        assert(s2.to_multiset().count(x) > 0);
        assert(s2.contains(x));
        let j = choose|j: int| 0 <= j < s2.len() && s2[j] == x;
        assert(s1.remove(0).to_multiset() =~= s1.to_multiset().remove(x));
        assert(s2.remove(j).to_multiset() =~= s2.to_multiset().remove(x));
        assert(s1.remove(0) =~= s1.drop_first());
        lemma_entries_size_permutation(s1.drop_first(), s2.remove(j));
        lemma_entries_size_remove(s2, j);
    }
}

} // verus!
