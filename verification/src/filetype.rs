//! File-extension labels and the per-package file-type histogram.
//!
//! Every regular file is classified by the part of its name after the last
//! `'.'`, case-folded; a name without one, or whose only `'.'` begins the
//! name, falls under a sentinel label. The histogram counts files per label
//! in first-encountered order and is then sorted by count, descending and
//! stable.

use vstd::prelude::*;
use vstd::string::*;
use vstd::multiset::Multiset;
use crate::fstree::FsEntry;
use crate::fstree::entry_file_names;
use crate::fstree::entries_file_names;
use crate::fstree::entries_file_count;

verus! {

/// What `str::to_lowercase` returns on a given character sequence; the
/// result is a function of the characters alone.
pub uninterp spec fn lower_of(s: Seq<char>) -> Seq<char>;

/// Relies on `str::to_lowercase`: the returned string is the lowercase
/// mapping of the input, a function of the input characters alone, and an
/// empty input yields an empty result.
#[verifier::external_body]
fn to_lowercase(s: &str) -> (r: String)
    ensures
        r@ == lower_of(s@),
        s@.len() == 0 ==> r@.len() == 0,
{
    s.to_lowercase()
}

/// Index of the last `'.'` in `s`, or -1 when there is none.
pub open spec fn last_dot(s: Seq<char>) -> int
    decreases s,
{
    if s.len() == 0 {
        -1
    } else if s.last() == '.' {
        s.len() - 1
    } else {
        last_dot(s.drop_last())
    }
}

/// The extension of file name `s`: what follows the last `'.'`, or nothing
/// when the name has no `'.'`, or its only `'.'` begins the name.
pub open spec fn ext_of(s: Seq<char>) -> Option<Seq<char>> {
    let j = last_dot(s);
    if j <= 0 {
        None
    } else {
        Some(s.subrange(j + 1, s.len() as int))
    }
}

/// The label files without an extension are counted under.
pub open spec fn no_ext_label() -> Seq<char> {
    "(no extension)"@
}

/// The histogram label of file name `s`: its case-folded extension, or the
/// sentinel label.
pub open spec fn label_of(s: Seq<char>) -> Seq<char> {
    match ext_of(s) {
        Some(e) => lower_of(e),
        None => no_ext_label(),
    }
}

/// Classifies one file name, as `label_of` describes.
pub fn file_label(name: &str) -> (r: String)
    ensures
        r@ == label_of(name@),
{
    let n = name.unicode_len();
    let mut i: usize = 0;
    let mut dot: usize = 0;
    let mut has_dot = false;
    while i < n
        invariant
            n == name@.len(),
            i <= n,
            has_dot ==> dot < i && last_dot(name@.take(i as int)) == dot as int,
            !has_dot ==> last_dot(name@.take(i as int)) == -1,
        decreases n - i,
    {
        let c = name.get_char(i);
        proof {
            assert(name@.take(i + 1).drop_last() =~= name@.take(i as int));
            assert(name@.take(i + 1).last() == name@[i as int]);
        }
        if c == '.' {
            dot = i;
            has_dot = true;
        }
        i = i + 1;
    }
    proof {
        assert(name@.take(n as int) =~= name@);
    }
    if !has_dot || dot == 0 {
        String::from_str("(no extension)")
    } else {
        let e = name.substring_char(dot + 1, n);
        let r = to_lowercase(e);
        proof {
            assert(e@ =~= name@.subrange(dot + 1, name@.len() as int));
        }
        r
    }
}

/// The views of a sequence of strings.
pub open spec fn str_views(s: Seq<String>) -> Seq<Seq<char>> {
    s.map_values(|x: String| x@)
}

/// The views of labelled counts.
pub open spec fn pairs_view(s: Seq<(String, usize)>) -> Seq<(Seq<char>, int)> {
    s.map_values(|p: (String, usize)| (p.0@, p.1 as int))
}

/// The histogram labels of a sequence of file names.
pub open spec fn labels_of_names(names: Seq<Seq<char>>) -> Seq<Seq<char>> {
    names.map_values(|n: Seq<char>| label_of(n))
}

/// First index of label `l` in `h`, or -1 when it is absent.
pub open spec fn find_label(h: Seq<(Seq<char>, int)>, l: Seq<char>) -> int
    decreases h,
{
    if h.len() == 0 {
        -1
    } else if h[0].0 == l {
        0
    } else {
        let r = find_label(h.drop_first(), l);
        if r < 0 {
            -1
        } else {
            r + 1
        }
    }
}

/// `h` with one more occurrence of label `l` counted: the existing entry is
/// incremented, or a new entry appended.
pub open spec fn hist_bump(h: Seq<(Seq<char>, int)>, l: Seq<char>) -> Seq<(Seq<char>, int)> {
    let j = find_label(h, l);
    if j < 0 {
        h.push((l, 1))
    } else {
        h.update(j, (l, h[j].1 + 1))
    }
}

/// The histogram of `labels`, counted left to right, keyed by first
/// appearance.
pub open spec fn hist_of(labels: Seq<Seq<char>>) -> Seq<(Seq<char>, int)>
    decreases labels,
{
    if labels.len() == 0 {
        Seq::empty()
    } else {
        hist_bump(hist_of(labels.drop_last()), labels.last())
    }
}

/// Sum of the counts of `h`.
pub open spec fn hist_total(h: Seq<(Seq<char>, int)>) -> int
    decreases h,
{
    if h.len() == 0 {
        0
    } else {
        h[0].1 + hist_total(h.drop_first())
    }
}

proof fn lemma_find_label_range(h: Seq<(Seq<char>, int)>, l: Seq<char>)
    ensures
        find_label(h, l) < h.len(),
        find_label(h, l) >= 0 ==> h[find_label(h, l)].0 == l,
    decreases h,
{
    if h.len() > 0 && h[0].0 != l {
        lemma_find_label_range(h.drop_first(), l);
    }
}

proof fn lemma_find_label_at(h: Seq<(Seq<char>, int)>, l: Seq<char>, j: int)
    requires
        0 <= j < h.len(),
        h[j].0 == l,
        forall|k: int| 0 <= k < j ==> h[k].0 != l,
    ensures
        find_label(h, l) == j,
    decreases j,
{
    if j > 0 {
        assert(h.drop_first()[j - 1] == h[j]);
        assert(forall|k: int| 0 <= k < j - 1 ==> h.drop_first()[k] == h[k + 1]);
        lemma_find_label_at(h.drop_first(), l, j - 1);
    }
}

proof fn lemma_find_label_none(h: Seq<(Seq<char>, int)>, l: Seq<char>)
    requires
        forall|k: int| 0 <= k < h.len() ==> h[k].0 != l,
    ensures
        find_label(h, l) == -1,
    decreases h,
{
    if h.len() > 0 {
        assert(forall|k: int| 0 <= k < h.drop_first().len() ==> h.drop_first()[k] == h[k + 1]);
        lemma_find_label_none(h.drop_first(), l);
    }
}

proof fn lemma_hist_total_push(h: Seq<(Seq<char>, int)>, p: (Seq<char>, int))
    ensures
        hist_total(h.push(p)) == hist_total(h) + p.1,
    decreases h,
{
    if h.len() == 0 {
        assert(h.push(p).drop_first() =~= h);
    } else {
        assert(h.push(p)[0] == h[0]);
        assert(h.push(p).drop_first() =~= h.drop_first().push(p));
        lemma_hist_total_push(h.drop_first(), p);
    }
}

proof fn lemma_hist_total_update(h: Seq<(Seq<char>, int)>, j: int, p: (Seq<char>, int))
    requires
        0 <= j < h.len(),
    ensures
        hist_total(h.update(j, p)) == hist_total(h) + p.1 - h[j].1,
    decreases j,
{
    if j == 0 {
        assert(h.update(0, p)[0] == p);
        assert(h.update(0, p).drop_first() =~= h.drop_first());
    } else {
        assert(h.update(j, p)[0] == h[0]);
        assert(h.update(j, p).drop_first() =~= h.drop_first().update(j - 1, p));
        assert(h.drop_first()[j - 1] == h[j]);
        lemma_hist_total_update(h.drop_first(), j - 1, p);
    }
}

/// The histogram is a complete partition of the files counted: its counts
/// sum to exactly the number of labels it was built from.
pub proof fn lemma_hist_complete(labels: Seq<Seq<char>>)
    ensures
        hist_total(hist_of(labels)) == labels.len(),
    decreases labels,
{
    if labels.len() > 0 {
        lemma_hist_complete(labels.drop_last());
        let h = hist_of(labels.drop_last());
        let l = labels.last();
        let j = find_label(h, l);
        lemma_find_label_range(h, l);
        if j < 0 {
            lemma_hist_total_push(h, (l, 1));
        } else {
            lemma_hist_total_update(h, j, (l, h[j].1 + 1));
        }
    }
}

proof fn lemma_find_label_absent(h: Seq<(Seq<char>, int)>, l: Seq<char>)
    requires
        find_label(h, l) < 0,
    ensures
        forall|k: int| 0 <= k < h.len() ==> #[trigger] h[k].0 != l,
    decreases h,
{
    if h.len() > 0 {
        assert(h[0].0 != l);
        assert(find_label(h.drop_first(), l) < 0);
        lemma_find_label_absent(h.drop_first(), l);
        assert(forall|k: int| 1 <= k < h.len() ==> #[trigger] h[k] == h.drop_first()[k - 1]);
    }
}

/// No label appears twice in `h`.
pub open spec fn labels_distinct(h: Seq<(Seq<char>, int)>) -> bool {
    forall|i: int, j: int| 0 <= i < j < h.len() ==> #[trigger] h[i].0 != #[trigger] h[j].0
}

/// Each extension label has exactly one row in the histogram: with
/// `lemma_hist_complete`, the histogram is a partition of the counted files
/// by label.
pub proof fn lemma_hist_labels_distinct(labels: Seq<Seq<char>>)
    ensures
        labels_distinct(hist_of(labels)),
    decreases labels,
{
    if labels.len() > 0 {
        lemma_hist_labels_distinct(labels.drop_last());
        let h = hist_of(labels.drop_last());
        let l = labels.last();
        let j = find_label(h, l);
        lemma_find_label_range(h, l);
        let r = hist_of(labels);
        if j < 0 {
            lemma_find_label_absent(h, l);
            assert(r == h.push((l, 1)));
            assert forall|a: int, b: int| 0 <= a < b < r.len() implies #[trigger] r[a].0
                != #[trigger] r[b].0 by {
                if b == h.len() {
                    assert(r[a].0 == h[a].0 && r[b].0 == l);
                } else {
                    assert(r[a].0 == h[a].0 && r[b].0 == h[b].0);
                }
            }
        } else {
            assert(r == h.update(j, (l, h[j].1 + 1)));
            assert(forall|k: int| 0 <= k < r.len() ==> #[trigger] r[k].0 == h[k].0);
        }
    }
}

proof fn lemma_hist_counts_pos(labels: Seq<Seq<char>>)
    ensures
        forall|k: int|
            0 <= k < hist_of(labels).len() ==> #[trigger] hist_of(labels)[k].1 >= 1,
    decreases labels,
{
    if labels.len() > 0 {
        lemma_hist_counts_pos(labels.drop_last());
        let h = hist_of(labels.drop_last());
        let l = labels.last();
        lemma_find_label_range(h, l);
    }
}

proof fn lemma_count_le_total(h: Seq<(Seq<char>, int)>, j: int)
    requires
        0 <= j < h.len(),
        forall|k: int| 0 <= k < h.len() ==> #[trigger] h[k].1 >= 1,
    ensures
        h[j].1 <= hist_total(h),
    decreases j,
{
    if j == 0 {
        lemma_hist_total_nonneg(h.drop_first());
    } else {
        assert(h.drop_first()[j - 1] == h[j]);
        assert(forall|k: int|
            0 <= k < h.drop_first().len() ==> #[trigger] h.drop_first()[k].1 == h[k + 1].1);
        lemma_count_le_total(h.drop_first(), j - 1);
    }
}

proof fn lemma_hist_total_nonneg(h: Seq<(Seq<char>, int)>)
    requires
        forall|k: int| 0 <= k < h.len() ==> #[trigger] h[k].1 >= 1,
    ensures
        hist_total(h) >= 0,
    decreases h,
{
    if h.len() > 0 {
        assert(forall|k: int|
            0 <= k < h.drop_first().len() ==> #[trigger] h.drop_first()[k].1 == h[k + 1].1);
        lemma_hist_total_nonneg(h.drop_first());
    }
}

/// Counts the labels of `labels` in order of first appearance, as `hist_of`
/// describes.
pub fn build_histogram(labels: &Vec<String>) -> (h: Vec<(String, usize)>)
    ensures
        pairs_view(h@) == hist_of(str_views(labels@)),
{
    let mut h: Vec<(String, usize)> = Vec::new();
    let mut i: usize = 0;
    proof {
        assert(pairs_view(h@) =~= hist_of(str_views(labels@).take(0)));
    }
    while i < labels.len()
        invariant
            i <= labels@.len(),
            pairs_view(h@) == hist_of(str_views(labels@).take(i as int)),
        decreases labels@.len() - i,
    {
        let l: &String = &labels[i];
        let ghost pre = pairs_view(h@);
        let ghost lv = l@;
        let mut j: usize = 0;
        let mut found = false;
        while j < h.len() && !found
            invariant
                j <= h@.len(),
                pairs_view(h@) == pre,
                lv == l@,
                found ==> j < h@.len() && pre[j as int].0 == lv,
                forall|k: int| 0 <= k < j ==> #[trigger] pre[k].0 != lv,
            decreases h@.len() - j + (if found { 0int } else { 1int }),
        {
            proof {
                assert(pre[j as int].0 == h@[j as int].0@);
            }
            if h[j].0 == *l {
                found = true;
            } else {
                j = j + 1;
            }
        }
        proof {
            assert(str_views(labels@).take(i + 1).drop_last() =~= str_views(labels@).take(
                i as int,
            ));
            assert(str_views(labels@).take(i + 1).last() == lv);
        }
        if found {
            proof {
                assert(pairs_view(h@)[j as int].0 == h@[j as int].0@);
                lemma_find_label_at(pre, lv, j as int);
                lemma_hist_counts_pos(str_views(labels@).take(i as int));
                lemma_count_le_total(pre, j as int);
                lemma_hist_complete(str_views(labels@).take(i as int));
            }
            let c: usize = h[j].1;
            let name: String = h[j].0.clone();
            h.set(j, (name, c + 1));
            proof {
                assert(pairs_view(h@) =~= pre.update(j as int, (lv, c + 1)));
                assert(pairs_view(h@) =~= hist_bump(pre, lv));
            }
        } else {
            proof {
                lemma_find_label_none(pre, lv);
            }
            h.push((l.clone(), 1));
            proof {
                assert(pairs_view(h@) =~= pre.push((lv, 1)));
                assert(pairs_view(h@) =~= hist_bump(pre, lv));
            }
        }
        i = i + 1;
    }
    proof {
        assert(str_views(labels@).take(labels@.len() as int) =~= str_views(labels@));
    }
    h
}

/// How many of `labels` are exactly `l`.
pub open spec fn count_label(labels: Seq<Seq<char>>, l: Seq<char>) -> int
    decreases labels,
{
    if labels.len() == 0 {
        0
    } else {
        count_label(labels.drop_last(), l) + if labels.last() == l {
            1int
        } else {
            0int
        }
    }
}

/// The count `h` holds for label `l`: zero when the label is absent.
pub open spec fn hist_count(h: Seq<(Seq<char>, int)>, l: Seq<char>) -> int {
    let j = find_label(h, l);
    if j >= 0 {
        h[j].1
    } else {
        0
    }
}

proof fn lemma_find_label_push(h: Seq<(Seq<char>, int)>, p: (Seq<char>, int), l: Seq<char>)
    ensures
        find_label(h.push(p), l) == if find_label(h, l) >= 0 {
            find_label(h, l)
        } else if p.0 == l {
            h.len() as int
        } else {
            -1
        },
    decreases h,
{
    if h.len() == 0 {
        assert(h.push(p)[0] == p);
        assert(h.push(p).drop_first() =~= h);
    } else {
        assert(h.push(p)[0] == h[0]);
        assert(h.push(p).drop_first() =~= h.drop_first().push(p));
        lemma_find_label_push(h.drop_first(), p, l);
    }
}

proof fn lemma_find_label_same_labels(
    h1: Seq<(Seq<char>, int)>,
    h2: Seq<(Seq<char>, int)>,
    l: Seq<char>,
)
    requires
        h1.len() == h2.len(),
        forall|k: int| 0 <= k < h1.len() ==> #[trigger] h1[k].0 == h2[k].0,
    ensures
        find_label(h1, l) == find_label(h2, l),
    decreases h1,
{
    if h1.len() > 0 {
        assert(forall|k: int|
            0 <= k < h1.drop_first().len() ==> #[trigger] h1.drop_first()[k].0 == h1[k + 1].0
                && h2.drop_first()[k].0 == h2[k + 1].0);
        lemma_find_label_same_labels(h1.drop_first(), h2.drop_first(), l);
    }
}

/// The histogram counts exactly: its count for any label `l` is the number
/// of files whose label is `l`, and a label has a row exactly when some
/// file bears it.
pub proof fn lemma_hist_count_exact(labels: Seq<Seq<char>>, l: Seq<char>)
    ensures
        hist_count(hist_of(labels), l) == count_label(labels, l),
        find_label(hist_of(labels), l) >= 0 <==> count_label(labels, l) > 0,
    decreases labels,
{
    lemma_hist_counts_pos(labels);
    lemma_find_label_range(hist_of(labels), l);
    if labels.len() > 0 {
        lemma_hist_count_exact(labels.drop_last(), l);
        let h = hist_of(labels.drop_last());
        let x = labels.last();
        let r = hist_of(labels);
        lemma_find_label_range(h, x);
        lemma_find_label_range(h, l);
        let jx = find_label(h, x);
        if jx < 0 {
            assert(r == h.push((x, 1)));
            lemma_find_label_push(h, (x, 1), l);
            if find_label(h, l) >= 0 {
                assert(r[find_label(h, l)] == h[find_label(h, l)]);
            }
        } else {
            let p = (x, h[jx].1 + 1);
            assert(r == h.update(jx, p));
            assert(h[jx].0 == x);
            assert(forall|k: int| 0 <= k < h.len() ==> #[trigger] h[k].0 == r[k].0);
            lemma_find_label_same_labels(h, r, l);
            let jl = find_label(h, l);
            if jl >= 0 {
                if x == l {
                    lemma_find_label_range(h, l);
                    assert(jl == jx) by {
                        if jl != jx {
                            lemma_hist_labels_distinct(labels.drop_last());
                        }
                    }
                } else {
                    assert(jl != jx);
                    assert(r[jl] == h[jl]);
                }
            }
        }
    }
}

fn collect_entry_names(e: &FsEntry, out: &mut Vec<String>)
    ensures
        str_views(final(out)@) == str_views(old(out)@) + entry_file_names(*e),
    decreases *e,
{
    match e {
        FsEntry::File { name, .. } => {
            out.push(name.clone());
            proof {
                assert(str_views(out@) =~= str_views(old(out)@) + entry_file_names(*e));
            }
        },
        FsEntry::Dir { entries, .. } => {
            collect_dir_names(entries, out);
        },
    }
}

fn collect_dir_names(entries: &Vec<FsEntry>, out: &mut Vec<String>)
    ensures
        str_views(final(out)@) == str_views(old(out)@) + entries_file_names(entries@),
    decreases entries@,
{
    proof {
        assert(str_views(out@) =~= str_views(old(out)@) + entries_file_names(entries@.take(0)));
    }
    let mut i: usize = 0;
    while i < entries.len()
        invariant
            i <= entries@.len(),
            str_views(out@) == str_views(old(out)@) + entries_file_names(
                entries@.take(i as int),
            ),
        decreases entries@.len() - i,
    {
        collect_entry_names(&entries[i], out);
        proof {
            assert(entries@.take(i + 1) =~= entries@.take(i as int).push(entries@[i as int]));
            crate::fstree::lemma_entries_names_push(entries@.take(i as int), entries@[i as int]);
            assert(str_views(out@) =~= str_views(old(out)@) + entries_file_names(
                entries@.take(i + 1),
            ));
        }
        i = i + 1;
    }
    proof {
        assert(entries@.take(entries@.len() as int) =~= entries@);
    }
}

/// The names of the regular files under `entries`, in depth-first order.
pub fn collect_file_names(entries: &Vec<FsEntry>) -> (names: Vec<String>)
    ensures
        str_views(names@) == entries_file_names(entries@),
{
    let mut out: Vec<String> = Vec::new();
    collect_dir_names(entries, &mut out);
    proof {
        assert(str_views(out@) =~= entries_file_names(entries@));
    }
    out
}

/// Classifies each name of `names`, keeping the order.
pub fn labels_of(names: &Vec<String>) -> (ls: Vec<String>)
    ensures
        str_views(ls@) == labels_of_names(str_views(names@)),
{
    let mut ls: Vec<String> = Vec::new();
    proof {
        assert(str_views(ls@) =~= labels_of_names(str_views(names@).take(0)));
    }
    let mut i: usize = 0;
    while i < names.len()
        invariant
            i <= names@.len(),
            str_views(ls@) == labels_of_names(str_views(names@).take(i as int)),
        decreases names@.len() - i,
    {
        let l = file_label(names[i].as_str());
        let ghost prev = ls@;
        let ghost lval: String = l;
        ls.push(l);
        proof {
            let nsv = str_views(names@);
            assert(nsv[i as int] == names@[i as int]@);
            assert(lval@ == label_of(nsv[i as int]));
            assert(ls@ == prev.push(lval));
            assert(str_views(ls@) =~= str_views(prev).push(lval@));
            assert(nsv.take(i + 1) =~= nsv.take(i as int).push(nsv[i as int]));
            assert(labels_of_names(nsv.take(i as int).push(nsv[i as int])) =~= labels_of_names(
                nsv.take(i as int),
            ).push(label_of(nsv[i as int])));
            assert(str_views(ls@) =~= labels_of_names(nsv.take(i + 1)));
        }
        i = i + 1;
    }
    proof {
        assert(str_views(names@).take(names@.len() as int) =~= str_views(names@));
    }
    ls
}

/// `x` placed among `s` behind every entry counting at least as much: one
/// step of the stable descending sort.
pub open spec fn insert_count_desc(s: Seq<(Seq<char>, int)>, x: (Seq<char>, int)) -> Seq<
    (Seq<char>, int),
>
    decreases s,
{
    if s.len() == 0 {
        seq![x]
    } else if s[0].1 >= x.1 {
        seq![s[0]] + insert_count_desc(s.drop_first(), x)
    } else {
        seq![x] + s
    }
}

/// `s` sorted by count, descending; entries with equal counts keep their
/// order.
pub open spec fn sort_count_desc(s: Seq<(Seq<char>, int)>) -> Seq<(Seq<char>, int)>
    decreases s,
{
    if s.len() == 0 {
        Seq::empty()
    } else {
        insert_count_desc(sort_count_desc(s.drop_last()), s.last())
    }
}

/// Counts are weakly decreasing along `s`.
pub open spec fn counts_sorted_desc(s: Seq<(Seq<char>, int)>) -> bool {
    forall|i: int, j: int| 0 <= i <= j < s.len() ==> #[trigger] s[i].1 >= #[trigger] s[j].1
}

proof fn lemma_insert_count_desc_split(s: Seq<(Seq<char>, int)>, x: (Seq<char>, int), j: int)
    requires
        0 <= j <= s.len(),
        forall|k: int| 0 <= k < j ==> #[trigger] s[k].1 >= x.1,
        j < s.len() ==> s[j].1 < x.1,
    ensures
        insert_count_desc(s, x) == s.take(j) + seq![x] + s.skip(j),
    decreases j,
{
    if j == 0 {
        if s.len() == 0 {
            assert(insert_count_desc(s, x) =~= s.take(0) + seq![x] + s.skip(0));
        } else {
            assert(insert_count_desc(s, x) =~= s.take(0) + seq![x] + s.skip(0));
        }
    } else {
        assert(s[0].1 >= x.1);
        assert(forall|k: int|
            0 <= k < j - 1 ==> #[trigger] s.drop_first()[k].1 == s[k + 1].1 && s[k + 1].1 >= x.1);
        assert(j - 1 < s.drop_first().len() ==> s.drop_first()[j - 1].1 < x.1);
        lemma_insert_count_desc_split(s.drop_first(), x, j - 1);
        assert(insert_count_desc(s, x) =~= s.take(j) + seq![x] + s.skip(j));
    }
}

proof fn lemma_insert_count_desc_elems(s: Seq<(Seq<char>, int)>, x: (Seq<char>, int))
    ensures
        insert_count_desc(s, x).len() == s.len() + 1,
        forall|k: int|
            0 <= k < insert_count_desc(s, x).len() ==> (#[trigger] insert_count_desc(s, x)[k]
                == x || s.contains(insert_count_desc(s, x)[k])),
    decreases s,
{
    if s.len() == 0 {
    } else if s[0].1 >= x.1 {
        lemma_insert_count_desc_elems(s.drop_first(), x);
        let r = insert_count_desc(s, x);
        let inner = insert_count_desc(s.drop_first(), x);
        assert forall|k: int| 0 <= k < r.len() implies (#[trigger] r[k] == x || s.contains(
            r[k],
        )) by {
            if k == 0 {
                assert(s.contains(s[0]));
            } else {
                assert(r[k] == inner[k - 1]);
                if inner[k - 1] == x {
                } else {
                    let m = choose|m: int|
                        0 <= m < s.drop_first().len() && s.drop_first()[m] == inner[k - 1];
                    assert(s[m + 1] == inner[k - 1]);
                }
            }
        }
    } else {
        let r = insert_count_desc(s, x);
        assert forall|k: int| 0 <= k < r.len() implies (#[trigger] r[k] == x || s.contains(
            r[k],
        )) by {
            if k > 0 {
                assert(r[k] == s[k - 1]);
            }
        }
    }
}

proof fn lemma_insert_count_desc_sorted(s: Seq<(Seq<char>, int)>, x: (Seq<char>, int))
    requires
        counts_sorted_desc(s),
    ensures
        counts_sorted_desc(insert_count_desc(s, x)),
    decreases s,
{
    lemma_insert_count_desc_elems(s, x);
    if s.len() == 0 {
    } else if s[0].1 >= x.1 {
        assert(forall|i: int, j: int|
            0 <= i <= j < s.drop_first().len() ==> #[trigger] s.drop_first()[i].1
                >= #[trigger] s.drop_first()[j].1);
        lemma_insert_count_desc_sorted(s.drop_first(), x);
        lemma_insert_count_desc_elems(s.drop_first(), x);
        let r = insert_count_desc(s, x);
        let inner = insert_count_desc(s.drop_first(), x);
        assert forall|i: int, j: int| 0 <= i <= j < r.len() implies #[trigger] r[i].1
            >= #[trigger] r[j].1 by {
            if i == 0 && j > 0 {
                assert(r[j] == inner[j - 1]);
                if inner[j - 1] == x {
                } else {
                    let m = choose|m: int|
                        0 <= m < s.drop_first().len() && s.drop_first()[m] == inner[j - 1];
                    assert(s[0].1 >= s[m + 1].1);
                }
            } else if i > 0 {
                assert(r[i] == inner[i - 1] && r[j] == inner[j - 1]);
            }
        }
    } else {
        let r = insert_count_desc(s, x);
        assert forall|i: int, j: int| 0 <= i <= j < r.len() implies #[trigger] r[i].1
            >= #[trigger] r[j].1 by {
            if i == 0 && j > 0 {
                assert(r[j] == s[j - 1]);
                assert(x.1 > s[0].1);
                assert(s[0].1 >= s[j - 1].1);
            } else if i > 0 {
                assert(r[i] == s[i - 1] && r[j] == s[j - 1]);
            }
        }
    }
}

/// The sorted histogram is descending by count.
pub proof fn lemma_sort_count_desc_sorted(s: Seq<(Seq<char>, int)>)
    ensures
        counts_sorted_desc(sort_count_desc(s)),
    decreases s,
{
    if s.len() > 0 {
        lemma_sort_count_desc_sorted(s.drop_last());
        lemma_insert_count_desc_sorted(sort_count_desc(s.drop_last()), s.last());
    }
}

proof fn lemma_insert_count_desc_multiset(s: Seq<(Seq<char>, int)>, x: (Seq<char>, int))
    ensures
        insert_count_desc(s, x).to_multiset() =~= s.to_multiset().insert(x),
    decreases s,
{
    broadcast use vstd::seq_lib::group_to_multiset_ensures;

    if s.len() == 0 {
        assert(insert_count_desc(s, x) =~= Seq::<(Seq<char>, int)>::empty().push(x));
    } else if s[0].1 >= x.1 {
        lemma_insert_count_desc_multiset(s.drop_first(), x);
        vstd::seq_lib::lemma_multiset_commutative(
            seq![s[0]],
            insert_count_desc(s.drop_first(), x),
        );
        vstd::seq_lib::lemma_multiset_commutative(seq![s[0]], s.drop_first());
        assert(seq![s[0]] + s.drop_first() =~= s);
        assert(seq![s[0]].to_multiset() =~= Multiset::<(Seq<char>, int)>::empty().insert(s[0]))
            by {
            assert(seq![s[0]] =~= Seq::<(Seq<char>, int)>::empty().push(s[0]));
        }
    } else {
        vstd::seq_lib::lemma_multiset_commutative(seq![x], s);
        assert(seq![x].to_multiset() =~= Multiset::<(Seq<char>, int)>::empty().insert(x)) by {
            assert(seq![x] =~= Seq::<(Seq<char>, int)>::empty().push(x));
        }
    }
}

/// Sorting the histogram only reorders it: the counted entries are kept.
pub proof fn lemma_sort_count_desc_permutes(s: Seq<(Seq<char>, int)>)
    ensures
        sort_count_desc(s).to_multiset() =~= s.to_multiset(),
    decreases s,
{
    broadcast use vstd::seq_lib::group_to_multiset_ensures;

    if s.len() > 0 {
        lemma_sort_count_desc_permutes(s.drop_last());
        lemma_insert_count_desc_multiset(sort_count_desc(s.drop_last()), s.last());
        assert(s.drop_last().push(s.last()) =~= s);
    }
}

fn insert_by_count(out: &mut Vec<(String, usize)>, p: (String, usize))
    ensures
        pairs_view(final(out)@) == insert_count_desc(pairs_view(old(out)@), (p.0@, p.1 as int)),
{
    let ghost pv = pairs_view(out@);
    let ghost x: (Seq<char>, int) = (p.0@, p.1 as int);
    let mut j: usize = 0;
    while j < out.len() && out[j].1 >= p.1
        invariant
            j <= out@.len(),
            pairs_view(out@) == pv,
            x == (p.0@, p.1 as int),
            forall|k: int| 0 <= k < j ==> #[trigger] pv[k].1 >= x.1,
        decreases out@.len() - j,
    {
        proof {
            assert(pv[j as int].1 == out@[j as int].1 as int);
        }
        j = j + 1;
    }
    proof {
        if j < out@.len() {
            assert(pv[j as int].1 == out@[j as int].1 as int);
        }
    }
    out.insert(j, p);
    proof {
        lemma_insert_count_desc_split(pv, x, j as int);
        assert(pairs_view(out@) =~= pv.take(j as int) + seq![x] + pv.skip(j as int));
    }
}

/// Sorts labelled counts by count, descending and stable, as
/// `sort_count_desc` describes.
pub fn sort_by_count(h: &Vec<(String, usize)>) -> (r: Vec<(String, usize)>)
    ensures
        pairs_view(r@) == sort_count_desc(pairs_view(h@)),
{
    let mut out: Vec<(String, usize)> = Vec::new();
    proof {
        assert(pairs_view(out@) =~= sort_count_desc(pairs_view(h@).take(0)));
    }
    let mut i: usize = 0;
    while i < h.len()
        invariant
            i <= h@.len(),
            pairs_view(out@) == sort_count_desc(pairs_view(h@).take(i as int)),
        decreases h@.len() - i,
    {
        let p: (String, usize) = (h[i].0.clone(), h[i].1);
        insert_by_count(&mut out, p);
        proof {
            assert(pairs_view(h@).take(i + 1).drop_last() =~= pairs_view(h@).take(i as int));
            assert(pairs_view(h@).take(i + 1).last() == (h@[i as int].0@, h@[i as int].1 as int));
        }
        i = i + 1;
    }
    proof {
        assert(pairs_view(h@).take(h@.len() as int) =~= pairs_view(h@));
    }
    out
}

/// The file-type table of a package subtree: the histogram of the files'
/// labels, sorted by count, descending and stable.
pub open spec fn spec_file_types(s: Seq<FsEntry>) -> Seq<(Seq<char>, int)> {
    sort_count_desc(hist_of(labels_of_names(entries_file_names(s))))
}

proof fn lemma_hist_total_remove(h: Seq<(Seq<char>, int)>, i: int)
    requires
        0 <= i < h.len(),
    ensures
        hist_total(h) == h[i].1 + hist_total(h.remove(i)),
    decreases i,
{
    if i == 0 {
        assert(h.remove(0) =~= h.drop_first());
    } else {
        lemma_hist_total_remove(h.drop_first(), i - 1);
        assert(h.remove(i).drop_first() =~= h.drop_first().remove(i - 1));
        assert(h.remove(i)[0] == h[0]);
        assert(h.drop_first()[i - 1] == h[i]);
    }
}

proof fn lemma_hist_total_permutation(s1: Seq<(Seq<char>, int)>, s2: Seq<(Seq<char>, int)>)
    requires
        s1.to_multiset() == s2.to_multiset(),
    ensures
        hist_total(s1) == hist_total(s2),
    decreases s1.len(),
{
    broadcast use vstd::seq_lib::group_to_multiset_ensures;

    if s1.len() == 0 {
        assert(s2.to_multiset().len() == 0);
        assert(s2.len() == 0);
    } else {
        let x = s1[0];
        assert(s1.contains(x));
        assert(s2.to_multiset().count(x) > 0);
        assert(s2.contains(x));
        let j = choose|j: int| 0 <= j < s2.len() && s2[j] == x;
        assert(s1.remove(0).to_multiset() =~= s1.to_multiset().remove(x));
        assert(s2.remove(j).to_multiset() =~= s2.to_multiset().remove(x));
        assert(s1.remove(0) =~= s1.drop_first());
        lemma_hist_total_permutation(s1.drop_first(), s2.remove(j));
        lemma_hist_total_remove(s2, j);
    }
}

/// The file-type table of a subtree is a complete partition of its regular
/// files: sorting only reorders the histogram, so the counts still sum to
/// exactly the file count.
pub proof fn lemma_file_types_complete(s: Seq<FsEntry>)
    ensures
        hist_total(spec_file_types(s)) == entries_file_count(s),
{
    let names = entries_file_names(s);
    let labels = labels_of_names(names);
    assert(labels.len() == names.len());
    lemma_hist_complete(labels);
    lemma_sort_count_desc_permutes(hist_of(labels));
    lemma_hist_total_permutation(sort_count_desc(hist_of(labels)), hist_of(labels));
}

/// Builds the file-type table of a package subtree, as `spec_file_types`
/// describes.
pub fn file_types_of(entries: &Vec<FsEntry>) -> (r: Vec<(String, usize)>)
    ensures
        pairs_view(r@) == spec_file_types(entries@),
{
    let names = collect_file_names(entries);
    let ls = labels_of(&names);
    let h = build_histogram(&ls);
    sort_by_count(&h)
}

} // verus!
