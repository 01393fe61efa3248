//! Package records and the scan over a dependency directory.
//!
//! One record is built per package directory: its total size, file count,
//! file-type table and manifest metadata. The collection is then sorted by
//! total size, descending; packages of equal size keep the order they were
//! handed in, which is the order the directory was enumerated in.

use vstd::prelude::*;
use crate::fstree::FsEntry;
use crate::fstree::entries_size;
use crate::fstree::entries_file_count;
use crate::fstree::clamp_u64;
use crate::fstree::get_dir_size;
use crate::filetype::pairs_view;
use crate::filetype::str_views;
use crate::filetype::spec_file_types;
use crate::filetype::collect_file_names;
use crate::filetype::labels_of;
use crate::filetype::build_histogram;
use crate::filetype::sort_by_count;
use crate::manifest::PackageJson;
use crate::manifest::opt_str_view;
use crate::manifest::spec_dependency_count;
use crate::manifest::spec_repo_url;
use crate::manifest::clamp_usize;
use crate::manifest::clone_opt_string;
use crate::textfmt::spec_age_label;
use crate::textfmt::age_label;

verus! {

/// One row of the inspector: everything shown for a single package.
#[derive(Debug, Clone)]
pub struct ModuleInfo {
    pub name: String,
    pub size: u64,
    pub dependency_count: Option<usize>,
    pub last_updated: Option<String>,
    pub license: Option<String>,
    pub version: Option<String>,
    pub description: Option<String>,
    pub author: Option<String>,
    pub homepage: Option<String>,
    pub repository: Option<String>,
    pub files_count: Option<usize>,
    pub file_types: Option<Vec<(String, usize)>>,
    pub is_dev_dependency: bool,
}

/// The mathematical shadow of a `ModuleInfo`: strings as character
/// sequences, the file-type table as labelled counts.
#[verifier::ext_equal]
pub struct ModuleInfoV {
    pub name: Seq<char>,
    pub size: u64,
    pub dependency_count: Option<usize>,
    pub last_updated: Option<Seq<char>>,
    pub license: Option<Seq<char>>,
    pub version: Option<Seq<char>>,
    pub description: Option<Seq<char>>,
    pub author: Option<Seq<char>>,
    pub homepage: Option<Seq<char>>,
    pub repository: Option<Seq<char>>,
    pub files_count: Option<usize>,
    pub file_types: Option<Seq<(Seq<char>, int)>>,
    pub is_dev_dependency: bool,
}

impl View for ModuleInfo {
    type V = ModuleInfoV;

    open spec fn view(&self) -> ModuleInfoV {
        ModuleInfoV {
            name: self.name@,
            size: self.size,
            dependency_count: self.dependency_count,
            last_updated: opt_str_view(self.last_updated),
            license: opt_str_view(self.license),
            version: opt_str_view(self.version),
            description: opt_str_view(self.description),
            author: opt_str_view(self.author),
            homepage: opt_str_view(self.homepage),
            repository: opt_str_view(self.repository),
            files_count: self.files_count,
            file_types: match self.file_types {
                Some(v) => Some(pairs_view(v@)),
                None => None,
            },
            is_dev_dependency: self.is_dev_dependency,
        }
    }
}

/// The views of a sequence of records.
pub open spec fn infos_view(s: Seq<ModuleInfo>) -> Seq<ModuleInfoV> {
    s.map_values(|m: ModuleInfo| m@)
}

/// What one package directory hands the scanner: its base name, its mirrored
/// contents, its decoded manifest if one was present and well formed, and
/// the age of the directory itself in seconds, where known.
pub struct PackageDir {
    pub name: String,
    pub entries: Vec<FsEntry>,
    pub manifest: Option<PackageJson>,
    pub age_seconds: Option<u64>,
}

/// The record built for one package directory.
pub open spec fn module_info_of(p: PackageDir) -> ModuleInfoV {
    ModuleInfoV {
        name: p.name@,
        size: clamp_u64(entries_size(p.entries@)) as u64,
        dependency_count: match p.manifest {
            Some(m) => Some(clamp_usize(spec_dependency_count(m)) as usize),
            None => None,
        },
        last_updated: match p.age_seconds {
            Some(s) => Some(spec_age_label(s)),
            None => None,
        },
        license: match p.manifest {
            Some(m) => opt_str_view(m.license),
            None => None,
        },
        version: match p.manifest {
            Some(m) => opt_str_view(m.version),
            None => None,
        },
        description: match p.manifest {
            Some(m) => opt_str_view(m.description),
            None => None,
        },
        author: match p.manifest {
            Some(m) => opt_str_view(m.author),
            None => None,
        },
        homepage: match p.manifest {
            Some(m) => opt_str_view(m.homepage),
            None => None,
        },
        repository: match p.manifest {
            Some(m) => spec_repo_url(m),
            None => None,
        },
        files_count: Some(clamp_usize(entries_file_count(p.entries@)) as usize),
        file_types: Some(spec_file_types(p.entries@)),
        is_dev_dependency: false,
    }
}

/// Builds the record of one package directory, as `module_info_of`
/// describes.
pub fn build_module_info(p: &PackageDir) -> (m: ModuleInfo)
    ensures
        m@ == module_info_of(*p),
{
    let size = get_dir_size(&p.entries);
    let names = collect_file_names(&p.entries);
    let files_count: usize = names.len();
    proof {
        assert(str_views(names@).len() == names@.len());
        assert(files_count == clamp_usize(entries_file_count(p.entries@)));
    }
    let ls = labels_of(&names);
    let h = build_histogram(&ls);
    let file_types = sort_by_count(&h);
    let m = ModuleInfo {
        name: p.name.clone(),
        size,
        dependency_count: match &p.manifest {
            Some(mf) => Some(mf.dependency_count()),
            None => None,
        },
        last_updated: match p.age_seconds {
            Some(s) => Some(age_label(s)),
            None => None,
        },
        license: match &p.manifest {
            Some(mf) => clone_opt_string(&mf.license),
            None => None,
        },
        version: match &p.manifest {
            Some(mf) => clone_opt_string(&mf.version),
            None => None,
        },
        description: match &p.manifest {
            Some(mf) => clone_opt_string(&mf.description),
            None => None,
        },
        author: match &p.manifest {
            Some(mf) => clone_opt_string(&mf.author),
            None => None,
        },
        homepage: match &p.manifest {
            Some(mf) => clone_opt_string(&mf.homepage),
            None => None,
        },
        repository: match &p.manifest {
            Some(mf) => mf.repository_url(),
            None => None,
        },
        files_count: Some(files_count),
        file_types: Some(file_types),
        is_dev_dependency: false,
    };
    proof {
        assert(m@ =~= module_info_of(*p));
    }
    m
}

/// `x` placed among `s` behind every record at least as large: one step of
/// the stable descending sort.
pub open spec fn insert_size_desc(s: Seq<ModuleInfoV>, x: ModuleInfoV) -> Seq<ModuleInfoV>
    decreases s,
{
    if s.len() == 0 {
        seq![x]
    } else if s[0].size >= x.size {
        seq![s[0]] + insert_size_desc(s.drop_first(), x)
    } else {
        seq![x] + s
    }
}

/// `s` sorted by total size, descending; records of equal size keep their
/// order.
pub open spec fn sort_size_desc(s: Seq<ModuleInfoV>) -> Seq<ModuleInfoV>
    decreases s,
{
    if s.len() == 0 {
        Seq::empty()
    } else {
        insert_size_desc(sort_size_desc(s.drop_last()), s.last())
    }
}

/// Sizes are weakly decreasing along `s`.
pub open spec fn sizes_sorted_desc(s: Seq<ModuleInfoV>) -> bool {
    forall|i: int, j: int| 0 <= i <= j < s.len() ==> #[trigger] s[i].size >= #[trigger] s[j].size
}

proof fn lemma_insert_size_desc_split(s: Seq<ModuleInfoV>, x: ModuleInfoV, j: int)
    requires
        0 <= j <= s.len(),
        forall|k: int| 0 <= k < j ==> #[trigger] s[k].size >= x.size,
        j < s.len() ==> s[j].size < x.size,
    ensures
        insert_size_desc(s, x) == s.take(j) + seq![x] + s.skip(j),
    decreases j,
{
    if j == 0 {
        assert(insert_size_desc(s, x) =~= s.take(0) + seq![x] + s.skip(0));
    } else {
        assert(s[0].size >= x.size);
        assert(forall|k: int|
            0 <= k < j - 1 ==> #[trigger] s.drop_first()[k].size == s[k + 1].size && s[k
                + 1].size >= x.size);
        assert(j - 1 < s.drop_first().len() ==> s.drop_first()[j - 1].size < x.size);
        lemma_insert_size_desc_split(s.drop_first(), x, j - 1);
        assert(insert_size_desc(s, x) =~= s.take(j) + seq![x] + s.skip(j));
    }
}

proof fn lemma_insert_size_desc_elems(s: Seq<ModuleInfoV>, x: ModuleInfoV)
    ensures
        insert_size_desc(s, x).len() == s.len() + 1,
        forall|k: int|
            0 <= k < insert_size_desc(s, x).len() ==> (#[trigger] insert_size_desc(s, x)[k] == x
                || s.contains(insert_size_desc(s, x)[k])),
    decreases s,
{
    if s.len() == 0 {
    } else if s[0].size >= x.size {
        lemma_insert_size_desc_elems(s.drop_first(), x);
        let r = insert_size_desc(s, x);
        let inner = insert_size_desc(s.drop_first(), x);
        assert forall|k: int| 0 <= k < r.len() implies (#[trigger] r[k] == x || s.contains(
            r[k],
        )) by {
            if k == 0 {
                assert(s.contains(s[0]));
            } else {
                assert(r[k] == inner[k - 1]);
                if inner[k - 1] != x {
                    let m = choose|m: int|
                        0 <= m < s.drop_first().len() && s.drop_first()[m] == inner[k - 1];
                    assert(s[m + 1] == inner[k - 1]);
                }
            }
        }
    } else {
        let r = insert_size_desc(s, x);
        assert forall|k: int| 0 <= k < r.len() implies (#[trigger] r[k] == x || s.contains(
            r[k],
        )) by {
            if k > 0 {
                assert(r[k] == s[k - 1]);
            }
        }
    }
}

proof fn lemma_insert_size_desc_sorted(s: Seq<ModuleInfoV>, x: ModuleInfoV)
    requires
        sizes_sorted_desc(s),
    ensures
        sizes_sorted_desc(insert_size_desc(s, x)),
    decreases s,
{
    lemma_insert_size_desc_elems(s, x);
    if s.len() == 0 {
    } else if s[0].size >= x.size {
        assert(forall|i: int, j: int|
            0 <= i <= j < s.drop_first().len() ==> #[trigger] s.drop_first()[i].size
                >= #[trigger] s.drop_first()[j].size);
        lemma_insert_size_desc_sorted(s.drop_first(), x);
        lemma_insert_size_desc_elems(s.drop_first(), x);
        let r = insert_size_desc(s, x);
        let inner = insert_size_desc(s.drop_first(), x);
        assert forall|i: int, j: int| 0 <= i <= j < r.len() implies #[trigger] r[i].size
            >= #[trigger] r[j].size by {
            if i == 0 && j > 0 {
                assert(r[j] == inner[j - 1]);
                if inner[j - 1] != x {
                    let m = choose|m: int|
                        0 <= m < s.drop_first().len() && s.drop_first()[m] == inner[j - 1];
                    assert(s[0].size >= s[m + 1].size);
                }
            } else if i > 0 {
                assert(r[i] == inner[i - 1] && r[j] == inner[j - 1]);
            }
        }
    } else {
        let r = insert_size_desc(s, x);
        assert forall|i: int, j: int| 0 <= i <= j < r.len() implies #[trigger] r[i].size
            >= #[trigger] r[j].size by {
            if i == 0 && j > 0 {
                assert(r[j] == s[j - 1]);
                assert(x.size > s[0].size);
                assert(s[0].size >= s[j - 1].size);
            } else if i > 0 {
                assert(r[i] == s[i - 1] && r[j] == s[j - 1]);
            }
        }
    }
}

/// The scanned collection is descending by total size.
pub proof fn lemma_sort_size_desc_sorted(s: Seq<ModuleInfoV>)
    ensures
        sizes_sorted_desc(sort_size_desc(s)),
    decreases s,
{
    if s.len() > 0 {
        lemma_sort_size_desc_sorted(s.drop_last());
        lemma_insert_size_desc_sorted(sort_size_desc(s.drop_last()), s.last());
    }
}

proof fn lemma_insert_size_desc_multiset(s: Seq<ModuleInfoV>, x: ModuleInfoV)
    ensures
        insert_size_desc(s, x).to_multiset() =~= s.to_multiset().insert(x),
    decreases s,
{
    broadcast use vstd::seq_lib::group_to_multiset_ensures;

    if s.len() == 0 {
        assert(insert_size_desc(s, x) =~= Seq::<ModuleInfoV>::empty().push(x));
    } else if s[0].size >= x.size {
        lemma_insert_size_desc_multiset(s.drop_first(), x);
        vstd::seq_lib::lemma_multiset_commutative(seq![s[0]], insert_size_desc(s.drop_first(), x));
        vstd::seq_lib::lemma_multiset_commutative(seq![s[0]], s.drop_first());
        assert(seq![s[0]] + s.drop_first() =~= s);
        assert(seq![s[0]].to_multiset() =~= vstd::multiset::Multiset::<
            ModuleInfoV,
        >::empty().insert(s[0])) by {
            assert(seq![s[0]] =~= Seq::<ModuleInfoV>::empty().push(s[0]));
        }
    } else {
        vstd::seq_lib::lemma_multiset_commutative(seq![x], s);
        assert(seq![x].to_multiset() =~= vstd::multiset::Multiset::<ModuleInfoV>::empty().insert(
            x,
        )) by {
            assert(seq![x] =~= Seq::<ModuleInfoV>::empty().push(x));
        }
    }
}

/// Sorting the scanned collection only reorders it: every record is kept.
pub proof fn lemma_sort_size_desc_permutes(s: Seq<ModuleInfoV>)
    ensures
        sort_size_desc(s).to_multiset() =~= s.to_multiset(),
    decreases s,
{
    broadcast use vstd::seq_lib::group_to_multiset_ensures;

    if s.len() > 0 {
        lemma_sort_size_desc_permutes(s.drop_last());
        lemma_insert_size_desc_multiset(sort_size_desc(s.drop_last()), s.last());
        assert(s.drop_last().push(s.last()) =~= s);
    }
}

fn insert_by_size(out: &mut Vec<ModuleInfo>, m: ModuleInfo)
    ensures
        infos_view(final(out)@) == insert_size_desc(infos_view(old(out)@), m@),
{
    let ghost pv = infos_view(out@);
    let ghost x = m@;
    let mut j: usize = 0;
    while j < out.len() && out[j].size >= m.size
        invariant
            j <= out@.len(),
            infos_view(out@) == pv,
            x == m@,
            forall|k: int| 0 <= k < j ==> #[trigger] pv[k].size >= x.size,
        decreases out@.len() - j,
    {
        proof {
            assert(pv[j as int].size == out@[j as int].size);
        }
        j = j + 1;
    }
    proof {
        if j < out@.len() {
            assert(pv[j as int].size == out@[j as int].size);
        }
    }
    out.insert(j, m);
    proof {
        lemma_insert_size_desc_split(pv, x, j as int);
        assert(infos_view(out@) =~= pv.take(j as int) + seq![x] + pv.skip(j as int));
    }
}

/// The record every package directory maps to, in the handed-in order.
pub open spec fn records_of(packages: Seq<PackageDir>) -> Seq<ModuleInfoV> {
    packages.map_values(|p: PackageDir| module_info_of(p))
}

/// Scans a mirrored dependency directory: builds one record per package and
/// returns them sorted by total size, descending and stable.
pub fn scan_modules_dir(packages: Vec<PackageDir>) -> (r: Vec<ModuleInfo>)
    ensures
        infos_view(r@) == sort_size_desc(records_of(packages@)),
{
    let mut out: Vec<ModuleInfo> = Vec::new();
    proof {
        assert(infos_view(out@) =~= sort_size_desc(records_of(packages@.take(0))));
    }
    let mut i: usize = 0;
    while i < packages.len()
        invariant
            i <= packages@.len(),
            infos_view(out@) == sort_size_desc(records_of(packages@.take(i as int))),
        decreases packages@.len() - i,
    {
        let m = build_module_info(&packages[i]);
        insert_by_size(&mut out, m);
        proof {
            assert(records_of(packages@.take(i + 1)).drop_last() =~= records_of(
                packages@.take(i as int),
            ));
            assert(records_of(packages@.take(i + 1)).last() == module_info_of(
                packages@[i as int],
            ));
        }
        i = i + 1;
    }
    proof {
        assert(packages@.take(packages@.len() as int) =~= packages@);
        assert(records_of(packages@.take(packages@.len() as int)) =~= records_of(packages@));
    }
    out
}

} // verus!
