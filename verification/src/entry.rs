//! Partitioning of walked filesystem entries into files and directories.
//!
//! The walker hands over one entry per filesystem object, already
//! classified by a stat-like check. Regular files and directories are
//! collected into two path lists that keep the encounter order; anything
//! else (sockets, pipes, links whose target vanished) is silently left
//! out of both.

use vstd::prelude::*;

verus! {

/// What the stat-like check said an entry is.
#[derive(Clone, Copy, PartialEq, Eq, Debug)]
pub enum EntryKind {
    File,
    Directory,
    Other,
}

/// One filesystem entry surfaced by the walker: its path and its kind.
pub struct Entry {
    pub path: String,
    pub kind: EntryKind,
}

/// The mathematical value of an [`Entry`].
pub struct EntryV {
    pub path: Seq<char>,
    pub kind: EntryKind,
}

impl View for Entry {
    type V = EntryV;

    open spec fn view(&self) -> EntryV {
        EntryV { path: self.path@, kind: self.kind }
    }
}

/// The mathematical values of a sequence of entries.
pub open spec fn entry_views(s: Seq<Entry>) -> Seq<EntryV> {
    s.map_values(|e: Entry| e@)
}

/// The views of a sequence of path strings.
pub open spec fn path_views(s: Seq<String>) -> Seq<Seq<char>> {
    s.map_values(|p: String| p@)
}

/// The paths of the regular files in `s`, in encounter order.
pub open spec fn files_of(s: Seq<EntryV>) -> Seq<Seq<char>>
    decreases s.len(),
{
    if s.len() == 0 {
        Seq::empty()
    } else {
        files_of(s.drop_last()) + if s.last().kind is File {
            seq![s.last().path]
        } else {
            Seq::empty()
        }
    }
}

/// The paths of the directories in `s`, in encounter order.
pub open spec fn dirs_of(s: Seq<EntryV>) -> Seq<Seq<char>>
    decreases s.len(),
{
    if s.len() == 0 {
        Seq::empty()
    } else {
        dirs_of(s.drop_last()) + if s.last().kind is Directory {
            seq![s.last().path]
        } else {
            Seq::empty()
        }
    }
}

/// The paths of the entries that are neither files nor directories.
pub open spec fn excluded_of(s: Seq<EntryV>) -> Seq<Seq<char>>
    decreases s.len(),
{
    if s.len() == 0 {
        Seq::empty()
    } else {
        excluded_of(s.drop_last()) + if s.last().kind is Other {
            seq![s.last().path]
        } else {
            Seq::empty()
        }
    }
}

/// Partition completeness: every surfaced entry lands in exactly one of
/// the files, the directories, or the silently excluded rest — the three
/// groups together account for all entries.
pub proof fn lemma_partition_complete(s: Seq<EntryV>)
    ensures
        files_of(s).len() + dirs_of(s).len() + excluded_of(s).len() == s.len(),
    decreases s.len(),
{
    if s.len() != 0 {
        lemma_partition_complete(s.drop_last());
    }
}

/// Every surfaced entry lands in the one group that its kind selects: its
/// path is collected among the files, the directories, or the excluded
/// rest, and the groups collect nothing else (their sizes add up to the
/// entry count, by [`lemma_partition_complete`]).
pub proof fn lemma_partition_membership(s: Seq<EntryV>, i: int)
    requires
        0 <= i < s.len(),
    ensures
        s[i].kind is File ==> files_of(s).contains(s[i].path),
        s[i].kind is Directory ==> dirs_of(s).contains(s[i].path),
        s[i].kind is Other ==> excluded_of(s).contains(s[i].path),
    decreases s.len(),
{
    if i == s.len() - 1 {
        if s[i].kind is File {
            assert(files_of(s)[files_of(s).len() - 1] == s[i].path);
        } else if s[i].kind is Directory {
            assert(dirs_of(s)[dirs_of(s).len() - 1] == s[i].path);
        } else {
            assert(excluded_of(s)[excluded_of(s).len() - 1] == s[i].path);
        }
    } else {
        lemma_partition_membership(s.drop_last(), i);
        assert(s.drop_last()[i] == s[i]);
        if s[i].kind is File {
            let fs_d = files_of(s.drop_last());
            let k = choose|k: int| 0 <= k < fs_d.len() && fs_d[k] == s[i].path;
            assert(files_of(s)[k] == s[i].path);
        } else if s[i].kind is Directory {
            let ds_d = dirs_of(s.drop_last());
            let k = choose|k: int| 0 <= k < ds_d.len() && ds_d[k] == s[i].path;
            assert(dirs_of(s)[k] == s[i].path);
        } else {
            let es_d = excluded_of(s.drop_last());
            let k = choose|k: int| 0 <= k < es_d.len() && es_d[k] == s[i].path;
            assert(excluded_of(s)[k] == s[i].path);
        }
    }
}

/// Splits the walked entries into file paths and directory paths, each in
/// encounter order; entries of any other kind go to neither list.
pub fn partition_from(pool: Vec<Entry>) -> (r: (Vec<String>, Vec<String>))
    ensures
        path_views(r.0@) == files_of(entry_views(pool@)),
        path_views(r.1@) == dirs_of(entry_views(pool@)),
{
    let ghost all = entry_views(pool@);
    let mut files: Vec<String> = Vec::new();
    let mut dirs: Vec<String> = Vec::new();
    let mut i: usize = 0;
    proof {
        assert(all.take(0) =~= Seq::<EntryV>::empty());
        assert(path_views(files@) =~= Seq::<Seq<char>>::empty());
        assert(path_views(dirs@) =~= Seq::<Seq<char>>::empty());
    }
    while i < pool.len()
        invariant
            i <= pool@.len(),
            all == entry_views(pool@),
            all.len() == pool@.len(),
            path_views(files@) == files_of(all.take(i as int)),
            path_views(dirs@) == dirs_of(all.take(i as int)),
        decreases pool@.len() - i,
    {
        let ghost prefix = all.take(i as int);
        let ghost prefix1 = all.take(i as int + 1);
        proof {
            assert(prefix1.drop_last() =~= prefix);
            assert(prefix1.last() == all[i as int]);
        }
        let e = &pool[i];
        match e.kind {
            EntryKind::File => {
                files.push(e.path.clone());
                proof {
                    assert(path_views(files@) =~= files_of(prefix) + seq![e.path@]);
                    assert(files_of(prefix1) =~= files_of(prefix) + seq![e.path@]);
                    assert(dirs_of(prefix1) =~= dirs_of(prefix));
                }
            },
            EntryKind::Directory => {
                dirs.push(e.path.clone());
                proof {
                    assert(path_views(dirs@) =~= dirs_of(prefix) + seq![e.path@]);
                    assert(dirs_of(prefix1) =~= dirs_of(prefix) + seq![e.path@]);
                    assert(files_of(prefix1) =~= files_of(prefix));
                }
            },
            EntryKind::Other => {
                proof {
                    assert(files_of(prefix1) =~= files_of(prefix));
                    assert(dirs_of(prefix1) =~= dirs_of(prefix));
                }
            },
        }
        i = i + 1;
    }
    proof {
        assert(all.take(pool@.len() as int) =~= all);
    }
    (files, dirs)
}

} // verus!
