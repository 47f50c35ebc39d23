//! Planning the extraction of an archive. The archive's entries are
//! handed in as plain names; this module decides, entry by entry, what
//! the filesystem must come to hold: a directory for every entry whose
//! name ends in a separator, and a file (with its parent directory) for
//! every other entry. Carrying the plan out is file I/O and stays
//! outside the library; its effect is modelled here, and extraction is
//! proved complete over that model.

use vstd::prelude::*;

use crate::text::has_char;
use crate::text::last_ix;
use crate::text::lemma_last_ix_unique;
use crate::text::rfind_char;

verus! {

/// One entry of an archive: the name as stored (directories end in
/// `/`), and the sanitized relative path it should be extracted to.
pub struct ArchiveEntry {
    pub name: String,
    pub path: String,
}

/// The mathematical value of an `ArchiveEntry`.
pub ghost struct ArchiveEntryV {
    pub name: Seq<char>,
    pub path: Seq<char>,
}

impl View for ArchiveEntry {
    type V = ArchiveEntryV;

    open spec fn view(&self) -> ArchiveEntryV {
        ArchiveEntryV { name: self.name@, path: self.path@ }
    }
}

/// The views of a sequence of entries.
pub open spec fn entry_views(s: Seq<ArchiveEntry>) -> Seq<ArchiveEntryV> {
    s.map_values(|e: ArchiveEntry| e@)
}

/// An entry whose stored name ends in a separator is a directory.
pub open spec fn spec_is_dir_entry(e: ArchiveEntryV) -> bool {
    e.name.len() > 0 && e.name.last() == '/'
}

/// Where an entry lands: its relative path joined under the target.
pub open spec fn spec_out_path(dest: Seq<char>, e: ArchiveEntryV) -> Seq<char> {
    dest + "/"@ + e.path
}

/// The directory that holds a path: everything before its last `/`.
pub open spec fn spec_parent(p: Seq<char>) -> Seq<char> {
    if has_char(p, '/') {
        p.take(last_ix(p, '/'))
    } else {
        p
    }
}

/// One filesystem obligation of the extraction.
pub enum FsAction {
    /// Make sure this directory (and its ancestors) exists.
    EnsureDir(String),
    /// Write the bytes of the archive entry at this index to this
    /// path, replacing any file already there.
    WriteFile(String, usize),
}

/// The mathematical value of an `FsAction`.
pub ghost enum FsActionV {
    EnsureDir(Seq<char>),
    WriteFile(Seq<char>, int),
}

impl View for FsAction {
    type V = FsActionV;

    open spec fn view(&self) -> FsActionV {
        match self {
            FsAction::EnsureDir(p) => FsActionV::EnsureDir(p@),
            FsAction::WriteFile(p, i) => FsActionV::WriteFile(p@, *i as int),
        }
    }
}

/// The views of a sequence of actions.
pub open spec fn action_views(s: Seq<FsAction>) -> Seq<FsActionV> {
    s.map_values(|a: FsAction| a@)
}

/// The plan for an archive: for each entry in order, the directory it
/// is, or the parent directory it needs and the file write itself.
pub open spec fn spec_extract_actions(dest: Seq<char>, entries: Seq<ArchiveEntryV>) -> Seq<
    FsActionV,
>
    decreases entries.len(),
{
    if entries.len() == 0 {
        Seq::empty()
    } else {
        spec_extract_actions(dest, entries.drop_last()) + (if spec_is_dir_entry(
            entries.last(),
        ) {
            seq![FsActionV::EnsureDir(spec_out_path(dest, entries.last()))]
        } else {
            seq![
                FsActionV::EnsureDir(spec_parent(spec_out_path(dest, entries.last()))),
                FsActionV::WriteFile(spec_out_path(dest, entries.last()), entries.len() - 1),
            ]
        })
    }
}

/// Computes the extraction plan of `entries` into `dest`.
pub fn extract_actions(entries: &Vec<ArchiveEntry>, dest: &str) -> (r: Vec<FsAction>)
    ensures
        action_views(r@) == spec_extract_actions(dest@, entry_views(entries@)),
{
    let n = entries.len();
    let mut r: Vec<FsAction> = Vec::new();
    let mut i: usize = 0;
    while i < n
        invariant
            i <= n,
            n == entries@.len(),
            action_views(r@) == spec_extract_actions(dest@, entry_views(entries@).take(i as int)),
        decreases n - i,
    {
        proof {
            assert(entry_views(entries@).take(i + 1).drop_last() =~= entry_views(entries@).take(
                i as int,
            ));
            assert(entry_views(entries@).take(i + 1).last() == entries@[i as int]@);
        }
        let mut out = dest.to_owned();
        out.append("/");
        out.append(entries[i].path.as_str());
        proof {
            assert(out@ == spec_out_path(dest@, entries@[i as int]@));
        }
        let name = &entries[i].name;
        let nlen = name.as_str().unicode_len();
        let is_dir = nlen > 0 && name.as_str().get_char(nlen - 1) == '/';
        if is_dir {
            r.push(FsAction::EnsureDir(out));
        } else {
            let parent = match rfind_char(out.as_str(), '/') {
                Some(j) => {
                    proof {
                        lemma_last_ix_unique(out@, '/', j as int);
                    }
                    let p = out.as_str().substring_char(0, j).to_owned();
                    proof {
                        assert(p@ =~= out@.take(j as int));
                    }
                    p
                },
                None => out.clone(),
            };
            proof {
                assert(parent@ == spec_parent(out@));
            }
            r.push(FsAction::EnsureDir(parent));
            r.push(FsAction::WriteFile(out, i));
        }
        proof {
            assert(action_views(r@) =~= spec_extract_actions(
                dest@,
                entry_views(entries@).take(i + 1),
            ));
        }
        i = i + 1;
    }
    proof {
        assert(entry_views(entries@).take(n as int) =~= entry_views(entries@));
    }
    r
}

/// What a path holds in the filesystem model.
pub ghost enum FsNode {
    /// A directory.
    Dir,
    /// A file holding the bytes of the archive entry at this index.
    File(int),
}

/// The filesystem after the obligations have been carried out, in
/// order: ensuring a directory makes the path a directory, writing a
/// file makes the path that entry's file, replacing what was there.
pub open spec fn apply_fs_actions(fs: Map<Seq<char>, FsNode>, actions: Seq<FsActionV>) -> Map<
    Seq<char>,
    FsNode,
>
    decreases actions.len(),
{
    if actions.len() == 0 {
        fs
    } else {
        let fs1 = match actions[0] {
            FsActionV::EnsureDir(p) => fs.insert(p, FsNode::Dir),
            FsActionV::WriteFile(p, i) => fs.insert(p, FsNode::File(i)),
        };
        apply_fs_actions(fs1, actions.drop_first())
    }
}

proof fn lemma_apply_fs_concat(fs: Map<Seq<char>, FsNode>, a: Seq<FsActionV>, b: Seq<FsActionV>)
    ensures
        apply_fs_actions(fs, a + b) == apply_fs_actions(apply_fs_actions(fs, a), b),
    decreases a.len(),
{
    if a.len() == 0 {
        assert(a + b =~= b);
    } else {
        assert((a + b)[0] == a[0]);
        assert((a + b).drop_first() =~= a.drop_first() + b);
        let fs1 = match a[0] {
            FsActionV::EnsureDir(p) => fs.insert(p, FsNode::Dir),
            FsActionV::WriteFile(p, i) => fs.insert(p, FsNode::File(i)),
        };
        lemma_apply_fs_concat(fs1, a.drop_first(), b);
    }
}

/// A sane archive: no two file entries land on the same path, no file
/// entry lands where a directory entry lands, and no file entry lands
/// where another file's parent directory must be made.
pub open spec fn wf_archive(dest: Seq<char>, entries: Seq<ArchiveEntryV>) -> bool {
    &&& forall|i: int, j: int|
        #![trigger entries[i], entries[j]]
        0 <= i < entries.len() && 0 <= j < entries.len() && i != j && !spec_is_dir_entry(
            entries[i],
        ) && !spec_is_dir_entry(entries[j]) ==> spec_out_path(dest, entries[i]) != spec_out_path(
            dest,
            entries[j],
        )
    &&& forall|i: int, j: int|
        #![trigger entries[i], entries[j]]
        0 <= i < entries.len() && 0 <= j < entries.len() && !spec_is_dir_entry(entries[i])
            && spec_is_dir_entry(entries[j]) ==> spec_out_path(dest, entries[i]) != spec_out_path(
            dest,
            entries[j],
        )
    &&& forall|i: int, j: int|
        #![trigger entries[i], entries[j]]
        0 <= i < entries.len() && 0 <= j < entries.len() && !spec_is_dir_entry(entries[i])
            && !spec_is_dir_entry(entries[j]) ==> spec_out_path(dest, entries[i]) != spec_parent(
            spec_out_path(dest, entries[j]),
        )
}

/// Extraction is complete: after the plan of a sane archive has been
/// carried out, every directory entry's path holds a directory and
/// every file entry's path holds exactly that entry's file, whatever
/// order the entries came in and whatever the filesystem held before.
#[verifier::rlimit(60)]
pub proof fn lemma_extraction_complete(
    dest: Seq<char>,
    entries: Seq<ArchiveEntryV>,
    fs0: Map<Seq<char>, FsNode>,
)
    requires
        wf_archive(dest, entries),
    ensures
        forall|k: int|
            0 <= k < entries.len() && spec_is_dir_entry(#[trigger] entries[k])
                ==> apply_fs_actions(fs0, spec_extract_actions(dest, entries)).contains_key(
                spec_out_path(dest, entries[k]),
            ) && apply_fs_actions(fs0, spec_extract_actions(dest, entries))[spec_out_path(
                dest,
                entries[k],
            )] == FsNode::Dir,
        forall|k: int|
            0 <= k < entries.len() && !spec_is_dir_entry(#[trigger] entries[k])
                ==> apply_fs_actions(fs0, spec_extract_actions(dest, entries)).contains_key(
                spec_out_path(dest, entries[k]),
            ) && apply_fs_actions(fs0, spec_extract_actions(dest, entries))[spec_out_path(
                dest,
                entries[k],
            )] == FsNode::File(k),
    decreases entries.len(),
{
    if entries.len() > 0 {
        let prior = entries.drop_last();
        let last = entries.last();
        assert(forall|i: int| 0 <= i < prior.len() ==> prior[i] == entries[i]);
        lemma_extraction_complete(dest, prior, fs0);
        let plan_prior = spec_extract_actions(dest, prior);
        let tail = if spec_is_dir_entry(last) {
            seq![FsActionV::EnsureDir(spec_out_path(dest, last))]
        } else {
            seq![
                FsActionV::EnsureDir(spec_parent(spec_out_path(dest, last))),
                FsActionV::WriteFile(spec_out_path(dest, last), entries.len() - 1),
            ]
        };
        lemma_apply_fs_concat(fs0, plan_prior, tail);
        let before = apply_fs_actions(fs0, plan_prior);
        let fin = apply_fs_actions(fs0, spec_extract_actions(dest, entries));
        assert(last == entries[entries.len() - 1]);
        if spec_is_dir_entry(last) {
            assert(fin == before.insert(spec_out_path(dest, last), FsNode::Dir)) by {
                reveal_with_fuel(apply_fs_actions, 3);
                assert(tail.drop_first() =~= Seq::<FsActionV>::empty());
            }
            assert forall|k: int|
                0 <= k < entries.len() && spec_is_dir_entry(#[trigger] entries[k]) implies
                fin.contains_key(spec_out_path(dest, entries[k])) && fin[spec_out_path(
                dest,
                entries[k],
            )] == FsNode::Dir by {
                if k < entries.len() - 1 {
                    assert(prior[k] == entries[k]);
                }
            }
            assert forall|k: int|
                0 <= k < entries.len() && !spec_is_dir_entry(#[trigger] entries[k]) implies
                fin.contains_key(spec_out_path(dest, entries[k])) && fin[spec_out_path(
                dest,
                entries[k],
            )] == FsNode::File(k) by {
                assert(k < entries.len() - 1);
                assert(prior[k] == entries[k]);
                assert(spec_out_path(dest, entries[k]) != spec_out_path(dest, last));
            }
        } else {
            let mid = before.insert(spec_parent(spec_out_path(dest, last)), FsNode::Dir);
            assert(fin == mid.insert(spec_out_path(dest, last), FsNode::File(entries.len() - 1)))
                by {
                reveal_with_fuel(apply_fs_actions, 4);
                assert(tail.drop_first() =~= seq![
                    FsActionV::WriteFile(spec_out_path(dest, last), entries.len() - 1),
                ]);
                assert(tail.drop_first().drop_first() =~= Seq::<FsActionV>::empty());
            }
            assert forall|k: int|
                0 <= k < entries.len() && spec_is_dir_entry(#[trigger] entries[k]) implies
                fin.contains_key(spec_out_path(dest, entries[k])) && fin[spec_out_path(
                dest,
                entries[k],
            )] == FsNode::Dir by {
                assert(k < entries.len() - 1);
                assert(prior[k] == entries[k]);
                assert(spec_out_path(dest, entries[k]) != spec_out_path(dest, last));
            }
            assert forall|k: int|
                0 <= k < entries.len() && !spec_is_dir_entry(#[trigger] entries[k]) implies
                fin.contains_key(spec_out_path(dest, entries[k])) && fin[spec_out_path(
                dest,
                entries[k],
            )] == FsNode::File(k) by {
                if k < entries.len() - 1 {
                    assert(prior[k] == entries[k]);
                    assert(spec_out_path(dest, entries[k]) != spec_out_path(dest, last));
                    assert(spec_out_path(dest, entries[k]) != spec_parent(
                        spec_out_path(dest, last),
                    ));
                }
            }
        }
    }
}

} // verus!
