use crate::order::{insertion_sorted, permutes, sort_by_name, Named};
use crate::paths::{join_path, path_join};
use crate::text::chars_of;
use vstd::prelude::*;
use std::collections::hash_map::DefaultHasher;
use std::hash::Hasher;
use vstd::std_specs::hash::DefaultHasherAdditionalSpecFns;
use vstd::string::*;

verus! {

/// A file of the embedded image build context: its path relative to the context root, and
/// its bytes.
#[derive(Debug, Clone, PartialEq, Eq)]
pub struct EmbeddedFile {
    pub path: String,
    pub contents: Vec<u8>,
}

/// A directory of the embedded image build context: its path relative to the context root
/// (empty for the root), its subdirectories and its files.
#[derive(Debug, PartialEq, Eq)]
pub struct EmbeddedDir {
    pub path: String,
    pub dirs: Vec<EmbeddedDir>,
    pub files: Vec<EmbeddedFile>,
}

impl Named for EmbeddedFile {
    open spec fn key(&self) -> Seq<char> {
        self.path@
    }

    fn key_chars(&self) -> (r: Vec<char>) {
        chars_of(self.path.as_str())
    }
}

impl Named for EmbeddedDir {
    open spec fn key(&self) -> Seq<char> {
        self.path@
    }

    fn key_chars(&self) -> (r: Vec<char>) {
        chars_of(self.path.as_str())
    }
}

/// A step of unpacking the build context into a destination directory.
#[derive(Debug, Clone, PartialEq, Eq)]
pub enum FsAction {
    /// Create this directory and its missing parents.
    CreateDir(String),
    /// Write a file at this path with these bytes, creating its parent directory first.
    WriteFile(String, Vec<u8>),
}

/// The mathematical content of an [`FsAction`].
pub enum FsActionView {
    CreateDir(Seq<char>),
    WriteFile(Seq<char>, Seq<u8>),
}

impl View for FsAction {
    type V = FsActionView;

    open spec fn view(&self) -> FsActionView {
        match self {
            FsAction::CreateDir(p) => FsActionView::CreateDir(p@),
            FsAction::WriteFile(p, c) => FsActionView::WriteFile(p@, c@),
        }
    }
}

pub open spec fn action_views(v: Seq<FsAction>) -> Seq<FsActionView> {
    v.map_values(|a: FsAction| a@)
}

/// The steps that unpack `d` under `dest`: create `dest`, then for each subdirectory in
/// order create it and unpack it, then write each file; every path is joined to `dest`.
pub open spec fn unpack_actions(d: EmbeddedDir, dest: Seq<char>) -> Seq<FsActionView>
    decreases d,
{
    seq![FsActionView::CreateDir(dest)] + unpack_children(d.dirs@, dest) + unpack_files(
        d.files@,
        dest,
    )
}

/// The steps for the subdirectories `ds`, in order.
pub open spec fn unpack_children(ds: Seq<EmbeddedDir>, dest: Seq<char>) -> Seq<FsActionView>
    decreases ds,
{
    if ds.len() == 0 {
        seq![]
    } else {
        seq![FsActionView::CreateDir(path_join(dest, ds[0].path@))] + unpack_actions(ds[0], dest)
            + unpack_children(ds.drop_first(), dest)
    }
}

/// The steps for the files `fs`, in order.
pub open spec fn unpack_files(fs: Seq<EmbeddedFile>, dest: Seq<char>) -> Seq<FsActionView>
    decreases fs.len(),
{
    if fs.len() == 0 {
        seq![]
    } else {
        seq![FsActionView::WriteFile(path_join(dest, fs[0].path@), fs[0].contents@)]
            + unpack_files(fs.drop_first(), dest)
    }
}

fn push_action(out: &mut Vec<FsAction>, a: FsAction)
    ensures
        action_views(final(out)@) == action_views(old(out)@).push(a@),
{
    let ghost before = out@;
    let ghost av = a@;
    out.push(a);
    proof {
        assert(action_views(out@) =~= action_views(before).push(av));
    }
}

/// Appends the steps that unpack `d` under `dest` to `out`.
fn unpack_into(d: &EmbeddedDir, dest: &str, out: &mut Vec<FsAction>)
    ensures
        action_views(final(out)@) == action_views(old(out)@) + unpack_actions(*d, dest@),
    decreases d,
{
    let ghost start = action_views(out@);
    push_action(out, FsAction::CreateDir(dest.to_owned()));
    let ghost after_dest = action_views(out@);
    let mut k: usize = 0;
    assert(d.dirs@.subrange(0, d.dirs.len() as int) =~= d.dirs@);
    assert(after_dest + unpack_children(d.dirs@, dest@) =~= after_dest + unpack_children(
        d.dirs@.subrange(0, d.dirs.len() as int),
        dest@,
    ));
    while k < d.dirs.len()
        invariant
            k <= d.dirs.len(),
            after_dest + unpack_children(d.dirs@, dest@) == action_views(out@) + unpack_children(
                d.dirs@.subrange(k as int, d.dirs.len() as int),
                dest@,
            ),
        decreases d.dirs.len() - k,
    {
        let child = &d.dirs[k];
        let ghost rest = d.dirs@.subrange(k as int, d.dirs.len() as int);
        proof {
            assert(rest[0] == d.dirs@[k as int]);
            assert(rest.drop_first() =~= d.dirs@.subrange(k + 1, d.dirs.len() as int));
            assert(decreases_to!(*d => d.dirs));
            assert(decreases_to!(d.dirs => d.dirs@));
            assert(decreases_to!(d.dirs@ => d.dirs@[k as int]));
        }
        let path = join_path(dest, child.path.as_str());
        push_action(out, FsAction::CreateDir(path));
        unpack_into(child, dest, out);
        k = k + 1;
    }
    let ghost after_dirs = action_views(out@);
    proof {
        assert(d.dirs@.subrange(d.dirs.len() as int, d.dirs.len() as int).len() == 0);
        assert(after_dirs + Seq::<FsActionView>::empty() =~= after_dirs);
    }
    let mut i: usize = 0;
    assert(d.files@.subrange(0, 0) =~= Seq::<EmbeddedFile>::empty());
    assert(after_dirs + unpack_files(d.files@.subrange(0, 0), dest@) =~= after_dirs);
    while i < d.files.len()
        invariant
            i <= d.files.len(),
            action_views(out@) == after_dirs + unpack_files(d.files@.subrange(0, i as int), dest@),
        decreases d.files.len() - i,
    {
        let f = &d.files[i];
        let path = join_path(dest, f.path.as_str());
        push_action(out, FsAction::WriteFile(path, f.contents.clone()));
        proof {
            lemma_unpack_files_push(d.files@.subrange(0, i + 1), dest@);
            assert(d.files@.subrange(0, i + 1).drop_last() =~= d.files@.subrange(0, i as int));
            assert(d.files@.subrange(0, i + 1).last() == d.files@[i as int]);
        }
        i = i + 1;
    }
    proof {
        assert(d.files@.subrange(0, d.files.len() as int) =~= d.files@);
        assert(action_views(out@) =~= start + unpack_actions(*d, dest@));
    }
}

proof fn lemma_unpack_files_push(fs: Seq<EmbeddedFile>, dest: Seq<char>)
    requires
        fs.len() > 0,
    ensures
        unpack_files(fs, dest) == unpack_files(fs.drop_last(), dest) + seq![
            FsActionView::WriteFile(path_join(dest, fs.last().path@), fs.last().contents@),
        ],
    decreases fs.len(),
{
    if fs.len() == 1 {
        assert(fs.drop_first() =~= Seq::<EmbeddedFile>::empty());
        assert(fs.drop_last() =~= Seq::<EmbeddedFile>::empty());
        assert(unpack_files(fs.drop_first(), dest) =~= Seq::<FsActionView>::empty());
        assert(unpack_files(fs, dest) =~= seq![
            FsActionView::WriteFile(path_join(dest, fs[0].path@), fs[0].contents@),
        ]);
        assert(unpack_files(fs.drop_last(), dest) =~= Seq::<FsActionView>::empty());
    } else {
        lemma_unpack_files_push(fs.drop_first(), dest);
        assert(fs.drop_first().drop_last() =~= fs.drop_last().drop_first());
        assert(fs.drop_last()[0] == fs[0]);
        assert(fs.drop_first().last() == fs.last());
        assert(unpack_files(fs, dest) =~= unpack_files(fs.drop_last(), dest) + seq![
            FsActionView::WriteFile(path_join(dest, fs.last().path@), fs.last().contents@),
        ]);
    }
}

/// The steps that unpack the build context `root` into the directory `destination`.
pub fn materialize_embedded_dir(root: &EmbeddedDir, destination: &str) -> (r: Vec<FsAction>)
    ensures
        action_views(r@) == unpack_actions(*root, destination@),
{
    let mut out: Vec<FsAction> = Vec::new();
    unpack_into(root, destination, &mut out);
    assert(action_views(Seq::<FsAction>::empty()) =~= Seq::<FsActionView>::empty());
    assert(Seq::<FsActionView>::empty() + unpack_actions(*root, destination@) =~= unpack_actions(
        *root,
        destination@,
    ));
    out
}


/// Whether `t` is `d` with the subdirectories and files of every directory sorted by path.
pub open spec fn is_sorted_copy(t: EmbeddedDir, d: EmbeddedDir) -> bool
    decreases t,
{
    &&& t.path@ == d.path@
    &&& t.files@ == insertion_sorted(d.files@)
    &&& t.dirs@.len() == d.dirs@.len()
    &&& forall|i: int|
        0 <= i < t.dirs@.len() ==> is_sorted_copy(
            #[trigger] t.dirs@[i],
            insertion_sorted(d.dirs@)[i],
        )
}

/// Sorts the subdirectories and files of every directory of `d` by path, as the context hash
/// needs them.
pub fn sort_embedded_dir(d: EmbeddedDir) -> (r: EmbeddedDir)
    ensures
        is_sorted_copy(r, d),
    decreases d,
{
    let ghost whole = d;
    let EmbeddedDir { path, dirs, files } = d;
    let files = sort_by_name(files);
    let ghost unsorted_dirs = dirs@;
    let mut pending = sort_by_name(dirs);
    let ghost sorted_dirs = pending@;
    proof {
        let p = choose|p: Seq<int>| permutes(p, sorted_dirs, unsorted_dirs);
        assert forall|k: int| 0 <= k < sorted_dirs.len() implies decreases_to!(whole => #[trigger] sorted_dirs[k]) by {
            assert(sorted_dirs[k] == unsorted_dirs[p[k]]);
            assert(decreases_to!(whole => whole.dirs));
            assert(decreases_to!(whole.dirs => whole.dirs@));
            assert(decreases_to!(whole.dirs@ => whole.dirs@[p[k]]));
        }
    }
    let n = pending.len();
    let mut done: Vec<EmbeddedDir> = Vec::new();
    let mut k: usize = 0;
    while k < n
        invariant
            n == sorted_dirs.len(),
            k <= n,
            sorted_dirs == insertion_sorted(whole.dirs@),
            pending@ == sorted_dirs.subrange(k as int, n as int),
            done@.len() == k,
            forall|j: int| 0 <= j < k ==> is_sorted_copy(#[trigger] done@[j], sorted_dirs[j]),
            forall|j: int| 0 <= j < n ==> decreases_to!(d => #[trigger] sorted_dirs[j]),
        decreases n - k,
    {
        let child = pending.remove(0);
        proof {
            assert(child == sorted_dirs[k as int]);
            assert(decreases_to!(d => sorted_dirs[k as int]));
        }
        let sorted_child = sort_embedded_dir(child);
        done.push(sorted_child);
        proof {
            assert(pending@ =~= sorted_dirs.subrange(k + 1, n as int));
        }
        k = k + 1;
    }
    EmbeddedDir { path, dirs: done, files }
}

/// One write of the context hash, as a template: exact bytes, or the machine encoding of a
/// length.
pub enum HashWrite {
    Bytes(Seq<u8>),
    Length(nat),
}

/// The writes with which `str`'s `Hash` feeds a hasher: its UTF-8 bytes, then `0xff`.
pub open spec fn str_writes(s: Seq<char>) -> Seq<HashWrite> {
    seq![HashWrite::Bytes(vstd::utf8::encode_utf8(s)), HashWrite::Bytes(seq![0xffu8])]
}

/// The writes with which `[u8]`'s `Hash` feeds a hasher: its length, then its bytes.
pub open spec fn bytes_writes(b: Seq<u8>) -> Seq<HashWrite> {
    seq![HashWrite::Length(b.len()), HashWrite::Bytes(b)]
}

/// The writes that hash the directory `t`, its children taken in their order: each
/// subdirectory's path and contents, then each file's path and bytes.
pub open spec fn dir_writes(t: EmbeddedDir) -> Seq<HashWrite>
    decreases t,
{
    children_writes(t.dirs@) + files_writes(t.files@)
}

/// The writes for the subdirectories `ds`, in order.
pub open spec fn children_writes(ds: Seq<EmbeddedDir>) -> Seq<HashWrite>
    decreases ds,
{
    if ds.len() == 0 {
        seq![]
    } else {
        str_writes(ds[0].path@) + dir_writes(ds[0]) + children_writes(ds.drop_first())
    }
}

/// The writes for the files `fs`, in order.
pub open spec fn files_writes(fs: Seq<EmbeddedFile>) -> Seq<HashWrite>
    decreases fs.len(),
{
    if fs.len() == 0 {
        seq![]
    } else {
        str_writes(fs[0].path@) + bytes_writes(fs[0].contents@) + files_writes(fs.drop_first())
    }
}

/// The little-endian encoding of `n` in `k` bytes.
pub open spec fn le_bytes(n: nat, k: nat) -> Seq<u8>
    decreases k,
{
    if k == 0 {
        seq![]
    } else {
        seq![(n % 256) as u8] + le_bytes(n / 256, (k - 1) as nat)
    }
}

/// Whether `b` encodes `n` as a `usize` in one of the two byte orders.
pub open spec fn is_usize_encoding(b: Seq<u8>, n: nat) -> bool {
    &&& b.len() * 8 == usize::BITS
    &&& (b == le_bytes(n, b.len()) || b == le_bytes(n, b.len()).reverse())
}

/// Whether the writes `w` follow the template `t` one for one.
pub open spec fn writes_fit(t: Seq<HashWrite>, w: Seq<Seq<u8>>) -> bool {
    &&& t.len() == w.len()
    &&& forall|i: int|
        0 <= i < t.len() ==> match #[trigger] t[i] {
            HashWrite::Bytes(b) => w[i] == b,
            HashWrite::Length(n) => is_usize_encoding(w[i], n),
        }
}

/// std `usize::to_ne_bytes`, as a vector: the bytes of `n` in the machine's byte order.
/// Stated: there are as many as `usize` has, and they are the little-endian or the big-endian
/// encoding of `n`; which one is the machine's and is left open.
#[verifier::external_body]
fn usize_native_bytes(n: usize) -> (r: Vec<u8>)
    ensures
        is_usize_encoding(r@, n as nat),
{
    n.to_ne_bytes().to_vec()
}

proof fn lemma_fit_append(t1: Seq<HashWrite>, w1: Seq<Seq<u8>>, t2: Seq<HashWrite>, w2: Seq<Seq<u8>>)
    requires
        writes_fit(t1, w1),
        writes_fit(t2, w2),
    ensures
        writes_fit(t1 + t2, w1 + w2),
{
    assert forall|i: int| 0 <= i < (t1 + t2).len() implies match #[trigger] (t1 + t2)[i] {
        HashWrite::Bytes(b) => (w1 + w2)[i] == b,
        HashWrite::Length(n) => is_usize_encoding((w1 + w2)[i], n),
    } by {
        if i < t1.len() {
            assert((t1 + t2)[i] == t1[i]);
            assert((w1 + w2)[i] == w1[i]);
        } else {
            assert((t1 + t2)[i] == t2[i - t1.len()]);
            assert((w1 + w2)[i] == w2[i - t1.len()]);
        }
    }
}

/// Feeds `s` to the hasher as `str`'s `Hash` does.
fn hash_str(s: &str, hasher: &mut DefaultHasher)
    ensures
        final(hasher)@.len() >= old(hasher)@.len(),
        final(hasher)@.subrange(0, old(hasher)@.len() as int) == old(hasher)@,
        writes_fit(
            str_writes(s@),
            final(hasher)@.subrange(old(hasher)@.len() as int, final(hasher)@.len() as int),
        ),
{
    let ghost start = hasher@;
    hasher.write(s.as_bytes());
    let end: [u8; 1] = [0xffu8];
    hasher.write(end.as_slice());
    proof {
        let added = hasher@.subrange(start.len() as int, hasher@.len() as int);
        assert(hasher@.subrange(0, start.len() as int) =~= start);
        assert(added[1] =~= seq![0xffu8]);
        assert(writes_fit(str_writes(s@), added));
    }
}

/// Feeds `b` to the hasher as `[u8]`'s `Hash` does.
fn hash_bytes(b: &Vec<u8>, hasher: &mut DefaultHasher)
    ensures
        final(hasher)@.len() >= old(hasher)@.len(),
        final(hasher)@.subrange(0, old(hasher)@.len() as int) == old(hasher)@,
        writes_fit(
            bytes_writes(b@),
            final(hasher)@.subrange(old(hasher)@.len() as int, final(hasher)@.len() as int),
        ),
{
    let ghost start = hasher@;
    let len = usize_native_bytes(b.len());
    hasher.write(len.as_slice());
    hasher.write(b.as_slice());
    proof {
        let added = hasher@.subrange(start.len() as int, hasher@.len() as int);
        assert(hasher@.subrange(0, start.len() as int) =~= start);
        assert(writes_fit(bytes_writes(b@), added));
    }
}

/// Feeds the directory `t` to the hasher, its children in their order.
pub fn hash_embedded_dir(t: &EmbeddedDir, hasher: &mut DefaultHasher)
    ensures
        final(hasher)@.len() >= old(hasher)@.len(),
        final(hasher)@.subrange(0, old(hasher)@.len() as int) == old(hasher)@,
        writes_fit(
            dir_writes(*t),
            final(hasher)@.subrange(old(hasher)@.len() as int, final(hasher)@.len() as int),
        ),
    decreases t,
{
    let ghost start = hasher@;
    let mut k: usize = 0;
    proof {
        assert(t.dirs@.subrange(0, 0) =~= Seq::<EmbeddedDir>::empty());
        assert(hasher@.subrange(start.len() as int, hasher@.len() as int) =~= Seq::<Seq<u8>>::empty());
        assert(hasher@.subrange(0, start.len() as int) =~= start);
        assert(children_writes(Seq::<EmbeddedDir>::empty()) =~= Seq::<HashWrite>::empty());
    }
    while k < t.dirs.len()
        invariant
            k <= t.dirs.len(),
            hasher@.len() >= start.len(),
            hasher@.subrange(0, start.len() as int) == start,
            writes_fit(
                children_writes(t.dirs@.subrange(0, k as int)),
                hasher@.subrange(start.len() as int, hasher@.len() as int),
            ),
        decreases t.dirs.len() - k,
    {
        let child = &t.dirs[k];
        let ghost before = hasher@;
        proof {
            assert(decreases_to!(*t => t.dirs));
            assert(decreases_to!(t.dirs => t.dirs@));
            assert(decreases_to!(t.dirs@ => t.dirs@[k as int]));
        }
        hash_str(child.path.as_str(), hasher);
        let ghost mid = hasher@;
        hash_embedded_dir(child, hasher);
        proof {
            let w0 = before.subrange(start.len() as int, before.len() as int);
            let w1 = mid.subrange(before.len() as int, mid.len() as int);
            let w2 = hasher@.subrange(mid.len() as int, hasher@.len() as int);
            lemma_fit_append(children_writes(t.dirs@.subrange(0, k as int)), w0, str_writes(child.path@), w1);
            lemma_fit_append(
                children_writes(t.dirs@.subrange(0, k as int)) + str_writes(child.path@),
                w0 + w1,
                dir_writes(*child),
                w2,
            );
            assert(hasher@.subrange(start.len() as int, hasher@.len() as int) =~= w0 + w1 + w2);
            assert(hasher@.subrange(0, start.len() as int) =~= start);
            lemma_children_writes_push(t.dirs@.subrange(0, k + 1));
            assert(t.dirs@.subrange(0, k + 1).drop_last() =~= t.dirs@.subrange(0, k as int));
            assert(t.dirs@.subrange(0, k + 1).last() == *child);
        }
        k = k + 1;
    }
    let ghost after_dirs = hasher@;
    let mut i: usize = 0;
    proof {
        assert(t.dirs@.subrange(0, t.dirs.len() as int) =~= t.dirs@);
        assert(t.files@.subrange(0, 0) =~= Seq::<EmbeddedFile>::empty());
        assert(after_dirs.subrange(after_dirs.len() as int, after_dirs.len() as int) =~= Seq::<Seq<u8>>::empty());
        assert(files_writes(Seq::<EmbeddedFile>::empty()) =~= Seq::<HashWrite>::empty());
    }
    while i < t.files.len()
        invariant
            i <= t.files.len(),
            after_dirs.len() >= start.len(),
            after_dirs.subrange(0, start.len() as int) == start,
            writes_fit(children_writes(t.dirs@), after_dirs.subrange(start.len() as int, after_dirs.len() as int)),
            hasher@.len() >= after_dirs.len(),
            hasher@.subrange(0, after_dirs.len() as int) == after_dirs,
            writes_fit(
                files_writes(t.files@.subrange(0, i as int)),
                hasher@.subrange(after_dirs.len() as int, hasher@.len() as int),
            ),
        decreases t.files.len() - i,
    {
        let f = &t.files[i];
        let ghost before = hasher@;
        hash_str(f.path.as_str(), hasher);
        let ghost mid = hasher@;
        hash_bytes(&f.contents, hasher);
        proof {
            let w0 = before.subrange(after_dirs.len() as int, before.len() as int);
            let w1 = mid.subrange(before.len() as int, mid.len() as int);
            let w2 = hasher@.subrange(mid.len() as int, hasher@.len() as int);
            lemma_fit_append(files_writes(t.files@.subrange(0, i as int)), w0, str_writes(f.path@), w1);
            lemma_fit_append(
                files_writes(t.files@.subrange(0, i as int)) + str_writes(f.path@),
                w0 + w1,
                bytes_writes(f.contents@),
                w2,
            );
            assert(hasher@.subrange(after_dirs.len() as int, hasher@.len() as int) =~= w0 + w1 + w2);
            assert(hasher@.subrange(0, after_dirs.len() as int) =~= after_dirs);
            lemma_files_writes_push(t.files@.subrange(0, i + 1));
            assert(t.files@.subrange(0, i + 1).drop_last() =~= t.files@.subrange(0, i as int));
            assert(t.files@.subrange(0, i + 1).last() == *f);
        }
        i = i + 1;
    }
    proof {
        assert(t.files@.subrange(0, t.files.len() as int) =~= t.files@);
        let wd = after_dirs.subrange(start.len() as int, after_dirs.len() as int);
        let wf = hasher@.subrange(after_dirs.len() as int, hasher@.len() as int);
        lemma_fit_append(children_writes(t.dirs@), wd, files_writes(t.files@), wf);
        assert(hasher@.subrange(start.len() as int, hasher@.len() as int) =~= wd + wf);
        assert(hasher@.subrange(0, start.len() as int) =~= start);
    }
}

proof fn lemma_children_writes_push(ds: Seq<EmbeddedDir>)
    requires
        ds.len() > 0,
    ensures
        children_writes(ds) == children_writes(ds.drop_last()) + str_writes(ds.last().path@)
            + dir_writes(ds.last()),
    decreases ds.len(),
{
    if ds.len() == 1 {
        assert(ds.drop_first() =~= Seq::<EmbeddedDir>::empty());
        assert(ds.drop_last() =~= Seq::<EmbeddedDir>::empty());
        assert(children_writes(ds.drop_first()) =~= Seq::<HashWrite>::empty());
        assert(children_writes(ds.drop_last()) =~= Seq::<HashWrite>::empty());
        assert(children_writes(ds) =~= str_writes(ds[0].path@) + dir_writes(ds[0]));
        assert(children_writes(ds) =~= children_writes(ds.drop_last()) + str_writes(ds.last().path@)
            + dir_writes(ds.last()));
    } else {
        lemma_children_writes_push(ds.drop_first());
        assert(ds.drop_first().drop_last() =~= ds.drop_last().drop_first());
        assert(ds.drop_last()[0] == ds[0]);
        assert(ds.drop_first().last() == ds.last());
        assert(children_writes(ds) =~= children_writes(ds.drop_last()) + str_writes(ds.last().path@)
            + dir_writes(ds.last()));
    }
}

proof fn lemma_files_writes_push(fs: Seq<EmbeddedFile>)
    requires
        fs.len() > 0,
    ensures
        files_writes(fs) == files_writes(fs.drop_last()) + str_writes(fs.last().path@)
            + bytes_writes(fs.last().contents@),
    decreases fs.len(),
{
    if fs.len() == 1 {
        assert(fs.drop_first() =~= Seq::<EmbeddedFile>::empty());
        assert(fs.drop_last() =~= Seq::<EmbeddedFile>::empty());
        assert(files_writes(fs.drop_first()) =~= Seq::<HashWrite>::empty());
        assert(files_writes(fs.drop_last()) =~= Seq::<HashWrite>::empty());
        assert(files_writes(fs) =~= files_writes(fs.drop_last()) + str_writes(fs.last().path@)
            + bytes_writes(fs.last().contents@));
    } else {
        lemma_files_writes_push(fs.drop_first());
        assert(fs.drop_first().drop_last() =~= fs.drop_last().drop_first());
        assert(fs.drop_last()[0] == fs[0]);
        assert(fs.drop_first().last() == fs.last());
        assert(files_writes(fs) =~= files_writes(fs.drop_last()) + str_writes(fs.last().path@)
            + bytes_writes(fs.last().contents@));
    }
}


/// The lowercase hexadecimal digit for `d < 16`.
pub open spec fn hex_char(d: nat) -> char {
    if d < 10 {
        crate::text::digit_char(d)
    } else if d == 10 {
        'a'
    } else if d == 11 {
        'b'
    } else if d == 12 {
        'c'
    } else if d == 13 {
        'd'
    } else if d == 14 {
        'e'
    } else {
        'f'
    }
}

/// The last `k` hexadecimal digits of `h`, zero-padded (`format!("{:0k$x}")` when `h` has at
/// most `k` digits).
pub open spec fn hex_digits(h: nat, k: nat) -> Seq<char>
    decreases k,
{
    if k == 0 {
        seq![]
    } else {
        hex_digits(h / 16, (k - 1) as nat).push(hex_char(h % 16))
    }
}

fn hex_char_exec(d: u64) -> (c: char)
    requires
        d < 16,
    ensures
        c == hex_char(d as nat),
{
    if d == 0 {
        '0'
    } else if d == 1 {
        '1'
    } else if d == 2 {
        '2'
    } else if d == 3 {
        '3'
    } else if d == 4 {
        '4'
    } else if d == 5 {
        '5'
    } else if d == 6 {
        '6'
    } else if d == 7 {
        '7'
    } else if d == 8 {
        '8'
    } else if d == 9 {
        '9'
    } else if d == 10 {
        'a'
    } else if d == 11 {
        'b'
    } else if d == 12 {
        'c'
    } else if d == 13 {
        'd'
    } else if d == 14 {
        'e'
    } else {
        'f'
    }
}

/// The last `k` hexadecimal digits of `h`.
fn hex_chars(h: u64, k: usize) -> (r: Vec<char>)
    ensures
        r@ == hex_digits(h as nat, k as nat),
    decreases k,
{
    if k == 0 {
        Vec::new()
    } else {
        let mut v = hex_chars(h / 16, k - 1);
        v.push(hex_char_exec(h % 16));
        v
    }
}

/// The name of the cache directory for the build context `context`: the context hash as 16
/// lowercase hexadecimal digits. The context is hashed with std's `DefaultHasher`, each
/// directory's subdirectories and files taken in path order, each subdirectory as its path
/// followed by its contents and each file as its path followed by its bytes.
pub fn embedded_context_hash(context: EmbeddedDir) -> (r: String)
    ensures
        exists|t: EmbeddedDir, feed: Seq<Seq<u8>>|
            {
                &&& is_sorted_copy(t, context)
                &&& writes_fit(dir_writes(t), feed)
                &&& r@ == hex_digits(DefaultHasher::spec_finish(feed) as nat, 16)
            },
{
    let sorted = sort_embedded_dir(context);
    let mut hasher = DefaultHasher::new();
    hash_embedded_dir(&sorted, &mut hasher);
    let digest = hasher.finish();
    let r = crate::text::string_of(&hex_chars(digest, 16));
    proof {
        assert(hasher@.subrange(0, hasher@.len() as int) =~= hasher@);
        assert(is_sorted_copy(sorted, context));
    }
    r
}

} // verus!
