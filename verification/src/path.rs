//! Byte-string model of filesystem paths.
//!
//! A path is a sequence of bytes; `/` separates components. The last
//! component is the file name, and the part of the file name after its
//! last interior dot is the extension.

use vstd::prelude::*;
use vstd::slice::{slice_subrange, slice_to_vec};

verus! {

/// The path component separator, the byte of `/`.
pub const SEP: u8 = 47;

/// The byte of `.`, which separates a file name from its extension.
pub const DOT: u8 = 46;

/// A filesystem path held as plain bytes.
pub struct FsPath {
    pub bytes: Vec<u8>,
}

impl View for FsPath {
    type V = Seq<u8>;

    open spec fn view(&self) -> Seq<u8> {
        self.bytes@
    }
}

/// The number of separator bytes in a path.
pub open spec fn sep_count(s: Seq<u8>) -> nat
    decreases s.len(),
{
    if s.len() == 0 {
        0
    } else {
        (if s[0] == SEP {
            1nat
        } else {
            0nat
        }) + sep_count(s.drop_first())
    }
}

/// The number of components of a path: one more than its separator count.
pub open spec fn component_count(s: Seq<u8>) -> nat {
    sep_count(s) + 1
}

/// The file name of a path: the suffix after the last separator
/// (empty when the path is empty or ends in a separator).
pub open spec fn file_name(s: Seq<u8>) -> Seq<u8>
    decreases s.len(),
{
    if s.len() == 0 {
        s
    } else if s.last() == SEP {
        Seq::empty()
    } else {
        file_name(s.drop_last()).push(s.last())
    }
}

/// The extension of a file name: the suffix after the last dot that does
/// not begin the name, or `None` when there is no such dot.
pub open spec fn extension_of(f: Seq<u8>) -> Option<Seq<u8>>
    decreases f.len(),
{
    if f.len() <= 1 {
        Option::None
    } else if f.last() == DOT {
        Option::Some(Seq::empty())
    } else {
        match extension_of(f.drop_last()) {
            Option::Some(e) => Option::Some(e.push(f.last())),
            Option::None => Option::None,
        }
    }
}

impl FsPath {
    /// Builds a path from its bytes.
    pub fn from_bytes(bytes: Vec<u8>) -> (p: FsPath)
        ensures
            p@ == bytes@,
    {
        FsPath { bytes }
    }

    /// The bytes of the path.
    pub fn as_bytes(&self) -> (r: &Vec<u8>)
        ensures
            r@ == self@,
    {
        &self.bytes
    }

    /// Counts the separator bytes of the path.
    pub fn sep_count(&self) -> (n: usize)
        ensures
            n == sep_count(self@),
    {
        let mut n: usize = 0;
        let mut i: usize = 0;
        while i < self.bytes.len()
            invariant
                i <= self@.len(),
                n == sep_count(self@.take(i as int)),
                n <= i,
            decreases self@.len() - i,
        {
            proof {
                lemma_sep_count_take_step(self@, i as int);
            }
            if self.bytes[i] == SEP {
                n = n + 1;
            }
            i = i + 1;
        }
        proof {
            assert(self@.take(self@.len() as int) =~= self@);
        }
        n
    }
}

impl Clone for FsPath {
    /// A clone carries the same bytes.
    fn clone(&self) -> (r: Self)
        ensures
            r@ == self@,
    {
        FsPath { bytes: slice_to_vec(self.bytes.as_slice()) }
    }
}

impl PartialEq for FsPath {
    fn eq(&self, other: &FsPath) -> bool {
        bytes_equal(&self.bytes, &other.bytes)
    }
}

impl vstd::std_specs::cmp::PartialEqSpecImpl for FsPath {
    open spec fn obeys_eq_spec() -> bool {
        true
    }

    open spec fn eq_spec(&self, other: &FsPath) -> bool {
        self@ == other@
    }
}

/// Compares two byte vectors for equality of their contents.
pub fn bytes_equal(a: &Vec<u8>, b: &Vec<u8>) -> (r: bool)
    ensures
        r == (a@ == b@),
{
    if a.len() != b.len() {
        return false;
    }
    let mut i: usize = 0;
    while i < a.len()
        invariant
            i <= a@.len(),
            a@.len() == b@.len(),
            forall|k: int| 0 <= k < i ==> a@[k] == b@[k],
        decreases a@.len() - i,
    {
        if a[i] != b[i] {
            return false;
        }
        i = i + 1;
    }
    proof {
        assert(a@ =~= b@);
    }
    true
}

/// Appends the bytes of `src` to `dst`.
pub fn append_bytes(dst: &mut Vec<u8>, src: &[u8])
    ensures
        final(dst)@ == old(dst)@ + src@,
{
    let mut i: usize = 0;
    while i < src.len()
        invariant
            i <= src@.len(),
            dst@ == old(dst)@ + src@.take(i as int),
        decreases src@.len() - i,
    {
        let b = src[i];
        dst.push(b);
        proof {
            assert(old(dst)@ + src@.take(i + 1) =~= (old(dst)@ + src@.take(i as int)).push(
                src@[i as int],
            ));
        }
        i = i + 1;
    }
    proof {
        assert(src@.take(src@.len() as int) =~= src@);
    }
}

/// The views of a sequence of paths.
pub open spec fn paths_view(s: Seq<FsPath>) -> Seq<Seq<u8>> {
    s.map_values(|p: FsPath| p@)
}

/// The views of a sequence of byte vectors.
pub open spec fn byte_seqs(s: Seq<Vec<u8>>) -> Seq<Seq<u8>> {
    s.map_values(|v: Vec<u8>| v@)
}

/// Counting separators over one more byte adds one exactly on a separator.
proof fn lemma_sep_count_take_step(s: Seq<u8>, i: int)
    requires
        0 <= i < s.len(),
    ensures
        sep_count(s.take(i + 1)) == sep_count(s.take(i)) + (if s[i] == SEP {
            1nat
        } else {
            0nat
        }),
{
    lemma_sep_count_snoc(s.take(i + 1));
    assert(s.take(i + 1).drop_last() =~= s.take(i));
    assert(s.take(i + 1).last() == s[i]);
}

/// Separator count seen from the last byte.
proof fn lemma_sep_count_snoc(s: Seq<u8>)
    requires
        s.len() > 0,
    ensures
        sep_count(s) == sep_count(s.drop_last()) + (if s.last() == SEP {
            1nat
        } else {
            0nat
        }),
    decreases s.len(),
{
    if s.len() == 1 {
        assert(s.drop_last() =~= Seq::<u8>::empty());
        assert(s.drop_first() =~= Seq::<u8>::empty());
        assert(sep_count(s) == (if s[0] == SEP {
            1nat
        } else {
            0nat
        }) + sep_count(s.drop_first()));
        assert(sep_count(Seq::<u8>::empty()) == 0);
        assert(s.last() == s[0]);
    } else {
        lemma_sep_count_snoc(s.drop_first());
        assert(s.drop_first().drop_last() =~= s.drop_last().drop_first());
        assert(s.drop_first().last() == s.last());
        assert(s.drop_last().len() > 0);
        assert(s.drop_last()[0] == s[0]);
        assert(sep_count(s) == (if s[0] == SEP {
            1nat
        } else {
            0nat
        }) + sep_count(s.drop_first()));
        assert(sep_count(s.drop_last()) == (if s[0] == SEP {
            1nat
        } else {
            0nat
        }) + sep_count(s.drop_last().drop_first()));
    }
}

/// A file name is never longer than its path.
pub proof fn lemma_file_name_len(s: Seq<u8>)
    ensures
        file_name(s).len() <= s.len(),
    decreases s.len(),
{
    if s.len() > 0 && s.last() != SEP {
        lemma_file_name_len(s.drop_last());
    }
}

/// When no separator follows position `i`, and a separator (or the start
/// of the path) stands just before it, the file name is the suffix at `i`.
proof fn lemma_file_name_at(s: Seq<u8>, i: int)
    requires
        0 <= i <= s.len(),
        forall|m: int| i <= m < s.len() ==> s[m] != SEP,
        i == 0 || s[i - 1] == SEP,
    ensures
        file_name(s) =~= s.skip(i),
    decreases s.len(),
{
    if s.len() == 0 {
    } else if s.last() == SEP {
        assert(i == s.len());
    } else {
        if i == s.len() {
            assert(s[i - 1] != SEP);
            assert(false);
        }
        lemma_file_name_at(s.drop_last(), i);
        assert(s.drop_last().skip(i).push(s.last()) =~= s.skip(i));
    }
}

/// When a file name holds a dot after its first byte at position `j`,
/// and no dot follows it, the extension is the suffix after `j`.
proof fn lemma_extension_at(f: Seq<u8>, j: int)
    requires
        1 <= j < f.len(),
        f[j] == DOT,
        forall|m: int| j < m < f.len() ==> f[m] != DOT,
    ensures
        extension_of(f) == Option::Some(f.skip(j + 1)),
    decreases f.len(),
{
    if j == f.len() - 1 {
        assert(f.last() == DOT);
        assert(f.skip(j + 1) =~= Seq::<u8>::empty());
    } else {
        lemma_extension_at(f.drop_last(), j);
        assert(f.last() != DOT);
        assert(f.drop_last().skip(j + 1).push(f.last()) =~= f.skip(j + 1));
    }
}

/// A file name without an interior dot has no extension.
proof fn lemma_no_extension(f: Seq<u8>)
    requires
        forall|m: int| 1 <= m < f.len() ==> f[m] != DOT,
    ensures
        extension_of(f) is None,
    decreases f.len(),
{
    if f.len() > 1 {
        assert(f.last() != DOT);
        lemma_no_extension(f.drop_last());
    }
}

impl FsPath {
    /// The file name of the path: the suffix after the last separator.
    pub fn file_name(&self) -> (r: Vec<u8>)
        ensures
            r@ == file_name(self@),
    {
        let n = self.bytes.len();
        let mut i: usize = n;
        while i > 0 && self.bytes[i - 1] != SEP
            invariant
                0 <= i <= n,
                n == self@.len(),
                forall|m: int| i <= m < n ==> self@[m] != SEP,
            decreases i,
        {
            i = i - 1;
        }
        proof {
            lemma_file_name_at(self@, i as int);
        }
        slice_to_vec(slice_subrange(self.bytes.as_slice(), i, n))
    }

    /// The extension of the path's file name: the part after the last dot
    /// that does not begin the name.
    pub fn extension(&self) -> (r: Option<Vec<u8>>)
        ensures
            match r {
                Option::Some(e) => extension_of(file_name(self@)) == Option::Some(e@),
                Option::None => extension_of(file_name(self@)) is None,
            },
    {
        let fname = self.file_name();
        let n = fname.len();
        let mut j: usize = n;
        while j > 1 && fname[j - 1] != DOT
            invariant
                n == fname@.len(),
                j <= n || j == 1,
                0 <= j,
                forall|m: int| j <= m < n ==> fname@[m] != DOT,
            decreases j,
        {
            j = j - 1;
        }
        if j > 1 {
            proof {
                lemma_extension_at(fname@, j - 1);
            }
            Option::Some(slice_to_vec(slice_subrange(fname.as_slice(), j, n)))
        } else {
            proof {
                lemma_no_extension(fname@);
            }
            Option::None
        }
    }
}

/// Whether a file is hidden: its file name begins with a dot.
pub fn is_hidden(file: &FsPath) -> (r: bool)
    requires
        file_name(file@).len() > 0,
    ensures
        r == (file_name(file@)[0] == DOT),
{
    let fname = file.file_name();
    fname[0] == DOT
}

/// Whether a path's extension is one of the given ones.
pub open spec fn ext_matches(p: Seq<u8>, exts: Seq<Seq<u8>>) -> bool {
    match extension_of(file_name(p)) {
        Option::Some(e) => exts.contains(e),
        Option::None => false,
    }
}

/// The paths kept by extension filtering: all of them when no extension
/// is given, else exactly those whose extension is listed.
pub open spec fn filter_by_extension_spec(ps: Seq<Seq<u8>>, exts: Seq<Seq<u8>>) -> Seq<Seq<u8>> {
    if exts.len() == 0 {
        ps
    } else {
        ps.filter(|p: Seq<u8>| ext_matches(p, exts))
    }
}

/// Taking views commutes with appending one path.
pub proof fn lemma_paths_view_push(s: Seq<FsPath>, p: FsPath)
    ensures
        paths_view(s.push(p)) =~= paths_view(s).push(p@),
{
}

/// Each element of a filtered sequence stands in the original one.
pub proof fn lemma_filter_element_of<T>(s: Seq<T>, pred: spec_fn(T) -> bool, i: int)
    requires
        0 <= i < s.filter(pred).len(),
    ensures
        s.contains(s.filter(pred)[i]),
    decreases s.len(),
{
    reveal(Seq::filter);
    if s.len() > 0 {
        let f = s.filter(pred);
        let fd = s.drop_last().filter(pred);
        if i < fd.len() {
            lemma_filter_element_of(s.drop_last(), pred, i);
            let j = choose|j: int| 0 <= j < s.drop_last().len() && s.drop_last()[j] == fd[i];
            assert(s[j] == fd[i]);
            assert(f[i] == fd[i]);
        } else {
            assert(pred(s.last()) && f[i] == s.last());
            assert(s[s.len() - 1] == s.last());
        }
    }
}

/// Whether a byte vector with the view of `x` stands in `list`.
pub fn bytes_list_contains(list: &Vec<Vec<u8>>, x: &Vec<u8>) -> (r: bool)
    ensures
        r == byte_seqs(list@).contains(x@),
{
    let mut i: usize = 0;
    while i < list.len()
        invariant
            i <= list@.len(),
            forall|k: int| 0 <= k < i ==> byte_seqs(list@)[k] != x@,
        decreases list@.len() - i,
    {
        if bytes_equal(&list[i], x) {
            assert(byte_seqs(list@)[i as int] == x@);
            return true;
        }
        i = i + 1;
    }
    false
}

/// Keeps the files whose extension is one of `extensions`; with no
/// extensions given, keeps every file.
pub fn filter_by_extension(files: Vec<FsPath>, extensions: &Vec<Vec<u8>>) -> (r: Vec<FsPath>)
    ensures
        paths_view(r@) == filter_by_extension_spec(paths_view(files@), byte_seqs(extensions@)),
{
    if extensions.len() == 0 {
        return files;
    }
    let ghost exts = byte_seqs(extensions@);
    let ghost pred = |p: Seq<u8>| ext_matches(p, exts);
    let mut out: Vec<FsPath> = Vec::new();
    let mut i: usize = 0;
    while i < files.len()
        invariant
            i <= files@.len(),
            exts == byte_seqs(extensions@),
            exts.len() > 0,
            pred == (|p: Seq<u8>| ext_matches(p, exts)),
            paths_view(out@) == paths_view(files@).take(i as int).filter(pred),
        decreases files@.len() - i,
    {
        let keep = match files[i].extension() {
            Option::Some(e) => bytes_list_contains(extensions, &e),
            Option::None => false,
        };
        proof {
            assert(paths_view(files@)[i as int] == files@[i as int]@);
            assert(keep == pred(files@[i as int]@));
            let t = paths_view(files@).take(i + 1);
            assert(t.drop_last() =~= paths_view(files@).take(i as int));
            assert(t.last() == files@[i as int]@);
            reveal(Seq::filter);
        }
        if keep {
            let ghost out_before = out@;
            let x = files[i].clone();
            out.push(x);
            proof {
                lemma_paths_view_push(out_before, out@.last());
                assert(paths_view(out@) =~= paths_view(out_before).push(files@[i as int]@));
            }
        }
        proof {
            assert(paths_view(out@) =~= paths_view(files@).take(i + 1).filter(pred));
        }
        i = i + 1;
    }
    proof {
        assert(paths_view(files@).take(files@.len() as int) =~= paths_view(files@));
    }
    out
}

} // verus!
