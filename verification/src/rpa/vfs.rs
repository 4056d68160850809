//! The virtual file system's bookkeeping: mounted directories and
//! archives, which archive a file is read from, and the merged listing.
//! Reading directories and files is left to the caller.

use vstd::prelude::*;
use vstd::string::StringSliceAdditionalSpecFns;
use vstd::utf8::encode_utf8;

use crate::rpa::archive::{name_index, ArchiveView, RpaArchive};
use crate::strings::{replace_backslashes, slashes};

verus! {

/// Byte-wise lexicographic order, the order of `str` and `String`.
pub open spec fn bytes_lt(a: Seq<u8>, b: Seq<u8>) -> bool
    decreases a.len(),
{
    if a.len() == 0 {
        b.len() > 0
    } else if b.len() == 0 {
        false
    } else if a[0] != b[0] {
        a[0] < b[0]
    } else {
        bytes_lt(a.drop_first(), b.drop_first())
    }
}

/// The order of two texts: that of their UTF-8 bytes.
pub open spec fn text_lt(a: Seq<char>, b: Seq<char>) -> bool {
    bytes_lt(encode_utf8(a), encode_utf8(b))
}

/// No sequence comes before itself.
pub proof fn lemma_bytes_lt_irreflexive(a: Seq<u8>)
    ensures
        !bytes_lt(a, a),
    decreases a.len(),
{
    if a.len() > 0 {
        lemma_bytes_lt_irreflexive(a.drop_first());
    }
}

/// The order is transitive.
pub proof fn lemma_bytes_lt_transitive(a: Seq<u8>, b: Seq<u8>, c: Seq<u8>)
    requires
        bytes_lt(a, b),
        bytes_lt(b, c),
    ensures
        bytes_lt(a, c),
    decreases a.len(),
{
    if a.len() > 0 && b.len() > 0 && c.len() > 0 && a[0] == b[0] && b[0] == c[0] {
        lemma_bytes_lt_transitive(a.drop_first(), b.drop_first(), c.drop_first());
    }
}

/// Any two different sequences are ordered one way or the other.
pub proof fn lemma_bytes_lt_total(a: Seq<u8>, b: Seq<u8>)
    ensures
        a == b || bytes_lt(a, b) || bytes_lt(b, a),
    decreases a.len(),
{
    if a.len() > 0 && b.len() > 0 && a[0] == b[0] {
        lemma_bytes_lt_total(a.drop_first(), b.drop_first());
        if a.drop_first() == b.drop_first() {
            assert(a =~= seq![a[0]] + a.drop_first());
            assert(b =~= seq![b[0]] + b.drop_first());
        }
    } else if a.len() == 0 && b.len() == 0 {
        assert(a =~= b);
    }
}

/// Whether texts are in strictly increasing order.
pub open spec fn strictly_sorted(v: Seq<Seq<char>>) -> bool {
    forall|i: int, j: int| 0 <= i < j < v.len() ==> text_lt(#[trigger] v[i], #[trigger] v[j])
}

/// How two byte strings compare.
#[derive(Debug, Clone, Copy, PartialEq, Eq, Structural)]
pub enum Order {
    Before,
    Same,
    After,
}

/// Compares two byte strings lexicographically.
pub fn compare_bytes(a: &[u8], b: &[u8]) -> (r: Order)
    ensures
        r == Order::Before <==> bytes_lt(a@, b@),
        r == Order::Same <==> a@ == b@,
        r == Order::After <==> bytes_lt(b@, a@),
{
    let mut k: usize = 0;
    proof {
        lemma_bytes_lt_irreflexive(a@);
    }
    assert(a@.subrange(0, a@.len() as int) =~= a@);
    assert(b@.subrange(0, b@.len() as int) =~= b@);
    while k < a.len() && k < b.len() && a[k] == b[k]
        invariant
            k <= a@.len(),
            k <= b@.len(),
            a@.subrange(0, k as int) == b@.subrange(0, k as int),
            bytes_lt(a@, b@) == bytes_lt(a@.subrange(k as int, a@.len() as int), b@.subrange(k as int, b@.len() as int)),
            bytes_lt(b@, a@) == bytes_lt(b@.subrange(k as int, b@.len() as int), a@.subrange(k as int, a@.len() as int)),
        decreases a@.len() - k,
    {
        let ghost ra = a@.subrange(k as int, a@.len() as int);
        let ghost rb = b@.subrange(k as int, b@.len() as int);
        assert(ra.drop_first() =~= a@.subrange(k + 1, a@.len() as int));
        assert(rb.drop_first() =~= b@.subrange(k + 1, b@.len() as int));
        assert(a@.subrange(0, k + 1) =~= a@.subrange(0, k as int).push(a@[k as int]));
        assert(b@.subrange(0, k + 1) =~= b@.subrange(0, k as int).push(b@[k as int]));
        k += 1;
    }
    let ghost ra = a@.subrange(k as int, a@.len() as int);
    let ghost rb = b@.subrange(k as int, b@.len() as int);
    if k == a.len() && k == b.len() {
        assert(a@ =~= a@.subrange(0, k as int));
        assert(b@ =~= b@.subrange(0, k as int));
        Order::Same
    } else if k == a.len() {
        assert(a@ != b@) by {
            assert(a@.len() != b@.len());
        }
        Order::Before
    } else if k == b.len() {
        assert(a@ != b@) by {
            assert(a@.len() != b@.len());
        }
        Order::After
    } else {
        assert(a@ != b@) by {
            assert(a@[k as int] != b@[k as int]);
        }
        if a[k] < b[k] {
            Order::Before
        } else {
            Order::After
        }
    }
}


/// The texts of a list of strings.
pub open spec fn texts_of(v: Seq<String>) -> Seq<Seq<char>> {
    v.map_values(|s: String| s@)
}

/// Two texts are equal exactly when their UTF-8 encodings are.
pub(crate) proof fn lemma_encode_injective(a: Seq<char>, b: Seq<char>)
    ensures
        (encode_utf8(a) == encode_utf8(b)) == (a == b),
{
    vstd::utf8::encode_utf8_decode_utf8(a);
    vstd::utf8::encode_utf8_decode_utf8(b);
}

/// The position at which `s` belongs in a strictly sorted list: every
/// text before it is smaller, none from it on is.
fn insertion_point(out: &Vec<String>, s: &String) -> (r: usize)
    requires
        strictly_sorted(texts_of(out@)),
    ensures
        r <= out@.len(),
        forall|i: int| 0 <= i < r ==> text_lt(#[trigger] out@[i]@, s@),
        forall|i: int| r <= i < out@.len() ==> !text_lt(#[trigger] out@[i]@, s@),
{
    let ghost v = texts_of(out@);
    let mut lo: usize = 0;
    let mut hi: usize = out.len();
    while lo < hi
        invariant
            v == texts_of(out@),
            strictly_sorted(v),
            lo <= hi <= out@.len(),
            forall|i: int| 0 <= i < lo ==> text_lt(#[trigger] out@[i]@, s@),
            forall|i: int| hi <= i < out@.len() ==> !text_lt(#[trigger] out@[i]@, s@),
        decreases hi - lo,
    {
        let mid = lo + (hi - lo) / 2;
        let o = compare_bytes(out[mid].as_str().as_bytes(), s.as_str().as_bytes());
        assert(v[mid as int] == out@[mid as int]@);
        if o == Order::Before {
            assert forall|i: int| 0 <= i <= mid implies text_lt(#[trigger] out@[i]@, s@) by {
                if i < mid {
                    assert(v[i] == out@[i]@);
                    assert(text_lt(v[i], v[mid as int]));
                    lemma_bytes_lt_transitive(encode_utf8(out@[i]@), encode_utf8(out@[mid as int]@), encode_utf8(s@));
                }
            }
            lo = mid + 1;
        } else {
            assert forall|i: int| mid <= i < out@.len() implies !text_lt(#[trigger] out@[i]@, s@) by {
                if i > mid && text_lt(out@[i]@, s@) {
                    assert(v[i] == out@[i]@);
                    assert(text_lt(v[mid as int], v[i]));
                    lemma_bytes_lt_transitive(encode_utf8(out@[mid as int]@), encode_utf8(out@[i]@), encode_utf8(s@));
                }
            }
            hi = mid;
        }
    }
    lo
}

/// The texts in strictly increasing order, each once: what sorting and
/// removing repeats gives.
pub fn sorted_unique(items: Vec<String>) -> (r: Vec<String>)
    ensures
        strictly_sorted(texts_of(r@)),
        forall|t: Seq<char>| texts_of(r@).contains(t) <==> texts_of(items@).contains(t),
{
    let ghost all = texts_of(items@);
    let mut out: Vec<String> = Vec::new();
    let mut k: usize = 0;
    while k < items.len()
        invariant
            k <= items@.len(),
            all == texts_of(items@),
            strictly_sorted(texts_of(out@)),
            forall|t: Seq<char>| texts_of(out@).contains(t) <==> all.subrange(0, k as int).contains(t),
        decreases items@.len() - k,
    {
        let s = &items[k];
        let ghost v = texts_of(out@);
        let p = insertion_point(&out, s);
        let present = p < out.len() && compare_bytes(out[p].as_str().as_bytes(), s.as_str().as_bytes())
            == Order::Same;
        proof {
            if p < out@.len() {
                lemma_encode_injective(out@[p as int]@, s@);
            }
        }
        if !present {
            let c = s.clone();
            out.insert(p, c);
            proof {
                let w = texts_of(out@);
                assert(w =~= v.insert(p as int, s@));
                if p < v.len() {
                    lemma_bytes_lt_total(encode_utf8(v[p as int]), encode_utf8(s@));
                    lemma_encode_injective(v[p as int], s@);
                    assert(text_lt(s@, v[p as int]));
                }
                assert forall|i: int, j: int| 0 <= i < j < w.len() implies text_lt(#[trigger] w[i], #[trigger] w[j]) by {
                    if j < p {
                        assert(w[i] == v[i] && w[j] == v[j]);
                    } else if j == p {
                        assert(w[i] == out@[i]@);
                        assert(w[i] == v[i]);
                    } else if i == p {
                        assert(w[j] == v[j - 1]);
                        if j - 1 > p {
                            assert(text_lt(v[p as int], v[j - 1]));
                            lemma_bytes_lt_transitive(encode_utf8(s@), encode_utf8(v[p as int]), encode_utf8(v[j - 1]));
                        }
                    } else if i < p {
                        assert(w[i] == v[i] && w[j] == v[j - 1]);
                        if i < j - 1 {
                        } else {
                            assert(false);
                        }
                    } else {
                        assert(w[i] == v[i - 1] && w[j] == v[j - 1]);
                    }
                }
            }
        }
        proof {
            let w = texts_of(out@);
            assert(all.subrange(0, k + 1) =~= all.subrange(0, k as int).push(s@));
            assert forall|t: Seq<char>| w.contains(t) <==> all.subrange(0, k + 1).contains(t) by {
                if t == s@ {
                    if present {
                        assert(v[p as int] == s@);
                        assert(w.contains(t));
                    } else {
                        assert(w[p as int] == s@);
                    }
                    assert(all.subrange(0, k + 1)[k as int] == s@);
                } else {
                    if all.subrange(0, k + 1).contains(t) {
                        let j = choose|j: int| 0 <= j < k + 1 && #[trigger] all.subrange(0, k + 1)[j] == t;
                        assert(all.subrange(0, k as int)[j] == t);
                        assert(v.contains(t));
                        let i = choose|i: int| 0 <= i < v.len() && #[trigger] v[i] == t;
                        if !present {
                            if i < p {
                                assert(w[i] == t);
                            } else {
                                assert(w[i + 1] == t);
                            }
                        } else {
                            assert(w[i] == t);
                        }
                    }
                    if w.contains(t) {
                        let i = choose|i: int| 0 <= i < w.len() && #[trigger] w[i] == t;
                        if !present {
                            if i < p {
                                assert(v[i] == t);
                            } else if i > p {
                                assert(v[i - 1] == t);
                            }
                        } else {
                            assert(v[i] == t);
                        }
                        assert(v.contains(t));
                        let j = choose|j: int| 0 <= j < k && #[trigger] all.subrange(0, k as int)[j] == t;
                        assert(all.subrange(0, k + 1)[j] == t);
                    }
                }
            }
        }
        k += 1;
    }
    assert(all.subrange(0, items@.len() as int) =~= all);
    out
}


/// The last position among `archives[..k]` of an archive holding `name`.
pub open spec fn archive_holding(archives: Seq<ArchiveView>, name: Seq<char>, k: int) -> Option<int>
    decreases k,
{
    if k <= 0 || k > archives.len() {
        None
    } else if name_index(archives[k - 1].entries, name) is Some {
        Some(k - 1)
    } else {
        archive_holding(archives, name, k - 1)
    }
}

/// Every file name of the archives, archive by archive, in index order.
pub open spec fn archive_names(archives: Seq<ArchiveView>) -> Seq<Seq<char>>
    decreases archives.len(),
{
    if archives.len() == 0 {
        seq![]
    } else {
        archive_names(archives.drop_last()) + archives.last().entries.map_values(|e: crate::rpa::archive::EntryView| e.name)
    }
}

/// Abstract contents of a [`Vfs`].
pub struct VfsView {
    pub dirs: Seq<Seq<char>>,
    pub archives: Seq<ArchiveView>,
}

/// The mounted directories and archives of a game. Loose files in the
/// directories come first; among archives, the one mounted last wins.
pub struct Vfs {
    search_dirs: Vec<String>,
    archives: Vec<RpaArchive>,
}

impl View for Vfs {
    type V = VfsView;

    closed spec fn view(&self) -> VfsView {
        VfsView {
            dirs: texts_of(self.search_dirs@),
            archives: self.archives@.map_values(|a: RpaArchive| a@),
        }
    }
}

/// Where a file of the game is read from.
#[derive(Debug, Clone, Copy, PartialEq, Eq, Structural)]
pub enum Source {
    /// The mounted directory at this position.
    Directory(usize),
    /// The mounted archive at this position.
    Archive(usize),
    /// Nowhere: no directory or archive holds it.
    Missing,
}

/// The first position from `i` on that holds `true`.
pub open spec fn first_true(s: Seq<bool>, i: int) -> Option<int>
    decreases s.len() - i,
{
    if i < 0 || i >= s.len() {
        None
    } else if s[i] {
        Some(i)
    } else {
        first_true(s, i + 1)
    }
}

/// Where a file is read from, given which mounted directories hold it: the
/// first of those directories; else the last mounted archive that holds
/// it; else nowhere.
pub open spec fn source_of(v: VfsView, in_dirs: Seq<bool>, name: Seq<char>) -> Source {
    match first_true(in_dirs, 0) {
        Some(i) => Source::Directory(i as usize),
        None => match archive_holding(v.archives, name, v.archives.len() as int) {
            Some(k) => Source::Archive(k as usize),
            None => Source::Missing,
        },
    }
}

/// `first_true` finds the first `true`.
proof fn lemma_first_true(s: Seq<bool>, i: int)
    requires
        0 <= i,
    ensures
        match first_true(s, i) {
            Some(j) => i <= j < s.len() && s[j] && forall|m: int| i <= m < j ==> !s[m],
            None => forall|m: int| i <= m < s.len() ==> !s[m],
        },
    decreases s.len() - i,
{
    if i < s.len() && !s[i] {
        lemma_first_true(s, i + 1);
    }
}

/// `archive_holding` finds the last archive that holds the name.
proof fn lemma_archive_holding(archives: Seq<ArchiveView>, name: Seq<char>, k: int)
    requires
        0 <= k <= archives.len(),
    ensures
        match archive_holding(archives, name, k) {
            Some(j) => 0 <= j < k && name_index(archives[j].entries, name) is Some && forall|m: int|
                j < m < k ==> name_index(#[trigger] archives[m].entries, name) is None,
            None => forall|m: int| 0 <= m < k ==> name_index(#[trigger] archives[m].entries, name) is None,
        },
    decreases k,
{
    if k > 0 && name_index(archives[k - 1].entries, name) is None {
        lemma_archive_holding(archives, name, k - 1);
    }
}

/// Loose files come first: a file that a mounted directory holds is read
/// from the first such directory, whatever the archives hold.
pub proof fn law_directories_come_first(v: VfsView, in_dirs: Seq<bool>, name: Seq<char>, i: int)
    requires
        0 <= i < in_dirs.len() <= usize::MAX,
        in_dirs[i],
    ensures
        source_of(v, in_dirs, name) matches Source::Directory(d) && d <= i && in_dirs[d as int],
{
    lemma_first_true(in_dirs, 0);
    let j = first_true(in_dirs, 0)->0;
    assert(j <= i);
    assert((j as usize) as int == j);
}

/// Among archives, the one mounted last wins: a file no directory holds is
/// read from an archive that holds it and after which no archive does, and
/// is missing only when no archive holds it.
pub proof fn law_last_archive_wins(v: VfsView, in_dirs: Seq<bool>, name: Seq<char>)
    requires
        forall|i: int| 0 <= i < in_dirs.len() ==> !in_dirs[i],
        v.archives.len() <= usize::MAX,
    ensures
        match source_of(v, in_dirs, name) {
            Source::Archive(k) => k < v.archives.len() && name_index(v.archives[k as int].entries, name) is Some
                && forall|m: int|
                k < m < v.archives.len() ==> name_index(#[trigger] v.archives[m].entries, name) is None,
            Source::Missing => forall|m: int|
                0 <= m < v.archives.len() ==> name_index(#[trigger] v.archives[m].entries, name) is None,
            Source::Directory(_) => false,
        },
{
    lemma_first_true(in_dirs, 0);
    lemma_archive_holding(v.archives, name, v.archives.len() as int);
    if let Some(k) = archive_holding(v.archives, name, v.archives.len() as int) {
        assert((k as usize) as int == k);
    }
}

/// `char::to_ascii_lowercase`.
pub open spec fn ascii_lower(c: char) -> char {
    if 'A' <= c <= 'Z' {
        ((c as u32) + 32) as char
    } else {
        c
    }
}

/// Whether a file extension is `rpa` in any ASCII case, as
/// `eq_ignore_ascii_case("rpa")` decides.
pub open spec fn is_rpa_extension(ext: Seq<char>) -> bool {
    ext.len() == 3 && ascii_lower(ext[0]) == 'r' && ascii_lower(ext[1]) == 'p' && ascii_lower(ext[2])
        == 'a'
}

/// Whether a file extension marks an archive to mount.
pub fn is_archive_extension(ext: &str) -> (r: bool)
    ensures
        r == is_rpa_extension(ext@),
{
    let cs = crate::text::str_chars(ext);
    if cs.len() != 3 {
        return false;
    }
    let a = cs[0] == 'r' || cs[0] == 'R';
    let b = cs[1] == 'p' || cs[1] == 'P';
    let c = cs[2] == 'a' || cs[2] == 'A';
    a && b && c
}

/// A path with backslashes turned into slashes.
pub fn normalize_path(path: &str) -> (r: String)
    ensures
        r@ == slashes(path@),
{
    replace_backslashes(path)
}

impl Vfs {
    /// Nothing mounted.
    pub fn new() -> (r: Self)
        ensures
            r@.dirs.len() == 0,
            r@.archives.len() == 0,
    {
        Vfs { search_dirs: Vec::new(), archives: Vec::new() }
    }

    /// Adds a directory to search, after those already added.
    pub fn add_directory(&mut self, dir: String)
        ensures
            final(self)@.dirs == old(self)@.dirs.push(dir@),
            final(self)@.archives == old(self)@.archives,
    {
        let ghost d = dir@;
        self.search_dirs.push(dir);
        assert(self@.dirs =~= old(self)@.dirs.push(d));
    }

    /// Adds an archive, taking precedence over those already added.
    pub fn add_archive(&mut self, archive: RpaArchive)
        ensures
            final(self)@.archives == old(self)@.archives.push(archive@),
            final(self)@.dirs == old(self)@.dirs,
    {
        let ghost a = archive@;
        self.archives.push(archive);
        assert(self@.archives =~= old(self)@.archives.push(a));
    }

    /// The directories, in search order.
    pub fn search_dirs(&self) -> (r: &Vec<String>)
        ensures
            texts_of(r@) == self@.dirs,
    {
        &self.search_dirs
    }

    /// The number of mounted archives.
    pub fn archive_count(&self) -> (r: usize)
        ensures
            r == self@.archives.len(),
    {
        self.archives.len()
    }

    /// The mounted archive at a position.
    pub fn archive(&self, k: usize) -> (r: &RpaArchive)
        requires
            k < self@.archives.len(),
        ensures
            r@ == self@.archives[k as int],
    {
        &self.archives[k]
    }

    /// The archive a file is read from when no directory holds it: the
    /// last mounted one that holds the (normalized) path.
    pub fn archive_for(&self, path: &str) -> (r: Option<usize>)
        ensures
            match archive_holding(self@.archives, slashes(path@), self@.archives.len() as int) {
                Some(k) => r matches Some(j) && j as int == k,
                None => r is None,
            },
    {
        let ghost name = slashes(path@);
        let mut k = self.archives.len();
        while k > 0
            invariant
                k <= self.archives@.len(),
                name == slashes(path@),
                self@.archives == self.archives@.map_values(|a: RpaArchive| a@),
                archive_holding(self@.archives, name, self@.archives.len() as int) == archive_holding(
                    self@.archives,
                    name,
                    k as int,
                ),
            decreases k,
        {
            assert(self@.archives[k - 1] == self.archives@[k - 1]@);
            if self.archives[k - 1].contains(path) {
                return Some(k - 1);
            }
            k -= 1;
        }
        None
    }

    /// Where a file is read from, given for each mounted directory whether
    /// it holds the (normalized) path as a file.
    pub fn source_for(&self, path: &str, in_dirs: &Vec<bool>) -> (r: Source)
        ensures
            r == source_of(self@, in_dirs@, slashes(path@)),
    {
        let mut i: usize = 0;
        while i < in_dirs.len()
            invariant
                i <= in_dirs@.len(),
                first_true(in_dirs@, 0) == first_true(in_dirs@, i as int),
            decreases in_dirs@.len() - i,
        {
            if in_dirs[i] {
                return Source::Directory(i);
            }
            i += 1;
        }
        match self.archive_for(path) {
            Some(k) => Source::Archive(k),
            None => Source::Missing,
        }
    }

    /// The merged listing: the files found in the directories and the
    /// files of every archive, sorted, each name once.
    pub fn listing(&self, dir_files: Vec<String>) -> (r: Vec<String>)
        ensures
            strictly_sorted(texts_of(r@)),
            forall|t: Seq<char>| texts_of(r@).contains(t) <==> (texts_of(dir_files@).contains(t)
                || archive_names(self@.archives).contains(t)),
    {
        let ghost d = texts_of(dir_files@);
        let mut files = dir_files;
        let mut k: usize = 0;
        assert(texts_of(files@) =~= d + archive_names(self@.archives.subrange(0, 0)));
        while k < self.archives.len()
            invariant
                k <= self.archives@.len(),
                self@.archives == self.archives@.map_values(|a: RpaArchive| a@),
                texts_of(files@) == d + archive_names(self@.archives.subrange(0, k as int)),
            decreases self.archives@.len() - k,
        {
            let names = self.archives[k].list_files();
            let ghost before = texts_of(files@);
            let ghost here = self@.archives[k as int].entries.map_values(|e: crate::rpa::archive::EntryView| e.name);
            assert(self@.archives[k as int] == self.archives@[k as int]@);
            let mut j: usize = 0;
            while j < names.len()
                invariant
                    j <= names@.len(),
                    names@.len() == here.len(),
                    forall|i: int| 0 <= i < names@.len() ==> #[trigger] names@[i]@ == here[i],
                    texts_of(files@) == before + here.subrange(0, j as int),
                decreases names@.len() - j,
            {
                let ghost old_files = texts_of(files@);
                let c = names[j].clone();
                files.push(c);
                assert(texts_of(files@) =~= old_files.push(names@[j as int]@));
                assert(here.subrange(0, j + 1) =~= here.subrange(0, j as int).push(here[j as int]));
                assert(texts_of(files@) =~= before + here.subrange(0, j + 1));
                j += 1;
            }
            assert(here.subrange(0, names@.len() as int) =~= here);
            assert(self@.archives.subrange(0, k + 1).drop_last() =~= self@.archives.subrange(0, k as int));
            assert(texts_of(files@) =~= d + archive_names(self@.archives.subrange(0, k + 1)));
            k += 1;
        }
        assert(self@.archives.subrange(0, self.archives@.len() as int) =~= self@.archives);
        let r = sorted_unique(files);
        proof {
            assert forall|t: Seq<char>| d.contains(t) || archive_names(self@.archives).contains(t) implies (d
                + archive_names(self@.archives)).contains(t) by {
                if d.contains(t) {
                    let i = choose|i: int| 0 <= i < d.len() && #[trigger] d[i] == t;
                    assert((d + archive_names(self@.archives))[i] == t);
                } else {
                    let a = archive_names(self@.archives);
                    let i = choose|i: int| 0 <= i < a.len() && #[trigger] a[i] == t;
                    assert((d + a)[d.len() + i] == t);
                }
            }
            assert forall|t: Seq<char>| (d + archive_names(self@.archives)).contains(t) implies d.contains(t)
                || archive_names(self@.archives).contains(t) by {
                let a = archive_names(self@.archives);
                let i = choose|i: int| 0 <= i < (d + a).len() && #[trigger] (d + a)[i] == t;
                if i < d.len() {
                    assert(d[i] == t);
                } else {
                    assert(a[i - d.len()] == t);
                }
            }
        }
        r
    }
}

impl Default for Vfs {
    /// Nothing mounted, as `new` makes it.
    fn default() -> (r: Self)
        ensures
            r@.dirs.len() == 0,
            r@.archives.len() == 0,
    {
        Self::new()
    }
}

} // verus!
