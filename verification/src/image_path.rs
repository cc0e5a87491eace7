//! Paths as plain byte strings, and the little pieces of path syntax the
//! triage logic reads: the file name after the last `'/'`, and the extension
//! after the last `'.'` of that name.

use vstd::prelude::*;

verus! {

/// The byte value of `'/'`.
pub const SLASH: u8 = 47;

/// The byte value of `'.'`.
pub const DOT: u8 = 46;

/// Index of the last occurrence of `c` in `p`, or `-1` if `c` does not occur.
pub open spec fn last_pos(p: Seq<u8>, c: u8) -> int
    decreases p.len(),
{
    if p.len() == 0 {
        -1
    } else if p.last() == c {
        p.len() - 1
    } else {
        last_pos(p.drop_last(), c)
    }
}

/// The file name of a path: everything after the last `'/'`
/// (the whole path when it holds no `'/'`).
pub open spec fn file_name_of(p: Seq<u8>) -> Seq<u8> {
    p.subrange(last_pos(p, SLASH) + 1, p.len() as int)
}

/// The extension of a file name: everything after the last `'.'`, unless the
/// only `'.'` leads the name (a hidden file has no extension) or there is
/// none at all.
pub open spec fn extension_of(name: Seq<u8>) -> Seq<u8> {
    if last_pos(name, DOT) <= 0 {
        Seq::<u8>::empty()
    } else {
        name.subrange(last_pos(name, DOT) + 1, name.len() as int)
    }
}

/// ASCII lower-casing of one byte.
pub open spec fn lower_byte(b: u8) -> u8 {
    if 65 <= b <= 90 {
        (b + 32) as u8
    } else {
        b
    }
}

/// ASCII lower-casing of a byte string.
pub open spec fn lower_ascii(s: Seq<u8>) -> Seq<u8> {
    s.map_values(|b: u8| lower_byte(b))
}

/// A file location, held as the raw bytes of its textual form.  The library
/// treats it as an opaque key: two paths are the same picture exactly when
/// their bytes are equal.
#[derive(Debug, PartialEq, Eq, Hash)]
pub struct ImagePath {
    bytes: Vec<u8>,
}

impl View for ImagePath {
    type V = Seq<u8>;

    closed spec fn view(&self) -> Seq<u8> {
        self.bytes@
    }
}

impl ImagePath {
    pub fn from_bytes(bytes: Vec<u8>) -> (r: ImagePath)
        ensures
            r@ == bytes@,
    {
        ImagePath { bytes }
    }

    pub fn as_bytes(&self) -> (r: &Vec<u8>)
        ensures
            r@ == self@,
    {
        &self.bytes
    }

    /// Whether two paths name the same picture.
    pub fn same_as(&self, other: &ImagePath) -> (r: bool)
        ensures
            r == (self@ == other@),
    {
        bytes_eq(&self.bytes, &other.bytes)
    }

    /// The file name of this path, as fresh bytes.
    pub fn file_name(&self) -> (r: Vec<u8>)
        ensures
            r@ == file_name_of(self@),
    {
        let n = self.bytes.len();
        match last_byte_pos(&self.bytes, SLASH) {
            Some(i) => sub_bytes(&self.bytes, i + 1, n),
            None => sub_bytes(&self.bytes, 0, n),
        }
    }
}

impl Clone for ImagePath {
    fn clone(&self) -> (r: Self)
        ensures
            r@ == self@,
    {
        ImagePath { bytes: sub_bytes(&self.bytes, 0, self.bytes.len()) }
    }
}

/// Exact equality of two byte strings.
pub fn bytes_eq(a: &Vec<u8>, b: &Vec<u8>) -> (r: bool)
    ensures
        r == (a@ == b@),
{
    if a.len() != b.len() {
        return false;
    }
    let mut i: usize = 0;
    while i < a.len()
        invariant
            a@.len() == b@.len(),
            i <= a@.len(),
            forall|j: int| 0 <= j < i ==> a@[j] == b@[j],
        decreases a@.len() - i,
    {
        if a[i] != b[i] {
            return false;
        }
        i = i + 1;
    }
    proof {
        assert(a@ =~= b@);
    }
    true
}

/// A fresh copy of `v[from..to]`.
pub fn sub_bytes(v: &Vec<u8>, from: usize, to: usize) -> (r: Vec<u8>)
    requires
        from <= to <= v@.len(),
    ensures
        r@ == v@.subrange(from as int, to as int),
{
    let mut r: Vec<u8> = Vec::new();
    let mut i: usize = from;
    while i < to
        invariant
            from <= i <= to <= v@.len(),
            r@ == v@.subrange(from as int, i as int),
        decreases to - i,
    {
        r.push(v[i]);
        proof {
            assert(r@ =~= v@.subrange(from as int, i + 1 as int));
        }
        i = i + 1;
    }
    r
}

proof fn lemma_last_pos_split(p: Seq<u8>, c: u8, i: int)
    requires
        0 <= i <= p.len(),
        forall|j: int| i <= j < p.len() ==> p[j] != c,
    ensures
        last_pos(p, c) == last_pos(p.subrange(0, i), c),
    decreases p.len() - i,
{
    if i < p.len() {
        assert(p.last() != c);
        assert(p.drop_last() =~= p.subrange(0, p.len() - 1));
        lemma_last_pos_split(p.subrange(0, p.len() - 1), c, i);
        assert(p.subrange(0, p.len() - 1).subrange(0, i) =~= p.subrange(0, i));
    } else {
        assert(p.subrange(0, i) =~= p);
    }
}

/// Index of the last occurrence of `c` in `v`, or `None` if `c` does not
/// occur.
pub fn last_byte_pos(v: &Vec<u8>, c: u8) -> (r: Option<usize>)
    ensures
        match r {
            Some(i) => i < v@.len() && last_pos(v@, c) == i as int,
            None => last_pos(v@, c) == -1,
        },
{
    let mut i: usize = v.len();
    while i > 0
        invariant
            i <= v@.len(),
            forall|j: int| i <= j < v@.len() ==> v@[j] != c,
        decreases i,
    {
        i = i - 1;
        if v[i] == c {
            proof {
                lemma_last_pos_split(v@, c, i + 1);
                let q = v@.subrange(0, i + 1);
                assert(q.last() == v@[i as int]);
            }
            return Some(i);
        }
    }
    proof {
        lemma_last_pos_split(v@, c, 0);
        assert(v@.subrange(0, 0) =~= Seq::<u8>::empty());
    }
    None
}

/// ASCII lower-casing of a byte string, as fresh bytes.
pub fn lower_ascii_bytes(v: &Vec<u8>) -> (r: Vec<u8>)
    ensures
        r@ == lower_ascii(v@),
{
    let mut r: Vec<u8> = Vec::new();
    let mut i: usize = 0;
    while i < v.len()
        invariant
            i <= v@.len(),
            r@ == lower_ascii(v@.subrange(0, i as int)),
        decreases v@.len() - i,
    {
        let b = v[i];
        if 65 <= b && b <= 90 {
            r.push(b + 32);
        } else {
            r.push(b);
        }
        proof {
            assert(r@ =~= lower_ascii(v@.subrange(0, i + 1 as int)));
        }
        i = i + 1;
    }
    proof {
        assert(v@.subrange(0, v@.len() as int) =~= v@);
    }
    r
}

} // verus!
