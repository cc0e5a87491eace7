//! One triage bucket: an ordered list of paths with front insertion and
//! front removal, so that moving a picture between two buckets is a pair of
//! front operations.

use std::collections::VecDeque;

use vstd::prelude::*;

use crate::image_path::ImagePath;

verus! {

/// The byte strings of a sequence of paths.
pub open spec fn views_of(s: Seq<ImagePath>) -> Seq<Seq<u8>> {
    s.map_values(|p: ImagePath| p@)
}

/// An ordered collection of paths for one bucket (unprocessed, saved or
/// deleted).  Index `0` of the view is the front: the entry `next` and
/// `peek` look at, and the place `add` inserts.
pub struct PictureList {
    value: VecDeque<ImagePath>,
}

impl View for PictureList {
    type V = Seq<Seq<u8>>;

    closed spec fn view(&self) -> Seq<Seq<u8>> {
        views_of(self.value@)
    }
}

impl PictureList {
    pub fn new(value: VecDeque<ImagePath>) -> (r: PictureList)
        ensures
            r@ == views_of(value@),
    {
        PictureList { value }
    }

    /// How many entries the bucket holds.
    pub fn size(&self) -> (r: usize)
        ensures
            r == self@.len(),
    {
        self.value.len()
    }

    /// Inserts `path` at the front: one `add` grows the size by exactly
    /// one.
    pub fn add(&mut self, path: ImagePath)
        ensures
            final(self)@ == seq![path@] + old(self)@,
            final(self)@.len() == old(self)@.len() + 1,
    {
        self.value.push_front(path);
        proof {
            assert(final(self)@ =~= seq![path@] + old(self)@);
        }
    }

    /// Removes and returns the front entry.  The caller keeps this off an
    /// empty bucket by checking `size` first.
    pub fn next(&mut self) -> (r: ImagePath)
        requires
            old(self)@.len() > 0,
        ensures
            r@ == old(self)@[0],
            final(self)@ == old(self)@.drop_first(),
            final(self)@.len() == old(self)@.len() - 1,
    {
        match self.value.pop_front() {
            Some(p) => {
                proof {
                    assert(final(self)@ =~= old(self)@.drop_first());
                }
                p
            },
            None => vstd::pervasive::unreached(),
        }
    }

    /// The front entry, left in place.  The caller keeps this off an empty
    /// bucket by checking `size` first.
    pub fn peek(&self) -> (r: &ImagePath)
        requires
            self@.len() > 0,
        ensures
            r@ == self@[0],
    {
        &self.value[0]
    }

    /// Moves the front entry of `other` to the front of `self`: the moved
    /// path is unchanged on the way, `self` grows by exactly one and
    /// `other` shrinks by exactly one.
    pub fn transfer_from(&mut self, other: &mut PictureList)
        requires
            old(other)@.len() > 0,
        ensures
            final(self)@ == seq![old(other)@[0]] + old(self)@,
            final(other)@ == old(other)@.drop_first(),
            final(self)@.len() == old(self)@.len() + 1,
            final(other)@.len() == old(other)@.len() - 1,
    {
        let p = other.next();
        self.add(p);
    }

    /// The bucket's entries from front to back, as fresh copies, for bulk
    /// reads (pipeline warm-up and the final commit).
    pub fn path_iterator(&self) -> (r: Vec<ImagePath>)
        ensures
            views_of(r@) == self@,
            r@.len() == self@.len(),
    {
        let mut r: Vec<ImagePath> = Vec::new();
        let n = self.value.len();
        let mut i: usize = 0;
        while i < n
            invariant
                n == self.value@.len(),
                i <= n,
                views_of(r@) == self@.subrange(0, i as int),
                r@.len() == i,
            decreases n - i,
        {
            r.push(self.value[i].clone());
            proof {
                assert(views_of(r@) =~= self@.subrange(0, i + 1 as int));
            }
            i = i + 1;
        }
        proof {
            assert(self@.subrange(0, self@.len() as int) =~= self@);
        }
        r
    }
}

impl Default for PictureList {
    /// A fresh, empty bucket.
    fn default() -> (r: PictureList)
        ensures
            r@ == Seq::<Seq<u8>>::empty(),
    {
        let r = PictureList { value: VecDeque::new() };
        proof {
            assert(r@ =~= Seq::<Seq<u8>>::empty());
        }
        r
    }
}

impl Clone for PictureList {
    fn clone(&self) -> (r: Self)
        ensures
            r@ == self@,
    {
        let mut value: VecDeque<ImagePath> = VecDeque::new();
        let n = self.value.len();
        let mut i: usize = 0;
        while i < n
            invariant
                n == self.value@.len(),
                i <= n,
                views_of(value@) == self@.subrange(0, i as int),
                value@.len() == i,
            decreases n - i,
        {
            value.push_back(self.value[i].clone());
            proof {
                assert(views_of(value@) =~= self@.subrange(0, i + 1 as int));
            }
            i = i + 1;
        }
        proof {
            assert(self@.subrange(0, self@.len() as int) =~= self@);
        }
        PictureList { value }
    }
}

} // verus!
