//! The classification ledger: three buckets (unprocessed, saved, deleted)
//! and an undo history with one boolean tag per decision — `true` for a
//! save, `false` for a delete.  Every transition moves exactly one path
//! between bucket fronts, so the discovered set is never grown or shrunk,
//! only relocated.

use std::collections::VecDeque;

use vstd::multiset::Multiset;
use vstd::prelude::*;

use crate::image_path::ImagePath;
use crate::picture_list::PictureList;

verus! {

/// The mathematical state of a ledger: the three buckets as sequences of
/// path byte strings (front first) and the history of decision tags (most
/// recent first).
#[verifier::ext_equal]
pub struct LedgerView {
    pub unprocessed: Seq<Seq<u8>>,
    pub saved: Seq<Seq<u8>>,
    pub deleted: Seq<Seq<u8>>,
    pub history: Seq<bool>,
}

/// How many tags in a history are `true` (decisions that saved a picture).
pub open spec fn count_true(h: Seq<bool>) -> nat
    decreases h.len(),
{
    if h.len() == 0 {
        0
    } else {
        (if h[0] {
            1nat
        } else {
            0nat
        }) + count_true(h.drop_first())
    }
}

/// The ledger invariant: the history records exactly the decisions whose
/// outcomes sit in the saved and deleted buckets — one `true` per saved
/// entry and one `false` per deleted entry.
pub open spec fn ledger_inv(v: LedgerView) -> bool {
    &&& count_true(v.history) == v.saved.len()
    &&& v.history.len() - count_true(v.history) == v.deleted.len()
}

/// What one `save` call does: the front unprocessed path moves to the front
/// of the saved bucket and a `true` tag is pushed.
pub open spec fn save_step(pre: LedgerView, post: LedgerView) -> bool {
    &&& pre.unprocessed.len() > 0
    &&& post.unprocessed == pre.unprocessed.drop_first()
    &&& post.saved == seq![pre.unprocessed[0]] + pre.saved
    &&& post.deleted == pre.deleted
    &&& post.history == seq![true] + pre.history
}

/// What one `delete` call does: the front unprocessed path moves to the
/// front of the deleted bucket and a `false` tag is pushed.
pub open spec fn delete_step(pre: LedgerView, post: LedgerView) -> bool {
    &&& pre.unprocessed.len() > 0
    &&& post.unprocessed == pre.unprocessed.drop_first()
    &&& post.deleted == seq![pre.unprocessed[0]] + pre.deleted
    &&& post.saved == pre.saved
    &&& post.history == seq![false] + pre.history
}

/// What one `revert_last_action` call does: on an empty history, nothing at
/// all (a benign no-op); otherwise the most recent tag is popped and the
/// front of the bucket it names moves back to the front of unprocessed.
pub open spec fn revert_step(pre: LedgerView, post: LedgerView) -> bool {
    if pre.history.len() == 0 {
        post == pre
    } else {
        &&& post.history == pre.history.drop_first()
        &&& if pre.history[0] {
            &&& pre.saved.len() > 0
            &&& post.unprocessed == seq![pre.saved[0]] + pre.unprocessed
            &&& post.saved == pre.saved.drop_first()
            &&& post.deleted == pre.deleted
        } else {
            &&& pre.deleted.len() > 0
            &&& post.unprocessed == seq![pre.deleted[0]] + pre.unprocessed
            &&& post.deleted == pre.deleted.drop_first()
            &&& post.saved == pre.saved
        }
    }
}

/// The ledger.  All decision taking goes through `delete`, `save` and
/// `revert_last_action`, which keep `ledger_inv` and the three-bucket
/// partition.
pub struct PictureHandler {
    unchecked_pics: PictureList,
    saved_pics: PictureList,
    deleted_pics: PictureList,
    history: VecDeque<bool>,
}

impl View for PictureHandler {
    type V = LedgerView;

    closed spec fn view(&self) -> LedgerView {
        LedgerView {
            unprocessed: self.unchecked_pics@,
            saved: self.saved_pics@,
            deleted: self.deleted_pics@,
            history: self.history@,
        }
    }
}

impl PictureHandler {
    pub open spec fn wf(&self) -> bool {
        ledger_inv(self@)
    }

    /// Hands the ledger the freshly discovered pictures; the other buckets
    /// and the history keep what they held.
    pub fn init(&mut self, pl: PictureList)
        ensures
            final(self)@.unprocessed == pl@,
            final(self)@.saved == old(self)@.saved,
            final(self)@.deleted == old(self)@.deleted,
            final(self)@.history == old(self)@.history,
            old(self).wf() ==> final(self).wf(),
    {
        self.unchecked_pics = pl;
    }

    /// How many pictures still wait for a decision.
    pub fn images_left(&self) -> (r: usize)
        ensures
            r == self@.unprocessed.len(),
    {
        self.unchecked_pics.size()
    }

    /// How many pictures were saved so far.
    pub fn saved_images(&self) -> (r: usize)
        ensures
            r == self@.saved.len(),
    {
        self.saved_pics.size()
    }

    /// How many pictures were deleted so far.
    pub fn deleted_images(&self) -> (r: usize)
        ensures
            r == self@.deleted.len(),
    {
        self.deleted_pics.size()
    }

    /// Whether every picture has a decision.
    pub fn is_done(&self) -> (r: bool)
        ensures
            r == (self@.unprocessed.len() == 0),
    {
        self.unchecked_pics.size() == 0
    }

    /// Marks the front unprocessed picture as deleted.  The caller keeps
    /// this off an empty bucket by checking `images_left` first.
    pub fn delete(&mut self)
        requires
            old(self)@.unprocessed.len() > 0,
        ensures
            delete_step(old(self)@, final(self)@),
            old(self).wf() ==> final(self).wf(),
    {
        self.deleted_pics.transfer_from(&mut self.unchecked_pics);
        self.history.push_front(false);
        proof {
            lemma_count_true_cons(false, old(self)@.history);
        }
    }

    /// Marks the front unprocessed picture as saved.  The caller keeps this
    /// off an empty bucket by checking `images_left` first.
    pub fn save(&mut self)
        requires
            old(self)@.unprocessed.len() > 0,
        ensures
            save_step(old(self)@, final(self)@),
            old(self).wf() ==> final(self).wf(),
    {
        self.saved_pics.transfer_from(&mut self.unchecked_pics);
        self.history.push_front(true);
        proof {
            lemma_count_true_cons(true, old(self)@.history);
        }
    }

    /// Takes back the most recent decision; with nothing to revert this is
    /// a benign no-op, never a failure.
    pub fn revert_last_action(&mut self)
        requires
            old(self).wf(),
        ensures
            revert_step(old(self)@, final(self)@),
            final(self).wf(),
    {
        if self.history.len() == 0 {
            return ;
        }
        proof {
            let h = old(self)@.history;
            assert(count_true(h) == (if h[0] {
                1nat
            } else {
                0nat
            }) + count_true(h.drop_first()));
            lemma_count_true_le(h.drop_first());
        }
        match self.history.pop_front() {
            Some(tag) => {
                proof {
                    assert(self.history@ =~= old(self)@.history.drop_first());
                }
                if tag {
                    self.unchecked_pics.transfer_from(&mut self.saved_pics);
                } else {
                    self.unchecked_pics.transfer_from(&mut self.deleted_pics);
                }
            },
            None => vstd::pervasive::unreached(),
        }
    }

    /// The still-unprocessed paths, front to back, as fresh copies — the
    /// snapshot the preparation pipeline warms up from.
    pub fn unprocessed_paths(&self) -> (r: Vec<ImagePath>)
        ensures
            crate::picture_list::views_of(r@) == self@.unprocessed,
    {
        self.unchecked_pics.path_iterator()
    }

    /// The saved paths, front to back, as fresh copies.
    pub fn saved_paths(&self) -> (r: Vec<ImagePath>)
        ensures
            crate::picture_list::views_of(r@) == self@.saved,
    {
        self.saved_pics.path_iterator()
    }

    /// The deleted paths, front to back, as fresh copies.
    pub fn deleted_paths(&self) -> (r: Vec<ImagePath>)
        ensures
            crate::picture_list::views_of(r@) == self@.deleted,
    {
        self.deleted_pics.path_iterator()
    }

    /// Plans the final commit of this ledger's decisions under
    /// `destination_root`; the file moves themselves are the caller's.
    pub fn commit(&self, destination_root: &ImagePath) -> (r: crate::file_manager::CommitPlan)
        ensures
            r.save_dir@ == destination_root@ + crate::file_manager::save_dir_name(),
            r.delete_dir@ == destination_root@ + crate::file_manager::delete_dir_name(),
            crate::file_manager::move_views(r.moves@) == crate::file_manager::move_plan(
                destination_root@,
                crate::file_manager::save_dir_name(),
                self@.saved,
            ) + crate::file_manager::move_plan(
                destination_root@,
                crate::file_manager::delete_dir_name(),
                self@.deleted,
            ),
    {
        crate::file_manager::commit_state(destination_root, &self.saved_pics, &self.deleted_pics)
    }

    /// The picture to show next: the front of the unprocessed bucket.  The
    /// caller keeps this off a finished ledger by checking `is_done` first.
    pub fn get_next(&self) -> (r: &ImagePath)
        requires
            self@.unprocessed.len() > 0,
        ensures
            r@ == self@.unprocessed[0],
    {
        self.unchecked_pics.peek()
    }
}

impl Default for PictureHandler {
    /// A fresh ledger: every bucket empty, nothing to undo.
    fn default() -> (r: PictureHandler)
        ensures
            r@.unprocessed == Seq::<Seq<u8>>::empty(),
            r@.saved == Seq::<Seq<u8>>::empty(),
            r@.deleted == Seq::<Seq<u8>>::empty(),
            r@.history == Seq::<bool>::empty(),
            r.wf(),
    {
        PictureHandler {
            unchecked_pics: PictureList::default(),
            saved_pics: PictureList::default(),
            deleted_pics: PictureList::default(),
            history: VecDeque::new(),
        }
    }
}

pub proof fn lemma_count_true_le(h: Seq<bool>)
    ensures
        count_true(h) <= h.len(),
    decreases h.len(),
{
    if h.len() > 0 {
        lemma_count_true_le(h.drop_first());
    }
}

pub proof fn lemma_count_true_cons(b: bool, h: Seq<bool>)
    ensures
        count_true(seq![b] + h) == count_true(h) + (if b {
            1nat
        } else {
            0nat
        }),
{
    assert((seq![b] + h).drop_first() =~= h);
    assert((seq![b] + h)[0] == b);
}

/// The paths a ledger holds, over all three buckets, as a multiset.
pub open spec fn ledger_paths(v: LedgerView) -> Multiset<Seq<u8>> {
    v.unprocessed.to_multiset().add(v.saved.to_multiset()).add(v.deleted.to_multiset())
}

proof fn lemma_ms_cons(x: Seq<u8>, s: Seq<Seq<u8>>)
    ensures
        (seq![x] + s).to_multiset() == s.to_multiset().insert(x),
{
    broadcast use vstd::seq_lib::group_to_multiset_ensures;

    let t = seq![x] + s;
    assert(t.remove(0) =~= s);
    assert(t[0] == x);
    assert(s.to_multiset() =~= t.to_multiset().remove(x));
    assert(t.contains(x));
    assert(t.to_multiset() =~= s.to_multiset().insert(x));
}

/// Every reachable ledger state keeps the partition: a decision or an undo
/// relocates one path, so the multiset of held paths — the discovered set —
/// never changes, the invariant is preserved, and the history length stays
/// the saved count plus the deleted count.
pub proof fn lemma_step_preserves_partition(pre: LedgerView, post: LedgerView)
    requires
        ledger_inv(pre),
        save_step(pre, post) || delete_step(pre, post) || revert_step(pre, post),
    ensures
        ledger_paths(post) == ledger_paths(pre),
        post.unprocessed.len() + post.saved.len() + post.deleted.len() == pre.unprocessed.len()
            + pre.saved.len() + pre.deleted.len(),
        ledger_inv(post),
        post.history.len() == post.saved.len() + post.deleted.len(),
{
    broadcast use vstd::seq_lib::group_to_multiset_ensures;

    if save_step(pre, post) {
        lemma_count_true_cons(true, pre.history);
        lemma_ms_cons(pre.unprocessed[0], pre.saved);
        assert(pre.unprocessed.remove(0) =~= post.unprocessed);
        assert(ledger_paths(post) =~= ledger_paths(pre));
    } else if delete_step(pre, post) {
        lemma_count_true_cons(false, pre.history);
        lemma_ms_cons(pre.unprocessed[0], pre.deleted);
        assert(pre.unprocessed.remove(0) =~= post.unprocessed);
        assert(ledger_paths(post) =~= ledger_paths(pre));
    } else {
        if pre.history.len() == 0 {
        } else if pre.history[0] {
            lemma_ms_cons(pre.saved[0], pre.unprocessed);
            assert(pre.saved.remove(0) =~= post.saved);
            assert(ledger_paths(post) =~= ledger_paths(pre));
        } else {
            lemma_ms_cons(pre.deleted[0], pre.unprocessed);
            assert(pre.deleted.remove(0) =~= post.deleted);
            assert(ledger_paths(post) =~= ledger_paths(pre));
        }
    }
}

/// Round trip: a `save` followed by `revert_last_action` restores the whole
/// ledger — unprocessed in particular — to its state before the save.
pub proof fn lemma_save_revert_round_trip(v0: LedgerView, v1: LedgerView, v2: LedgerView)
    requires
        save_step(v0, v1),
        revert_step(v1, v2),
    ensures
        v2 == v0,
{
    assert(v1.history[0]);
    assert(v2.unprocessed =~= v0.unprocessed);
    assert(v2.saved =~= v0.saved);
    assert(v2.history =~= v0.history);
    assert(v2 =~= v0);
}

/// Round trip: a `delete` followed by `revert_last_action` restores the
/// whole ledger to its state before the delete.
pub proof fn lemma_delete_revert_round_trip(v0: LedgerView, v1: LedgerView, v2: LedgerView)
    requires
        delete_step(v0, v1),
        revert_step(v1, v2),
    ensures
        v2 == v0,
{
    assert(!v1.history[0]);
    assert(v2.unprocessed =~= v0.unprocessed);
    assert(v2.deleted =~= v0.deleted);
    assert(v2.history =~= v0.history);
    assert(v2 =~= v0);
}

/// Reverting with an empty history changes nothing: every bucket keeps its
/// size and content.
pub proof fn lemma_revert_on_empty_history_is_noop(pre: LedgerView, post: LedgerView)
    requires
        pre.history.len() == 0,
        revert_step(pre, post),
    ensures
        post == pre,
{
}

} // verus!
