//! What the final commit and the directory filter compute: which paths are
//! pictures, and where each decided picture is to be moved.  The moves
//! themselves, and the directory walk, are file-system work done outside
//! the library; here they are planned as plain values.

use vstd::prelude::*;

use crate::image_path::DOT;
use crate::image_path::ImagePath;
use crate::image_path::extension_of;
use crate::image_path::file_name_of;
use crate::image_path::last_byte_pos;
use crate::image_path::lower_ascii;
use crate::image_path::lower_ascii_bytes;
use crate::image_path::sub_bytes;
use crate::picture_list::PictureList;

verus! {

/// The lower-cased extensions accepted as pictures.
pub open spec fn is_image_extension(e: Seq<u8>) -> bool {
    ||| e == seq![106u8, 112, 103]
    ||| e == seq![106u8, 112, 101, 103]
    ||| e == seq![112u8, 110, 103]
    ||| e == seq![103u8, 105, 102]
    ||| e == seq![98u8, 109, 112]
    ||| e == seq![119u8, 101, 98, 112]
    ||| e == seq![115u8, 118, 103]
}

/// The extension of the path's file name, lower-cased, or empty when there
/// is none.
pub fn extension_str_for(path: &ImagePath) -> (r: Vec<u8>)
    ensures
        r@ == lower_ascii(extension_of(file_name_of(path@))),
{
    let name = path.file_name();
    let n = name.len();
    match last_byte_pos(&name, DOT) {
        Some(i) => {
            if i > 0 {
                let ext = sub_bytes(&name, i + 1, n);
                lower_ascii_bytes(&ext)
            } else {
                proof {
                    assert(lower_ascii(Seq::<u8>::empty()) =~= Seq::<u8>::empty());
                }
                Vec::new()
            }
        },
        None => {
            proof {
                assert(lower_ascii(Seq::<u8>::empty()) =~= Seq::<u8>::empty());
            }
            Vec::new()
        },
    }
}

/// Whether the path's extension, compared case-insensitively, is on the
/// allow-list of picture formats.
pub fn is_image_path(path: &ImagePath) -> (r: bool)
    ensures
        r == is_image_extension(lower_ascii(extension_of(file_name_of(path@)))),
{
    let e = extension_str_for(path);
    if ext_is3(&e, 106, 112, 103) {
        true
    } else if ext_is4(&e, 106, 112, 101, 103) {
        true
    } else if ext_is3(&e, 112, 110, 103) {
        true
    } else if ext_is3(&e, 103, 105, 102) {
        true
    } else if ext_is3(&e, 98, 109, 112) {
        true
    } else if ext_is4(&e, 119, 101, 98, 112) {
        true
    } else {
        ext_is3(&e, 115, 118, 103)
    }
}

fn ext_is3(e: &Vec<u8>, a: u8, b: u8, c: u8) -> (r: bool)
    ensures
        r == (e@ == seq![a, b, c]),
{
    if e.len() == 3 && e[0] == a && e[1] == b && e[2] == c {
        proof {
            assert(e@ =~= seq![a, b, c]);
        }
        true
    } else {
        false
    }
}

fn ext_is4(e: &Vec<u8>, a: u8, b: u8, c: u8, d: u8) -> (r: bool)
    ensures
        r == (e@ == seq![a, b, c, d]),
{
    if e.len() == 4 && e[0] == a && e[1] == b && e[2] == c && e[3] == d {
        proof {
            assert(e@ =~= seq![a, b, c, d]);
        }
        true
    } else {
        false
    }
}

/// The name of the subdirectory that saved pictures move into: `/save/`.
pub open spec fn save_dir_name() -> Seq<u8> {
    seq![47u8, 115, 97, 118, 101, 47]
}

/// The name of the subdirectory that deleted pictures move into:
/// `/delete/`.
pub open spec fn delete_dir_name() -> Seq<u8> {
    seq![47u8, 100, 101, 108, 101, 116, 101, 47]
}

/// One planned file move.
pub struct MoveOp {
    pub from: ImagePath,
    pub to: ImagePath,
}

impl View for MoveOp {
    type V = (Seq<u8>, Seq<u8>);

    open spec fn view(&self) -> (Seq<u8>, Seq<u8>) {
        (self.from@, self.to@)
    }
}

/// The byte strings of a sequence of planned moves.
pub open spec fn move_views(s: Seq<MoveOp>) -> Seq<(Seq<u8>, Seq<u8>)> {
    s.map_values(|m: MoveOp| m@)
}

/// The move a single path asks for: into `folder + sub`, under its own file
/// name — or no move at all when it has no file name.
pub open spec fn plan_entry(folder: Seq<u8>, sub: Seq<u8>, p: Seq<u8>) -> Seq<(Seq<u8>, Seq<u8>)> {
    if file_name_of(p).len() == 0 {
        Seq::<(Seq<u8>, Seq<u8>)>::empty()
    } else {
        seq![(p, folder + sub + file_name_of(p))]
    }
}

/// The moves a whole bucket asks for, front to back.
pub open spec fn move_plan(folder: Seq<u8>, sub: Seq<u8>, paths: Seq<Seq<u8>>) -> Seq<
    (Seq<u8>, Seq<u8>),
>
    decreases paths.len(),
{
    if paths.len() == 0 {
        Seq::<(Seq<u8>, Seq<u8>)>::empty()
    } else {
        plan_entry(folder, sub, paths[0]) + move_plan(folder, sub, paths.drop_first())
    }
}

proof fn lemma_move_plan_push(folder: Seq<u8>, sub: Seq<u8>, paths: Seq<Seq<u8>>, p: Seq<u8>)
    ensures
        move_plan(folder, sub, paths.push(p)) == move_plan(folder, sub, paths) + plan_entry(
            folder,
            sub,
            p,
        ),
    decreases paths.len(),
{
    if paths.len() == 0 {
        assert(paths.push(p)[0] == p);
        assert(paths.push(p).drop_first() =~= Seq::<Seq<u8>>::empty());
        assert(move_plan(folder, sub, paths) + plan_entry(folder, sub, p) =~= plan_entry(
            folder,
            sub,
            p,
        ));
        assert(plan_entry(folder, sub, p) + move_plan(folder, sub, paths.push(p).drop_first())
            =~= plan_entry(folder, sub, p));
    } else {
        assert(paths.push(p).drop_first() =~= paths.drop_first().push(p));
        assert(paths.push(p)[0] == paths[0]);
        lemma_move_plan_push(folder, sub, paths.drop_first(), p);
        assert(move_plan(folder, sub, paths.push(p)) =~= move_plan(folder, sub, paths)
            + plan_entry(folder, sub, p));
    }
}

/// Appends a copy of `b` to `v`.
pub fn append_bytes(v: &mut Vec<u8>, b: &Vec<u8>)
    ensures
        final(v)@ == old(v)@ + b@,
{
    let mut i: usize = 0;
    while i < b.len()
        invariant
            i <= b@.len(),
            v@ == old(v)@ + b@.subrange(0, i as int),
        decreases b@.len() - i,
    {
        v.push(b[i]);
        proof {
            assert(v@ =~= old(v)@ + b@.subrange(0, i + 1 as int));
        }
        i = i + 1;
    }
    proof {
        assert(b@.subrange(0, b@.len() as int) =~= b@);
    }
}

/// The destination path `folder + sub + name`.
fn join_path(folder: &ImagePath, sub: &Vec<u8>, name: &Vec<u8>) -> (r: ImagePath)
    ensures
        r@ == folder@ + sub@ + name@,
{
    let fb = folder.as_bytes();
    let mut bytes = sub_bytes(fb, 0, fb.len());
    proof {
        assert(fb@.subrange(0, fb@.len() as int) =~= fb@);
    }
    append_bytes(&mut bytes, sub);
    append_bytes(&mut bytes, name);
    ImagePath::from_bytes(bytes)
}

/// The moves one bucket asks for, into `folder + sub`.
fn moves_for(folder: &ImagePath, sub: &Vec<u8>, list: &PictureList) -> (r: Vec<MoveOp>)
    ensures
        move_views(r@) == move_plan(folder@, sub@, list@),
{
    let paths = list.path_iterator();
    let mut r: Vec<MoveOp> = Vec::new();
    let mut i: usize = 0;
    proof {
        assert(move_views(r@) =~= move_plan(folder@, sub@, Seq::<Seq<u8>>::empty()));
    }
    while i < paths.len()
        invariant
            i <= paths@.len(),
            crate::picture_list::views_of(paths@) == list@,
            paths@.len() == list@.len(),
            move_views(r@) == move_plan(folder@, sub@, list@.subrange(0, i as int)),
        decreases paths@.len() - i,
    {
        let p = &paths[i];
        proof {
            assert(p@ == list@[i as int]);
        }
        let name = p.file_name();
        if name.len() > 0 {
            let to = join_path(folder, sub, &name);
            let from = p.clone();
            r.push(MoveOp { from, to });
        }
        proof {
            lemma_move_plan_push(folder@, sub@, list@.subrange(0, i as int), list@[i as int]);
            assert(list@.subrange(0, i as int).push(list@[i as int]) =~= list@.subrange(
                0,
                i + 1 as int,
            ));
            assert(move_views(r@) =~= move_plan(folder@, sub@, list@.subrange(0, i + 1 as int)));
        }
        i = i + 1;
    }
    proof {
        assert(list@.subrange(0, list@.len() as int) =~= list@);
    }
    r
}

/// The full commit plan: the two destination directories to create, and
/// every file move to attempt, saved pictures first, then deleted ones.
pub struct CommitPlan {
    pub save_dir: ImagePath,
    pub delete_dir: ImagePath,
    pub moves: Vec<MoveOp>,
}

/// Plans the commit of a finished triage: every saved picture moves under
/// `folder + "/save/"`, every deleted one under `folder + "/delete/"`, each
/// by its own file name; a path without a file name asks for no move.  The
/// file system work — creating the directories and attempting each move,
/// never aborting on a single failure — is the caller's.
pub fn commit_state(src_folder: &ImagePath, save: &PictureList, delete: &PictureList) -> (r:
    CommitPlan)
    ensures
        r.save_dir@ == src_folder@ + save_dir_name(),
        r.delete_dir@ == src_folder@ + delete_dir_name(),
        move_views(r.moves@) == move_plan(src_folder@, save_dir_name(), save@) + move_plan(
            src_folder@,
            delete_dir_name(),
            delete@,
        ),
{
    let save_sub = save_dir_bytes();
    let delete_sub = delete_dir_bytes();
    let empty: Vec<u8> = Vec::new();
    let save_dir = join_path(src_folder, &save_sub, &empty);
    let delete_dir = join_path(src_folder, &delete_sub, &empty);
    proof {
        assert(src_folder@ + save_dir_name() + empty@ =~= src_folder@ + save_dir_name());
        assert(src_folder@ + delete_dir_name() + empty@ =~= src_folder@ + delete_dir_name());
    }
    let mut moves = moves_for(src_folder, &save_sub, save);
    let mut delete_moves = moves_for(src_folder, &delete_sub, delete);
    proof {
        assert(move_views(moves@ + delete_moves@) =~= move_views(moves@) + move_views(
            delete_moves@,
        ));
    }
    moves.append(&mut delete_moves);
    CommitPlan { save_dir, delete_dir, moves }
}

/// The bytes of `/save/`.
pub fn save_dir_bytes() -> (r: Vec<u8>)
    ensures
        r@ == save_dir_name(),
{
    let mut r: Vec<u8> = Vec::new();
    r.push(47);
    r.push(115);
    r.push(97);
    r.push(118);
    r.push(101);
    r.push(47);
    proof {
        assert(r@ =~= save_dir_name());
    }
    r
}

/// The bytes of `/delete/`.
pub fn delete_dir_bytes() -> (r: Vec<u8>)
    ensures
        r@ == delete_dir_name(),
{
    let mut r: Vec<u8> = Vec::new();
    r.push(47);
    r.push(100);
    r.push(101);
    r.push(108);
    r.push(101);
    r.push(116);
    r.push(101);
    r.push(47);
    proof {
        assert(r@ =~= delete_dir_name());
    }
    r
}

} // verus!
