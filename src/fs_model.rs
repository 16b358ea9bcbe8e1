//! What the steps of a tree transfer do to the files of a filesystem, taken
//! as a map from each file's path to its content.
use vstd::prelude::*;
use crate::paths::{
    lemma_file_name_is_name, lemma_file_name_join, lemma_join_injective, lemma_join_parent_file_name,
    no_empty_component, spec_file_name, spec_join, spec_parent,
};
use crate::transfer::{
    file_op, op_source, op_target, transfer_plan, transfer_root, tree_entry_op, EFileAction, OpView,
};

verus! {

pub open spec fn is_file_op(op: OpView) -> bool {
    op is CopyFile || op is MoveFile
}

/// The files after one step. Directories are not modelled: a step on one
/// leaves the files as they are. A step whose source file is missing changes
/// nothing.
pub open spec fn files_after_step(fs: Map<Seq<char>, Seq<u8>>, op: OpView) -> Map<
    Seq<char>,
    Seq<u8>,
> {
    match op {
        OpView::CopyFile(f, t) => if fs.contains_key(f) {
            fs.insert(t, fs[f])
        } else {
            fs
        },
        OpView::MoveFile(f, t) => if fs.contains_key(f) {
            fs.remove(f).insert(t, fs[f])
        } else {
            fs
        },
        _ => fs,
    }
}

/// The files after the steps, in order.
pub open spec fn files_after(fs: Map<Seq<char>, Seq<u8>>, ops: Seq<OpView>) -> Map<
    Seq<char>,
    Seq<u8>,
>
    decreases ops.len(),
{
    if ops.len() == 0 {
        fs
    } else {
        files_after(files_after_step(fs, ops[0]), ops.drop_first())
    }
}

/// No step writes where a step reads, and a source and a target always go
/// together.
pub open spec fn separate_steps(ops: Seq<OpView>) -> bool {
    forall|i: int, j: int|
        0 <= i < ops.len() && 0 <= j < ops.len() && is_file_op(#[trigger] ops[i]) && is_file_op(
            #[trigger] ops[j],
        ) ==> {
            &&& op_target(ops[i]) != op_source(ops[j])
            &&& op_target(ops[i]) == op_target(ops[j]) ==> op_source(ops[i]) == op_source(ops[j])
            &&& op_source(ops[i]) == op_source(ops[j]) ==> op_target(ops[i]) == op_target(ops[j])
        }
}

/// Some step puts a file that exists in `fs` at `p`.
pub open spec fn lands_at(fs: Map<Seq<char>, Seq<u8>>, ops: Seq<OpView>, p: Seq<char>) -> bool {
    exists|i: int|
        0 <= i < ops.len() && is_file_op(#[trigger] ops[i]) && op_target(ops[i]) == p
            && fs.contains_key(op_source(ops[i]))
}

/// Some step takes the file at `p`, which exists in `fs`, away.
pub open spec fn takes_from(fs: Map<Seq<char>, Seq<u8>>, ops: Seq<OpView>, p: Seq<char>) -> bool {
    exists|i: int|
        0 <= i < ops.len() && #[trigger] ops[i] is MoveFile && op_source(ops[i]) == p
            && fs.contains_key(p)
}

proof fn lemma_separate_tail(ops: Seq<OpView>)
    requires
        ops.len() > 0,
        separate_steps(ops),
    ensures
        separate_steps(ops.drop_first()),
{
    let t = ops.drop_first();
    assert forall|i: int, j: int|
        0 <= i < t.len() && 0 <= j < t.len() && is_file_op(#[trigger] t[i]) && is_file_op(
            #[trigger] t[j],
        ) implies {
        &&& op_target(t[i]) != op_source(t[j])
        &&& op_target(t[i]) == op_target(t[j]) ==> op_source(t[i]) == op_source(t[j])
        &&& op_source(t[i]) == op_source(t[j]) ==> op_target(t[i]) == op_target(t[j])
    } by {
        assert(t[i] == ops[i + 1] && t[j] == ops[j + 1]);
    }
}

proof fn lemma_copy_steps(fs: Map<Seq<char>, Seq<u8>>, ops: Seq<OpView>)
    requires
        forall|i: int| 0 <= i < ops.len() ==> #[trigger] ops[i] is EnsureDir || ops[i] is CopyFile,
        separate_steps(ops),
    ensures
        forall|i: int|
            0 <= i < ops.len() && #[trigger] ops[i] is CopyFile && fs.contains_key(
                op_source(ops[i]),
            ) ==> files_after(fs, ops).contains_key(op_target(ops[i])) && files_after(
                fs,
                ops,
            )[op_target(ops[i])] == fs[op_source(ops[i])],
        forall|p: Seq<char>|
            !lands_at(fs, ops, p) ==> (#[trigger] files_after(fs, ops).contains_key(p)
                == fs.contains_key(p)) && (fs.contains_key(p) ==> files_after(fs, ops)[p]
                == fs[p]),
    decreases ops.len(),
{
    if ops.len() > 0 {
        let o = ops[0];
        let tail = ops.drop_first();
        let fs1 = files_after_step(fs, o);
        lemma_separate_tail(ops);
        assert forall|i: int| 0 <= i < tail.len() implies #[trigger] tail[i] is EnsureDir
            || tail[i] is CopyFile by {
            assert(tail[i] == ops[i + 1]);
        }
        lemma_copy_steps(fs1, tail);
        let r = files_after(fs, ops);
        assert(r == files_after(fs1, tail));
        // what the later steps read is the same before and after the first
        assert forall|j: int| 0 <= j < tail.len() && is_file_op(#[trigger] tail[j]) implies (
        fs1.contains_key(op_source(tail[j])) == fs.contains_key(op_source(tail[j])) && (
        fs.contains_key(op_source(tail[j])) ==> fs1[op_source(tail[j])] == fs[op_source(
            tail[j],
        )])) by {
            assert(tail[j] == ops[j + 1]);
            if o is CopyFile {
                assert(is_file_op(ops[0]));
                assert(op_target(ops[0]) != op_source(ops[j + 1]));
            }
        }
        assert forall|i: int|
            0 <= i < ops.len() && #[trigger] ops[i] is CopyFile && fs.contains_key(
                op_source(ops[i]),
            ) implies r.contains_key(op_target(ops[i])) && r[op_target(ops[i])]
            == fs[op_source(ops[i])] by {
            if i > 0 {
                assert(tail[i - 1] == ops[i]);
                assert(is_file_op(tail[i - 1]));
            } else {
                let t0 = op_target(o);
                if lands_at(fs1, tail, t0) {
                    let j = choose|j: int|
                        0 <= j < tail.len() && is_file_op(#[trigger] tail[j]) && op_target(
                            tail[j],
                        ) == t0 && fs1.contains_key(op_source(tail[j]));
                    assert(tail[j] == ops[j + 1]);
                    assert(is_file_op(ops[0]) && is_file_op(ops[j + 1]));
                    assert(tail[j] is CopyFile);
                    assert(op_source(tail[j]) == op_source(o));
                } else {
                    assert(fs1.contains_key(t0) && fs1[t0] == fs[op_source(o)]);
                }
            }
        }
        assert forall|p: Seq<char>| !lands_at(fs, ops, p) implies (
        #[trigger] r.contains_key(p) == fs.contains_key(p)) && (fs.contains_key(p) ==> r[p]
            == fs[p]) by {
            if lands_at(fs1, tail, p) {
                let j = choose|j: int|
                    0 <= j < tail.len() && is_file_op(#[trigger] tail[j]) && op_target(tail[j])
                        == p && fs1.contains_key(op_source(tail[j]));
                assert(tail[j] == ops[j + 1]);
                assert(is_file_op(ops[j + 1]));
            }
            if o is CopyFile && fs.contains_key(op_source(o)) {
                assert(is_file_op(ops[0]));
                assert(op_target(o) != p);
            }
        }
    }
}

proof fn lemma_copy_steps_twice(fs: Map<Seq<char>, Seq<u8>>, ops: Seq<OpView>)
    requires
        forall|i: int| 0 <= i < ops.len() ==> #[trigger] ops[i] is EnsureDir || ops[i] is CopyFile,
        separate_steps(ops),
    ensures
        files_after(files_after(fs, ops), ops) == files_after(fs, ops),
{
    let fs1 = files_after(fs, ops);
    let fs2 = files_after(fs1, ops);
    lemma_copy_steps(fs, ops);
    lemma_copy_steps(fs1, ops);
    // no step writes a source, so what the steps read is the same in `fs1`
    assert forall|i: int| 0 <= i < ops.len() && is_file_op(#[trigger] ops[i]) implies (
    fs1.contains_key(op_source(ops[i])) == fs.contains_key(op_source(ops[i])) && (
    fs.contains_key(op_source(ops[i])) ==> fs1[op_source(ops[i])] == fs[op_source(ops[i])])) by {
        let q = op_source(ops[i]);
        if lands_at(fs, ops, q) {
            let j = choose|j: int|
                0 <= j < ops.len() && is_file_op(#[trigger] ops[j]) && op_target(ops[j]) == q
                    && fs.contains_key(op_source(ops[j]));
            assert(op_target(ops[j]) != op_source(ops[i]));
        }
    }
    assert forall|p: Seq<char>| #[trigger] fs2.contains_key(p) == fs1.contains_key(p) && (
    fs1.contains_key(p) ==> fs2[p] == fs1[p]) by {
        if lands_at(fs1, ops, p) {
            let i = choose|i: int|
                0 <= i < ops.len() && is_file_op(#[trigger] ops[i]) && op_target(ops[i]) == p
                    && fs1.contains_key(op_source(ops[i]));
            assert(ops[i] is CopyFile);
            assert(fs.contains_key(op_source(ops[i])));
        }
    }
    assert(fs2 =~= fs1);
}

proof fn lemma_move_steps(fs: Map<Seq<char>, Seq<u8>>, ops: Seq<OpView>)
    requires
        forall|i: int| 0 <= i < ops.len() ==> #[trigger] ops[i] is EnsureDir || ops[i] is MoveFile,
        separate_steps(ops),
    ensures
        forall|i: int|
            0 <= i < ops.len() && #[trigger] ops[i] is MoveFile && fs.contains_key(
                op_source(ops[i]),
            ) ==> files_after(fs, ops).contains_key(op_target(ops[i])) && files_after(
                fs,
                ops,
            )[op_target(ops[i])] == fs[op_source(ops[i])] && !files_after(fs, ops).contains_key(
                op_source(ops[i]),
            ),
        forall|p: Seq<char>|
            !lands_at(fs, ops, p) && !takes_from(fs, ops, p) ==> (#[trigger] files_after(
                fs,
                ops,
            ).contains_key(p) == fs.contains_key(p)) && (fs.contains_key(p) ==> files_after(
                fs,
                ops,
            )[p] == fs[p]),
    decreases ops.len(),
{
    if ops.len() > 0 {
        let o = ops[0];
        let tail = ops.drop_first();
        let fs1 = files_after_step(fs, o);
        lemma_separate_tail(ops);
        assert forall|i: int| 0 <= i < tail.len() implies #[trigger] tail[i] is EnsureDir
            || tail[i] is MoveFile by {
            assert(tail[i] == ops[i + 1]);
        }
        lemma_move_steps(fs1, tail);
        let r = files_after(fs, ops);
        assert(r == files_after(fs1, tail));
        let moved0 = o is MoveFile && fs.contains_key(op_source(o));
        // a later step reads the same file as before, unless the first step took it
        assert forall|j: int| 0 <= j < tail.len() && is_file_op(#[trigger] tail[j]) implies {
            let q = op_source(tail[j]);
            &&& moved0 && q == op_source(o) ==> !fs1.contains_key(q)
            &&& !(moved0 && q == op_source(o)) ==> (fs1.contains_key(q) == fs.contains_key(q) && (
            fs.contains_key(q) ==> fs1[q] == fs[q]))
        } by {
            assert(tail[j] == ops[j + 1]);
            if o is MoveFile {
                assert(is_file_op(ops[0]));
                assert(op_target(ops[0]) != op_source(ops[j + 1]));
                assert(op_target(ops[0]) != op_source(ops[0]));
            }
        }
        if moved0 {
            assert(is_file_op(ops[0]));
            assert(op_target(ops[0]) != op_source(ops[0]));
        }
        assert forall|i: int|
            0 <= i < ops.len() && #[trigger] ops[i] is MoveFile && fs.contains_key(
                op_source(ops[i]),
            ) implies r.contains_key(op_target(ops[i])) && r[op_target(ops[i])]
            == fs[op_source(ops[i])] && !r.contains_key(op_source(ops[i])) by {
            let i0 = if i > 0 && !(moved0 && op_source(ops[i]) == op_source(o)) {
                i
            } else {
                0
            };
            if i0 > 0 {
                assert(tail[i - 1] == ops[i]);
                assert(is_file_op(tail[i - 1]));
            } else {
                if i > 0 {
                    assert(is_file_op(ops[0]) && is_file_op(ops[i]));
                    assert(op_target(ops[i]) == op_target(o));
                }
                let t0 = op_target(o);
                let s0 = op_source(o);
                if lands_at(fs1, tail, t0) {
                    let j = choose|j: int|
                        0 <= j < tail.len() && is_file_op(#[trigger] tail[j]) && op_target(
                            tail[j],
                        ) == t0 && fs1.contains_key(op_source(tail[j]));
                    assert(tail[j] == ops[j + 1]);
                    assert(is_file_op(ops[0]) && is_file_op(ops[j + 1]));
                    assert(op_source(tail[j]) == s0);
                }
                if takes_from(fs1, tail, t0) {
                    let j = choose|j: int|
                        0 <= j < tail.len() && #[trigger] tail[j] is MoveFile && op_source(
                            tail[j],
                        ) == t0 && fs1.contains_key(t0);
                    assert(tail[j] == ops[j + 1]);
                    assert(is_file_op(ops[0]) && is_file_op(ops[j + 1]));
                }
                if lands_at(fs1, tail, s0) {
                    let j = choose|j: int|
                        0 <= j < tail.len() && is_file_op(#[trigger] tail[j]) && op_target(
                            tail[j],
                        ) == s0 && fs1.contains_key(op_source(tail[j]));
                    assert(tail[j] == ops[j + 1]);
                    assert(is_file_op(ops[0]) && is_file_op(ops[j + 1]));
                }
                assert(!fs1.contains_key(s0));
            }
        }
        assert forall|p: Seq<char>| !lands_at(fs, ops, p) && !takes_from(fs, ops, p) implies (
        #[trigger] r.contains_key(p) == fs.contains_key(p)) && (fs.contains_key(p) ==> r[p]
            == fs[p]) by {
            if lands_at(fs1, tail, p) {
                let j = choose|j: int|
                    0 <= j < tail.len() && is_file_op(#[trigger] tail[j]) && op_target(tail[j])
                        == p && fs1.contains_key(op_source(tail[j]));
                assert(tail[j] == ops[j + 1]);
                assert(is_file_op(ops[j + 1]));
            }
            if takes_from(fs1, tail, p) {
                let j = choose|j: int|
                    0 <= j < tail.len() && #[trigger] tail[j] is MoveFile && op_source(tail[j])
                        == p && fs1.contains_key(p);
                assert(tail[j] == ops[j + 1]);
                assert(is_file_op(ops[j + 1]));
            }
            if moved0 {
                assert(is_file_op(ops[0]));
                assert(op_target(o) != p);
                assert(op_source(o) != p);
            }
        }
    }
}

/// The new place of the tree, `to/<name of from>`, lies outside it: no file
/// of the tree has a path that the transfer puts a file at.
pub open spec fn lands_outside(
    from: Seq<char>,
    to: Seq<char>,
    listing: Seq<(Seq<char>, bool)>,
) -> bool {
    forall|a: Seq<char>, b: Seq<char>|
        #[trigger] listing.contains((a, false)) && #[trigger] listing.contains((b, false))
            ==> spec_join(transfer_root(from, to)->0, a) != spec_join(from, b)
}

proof fn lemma_plan_steps(
    from: Seq<char>,
    to: Seq<char>,
    listing: Seq<(Seq<char>, bool)>,
    action: EFileAction,
)
    requires
        spec_file_name(from) is Some,
        lands_outside(from, to, listing),
    ensures
        transfer_plan(from, to, true, listing, action) is Some,
        ({
            let ops = transfer_plan(from, to, true, listing, action)->0;
            let root = transfer_root(from, to)->0;
            &&& separate_steps(ops)
            &&& ops.len() == listing.len() + 1
            &&& forall|k: int|
                0 <= k < listing.len() ==> #[trigger] ops[k + 1] == tree_entry_op(
                    from,
                    root,
                    listing[k],
                    action,
                )
            &&& forall|i: int|
                0 <= i < ops.len() ==> #[trigger] ops[i] is EnsureDir || ops[i] == file_op(
                    op_source(ops[i]),
                    op_target(ops[i]),
                    action,
                )
        }),
{
    let ops = transfer_plan(from, to, true, listing, action)->0;
    let root = transfer_root(from, to)->0;
    assert forall|i: int| 0 <= i < ops.len() implies #[trigger] ops[i] is EnsureDir || ops[i]
        == file_op(op_source(ops[i]), op_target(ops[i]), action) by {
        if i > 0 {
            assert(ops[i] == tree_entry_op(from, root, listing[i - 1], action));
        }
    }
    assert forall|i: int, j: int|
        0 <= i < ops.len() && 0 <= j < ops.len() && is_file_op(#[trigger] ops[i]) && is_file_op(
            #[trigger] ops[j],
        ) implies {
        &&& op_target(ops[i]) != op_source(ops[j])
        &&& op_target(ops[i]) == op_target(ops[j]) ==> op_source(ops[i]) == op_source(ops[j])
        &&& op_source(ops[i]) == op_source(ops[j]) ==> op_target(ops[i]) == op_target(ops[j])
    } by {
        let a = listing[i - 1];
        let b = listing[j - 1];
        assert(ops[i] == tree_entry_op(from, root, a, action));
        assert(ops[j] == tree_entry_op(from, root, b, action));
        assert(listing.contains((a.0, false)));
        assert(listing.contains((b.0, false)));
        if op_target(ops[i]) == op_target(ops[j]) {
            lemma_join_injective(root, a.0, b.0);
        }
        if op_source(ops[i]) == op_source(ops[j]) {
            lemma_join_injective(from, a.0, b.0);
        }
    }
}

/// Copying a directory to a place outside it puts at each file's relative
/// path under `to/<name of from>` that file's content, and leaves each file
/// of the tree as it was.
pub proof fn lemma_copy_tree_contents(
    fs: Map<Seq<char>, Seq<u8>>,
    from: Seq<char>,
    to: Seq<char>,
    listing: Seq<(Seq<char>, bool)>,
    rel: Seq<char>,
)
    requires
        spec_file_name(from) is Some,
        lands_outside(from, to, listing),
        listing.contains((rel, false)),
        fs.contains_key(spec_join(from, rel)),
    ensures
        transfer_plan(from, to, true, listing, EFileAction::Copied) is Some,
        ({
            let after = files_after(
                fs,
                transfer_plan(from, to, true, listing, EFileAction::Copied)->0,
            );
            let new_path = spec_join(transfer_root(from, to)->0, rel);
            let old_path = spec_join(from, rel);
            &&& after.contains_key(new_path) && after[new_path] == fs[old_path]
            &&& after.contains_key(old_path) && after[old_path] == fs[old_path]
        }),
{
    let action = EFileAction::Copied;
    lemma_plan_steps(from, to, listing, action);
    let ops = transfer_plan(from, to, true, listing, action)->0;
    let root = transfer_root(from, to)->0;
    lemma_copy_steps(fs, ops);
    let k = choose|k: int| 0 <= k < listing.len() && listing[k] == (rel, false);
    assert(ops[k + 1] == tree_entry_op(from, root, listing[k], action));
    let old_path = spec_join(from, rel);
    if lands_at(fs, ops, old_path) {
        let i = choose|i: int|
            0 <= i < ops.len() && is_file_op(#[trigger] ops[i]) && op_target(ops[i]) == old_path
                && fs.contains_key(op_source(ops[i]));
        let a = listing[i - 1];
        assert(ops[i] == tree_entry_op(from, root, a, action));
        assert(listing.contains((a.0, false)));
    }
}

/// Moving a directory to a place outside it puts at each file's relative
/// path under `to/<name of from>` that file's content, and no file of the
/// tree is left at its old path.
pub proof fn lemma_move_tree_contents(
    fs: Map<Seq<char>, Seq<u8>>,
    from: Seq<char>,
    to: Seq<char>,
    listing: Seq<(Seq<char>, bool)>,
    rel: Seq<char>,
)
    requires
        spec_file_name(from) is Some,
        lands_outside(from, to, listing),
        listing.contains((rel, false)),
        fs.contains_key(spec_join(from, rel)),
    ensures
        transfer_plan(from, to, true, listing, EFileAction::Moved) is Some,
        ({
            let after = files_after(
                fs,
                transfer_plan(from, to, true, listing, EFileAction::Moved)->0,
            );
            let new_path = spec_join(transfer_root(from, to)->0, rel);
            let old_path = spec_join(from, rel);
            &&& after.contains_key(new_path) && after[new_path] == fs[old_path]
            &&& !after.contains_key(old_path)
        }),
{
    let action = EFileAction::Moved;
    lemma_plan_steps(from, to, listing, action);
    let ops = transfer_plan(from, to, true, listing, action)->0;
    let root = transfer_root(from, to)->0;
    lemma_move_steps(fs, ops);
    let k = choose|k: int| 0 <= k < listing.len() && listing[k] == (rel, false);
    assert(ops[k + 1] == tree_entry_op(from, root, listing[k], action));
    assert(ops[k + 1] is MoveFile);
}

/// Copying a directory a second time into the same place changes no file:
/// what the first copy wrote is written again with the same content.
pub proof fn lemma_copy_tree_twice(
    fs: Map<Seq<char>, Seq<u8>>,
    from: Seq<char>,
    to: Seq<char>,
    listing: Seq<(Seq<char>, bool)>,
)
    requires
        spec_file_name(from) is Some,
        lands_outside(from, to, listing),
    ensures
        transfer_plan(from, to, true, listing, EFileAction::Copied) is Some,
        ({
            let ops = transfer_plan(from, to, true, listing, EFileAction::Copied)->0;
            files_after(files_after(fs, ops), ops) == files_after(fs, ops)
        }),
{
    lemma_plan_steps(from, to, listing, EFileAction::Copied);
    let ops = transfer_plan(from, to, true, listing, EFileAction::Copied)->0;
    assert forall|i: int| 0 <= i < ops.len() implies #[trigger] ops[i] is EnsureDir
        || ops[i] is CopyFile by {
        assert(ops[i] is EnsureDir || ops[i] == file_op(
            op_source(ops[i]),
            op_target(ops[i]),
            EFileAction::Copied,
        ));
    }
    lemma_copy_steps_twice(fs, ops);
}

/// A folder copied into the backup folder `backup` and then brought back
/// from its copy to the directory above its path has each file back at its
/// path with its first content. By copy the backup keeps the file too; by
/// move no file is left in the backup.
pub proof fn lemma_tree_backup_then_recovery(
    fs: Map<Seq<char>, Seq<u8>>,
    path: Seq<char>,
    backup: Seq<char>,
    listing: Seq<(Seq<char>, bool)>,
    action: EFileAction,
    rel: Seq<char>,
)
    requires
        spec_file_name(path) is Some,
        no_empty_component(path),
        lands_outside(path, backup, listing),
        listing.contains((rel, false)),
        fs.contains_key(spec_join(path, rel)),
    ensures
        ({
            let copy = transfer_root(path, backup)->0;
            let there = transfer_plan(path, backup, true, listing, EFileAction::Copied);
            let back = transfer_plan(copy, spec_parent(path), true, listing, action);
            &&& there is Some && back is Some
            &&& transfer_root(copy, spec_parent(path)) == Some(path)
            &&& ({
                let after = files_after(files_after(fs, there->0), back->0);
                &&& after.contains_key(spec_join(path, rel))
                &&& after[spec_join(path, rel)] == fs[spec_join(path, rel)]
                &&& action == EFileAction::Copied ==> after.contains_key(spec_join(copy, rel))
                    && after[spec_join(copy, rel)] == fs[spec_join(path, rel)]
                &&& action == EFileAction::Moved ==> !after.contains_key(spec_join(copy, rel))
            })
        }),
{
    let n = spec_file_name(path)->0;
    let copy = spec_join(backup, n);
    lemma_file_name_is_name(path);
    lemma_file_name_join(backup, n);
    lemma_join_parent_file_name(path);
    assert(transfer_root(copy, spec_parent(path)) == Some(path));
    lemma_copy_tree_contents(fs, path, backup, listing, rel);
    let fs1 = files_after(fs, transfer_plan(path, backup, true, listing, EFileAction::Copied)->0);
    assert(lands_outside(copy, spec_parent(path), listing)) by {
        assert forall|a: Seq<char>, b: Seq<char>|
            #[trigger] listing.contains((a, false)) && #[trigger] listing.contains((b, false))
                implies spec_join(transfer_root(copy, spec_parent(path))->0, a) != spec_join(
                copy,
                b,
            ) by {
            assert(spec_join(transfer_root(path, backup)->0, b) != spec_join(path, a));
        }
    }
    if action == EFileAction::Copied {
        lemma_copy_tree_contents(fs1, copy, spec_parent(path), listing, rel);
    } else {
        lemma_move_tree_contents(fs1, copy, spec_parent(path), listing, rel);
    }
}

} // verus!
