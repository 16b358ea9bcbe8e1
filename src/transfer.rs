//! Transfer of a file or a directory tree into another directory, as the
//! list of filesystem steps that performs it.
use vstd::prelude::*;
use crate::paths::{file_name, join, spec_file_name, spec_join};

verus! {

/// Whether entries are copied, or moved out of where they stand.
#[derive(PartialEq, Eq, Structural, Clone, Copy, Debug)]
pub enum EFileAction {
    Copied,
    Moved,
}

/// One item under a directory: its path relative to that directory, with
/// `/` between components, and whether it is a directory.
#[derive(Debug)]
pub struct TreeEntry {
    pub rel_path: String,
    pub is_dir: bool,
}

impl View for TreeEntry {
    type V = (Seq<char>, bool);

    open spec fn view(&self) -> (Seq<char>, bool) {
        (self.rel_path@, self.is_dir)
    }
}

/// One filesystem step.
#[derive(Debug)]
pub enum FsOp {
    /// Create the directory and any missing ancestor; one that exists is kept.
    EnsureDir { path: String },
    /// Copy the file `from` to `to`, replacing a file that stands there.
    CopyFile { from: String, to: String },
    /// Move the file `from` to `to`.
    MoveFile { from: String, to: String },
    /// Write `contents` as the whole content of the file `path`.
    WriteFile { path: String, contents: String },
    /// Transfer the file or tree `from` into the directory `to_parent`, by the
    /// steps that `copy_dir` gives for it.
    TransferTree { from: String, to_parent: String, action: EFileAction },
    /// Remove the directory `path` with all that it holds.
    RemoveTree { path: String },
    /// Nothing can be placed for `path`: it has no last component.
    Unplaceable { path: String },
}

/// What a step does, over the characters of its paths.
pub enum OpView {
    EnsureDir(Seq<char>),
    CopyFile(Seq<char>, Seq<char>),
    MoveFile(Seq<char>, Seq<char>),
    WriteFile(Seq<char>, Seq<char>),
    TransferTree(Seq<char>, Seq<char>, EFileAction),
    RemoveTree(Seq<char>),
    Unplaceable(Seq<char>),
}

impl View for FsOp {
    type V = OpView;

    open spec fn view(&self) -> OpView {
        match self {
            FsOp::EnsureDir { path } => OpView::EnsureDir(path@),
            FsOp::CopyFile { from, to } => OpView::CopyFile(from@, to@),
            FsOp::MoveFile { from, to } => OpView::MoveFile(from@, to@),
            FsOp::WriteFile { path, contents } => OpView::WriteFile(path@, contents@),
            FsOp::TransferTree { from, to_parent, action } => OpView::TransferTree(
                from@,
                to_parent@,
                *action,
            ),
            FsOp::RemoveTree { path } => OpView::RemoveTree(path@),
            FsOp::Unplaceable { path } => OpView::Unplaceable(path@),
        }
    }
}

pub open spec fn op_views(v: Seq<FsOp>) -> Seq<OpView> {
    v.map_values(|o: FsOp| o@)
}

pub open spec fn listing_views(v: Seq<TreeEntry>) -> Seq<(Seq<char>, bool)> {
    v.map_values(|e: TreeEntry| e@)
}

/// Copy or move of one file, by `action`.
pub open spec fn file_op(from: Seq<char>, to: Seq<char>, action: EFileAction) -> OpView {
    if action == EFileAction::Moved {
        OpView::MoveFile(from, to)
    } else {
        OpView::CopyFile(from, to)
    }
}

/// Where the transfer of `from` into `to` puts it.
pub open spec fn transfer_root(from: Seq<char>, to: Seq<char>) -> Option<Seq<char>> {
    match spec_file_name(from) {
        Some(n) => Some(spec_join(to, n)),
        None => None,
    }
}

/// The step for one item of the tree under `from`, placed under `root`.
pub open spec fn tree_entry_op(
    from: Seq<char>,
    root: Seq<char>,
    e: (Seq<char>, bool),
    action: EFileAction,
) -> OpView {
    if e.1 {
        OpView::EnsureDir(spec_join(root, e.0))
    } else {
        file_op(spec_join(from, e.0), spec_join(root, e.0), action)
    }
}

/// The steps that transfer `from` into the directory `to`: a file goes to
/// `to/<name>`; a directory becomes `to/<name>`, merged into one that exists,
/// and each item of `listing` (a directory before what it holds) goes to the
/// same relative place under it.
pub open spec fn transfer_plan(
    from: Seq<char>,
    to: Seq<char>,
    source_is_dir: bool,
    listing: Seq<(Seq<char>, bool)>,
    action: EFileAction,
) -> Option<Seq<OpView>> {
    match transfer_root(from, to) {
        None => None,
        Some(root) => if source_is_dir {
            Some(
                seq![OpView::EnsureDir(root)] + listing.map_values(
                    |e: (Seq<char>, bool)| tree_entry_op(from, root, e, action),
                ),
            )
        } else {
            Some(seq![file_op(from, root, action)])
        },
    }
}

/// The path that a step reads its file or tree from.
pub open spec fn op_source(op: OpView) -> Seq<char> {
    match op {
        OpView::CopyFile(f, _) => f,
        OpView::MoveFile(f, _) => f,
        OpView::TransferTree(f, _, _) => f,
        _ => Seq::empty(),
    }
}

/// The path at which a step puts its file or tree.
pub open spec fn op_target(op: OpView) -> Seq<char> {
    match op {
        OpView::CopyFile(_, t) => t,
        OpView::MoveFile(_, t) => t,
        OpView::TransferTree(f, p, _) => match transfer_root(f, p) {
            Some(t) => t,
            None => Seq::empty(),
        },
        _ => Seq::empty(),
    }
}

/// The step takes something away from where it stands.
pub open spec fn op_takes_away(op: OpView) -> bool {
    match op {
        OpView::MoveFile(_, _) => true,
        OpView::RemoveTree(_) => true,
        OpView::TransferTree(_, _, a) => a == EFileAction::Moved,
        _ => false,
    }
}

fn file_step(from: String, to: String, action: EFileAction) -> (r: FsOp)
    ensures
        r@ == file_op(from@, to@, action),
{
    match action {
        EFileAction::Moved => FsOp::MoveFile { from, to },
        EFileAction::Copied => FsOp::CopyFile { from, to },
    }
}

/// The steps that transfer the file or directory `from` into the directory
/// `to`; `listing` is what the directory holds. None when `from` has no last
/// component to name the copy by.
pub fn copy_dir(
    from: &str,
    to: &str,
    source_is_dir: bool,
    listing: &Vec<TreeEntry>,
    action: EFileAction,
) -> (r: Option<Vec<FsOp>>)
    ensures
        match r {
            Some(ops) => transfer_plan(from@, to@, source_is_dir, listing_views(listing@), action)
                == Some(op_views(ops@)),
            None => transfer_plan(from@, to@, source_is_dir, listing_views(listing@), action) is None,
        },
{
    let name = match file_name(from) {
        Some(n) => n,
        None => {
            return None;
        },
    };
    let root = join(to, name.as_str());
    let mut ops: Vec<FsOp> = Vec::new();
    if !source_is_dir {
        ops.push(file_step(from.to_owned(), root, action));
        assert(op_views(ops@) =~= seq![file_op(from@, spec_join(to@, name@), action)]);
        return Some(ops);
    }
    ops.push(FsOp::EnsureDir { path: root.clone() });
    let mut k: usize = 0;
    while k < listing.len()
        invariant
            k <= listing.len(),
            op_views(ops@) == seq![OpView::EnsureDir(root@)] + listing_views(
                listing@.take(k as int),
            ).map_values(|x: (Seq<char>, bool)| tree_entry_op(from@, root@, x, action)),
        decreases listing.len() - k,
    {
        let ghost old_ops = ops;
        let e = &listing[k];
        let target = join(root.as_str(), e.rel_path.as_str());
        if e.is_dir {
            ops.push(FsOp::EnsureDir { path: target });
        } else {
            ops.push(file_step(join(from, e.rel_path.as_str()), target, action));
        }
        proof {
            let prev = listing_views(listing@.take(k as int));
            assert(listing_views(listing@.take(k + 1)) =~= prev.push(e@));
            assert(prev.push(e@).map_values(|x: (Seq<char>, bool)| tree_entry_op(from@, root@, x, action)) =~= prev.map_values(|x: (Seq<char>, bool)| tree_entry_op(from@, root@, x, action)).push(tree_entry_op(from@, root@, e@, action)));
            assert(ops@.last()@ == tree_entry_op(from@, root@, e@, action));
            assert(op_views(ops@) =~= op_views(old_ops@).push(ops@.last()@));
        }
        k = k + 1;
    }
    assert(listing@.take(listing.len() as int) =~= listing@);
    Some(ops)
}

} // verus!
