//! A model of the destination tree a restore writes into, and what a list
//! of restore actions does to it.
use crate::restore::ActionModel;
use vstd::prelude::*;

verus! {

/// The destination tree: the directories declared, the files with their
/// bytes, and the modes applied, each keyed by path.
#[verifier::ext_equal]
pub struct FsModel {
    pub dirs: Set<Seq<char>>,
    pub files: Map<Seq<char>, Seq<u8>>,
    pub modes: Map<Seq<char>, u32>,
}

impl FsModel {
    /// A destination with nothing in it.
    pub open spec fn empty() -> FsModel {
        FsModel { dirs: Set::empty(), files: Map::empty(), modes: Map::empty() }
    }
}

/// The effect of one action on the destination tree.  A directory or file
/// is created or overwritten in place; notices change nothing.
pub open spec fn apply_action(m: FsModel, a: ActionModel) -> FsModel {
    match a {
        ActionModel::MakeDir { path } => FsModel { dirs: m.dirs.insert(path), ..m },
        ActionModel::WriteFile { path, data } => FsModel {
            files: m.files.insert(path, data),
            ..m
        },
        ActionModel::SetMode { path, mode } => FsModel { modes: m.modes.insert(path, mode), ..m },
        ActionModel::Note { .. } => m,
    }
}

/// The effect of a whole action list, applied in order.
pub open spec fn apply_actions(m: FsModel, acts: Seq<ActionModel>) -> FsModel
    decreases acts.len(),
{
    if acts.len() == 0 {
        m
    } else {
        apply_action(apply_actions(m, acts.drop_last()), acts.last())
    }
}

/// The bytes the last write to `path` in `acts` carries, if any.
pub open spec fn last_write(acts: Seq<ActionModel>, path: Seq<char>) -> Option<Seq<u8>>
    decreases acts.len(),
{
    if acts.len() == 0 {
        Option::None
    } else {
        match acts.last() {
            ActionModel::WriteFile { path: p, data } => if p == path {
                Some(data)
            } else {
                last_write(acts.drop_last(), path)
            },
            _ => last_write(acts.drop_last(), path),
        }
    }
}

/// The mode the last mode application to `path` in `acts` carries, if any.
pub open spec fn last_mode(acts: Seq<ActionModel>, path: Seq<char>) -> Option<u32>
    decreases acts.len(),
{
    if acts.len() == 0 {
        Option::None
    } else {
        match acts.last() {
            ActionModel::SetMode { path: p, mode } => if p == path {
                Some(mode)
            } else {
                last_mode(acts.drop_last(), path)
            },
            _ => last_mode(acts.drop_last(), path),
        }
    }
}

/// Whether `acts` declares the directory `path`.
pub open spec fn makes_dir(acts: Seq<ActionModel>, path: Seq<char>) -> bool
    decreases acts.len(),
{
    if acts.len() == 0 {
        false
    } else {
        match acts.last() {
            ActionModel::MakeDir { path: p } => p == path || makes_dir(acts.drop_last(), path),
            _ => makes_dir(acts.drop_last(), path),
        }
    }
}

/// What an action list leaves at one file path: the last write if there
/// was one, else whatever was there.
pub proof fn lemma_apply_files(m: FsModel, acts: Seq<ActionModel>, path: Seq<char>)
    ensures
        apply_actions(m, acts).files.contains_key(path) <==> (last_write(acts, path) is Some
            || m.files.contains_key(path)),
        last_write(acts, path) matches Some(d) ==> apply_actions(m, acts).files[path] == d,
        last_write(acts, path) is None && m.files.contains_key(path) ==> apply_actions(
            m,
            acts,
        ).files[path] == m.files[path],
    decreases acts.len(),
{
    if acts.len() > 0 {
        lemma_apply_files(m, acts.drop_last(), path);
    }
}

/// What an action list leaves as one path's mode.
pub proof fn lemma_apply_modes(m: FsModel, acts: Seq<ActionModel>, path: Seq<char>)
    ensures
        apply_actions(m, acts).modes.contains_key(path) <==> (last_mode(acts, path) is Some
            || m.modes.contains_key(path)),
        last_mode(acts, path) matches Some(mo) ==> apply_actions(m, acts).modes[path] == mo,
        last_mode(acts, path) is None && m.modes.contains_key(path) ==> apply_actions(
            m,
            acts,
        ).modes[path] == m.modes[path],
    decreases acts.len(),
{
    if acts.len() > 0 {
        lemma_apply_modes(m, acts.drop_last(), path);
    }
}

/// Whether an action list leaves a directory declared at one path.
pub proof fn lemma_apply_dirs(m: FsModel, acts: Seq<ActionModel>, path: Seq<char>)
    ensures
        apply_actions(m, acts).dirs.contains(path) <==> (makes_dir(acts, path)
            || m.dirs.contains(path)),
    decreases acts.len(),
{
    if acts.len() > 0 {
        lemma_apply_dirs(m, acts.drop_last(), path);
    }
}

/// Idempotent restore: applying the same action list twice leaves the
/// tree the first application left — every action creates or overwrites
/// in place, so nothing accumulates or corrupts.
pub proof fn lemma_apply_idempotent(m: FsModel, acts: Seq<ActionModel>)
    ensures
        apply_actions(apply_actions(m, acts), acts) == apply_actions(m, acts),
{
    let m1 = apply_actions(m, acts);
    let m2 = apply_actions(m1, acts);
    assert forall|p: Seq<char>|
        #![trigger m2.files.contains_key(p)]
        #![trigger m1.files.contains_key(p)]
        (m2.files.contains_key(p) <==> m1.files.contains_key(p)) && (m1.files.contains_key(p)
            ==> m2.files[p] == m1.files[p]) by {
        lemma_apply_files(m, acts, p);
        lemma_apply_files(m1, acts, p);
    }
    assert(m2.files =~= m1.files);
    assert forall|p: Seq<char>|
        #![trigger m2.modes.contains_key(p)]
        #![trigger m1.modes.contains_key(p)]
        (m2.modes.contains_key(p) <==> m1.modes.contains_key(p)) && (m1.modes.contains_key(p)
            ==> m2.modes[p] == m1.modes[p]) by {
        lemma_apply_modes(m, acts, p);
        lemma_apply_modes(m1, acts, p);
    }
    assert(m2.modes =~= m1.modes);
    assert forall|p: Seq<char>| #![trigger m2.dirs.contains(p)] #![trigger m1.dirs.contains(p)]
        m2.dirs.contains(p) <==> m1.dirs.contains(p) by {
        lemma_apply_dirs(m, acts, p);
        lemma_apply_dirs(m1, acts, p);
    }
    assert(m2.dirs =~= m1.dirs);
    assert(m2 =~= m1);
}

} // verus!
