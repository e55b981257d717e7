//! The archive reader and restore planner: turns an archive's bytes into
//! the ordered list of filesystem actions that materialize its entries
//! under a destination root.
use crate::paths::{
    ends_with_sep, is_dir_name, is_safe_name, is_under, join_under, joined, lemma_joined_parts,
    lemma_safe_never_escapes, never_escapes, safe_name, segments,
};
use crate::zipio::{
    archive_entries, archive_len, archive_open, archive_read_entry, archive_wf, zip_decode,
    StoredEntry,
};
use vstd::prelude::*;

verus! {

/// One step of materializing an archive under a destination root.
#[derive(Debug, Clone, PartialEq)]
pub enum RestoreAction {
    /// Create this directory and its missing ancestors (idempotent).
    MakeDir { path: String },
    /// Create or overwrite this file with these bytes, creating missing
    /// ancestor directories first.
    WriteFile { path: String, data: Vec<u8> },
    /// Apply these permission bits to this path.
    SetMode { path: String, mode: u32 },
    /// Surface this entry comment as an informational notice.
    Note { text: String },
}

/// The model of a restore action, over character and byte sequences.
pub enum ActionModel {
    MakeDir { path: Seq<char> },
    WriteFile { path: Seq<char>, data: Seq<u8> },
    SetMode { path: Seq<char>, mode: u32 },
    Note { text: Seq<char> },
}

impl View for RestoreAction {
    type V = ActionModel;

    open spec fn view(&self) -> ActionModel {
        match self {
            RestoreAction::MakeDir { path } => ActionModel::MakeDir { path: path@ },
            RestoreAction::WriteFile { path, data } => ActionModel::WriteFile {
                path: path@,
                data: data@,
            },
            RestoreAction::SetMode { path, mode } => ActionModel::SetMode {
                path: path@,
                mode: *mode,
            },
            RestoreAction::Note { text } => ActionModel::Note { text: text@ },
        }
    }
}

/// The models of a list of actions.
pub open spec fn actions_view(v: Seq<RestoreAction>) -> Seq<ActionModel> {
    v.map_values(|a: RestoreAction| a@)
}

/// The path an action touches, if it touches one.
pub open spec fn action_path(a: ActionModel) -> Option<Seq<char>> {
    match a {
        ActionModel::MakeDir { path } => Some(path),
        ActionModel::WriteFile { path, .. } => Some(path),
        ActionModel::SetMode { path, .. } => Some(path),
        ActionModel::Note { .. } => Option::None,
    }
}

/// Every path the actions touch is the destination root joined with a
/// safe stored name, lies strictly under that root, and its name's walk
/// never climbs above the root.
pub open spec fn plan_paths_safe(acts: Seq<ActionModel>, root: Seq<char>) -> bool {
    forall|j: int|
        0 <= j < acts.len() ==> (action_path(#[trigger] acts[j]) matches Some(p)
            ==> exists|n: Seq<char>|
                {
                    &&& #[trigger] safe_name(n)
                    &&& p == joined(root, n)
                    &&& is_under(root, p)
                    &&& never_escapes(segments(n))
                })
}

/// The actions one stored entry yields: none if its name is unsafe;
/// otherwise its comment notice if any, then the directory or file it
/// declares under `root`, then its permission bits if it carries them.
pub open spec fn entry_actions(e: StoredEntry, root: Seq<char>) -> Seq<ActionModel> {
    if !safe_name(e.0) {
        Seq::empty()
    } else {
        let dest = joined(root, e.0);
        (if e.3.len() > 0 {
            seq![ActionModel::Note { text: e.3 }]
        } else {
            Seq::empty()
        }) + (if is_dir_name(e.0) {
            seq![ActionModel::MakeDir { path: dest }]
        } else {
            seq![ActionModel::WriteFile { path: dest, data: e.1 }]
        }) + (match e.2 {
            Some(m) => seq![ActionModel::SetMode { path: dest, mode: m }],
            Option::None => Seq::empty(),
        })
    }
}

/// The whole restore plan for these entries, in stored order.
pub open spec fn plan_spec(entries: Seq<StoredEntry>, root: Seq<char>) -> Seq<ActionModel>
    decreases entries.len(),
{
    if entries.len() == 0 {
        Seq::empty()
    } else {
        plan_spec(entries.drop_last(), root) + entry_actions(entries.last(), root)
    }
}

/// Why a restore was refused.
#[derive(Debug)]
pub enum RestoreError {
    /// The archive container could not be opened or read, with its cause.
    Archive(zip::result::ZipError),
}

/// Plans the restore of an archive's bytes under destination `root`: the
/// actions of every stored entry, in stored order.  An entry whose name is
/// unsafe is skipped, never an error; an error comes only from bytes that
/// do not decode, and whatever the bytes were, every path a returned plan
/// touches lies safely under the root.
pub fn plan_restore(bytes: &Vec<u8>, root: &String) -> (r: Result<Vec<RestoreAction>, RestoreError>)
    ensures
        zip_decode(bytes@) matches Some(es) ==> (r matches Ok(acts) && actions_view(acts@)
            == plan_spec(es, root@)),
        r matches Ok(acts) ==> plan_paths_safe(actions_view(acts@), root@),
        r matches Err(_) ==> zip_decode(bytes@) is None,
{
    let ghost dec = zip_decode(bytes@);
    let mut a = match archive_open(bytes) {
        Ok(a) => a,
        Err(e) => {
            return Err(RestoreError::Archive(e));
        },
    };
    let n = archive_len(&a);
    let ghost entries = archive_entries(a);
    let mut acts: Vec<RestoreAction> = Vec::new();
    let mut i: usize = 0;
    proof {
        assert(actions_view(acts@) =~= plan_spec(entries.take(0), root@));
    }
    while i < n
        invariant
            dec == zip_decode(bytes@),
            entries == archive_entries(a),
            n == entries.len(),
            i <= n,
            dec matches Some(es) ==> entries == es && archive_wf(a),
            actions_view(acts@) == plan_spec(entries.take(i as int), root@),
            plan_paths_safe(actions_view(acts@), root@),
        decreases n - i,
    {
        let (name, data, mode, comment) = match archive_read_entry(&mut a, i) {
            Ok(e) => e,
            Err(e) => {
                return Err(RestoreError::Archive(e));
            },
        };
        let ghost e = entries[i as int];
        let ghost before = actions_view(acts@);
        if is_safe_name(name.as_str()) {
            let dest = join_under(root.as_str(), name.as_str());
            let dest_for_mode = dest.clone();
            if !comment.as_str().is_empty() {
                acts.push(RestoreAction::Note { text: comment });
            }
            if ends_with_sep(name.as_str()) {
                acts.push(RestoreAction::MakeDir { path: dest });
            } else {
                acts.push(RestoreAction::WriteFile { path: dest, data });
            }
            match mode {
                Some(m) => {
                    acts.push(RestoreAction::SetMode { path: dest_for_mode, mode: m });
                },
                Option::None => {},
            }
        }
        proof {
            assert(actions_view(acts@) =~= before + entry_actions(e, root@));
            assert(entries.take(i as int + 1).drop_last() =~= entries.take(i as int));
            assert(entries.take(i as int + 1).last() == e);
            if safe_name(name@) {
                lemma_safe_never_escapes(name@);
                lemma_joined_parts(root@, name@);
            }
            assert forall|j: int|
                0 <= j < actions_view(acts@).len() implies (action_path(
                #[trigger] actions_view(acts@)[j],
            ) matches Some(p) ==> exists|nm: Seq<char>|
                {
                    &&& #[trigger] safe_name(nm)
                    &&& p == joined(root@, nm)
                    &&& is_under(root@, p)
                    &&& never_escapes(segments(nm))
                }) by {
                if j < before.len() {
                    assert(actions_view(acts@)[j] == before[j]);
                } else {
                    assert(action_path(actions_view(acts@)[j]) matches Some(p) ==> p == joined(
                        root@,
                        name@,
                    ) && safe_name(name@));
                }
            }
        }
        i = i + 1;
    }
    proof {
        assert(entries.take(n as int) =~= entries);
    }
    Ok(acts)
}

/// Plans a restore from an archive that may be absent: a missing archive
/// restores nothing and is a success, not an error.
pub fn plan_restore_opt(bytes: Option<Vec<u8>>, root: &String) -> (r: Result<
    Vec<RestoreAction>,
    RestoreError,
>)
    ensures
        bytes is None ==> (r matches Ok(acts) && acts@.len() == 0),
        bytes matches Some(b) ==> (zip_decode(b@) matches Some(es) ==> (r matches Ok(acts)
            && actions_view(acts@) == plan_spec(es, root@))),
        r matches Ok(acts) ==> plan_paths_safe(actions_view(acts@), root@),
        bytes matches Some(b) ==> (r matches Err(_) ==> zip_decode(b@) is None),
{
    match bytes {
        Option::None => Ok(Vec::new()),
        Some(b) => plan_restore(&b, root),
    }
}

} // verus!
