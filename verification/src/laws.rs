//! The laws the library keeps: the backup/restore round trip (contents and
//! permission bits), and the path safety of every restore plan.
use crate::backup::{backup_entries, file_ok};
use crate::fsmodel::{
    apply_actions, last_mode, last_write, lemma_apply_files, lemma_apply_modes, FsModel,
};
use crate::paths::{
    is_dir_name, is_under, joined, lemma_joined_injective, lemma_joined_parts,
    lemma_safe_never_escapes, never_escapes, rel_of, safe_name, segments,
};
use crate::restore::{action_path, entry_actions, plan_paths_safe, plan_spec, ActionModel};
use crate::zipio::{read_back, stored_mode, StoredEntry};
use vstd::prelude::*;

verus! {

// ---------------------------------------------------------------------------
// What a plan writes where.
// ---------------------------------------------------------------------------
proof fn lemma_last_write_concat(a: Seq<ActionModel>, b: Seq<ActionModel>, p: Seq<char>)
    ensures
        last_write(a + b, p) == if last_write(b, p) is Some {
            last_write(b, p)
        } else {
            last_write(a, p)
        },
        last_mode(a + b, p) == if last_mode(b, p) is Some {
            last_mode(b, p)
        } else {
            last_mode(a, p)
        },
    decreases b.len(),
{
    if b.len() == 0 {
        assert(a + b =~= a);
    } else {
        assert((a + b).drop_last() =~= a + b.drop_last());
        assert((a + b).last() == b.last());
        lemma_last_write_concat(a, b.drop_last(), p);
    }
}

/// The payload of the last entry in `entries` that is stored as a file at
/// `p` under `root`, if any.
pub open spec fn last_stored_file(entries: Seq<StoredEntry>, root: Seq<char>, p: Seq<char>) -> Option<Seq<u8>>
    decreases entries.len(),
{
    if entries.len() == 0 {
        Option::None
    } else {
        let e = entries.last();
        if safe_name(e.0) && !is_dir_name(e.0) && joined(root, e.0) == p {
            Some(e.1)
        } else {
            last_stored_file(entries.drop_last(), root, p)
        }
    }
}

/// The mode of the last entry in `entries` that applies one at `p` under
/// `root`, if any.
pub open spec fn last_stored_mode(entries: Seq<StoredEntry>, root: Seq<char>, p: Seq<char>) -> Option<u32>
    decreases entries.len(),
{
    if entries.len() == 0 {
        Option::None
    } else {
        let e = entries.last();
        if safe_name(e.0) && joined(root, e.0) == p && e.2 is Some {
            e.2
        } else {
            last_stored_mode(entries.drop_last(), root, p)
        }
    }
}

proof fn lemma_entry_actions_at(e: StoredEntry, root: Seq<char>, p: Seq<char>)
    ensures
        last_write(entry_actions(e, root), p) == if safe_name(e.0) && !is_dir_name(e.0) && joined(
            root,
            e.0,
        ) == p {
            Some(e.1)
        } else {
            Option::<Seq<u8>>::None
        },
        last_mode(entry_actions(e, root), p) == if safe_name(e.0) && joined(root, e.0) == p
            && e.2 is Some {
            e.2
        } else {
            Option::<u32>::None
        },
{
    if safe_name(e.0) {
        let dest = joined(root, e.0);
        let note: Seq<ActionModel> = if e.3.len() > 0 {
            seq![ActionModel::Note { text: e.3 }]
        } else {
            Seq::empty()
        };
        let make: Seq<ActionModel> = if is_dir_name(e.0) {
            seq![ActionModel::MakeDir { path: dest }]
        } else {
            seq![ActionModel::WriteFile { path: dest, data: e.1 }]
        };
        let md: Seq<ActionModel> = match e.2 {
            Some(m) => seq![ActionModel::SetMode { path: dest, mode: m }],
            Option::None => Seq::empty(),
        };
        assert(entry_actions(e, root) == note + make + md);
        match e.2 {
            Some(m) => {
                assert(md.last() == ActionModel::SetMode { path: dest, mode: m });
                assert(md.drop_last() =~= Seq::<ActionModel>::empty());
                assert(last_write(md.drop_last(), p) is None);
                assert(last_mode(md.drop_last(), p) is None);
                assert(last_write(md, p) is None);
                assert(last_mode(md, p) == if dest == p {
                    Some(m)
                } else {
                    Option::<u32>::None
                });
            },
            Option::None => {
                assert(last_write(md, p) is None);
                assert(last_mode(md, p) is None);
            },
        }
        assert(make.drop_last() =~= Seq::<ActionModel>::empty());
        assert(last_write(make.drop_last(), p) is None);
        assert(last_mode(make.drop_last(), p) is None);
        if is_dir_name(e.0) {
            assert(make.last() == ActionModel::MakeDir { path: dest });
            assert(last_write(make, p) is None);
        } else {
            assert(make.last() == ActionModel::WriteFile { path: dest, data: e.1 });
            assert(last_write(make, p) == if dest == p {
                Some(e.1)
            } else {
                Option::<Seq<u8>>::None
            });
        }
        assert(last_mode(make, p) is None);
        if e.3.len() > 0 {
            assert(note.last() == ActionModel::Note { text: e.3 });
            assert(note.drop_last() =~= Seq::<ActionModel>::empty());
            assert(last_write(note.drop_last(), p) is None);
            assert(last_mode(note.drop_last(), p) is None);
        }
        assert(last_write(note, p) is None);
        assert(last_mode(note, p) is None);
        lemma_last_write_concat(note, make, p);
        lemma_last_write_concat(note + make, md, p);
    } else {
        assert(entry_actions(e, root) =~= Seq::<ActionModel>::empty());
    }
}

/// The last write a restore plan makes to `p` is the payload of the last
/// safe file entry stored at `p`, and likewise for modes.
pub proof fn lemma_plan_effect_at(entries: Seq<StoredEntry>, root: Seq<char>, p: Seq<char>)
    ensures
        last_write(plan_spec(entries, root), p) == last_stored_file(entries, root, p),
        last_mode(plan_spec(entries, root), p) == last_stored_mode(entries, root, p),
    decreases entries.len(),
{
    if entries.len() > 0 {
        lemma_plan_effect_at(entries.drop_last(), root, p);
        lemma_last_write_concat(
            plan_spec(entries.drop_last(), root),
            entry_actions(entries.last(), root),
            p,
        );
        lemma_entry_actions_at(entries.last(), root, p);
    }
}

// ---------------------------------------------------------------------------
// The round trip.
// ---------------------------------------------------------------------------
/// A list of stored entries that are all safe file entries with pairwise
/// distinct names.
pub open spec fn distinct_safe_files(entries: Seq<StoredEntry>) -> bool {
    &&& forall|i: int|
        0 <= i < entries.len() ==> safe_name((#[trigger] entries[i]).0) && !is_dir_name(
            entries[i].0,
        )
    &&& forall|i: int, j: int|
        0 <= i < j < entries.len() ==> (#[trigger] entries[i]).0 != (#[trigger] entries[j]).0
}

proof fn lemma_last_stored_at(entries: Seq<StoredEntry>, root: Seq<char>, i: int)
    requires
        distinct_safe_files(entries),
        0 <= i < entries.len(),
    ensures
        last_stored_file(entries, root, joined(root, entries[i].0)) == Some(entries[i].1),
        entries[i].2 is Some ==> last_stored_mode(entries, root, joined(root, entries[i].0))
            == entries[i].2,
    decreases entries.len(),
{
    let p = joined(root, entries[i].0);
    let e = entries.last();
    if i == entries.len() - 1 {
        assert(joined(root, e.0) == p);
    } else {
        assert(e.0 != entries[i].0);
        if joined(root, e.0) == p {
            lemma_joined_injective(root, e.0, entries[i].0);
            assert(false);
        }
        assert(entries.drop_last()[i] == entries[i]);
        lemma_last_stored_at(entries.drop_last(), root, i);
    }
}

proof fn lemma_last_stored_some(entries: Seq<StoredEntry>, root: Seq<char>, p: Seq<char>)
    requires
        last_stored_file(entries, root, p) is Some,
    ensures
        exists|i: int|
            0 <= i < entries.len() && p == joined(root, (#[trigger] entries[i]).0),
    decreases entries.len(),
{
    let e = entries.last();
    if safe_name(e.0) && !is_dir_name(e.0) && joined(root, e.0) == p {
        assert(p == joined(root, entries[entries.len() - 1].0));
    } else {
        lemma_last_stored_some(entries.drop_last(), root, p);
        let i = choose|i: int|
            0 <= i < entries.drop_last().len() && p == joined(
                root,
                (#[trigger] entries.drop_last()[i]).0,
            );
        assert(entries.drop_last()[i] == entries[i]);
        assert(p == joined(root, entries[i].0));
    }
}

/// A stored permission survives the container: the permission bits of the
/// mode an entry comes back under equal the bits it was written with.
pub proof fn lemma_stored_mode_keeps_bits(m: u32)
    ensures
        stored_mode(m) & 0o777 == m & 0o777,
{
    assert(((m & 0o777) | 0o100000) & 0o777 == m & 0o777) by (bit_vector);
}

/// Round-trip law: backing a set of files up under `root1` and restoring
/// the resulting entries into an empty destination `root2` reproduces
/// exactly those files — each under the destination joined with its
/// relative path, byte for byte — and nothing else; and each restored
/// file's permission bits equal the bits it was backed up with.
pub proof fn lemma_backup_restore_round_trip(
    root1: Seq<char>,
    root2: Seq<char>,
    fs: Seq<(Seq<char>, Seq<u8>, u32)>,
)
    requires
        forall|i: int| 0 <= i < fs.len() ==> file_ok(root1, #[trigger] fs[i]),
        forall|i: int|
            0 <= i < fs.len() ==> safe_name(rel_of(root1, (#[trigger] fs[i]).0)) && !is_dir_name(
                rel_of(root1, fs[i].0),
            ),
        forall|i: int, j: int|
            0 <= i < j < fs.len() ==> (#[trigger] fs[i]).0 != (#[trigger] fs[j]).0,
    ensures
        ({
            let m = apply_actions(
                FsModel::empty(),
                plan_spec(read_back(backup_entries(root1, fs)), root2),
            );
            &&& forall|i: int|
                0 <= i < fs.len() ==> {
                    let key = joined(root2, rel_of(root1, (#[trigger] fs[i]).0));
                    &&& m.files.contains_key(key)
                    &&& m.files[key] == fs[i].1
                    &&& m.modes.contains_key(key)
                    &&& m.modes[key] & 0o777 == fs[i].2 & 0o777
                }
            &&& forall|p: Seq<char>|
                #[trigger] m.files.contains_key(p) ==> exists|i: int|
                    0 <= i < fs.len() && p == joined(root2, rel_of(root1, (#[trigger] fs[i]).0))
        }),
{
    let entries = read_back(backup_entries(root1, fs));
    let plan = plan_spec(entries, root2);
    let m = apply_actions(FsModel::empty(), plan);
    assert(entries.len() == fs.len());
    assert forall|i: int| 0 <= i < fs.len() implies (#[trigger] fs[i]).0 =~= joined(
        root1,
        rel_of(root1, fs[i].0),
    ) by {}
    assert forall|i: int, j: int|
        0 <= i < j < fs.len() implies rel_of(root1, (#[trigger] fs[i]).0) != rel_of(
        root1,
        (#[trigger] fs[j]).0,
    ) by {
        if rel_of(root1, fs[i].0) == rel_of(root1, fs[j].0) {
            assert(fs[i].0 =~= fs[j].0);
        }
    }
    assert forall|i: int| 0 <= i < fs.len() implies #[trigger] entries[i] == (
        rel_of(root1, fs[i].0),
        fs[i].1,
        Some(stored_mode(fs[i].2)),
        Seq::<char>::empty(),
    ) by {
        assert(backup_entries(root1, fs)[i] == (rel_of(root1, fs[i].0), fs[i].1, fs[i].2));
    }
    assert(distinct_safe_files(entries));
    assert forall|i: int|
        0 <= i < fs.len() implies {
        let key = joined(root2, rel_of(root1, (#[trigger] fs[i]).0));
        &&& m.files.contains_key(key)
        &&& m.files[key] == fs[i].1
        &&& m.modes.contains_key(key)
        &&& m.modes[key] & 0o777 == fs[i].2 & 0o777
    } by {
        let key = joined(root2, rel_of(root1, fs[i].0));
        lemma_plan_effect_at(entries, root2, key);
        lemma_last_stored_at(entries, root2, i);
        lemma_apply_files(FsModel::empty(), plan, key);
        lemma_apply_modes(FsModel::empty(), plan, key);
        lemma_stored_mode_keeps_bits(fs[i].2);
    }
    assert forall|p: Seq<char>| #[trigger] m.files.contains_key(p) implies exists|i: int|
        0 <= i < fs.len() && p == joined(root2, rel_of(root1, (#[trigger] fs[i]).0)) by {
        lemma_apply_files(FsModel::empty(), plan, p);
        lemma_plan_effect_at(entries, root2, p);
        lemma_last_stored_some(entries, root2, p);
        let i = choose|i: int|
            0 <= i < entries.len() && p == joined(root2, (#[trigger] entries[i]).0);
        assert(p == joined(root2, rel_of(root1, fs[i].0)));
    }
}

// ---------------------------------------------------------------------------
// Path safety.
// ---------------------------------------------------------------------------
proof fn lemma_entry_action_paths(e: StoredEntry, root: Seq<char>, k: int)
    requires
        0 <= k < entry_actions(e, root).len(),
    ensures
        action_path(entry_actions(e, root)[k]) matches Some(p) ==> safe_name(e.0) && p == joined(
            root,
            e.0,
        ),
{
    if safe_name(e.0) {
        let dest = joined(root, e.0);
        let note: Seq<ActionModel> = if e.3.len() > 0 {
            seq![ActionModel::Note { text: e.3 }]
        } else {
            Seq::empty()
        };
        let make: Seq<ActionModel> = if is_dir_name(e.0) {
            seq![ActionModel::MakeDir { path: dest }]
        } else {
            seq![ActionModel::WriteFile { path: dest, data: e.1 }]
        };
        let md: Seq<ActionModel> = match e.2 {
            Some(m) => seq![ActionModel::SetMode { path: dest, mode: m }],
            Option::None => Seq::empty(),
        };
        assert(entry_actions(e, root) == note + make + md);
        if k < note.len() {
            assert(entry_actions(e, root)[k] == note[k]);
        } else if k < note.len() + make.len() {
            assert(entry_actions(e, root)[k] == make[k - note.len()]);
        } else {
            assert(entry_actions(e, root)[k] == md[k - note.len() - make.len()]);
        }
    }
}

/// Path-safety law: every path the restore plan of any entry list touches
/// is the destination root joined with a safe stored name — a relative
/// name whose walk never climbs above the root — and so lies under the
/// destination root.
pub proof fn lemma_plan_stays_under_root(entries: Seq<StoredEntry>, root: Seq<char>)
    ensures
        plan_paths_safe(plan_spec(entries, root), root),
    decreases entries.len(),
{
    if entries.len() > 0 {
        lemma_plan_stays_under_root(entries.drop_last(), root);
        let plan = plan_spec(entries, root);
        let e = entries.last();
        let front = plan_spec(entries.drop_last(), root);
        let ea = entry_actions(e, root);
        assert(plan == front + ea);
        if safe_name(e.0) {
            lemma_safe_never_escapes(e.0);
            lemma_joined_parts(root, e.0);
        }
        assert forall|j: int|
            0 <= j < plan.len() implies (action_path(#[trigger] plan[j]) matches Some(p)
            ==> exists|n: Seq<char>|
                {
                    &&& #[trigger] safe_name(n)
                    &&& p == joined(root, n)
                    &&& is_under(root, p)
                    &&& never_escapes(segments(n))
                }) by {
            if j < front.len() {
                assert(plan[j] == front[j]);
            } else {
                assert(plan[j] == ea[j - front.len()]);
                lemma_entry_action_paths(e, root, j - front.len());
            }
        }
    }
}

} // verus!
