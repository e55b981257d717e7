//! The archive writer: collects already-read source files into one
//! compressed archive, each stored under its path relative to the root.
use crate::paths::{is_under, name_fits, name_len_ok, rel_name, rel_of};
use crate::zipio::{
    entry_fits, read_back, writer_add_file, writer_entries, writer_finish, writer_new, zip_decode,
    WrittenEntry,
};
use vstd::prelude::*;

verus! {

/// A regular file found under the source root: its absolute path, its
/// bytes, and its permission bits.
pub struct SourceFile {
    pub path: String,
    pub data: Vec<u8>,
    pub mode: u32,
}

impl View for SourceFile {
    type V = (Seq<char>, Seq<u8>, u32);

    open spec fn view(&self) -> Self::V {
        (self.path@, self.data@, self.mode)
    }
}

/// The models of a list of source files.
pub open spec fn models(files: Seq<SourceFile>) -> Seq<(Seq<char>, Seq<u8>, u32)> {
    files.map_values(|f: SourceFile| f@)
}

/// Why a backup was refused.
#[derive(Debug)]
pub enum BackupError {
    /// The compression level lies outside the codec's range.
    UnsupportedLevel,
    /// A source file's path does not have the root as a prefix.
    NotUnderRoot,
    /// A relative name does not fit the archive's name field.
    NameTooLong,
    /// The archive container itself failed, with its cause.
    Archive(zip::result::ZipError),
}

/// The compression levels the codec accepts; `0` selects its default.
pub open spec fn level_ok(level: i32) -> bool {
    -7 <= level <= 22
}

/// Whether a source file can be archived under `root`.
pub open spec fn file_ok(root: Seq<char>, f: (Seq<char>, Seq<u8>, u32)) -> bool {
    is_under(root, f.0) && name_len_ok(rel_of(root, f.0))
}

/// The archive entry a source file yields: its path relative to the root,
/// its bytes, and its permission bits.
pub open spec fn entry_of(root: Seq<char>, f: (Seq<char>, Seq<u8>, u32)) -> WrittenEntry {
    (rel_of(root, f.0), f.1, f.2)
}

/// Whether every payload in the file list fits the container's size
/// fields, so that the container owes the backup success.
pub open spec fn all_entries_fit(fs: Seq<(Seq<char>, Seq<u8>, u32)>) -> bool {
    forall|i: int| 0 <= i < fs.len() ==> entry_fits((#[trigger] fs[i]).1)
}

/// The entries a backup of `fs` under `root` writes, in order.
pub open spec fn backup_entries(root: Seq<char>, fs: Seq<(Seq<char>, Seq<u8>, u32)>) -> Seq<
    WrittenEntry,
> {
    fs.map_values(|f: (Seq<char>, Seq<u8>, u32)| entry_of(root, f))
}

/// The first problem in the file list, scanned in order.
pub open spec fn first_file_error(root: Seq<char>, fs: Seq<(Seq<char>, Seq<u8>, u32)>) -> Option<
    BackupError,
>
    decreases fs.len(),
{
    if fs.len() == 0 {
        Option::None
    } else if !is_under(root, fs[0].0) {
        Some(BackupError::NotUnderRoot)
    } else if !name_len_ok(rel_of(root, fs[0].0)) {
        Some(BackupError::NameTooLong)
    } else {
        first_file_error(root, fs.skip(1))
    }
}

/// Writes one backup archive: every source file, stored under its path
/// relative to `root`, compressed at `level`.
///
/// Succeeds exactly when the level is supported, every file lies under the
/// root with a name of archivable length, and the container accepts the
/// writes; the bytes then decode to exactly the written entries.
pub fn write_backup(root: &String, files: &Vec<SourceFile>, level: i32) -> (r: Result<
    Vec<u8>,
    BackupError,
>)
    ensures
        !level_ok(level) ==> r == Err::<Vec<u8>, BackupError>(BackupError::UnsupportedLevel),
        level_ok(level) ==> (first_file_error(root@, models(files@)) matches Some(e) ==> r
            == Err::<Vec<u8>, BackupError>(e)),
        level_ok(level) && first_file_error(root@, models(files@)) is None ==> (r matches Err(e)
            ==> e matches BackupError::Archive(_)),
        level_ok(level) && first_file_error(root@, models(files@)) is None && all_entries_fit(
            models(files@),
        ) ==> r is Ok,
        r matches Ok(bytes) ==> {
            &&& level_ok(level)
            &&& first_file_error(root@, models(files@)) is None
            &&& zip_decode(bytes@) == Some(read_back(backup_entries(root@, models(files@))))
        },
{
    if level < -7 || level > 22 {
        return Err(BackupError::UnsupportedLevel);
    }
    let ghost fs = models(files@);
    let mut names: Vec<String> = Vec::new();
    let mut i: usize = 0;
    proof {
        assert(fs.skip(0) =~= fs);
    }
    while i < files.len()
        invariant
            level_ok(level),
            fs == models(files@),
            fs.len() == files@.len(),
            i <= files@.len(),
            names@.len() == i,
            forall|j: int| 0 <= j < i ==> file_ok(root@, #[trigger] fs[j]),
            forall|j: int| 0 <= j < i ==> #[trigger] names@[j]@ == rel_of(root@, fs[j].0),
            first_file_error(root@, fs) == first_file_error(root@, fs.skip(i as int)),
        decreases files@.len() - i,
    {
        proof {
            assert(fs[i as int] == files@[i as int]@);
            assert(fs.skip(i as int)[0] == fs[i as int]);
            assert(fs.skip(i as int).skip(1) =~= fs.skip(i as int + 1));
        }
        let f = &files[i];
        let rel = match rel_name(root.as_str(), f.path.as_str()) {
            Some(rel) => rel,
            None => {
                return Err(BackupError::NotUnderRoot);
            },
        };
        if !name_fits(rel.as_str()) {
            return Err(BackupError::NameTooLong);
        }
        names.push(rel);
        i = i + 1;
    }
    proof {
        assert(fs.skip(fs.len() as int) =~= Seq::<(Seq<char>, Seq<u8>, u32)>::empty());
    }
    let mut w = writer_new();
    let mut k: usize = 0;
    proof {
        assert(writer_entries(w) =~= backup_entries(root@, fs.take(0)));
    }
    while k < files.len()
        invariant
            fs == models(files@),
            fs.len() == files@.len(),
            names@.len() == fs.len(),
            k <= files@.len(),
            level_ok(level),
            first_file_error(root@, fs) is None,
            forall|j: int| 0 <= j < fs.len() ==> file_ok(root@, #[trigger] fs[j]),
            forall|j: int| 0 <= j < fs.len() ==> #[trigger] names@[j]@ == rel_of(root@, fs[j].0),
            writer_entries(w) == backup_entries(root@, fs.take(k as int)),
        decreases files@.len() - k,
    {
        let f = &files[k];
        let name = &names[k];
        proof {
            assert(fs[k as int] == files@[k as int]@);
            assert(name_len_ok(name@));
        }
        let ghost before = writer_entries(w);
        match writer_add_file(&mut w, name, &f.data, f.mode, level) {
            Ok(()) => {},
            Err(e) => {
                proof {
                    if all_entries_fit(fs) {
                        assert(forall|j: int|
                            0 <= j < before.len() ==> entry_fits((#[trigger] before[j]).1)) by {
                            assert(forall|j: int|
                                0 <= j < before.len() ==> #[trigger] before[j] == entry_of(
                                    root@,
                                    fs.take(k as int)[j],
                                ) && fs.take(k as int)[j] == fs[j]);
                        }
                        assert(entry_fits(f.data@));
                        assert(false);
                    }
                }
                return Err(BackupError::Archive(e));
            },
        }
        proof {
            assert(writer_entries(w) =~= backup_entries(root@, fs.take(k as int + 1))) by {
                assert(fs.take(k as int + 1).drop_last() =~= fs.take(k as int));
                assert(backup_entries(root@, fs.take(k as int + 1)) =~= backup_entries(
                    root@,
                    fs.take(k as int),
                ).push(entry_of(root@, fs[k as int])));
                assert(writer_entries(w) == before.push((name@, f.data@, f.mode)));
            }
        }
        k = k + 1;
    }
    proof {
        assert(fs.take(fs.len() as int) =~= fs);
    }
    match writer_finish(w) {
        Ok(bytes) => Ok(bytes),
        Err(e) => {
            proof {
                if all_entries_fit(fs) {
                    assert(forall|j: int|
                        0 <= j < backup_entries(root@, fs).len() ==> entry_fits(
                            (#[trigger] backup_entries(root@, fs)[j]).1,
                        )) by {
                        assert(forall|j: int|
                            0 <= j < fs.len() ==> #[trigger] backup_entries(root@, fs)[j]
                                == entry_of(root@, fs[j]));
                    }
                    assert(false);
                }
            }
            Err(BackupError::Archive(e))
        },
    }
}

} // verus!
