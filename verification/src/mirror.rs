//! Which entries of a vault are mirrored, what a mirroring run counts, and
//! where a mirror may be placed.

use vstd::prelude::*;
use crate::paths::{components_prefix, has_component_prefix};
use crate::text::{ends_with, seq_ends_with, str_equals, string_views};

verus! {

/// Tally of a mirroring run: the notes (`.md` files) copied and the bytes
/// of all files copied.
pub struct StaticSync {
    pub notes: usize,
    pub bytes: u64,
}

/// What a directory entry is, as its file type tells (links are not
/// followed).
#[derive(Clone, Copy, PartialEq, Eq, Structural, Debug)]
pub enum EntryKind {
    Directory,
    File,
    Other,
}

/// What a mirroring run does with one directory entry.
#[derive(Clone, Copy, PartialEq, Eq, Structural, Debug)]
pub enum MirrorStep {
    /// Leave the entry out of the mirror.
    Skip,
    /// Create the directory in the mirror and mirror its entries.
    Descend,
    /// Copy the file into the mirror and count it.
    Copy,
}

/// Entries that never reach the mirror: the editor's own folders and
/// temporary files.
pub open spec fn ignored_name(name: Seq<char>) -> bool {
    ||| name == ".obsidian"@
    ||| name == ".git"@
    ||| name == ".trash"@
    ||| seq_ends_with(name, ".tmp"@)
}

/// A file that counts as a note.
pub open spec fn is_note_name(name: Seq<char>) -> bool {
    seq_ends_with(name, ".md"@)
}

/// The names left out of the mirror are exactly `.obsidian`, `.git`,
/// `.trash` and those ending in `.tmp`; any other name, whatever characters
/// it holds, is kept.
pub proof fn lemma_ignored_names_exactly(name: Seq<char>)
    ensures
        ignored_name(name) <==> ({
            ||| name == seq!['.', 'o', 'b', 's', 'i', 'd', 'i', 'a', 'n']
            ||| name == seq!['.', 'g', 'i', 't']
            ||| name == seq!['.', 't', 'r', 'a', 's', 'h']
            ||| name.len() >= 4 && name.subrange(name.len() - 4, name.len() as int) == seq![
                '.',
                't',
                'm',
                'p',
            ]
        }),
        !ignored_name(name) ==> mirror_step_for(name, EntryKind::File) == MirrorStep::Copy
            && mirror_step_for(name, EntryKind::Directory) == MirrorStep::Descend,
        ignored_name(name) ==> mirror_step_for(name, EntryKind::File) == MirrorStep::Skip
            && mirror_step_for(name, EntryKind::Directory) == MirrorStep::Skip,
        mirror_step_for(name, EntryKind::Other) == MirrorStep::Skip,
{
    reveal_strlit(".obsidian");
    reveal_strlit(".git");
    reveal_strlit(".trash");
    reveal_strlit(".tmp");
    assert(".obsidian"@ == seq!['.', 'o', 'b', 's', 'i', 'd', 'i', 'a', 'n']);
    assert(".git"@ == seq!['.', 'g', 'i', 't']);
    assert(".trash"@ == seq!['.', 't', 'r', 'a', 's', 'h']);
    assert(".tmp"@ == seq!['.', 't', 'm', 'p']);
}

/// A copied file counts as a note exactly when its name ends in `.md`.
pub proof fn lemma_notes_are_md_files(name: Seq<char>)
    ensures
        is_note_name(name) <==> (name.len() >= 3 && name.subrange(
            name.len() - 3,
            name.len() as int,
        ) == seq!['.', 'm', 'd']),
{
    reveal_strlit(".md");
    assert(".md"@ == seq!['.', 'm', 'd']);
}

/// The step taken for an entry named `name` of kind `kind`.
pub open spec fn mirror_step_for(name: Seq<char>, kind: EntryKind) -> MirrorStep {
    if ignored_name(name) {
        MirrorStep::Skip
    } else {
        match kind {
            EntryKind::Directory => MirrorStep::Descend,
            EntryKind::File => MirrorStep::Copy,
            EntryKind::Other => MirrorStep::Skip,
        }
    }
}

/// Whether the entry `name` is left out of the mirror.
pub fn should_ignore(name: &str) -> (b: bool)
    ensures
        b == ignored_name(name@),
{
    str_equals(name, ".obsidian") || str_equals(name, ".git") || str_equals(name, ".trash")
        || ends_with(name, ".tmp")
}

/// What to do with the entry `name` of kind `kind`.
pub fn mirror_step(name: &str, kind: EntryKind) -> (step: MirrorStep)
    ensures
        step == mirror_step_for(name@, kind),
{
    if should_ignore(name) {
        MirrorStep::Skip
    } else {
        match kind {
            EntryKind::Directory => MirrorStep::Descend,
            EntryKind::File => MirrorStep::Copy,
            EntryKind::Other => MirrorStep::Skip,
        }
    }
}

impl StaticSync {
    /// The tally before anything is copied.
    pub fn new() -> (s: StaticSync)
        ensures
            s.notes == 0,
            s.bytes == 0,
    {
        StaticSync { notes: 0, bytes: 0 }
    }

    /// Whether recording a copied file named `name` of `size` bytes keeps
    /// both counters in range.
    pub fn can_record(&self, name: &str, size: u64) -> (b: bool)
        ensures
            b == (self.bytes + size <= u64::MAX && (is_note_name(name@) ==> self.notes
                < usize::MAX)),
    {
        size <= u64::MAX - self.bytes && (!ends_with(name, ".md") || self.notes < usize::MAX)
    }

    /// Counts a copied file named `name` of `size` bytes.
    pub fn record_copied_file(&mut self, name: &str, size: u64)
        requires
            old(self).bytes + size <= u64::MAX,
            is_note_name(name@) ==> old(self).notes < usize::MAX,
        ensures
            final(self).bytes == old(self).bytes + size,
            final(self).notes == old(self).notes + if is_note_name(name@) {
                1int
            } else {
                0int
            },
    {
        self.bytes = self.bytes + size;
        if ends_with(name, ".md") {
            self.notes = self.notes + 1;
        }
    }
}

/// How many of the copied files (name, size) are notes.
pub open spec fn notes_among(files: Seq<(Seq<char>, u64)>) -> int
    decreases files.len(),
{
    if files.len() == 0 {
        0
    } else {
        notes_among(files.drop_last()) + if is_note_name(files.last().0) {
            1int
        } else {
            0int
        }
    }
}

/// The total size of the copied files (name, size).
pub open spec fn bytes_among(files: Seq<(Seq<char>, u64)>) -> int
    decreases files.len(),
{
    if files.len() == 0 {
        0
    } else {
        bytes_among(files.drop_last()) + files.last().1
    }
}

/// Recording the files a run copies, one after the other, from a tally
/// `states[0]`: `states[k]` is the tally after `k` files, each step being what
/// `record_copied_file` does. The tally then grew by the notes and the bytes
/// of the copied files, and never shrank on the way.
pub proof fn lemma_tally_of_run(files: Seq<(Seq<char>, u64)>, states: Seq<StaticSync>)
    requires
        states.len() == files.len() + 1,
        forall|k: int| 0 <= k < files.len() ==> {
            &&& (#[trigger] states[k + 1]).bytes == states[k].bytes + files[k].1
            &&& states[k + 1].notes == states[k].notes + if is_note_name(files[k].0) {
                1int
            } else {
                0int
            }
        },
    ensures
        states.last().notes == states[0].notes + notes_among(files),
        states.last().bytes == states[0].bytes + bytes_among(files),
        forall|k: int| 0 <= k < states.len() ==> states[0].notes <= (#[trigger] states[k]).notes
            && states[0].bytes <= states[k].bytes,
    decreases files.len(),
{
    if files.len() > 0 {
        let n = files.len() - 1;
        let fs = files.drop_last();
        let ss = states.drop_last();
        assert forall|k: int| 0 <= k < fs.len() implies {
            &&& (#[trigger] ss[k + 1]).bytes == ss[k].bytes + fs[k].1
            &&& ss[k + 1].notes == ss[k].notes + if is_note_name(fs[k].0) {
                1int
            } else {
                0int
            }
        } by {
            assert(states[k + 1].bytes == states[k].bytes + files[k].1);
        }
        lemma_tally_of_run(fs, ss);
        assert(states[n + 1].bytes == states[n].bytes + files[n].1);
        assert(ss.last() == states[n]);
        assert forall|k: int| 0 <= k < states.len() implies states[0].notes <= (
        #[trigger] states[k]).notes && states[0].bytes <= states[k].bytes by {
            if k < states.len() - 1 {
                assert(ss[k] == states[k]);
            }
        }
    }
}

/// A mirror location that is accepted spares the vault: no path lies both
/// under the vault and under the mirror, so removing and refilling the
/// mirror touches nothing of the vault.
pub proof fn lemma_accepted_mirror_spares_vault(
    vault: Seq<Seq<char>>,
    mirror: Seq<Seq<char>>,
    path: Seq<Seq<char>>,
)
    requires
        !components_prefix(vault, mirror),
        !components_prefix(mirror, vault),
        components_prefix(vault, path),
    ensures
        !components_prefix(mirror, path),
{
    if components_prefix(mirror, path) {
        if vault.len() <= mirror.len() {
            assert(mirror.take(vault.len() as int) == path.take(vault.len() as int));
        } else {
            assert(vault.take(mirror.len() as int) == path.take(mirror.len() as int));
        }
    }
}

/// Whether a mirror may be rebuilt from a vault, decided in the order a run
/// checks it: the vault must be a directory (`vault_is_dir`, shown to the user
/// as `vault_display`), its canonical form `vault_canon` and the absolute
/// form of the mirror `mirror_abs` must be known (as components), the
/// mirror must not lie inside the vault, and the vault must not lie inside
/// the mirror (rebuilding the mirror removes everything under it).
pub fn check_mirror_location(
    vault_is_dir: bool,
    vault_display: &str,
    vault_canon: Result<Vec<String>, String>,
    mirror_abs: Result<Vec<String>, String>,
) -> (r: Result<(), String>)
    ensures
        match r {
            Ok(_) => vault_is_dir && vault_canon is Ok && mirror_abs is Ok && !components_prefix(
                string_views(vault_canon->Ok_0@),
                string_views(mirror_abs->Ok_0@),
            ) && !components_prefix(
                string_views(mirror_abs->Ok_0@),
                string_views(vault_canon->Ok_0@),
            ),
            Err(e) => if !vault_is_dir {
                e@ == "Vault não encontrado: "@ + vault_display@
            } else if vault_canon is Err {
                e@ == vault_canon->Err_0@
            } else if mirror_abs is Err {
                e@ == mirror_abs->Err_0@
            } else if components_prefix(
                string_views(vault_canon->Ok_0@),
                string_views(mirror_abs->Ok_0@),
            ) {
                e@ == "O mirror não pode estar dentro do vault"@
            } else {
                components_prefix(string_views(mirror_abs->Ok_0@), string_views(vault_canon->Ok_0@))
                    && e@ == "O vault não pode estar dentro do mirror"@
            },
        },
{
    if !vault_is_dir {
        let mut e = String::from_str("Vault não encontrado: ");
        e.append(vault_display);
        return Err(e);
    }
    let vault = match vault_canon {
        Ok(v) => v,
        Err(e) => return Err(e),
    };
    let mirror = match mirror_abs {
        Ok(m) => m,
        Err(e) => return Err(e),
    };
    if has_component_prefix(&mirror, &vault) {
        return Err(String::from_str("O mirror não pode estar dentro do vault"));
    }
    if has_component_prefix(&vault, &mirror) {
        return Err(String::from_str("O vault não pode estar dentro do mirror"));
    }
    Ok(())
}

} // verus!
