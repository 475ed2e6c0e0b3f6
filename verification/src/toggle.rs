//! Disabling and enabling an installed mod.
//!
//! A mod is disabled by giving its plugin binaries the suffix `.disabled` and
//! by parking the files it placed outside its private folder in the sidecar
//! folder `.disabled` inside that folder. Enabling reverses both. The plan
//! names the files to move; a move whose source is missing is left out by
//! whoever carries the plan out.

use crate::catalog::ModInfo;
use crate::paths::{last_component, last_component_chars};
use crate::text::{
    contains_seq, copy_chars, ends_with, find, first_occurrence, from_chars, is_last_index,
    last_index, lemma_last_index, lemma_last_index_is_last, lemma_last_index_none, occurs_at,
    push_all, push_str, slice, to_chars,
};
use vstd::prelude::*;
use vstd::string::StrSliceExecFns;

verus! {

/// `s` from the first occurrence of `pat` on, or all of `s` where `pat` does
/// not occur in it.
pub open spec fn skipped_to(s: Seq<char>, pat: Seq<char>) -> Seq<char> {
    match first_occurrence(s, pat) {
        Some(i) => s.skip(i),
        None => s,
    }
}

/// The part of `s` that starts at the first occurrence of `to`; all of `s`
/// where `to` does not occur in it.
pub fn str_skip_to<'a>(s: &'a str, to: &str) -> (r: &'a str)
    ensures
        r@ == skipped_to(s@, to@),
{
    let chars = to_chars(s);
    let pat = to_chars(to);
    let n = s.unicode_len();
    match find(&chars, &pat) {
        Some(i) => {
            let r = s.substring_char(i, n);
            assert(s@.subrange(i as int, n as int) =~= s@.skip(i as int));
            r
        },
        None => s,
    }
}

/// The file is moved from `from` to `to`.
#[derive(Debug)]
pub struct FileMove {
    pub from: String,
    pub to: String,
}

/// The model of a `FileMove`.
pub struct MoveView {
    pub from: Seq<char>,
    pub to: Seq<char>,
}

impl DeepView for FileMove {
    type V = MoveView;

    open spec fn deep_view(&self) -> MoveView {
        MoveView { from: self.from@, to: self.to@ }
    }
}

/// What toggling a mod does.
#[derive(Debug)]
pub struct TogglePlan {
    /// Whether the mod is enabled afterwards.
    pub enabled: bool,
    /// The renames of plugin binaries inside the private folder.
    pub renames: Vec<FileMove>,
    /// The moves of external files into the sidecar folder or out of it.
    pub moves: Vec<FileMove>,
}

/// The file is a plugin binary: its name holds `.dll`, with or without more
/// behind it.
pub open spec fn is_binary(path: Seq<char>) -> bool {
    contains_seq(last_component(path), ".dll"@)
}

/// The name carries the suffix of a disabled binary.
pub open spec fn is_disabled_name(path: Seq<char>) -> bool {
    ".disabled"@.is_suffix_of(path)
}

/// The name of the binary `path` while it is disabled.
pub open spec fn disabled_name(path: Seq<char>) -> Seq<char> {
    path + ".disabled"@
}

/// The name of the disabled binary `path` once it is enabled again.
pub open spec fn enabled_name(path: Seq<char>) -> Seq<char> {
    path.take(path.len() - ".disabled"@.len())
}

/// The rename that toggling a mod in the state `enabled` brings to the file
/// `path`: none where the file is no plugin binary, or is in the wanted state
/// already.
pub open spec fn binary_rename(enabled: bool, path: Seq<char>) -> Option<MoveView> {
    if !is_binary(path) {
        None
    } else if enabled && !is_disabled_name(path) {
        Some(MoveView { from: path, to: disabled_name(path) })
    } else if !enabled && is_disabled_name(path) {
        Some(MoveView { from: path, to: enabled_name(path) })
    } else {
        None
    }
}

/// The renames for all binaries, in order.
pub open spec fn planned_renames(enabled: bool, binaries: Seq<Seq<char>>) -> Seq<MoveView>
    decreases binaries.len(),
{
    if binaries.len() == 0 {
        Seq::empty()
    } else {
        let before = planned_renames(enabled, binaries.drop_last());
        match binary_rename(enabled, binaries.last()) {
            Some(m) => before.push(m),
            None => before,
        }
    }
}

/// Where the external file `file` is parked while the mod in `folder` is
/// disabled: under the sidecar folder, at its path from the loader's root on.
pub open spec fn sidecar_path(folder: Seq<char>, file: Seq<char>) -> Seq<char> {
    folder + "/.disabled/"@ + skipped_to(file, "BepInEx/"@)
}

/// The move that toggling a mod in the state `enabled` brings to the
/// external file `file`.
pub open spec fn external_move(enabled: bool, folder: Seq<char>, file: Seq<char>) -> MoveView {
    if enabled {
        MoveView { from: file, to: sidecar_path(folder, file) }
    } else {
        MoveView { from: sidecar_path(folder, file), to: file }
    }
}

/// The moves for all external files, in order.
pub open spec fn planned_moves(enabled: bool, folder: Seq<char>, files: Seq<Seq<char>>) -> Seq<
    MoveView,
> {
    Seq::new(files.len(), |i: int| external_move(enabled, folder, files[i]))
}

/// A set of files, each path with its contents.
pub type Files = Map<Seq<char>, Seq<u8>>;

/// The files after one move. A move whose source is missing changes nothing.
pub open spec fn after_move(files: Files, m: MoveView) -> Files {
    if files.dom().contains(m.from) {
        files.remove(m.from).insert(m.to, files[m.from])
    } else {
        files
    }
}

/// The files after the moves, carried out in order.
pub open spec fn after_moves(files: Files, moves: Seq<MoveView>) -> Files
    decreases moves.len(),
{
    if moves.len() == 0 {
        files
    } else {
        after_move(after_moves(files, moves.drop_last()), moves.last())
    }
}

fn rename_for(enabled: bool, path: &Vec<char>) -> (r: Option<FileMove>)
    ensures
        match r {
            Some(m) => binary_rename(enabled, path@) == Some(m.deep_view()),
            None => binary_rename(enabled, path@) is None,
        },
{
    let name = last_component_chars(path);
    if find(&name, &to_chars(".dll")).is_none() {
        return None;
    }
    let suffix = to_chars(".disabled");
    let disabled = ends_with(path, &suffix);
    if enabled && !disabled {
        let mut to = copy_chars(path);
        push_all(&mut to, &suffix);
        Some(FileMove { from: from_chars(path), to: from_chars(&to) })
    } else if !enabled && disabled {
        let to = slice(path, 0, path.len() - suffix.len());
        Some(FileMove { from: from_chars(path), to: from_chars(&to) })
    } else {
        None
    }
}

fn sidecar_chars(folder: &Vec<char>, file: &Vec<char>) -> (r: Vec<char>)
    ensures
        r@ == sidecar_path(folder@, file@),
{
    let pat = to_chars("BepInEx/");
    let mut out = copy_chars(folder);
    push_str(&mut out, "/.disabled/");
    match find(file, &pat) {
        Some(i) => {
            let rest = slice(file, i, file.len());
            assert(rest@ =~= file@.skip(i as int));
            push_all(&mut out, &rest);
        },
        None => {
            push_all(&mut out, file);
        },
    }
    out
}

/// Plans the toggling of the installed mod `m`. `files` are the files found
/// under its private folder, of which the plugin binaries are renamed, and
/// `external_files` the files recorded for it as lying outside that folder.
pub fn toggle_mod(m: &ModInfo, files: &Vec<String>, external_files: &Vec<String>) -> (plan:
    TogglePlan)
    ensures
        plan.enabled == !m.enabled,
        plan.renames.deep_view() == planned_renames(m.enabled, files.deep_view()),
        plan.moves.deep_view() == planned_moves(m.enabled, m.folder@, external_files.deep_view()),
{
    let folder = to_chars(m.folder.as_str());
    let mut renames: Vec<FileMove> = Vec::new();
    let mut i: usize = 0;
    while i < files.len()
        invariant
            i <= files.len(),
            renames.deep_view() == planned_renames(m.enabled, files.deep_view().take(i as int)),
        decreases files.len() - i,
    {
        let path = to_chars(files[i].as_str());
        let ghost before = renames.deep_view();
        proof {
            let next = files.deep_view().take(i + 1);
            assert(next.drop_last() =~= files.deep_view().take(i as int));
            assert(next.last() == path@);
        }
        match rename_for(m.enabled, &path) {
            Some(mv) => {
                let ghost v = mv.deep_view();
                renames.push(mv);
                assert(renames.deep_view() =~= before.push(v));
            },
            None => {},
        }
        i += 1;
    }
    assert(files.deep_view().take(files.len() as int) =~= files.deep_view());
    let mut moves: Vec<FileMove> = Vec::new();
    let mut k: usize = 0;
    while k < external_files.len()
        invariant
            k <= external_files.len(),
            folder@ == m.folder@,
            moves.deep_view() == planned_moves(
                m.enabled,
                m.folder@,
                external_files.deep_view(),
            ).take(k as int),
        decreases external_files.len() - k,
    {
        let file = to_chars(external_files[k].as_str());
        let parked = sidecar_chars(&folder, &file);
        let ghost before = moves.deep_view();
        let mv = if m.enabled {
            FileMove { from: from_chars(&file), to: from_chars(&parked) }
        } else {
            FileMove { from: from_chars(&parked), to: from_chars(&file) }
        };
        let ghost v = mv.deep_view();
        moves.push(mv);
        proof {
            assert(file@ == external_files.deep_view()[k as int]);
            assert(moves.deep_view() =~= before.push(v));
            let all = planned_moves(m.enabled, m.folder@, external_files.deep_view());
            assert(all.take(k + 1) =~= all.take(k as int).push(all[k as int]));
        }
        k += 1;
    }
    proof {
        let all = planned_moves(m.enabled, m.folder@, external_files.deep_view());
        assert(all.take(external_files.len() as int) =~= all);
    }
    TogglePlan { enabled: !m.enabled, renames, moves }
}

/// The sidecar folder of the mod with the private folder `folder`.
pub fn sidecar_folder(folder: &str) -> (r: String)
    ensures
        r@ == folder@ + "/.disabled"@,
{
    let mut out = to_chars(folder);
    push_str(&mut out, "/.disabled");
    from_chars(&out)
}

/// Enabling undoes the rename that disabling gave a binary: the binary gets
/// its old name back.
pub proof fn lemma_rename_round_trip(path: Seq<char>)
    requires
        is_binary(path),
        !is_disabled_name(path),
    ensures
        binary_rename(true, path) == Some(MoveView { from: path, to: disabled_name(path) }),
        binary_rename(false, disabled_name(path)) == Some(
            MoveView { from: disabled_name(path), to: path },
        ),
{
    let d = disabled_name(path);
    let n = ".disabled"@.len();
    assert(d.subrange(d.len() - n, d.len() as int) =~= ".disabled"@);
    assert(d.take(d.len() - n) =~= path);
    lemma_disabled_name_is_binary(path);
}

/// A plugin binary is one under its disabled name too.
pub proof fn lemma_disabled_name_is_binary(path: Seq<char>)
    requires
        is_binary(path),
    ensures
        is_binary(disabled_name(path)),
{
    reveal_strlit(".disabled");
    let suffix = ".disabled"@;
    let d = path + suffix;
    lemma_last_index_is_last(path, '/');
    let name = last_component(path);
    let k = choose|k: int| occurs_at(name, k, ".dll"@);
    assert(occurs_at(name, k, ".dll"@));
    match last_index(path, '/') {
        Some(i) => {
            assert(is_last_index(d, i, '/')) by {
                assert forall|j: int| i < j < d.len() implies d[j] != '/' by {
                    if j >= path.len() {
                        assert(d[j] == suffix[j - path.len()]);
                    }
                }
            }
            lemma_last_index(d, i, '/');
            assert(last_component(d) =~= name + suffix);
        },
        None => {
            assert(!d.contains('/')) by {
                if d.contains('/') {
                    let j = choose|j: int| 0 <= j < d.len() && d[j] == '/';
                    if j < path.len() {
                        assert(path[j] == '/');
                        assert(path.contains('/'));
                    } else {
                        assert(d[j] == suffix[j - path.len()]);
                    }
                }
            }
            lemma_last_index_none(d, '/');
            assert(last_component(d) =~= name + suffix);
        },
    }
    let longer = name + suffix;
    assert(longer.subrange(k, k + ".dll"@.len()) =~= name.subrange(k, k + ".dll"@.len()));
    assert(occurs_at(longer, k, ".dll"@));
}

/// Disabling leaves a binary that is disabled already as it is: no second
/// suffix is added.
pub proof fn lemma_disable_is_idempotent(path: Seq<char>)
    ensures
        match binary_rename(true, path) {
            Some(m) => binary_rename(true, m.to) is None,
            None => binary_rename(true, path) is None,
        },
{
    if is_binary(path) && !is_disabled_name(path) {
        lemma_rename_round_trip(path);
    }
}

/// Enabling moves an external file back from where disabling parked it.
pub proof fn lemma_move_round_trip(folder: Seq<char>, file: Seq<char>)
    ensures
        external_move(false, folder, file).from == external_move(true, folder, file).to,
        external_move(false, folder, file).to == external_move(true, folder, file).from,
{
}

/// A move to a free place and the move back leave every file where it was,
/// with the contents it had.
pub proof fn lemma_move_and_back(files: Files, a: Seq<char>, b: Seq<char>)
    requires
        files.dom().contains(a),
        !files.dom().contains(b),
    ensures
        after_move(after_move(files, MoveView { from: a, to: b }), MoveView { from: b, to: a })
            == files,
{
    let there = after_move(files, MoveView { from: a, to: b });
    let back = after_move(there, MoveView { from: b, to: a });
    assert(back =~= files);
}

/// A move whose source is gone, as after the same move was carried out
/// before, changes nothing.
pub proof fn lemma_move_twice(files: Files, a: Seq<char>, b: Seq<char>)
    requires
        a != b,
    ensures
        after_move(after_move(files, MoveView { from: a, to: b }), MoveView { from: a, to: b })
            == after_move(files, MoveView { from: a, to: b }),
{
}

/// Binaries that are disabled already get no rename when the mod is
/// disabled.
pub proof fn lemma_no_rename_for_disabled(binaries: Seq<Seq<char>>)
    requires
        forall|i: int| 0 <= i < binaries.len() ==> is_disabled_name(#[trigger] binaries[i]),
    ensures
        planned_renames(true, binaries) == Seq::<MoveView>::empty(),
    decreases binaries.len(),
{
    if binaries.len() > 0 {
        let shorter = binaries.drop_last();
        assert forall|i: int| 0 <= i < shorter.len() implies is_disabled_name(
            #[trigger] shorter[i],
        ) by {
            assert(shorter[i] == binaries[i]);
        }
        lemma_no_rename_for_disabled(shorter);
        assert(is_disabled_name(binaries[binaries.len() - 1]));
    }
}

/// Moves whose sources are all missing change nothing.
pub proof fn lemma_moves_without_sources(files: Files, moves: Seq<MoveView>)
    requires
        forall|i: int| 0 <= i < moves.len() ==> !files.dom().contains((#[trigger] moves[i]).from),
    ensures
        after_moves(files, moves) == files,
    decreases moves.len(),
{
    if moves.len() > 0 {
        let shorter = moves.drop_last();
        assert forall|i: int| 0 <= i < shorter.len() implies !files.dom().contains(
            (#[trigger] shorter[i]).from,
        ) by {
            assert(shorter[i] == moves[i]);
        }
        lemma_moves_without_sources(files, shorter);
        assert(!files.dom().contains(moves[moves.len() - 1].from));
    }
}

/// Disabling a mod that is disabled already is no change: where all its
/// binaries carry the suffix and none of its external files is at its own
/// place, nothing is renamed and no file moves.
pub proof fn lemma_disable_again_changes_nothing(
    files: Files,
    folder: Seq<char>,
    binaries: Seq<Seq<char>>,
    external_files: Seq<Seq<char>>,
)
    requires
        forall|i: int| 0 <= i < binaries.len() ==> is_disabled_name(#[trigger] binaries[i]),
        forall|i: int|
            0 <= i < external_files.len() ==> !files.dom().contains(#[trigger] external_files[i]),
    ensures
        planned_renames(true, binaries) == Seq::<MoveView>::empty(),
        after_moves(
            after_moves(files, planned_renames(true, binaries)),
            planned_moves(true, folder, external_files),
        ) == files,
{
    lemma_no_rename_for_disabled(binaries);
    let moves = planned_moves(true, folder, external_files);
    assert forall|i: int| 0 <= i < moves.len() implies !files.dom().contains(
        (#[trigger] moves[i]).from,
    ) by {
        assert(moves[i].from == external_files[i]);
    }
    lemma_moves_without_sources(files, moves);
}

/// The moves turned round, each one back from its target to its source.
pub open spec fn turned_round(moves: Seq<MoveView>) -> Seq<MoveView> {
    Seq::new(moves.len(), |i: int| MoveView { from: moves[i].to, to: moves[i].from })
}

/// All moves can be carried out on the files without one getting in the way
/// of another: every source is there, every target is free, and no two moves
/// share a source or a target.
pub open spec fn can_carry_out(files: Files, moves: Seq<MoveView>) -> bool {
    &&& forall|i: int| 0 <= i < moves.len() ==> files.dom().contains((#[trigger] moves[i]).from)
    &&& forall|i: int| 0 <= i < moves.len() ==> !files.dom().contains((#[trigger] moves[i]).to)
    &&& forall|i: int, j: int|
        0 <= i < j < moves.len() ==> (#[trigger] moves[i]).from != (#[trigger] moves[j]).from
    &&& forall|i: int, j: int|
        0 <= i < j < moves.len() ==> (#[trigger] moves[i]).to != (#[trigger] moves[j]).to
}

/// `path` is the source or the target of one of the moves.
pub open spec fn is_touched(moves: Seq<MoveView>, path: Seq<char>) -> bool {
    exists|i: int|
        0 <= i < moves.len() && ((#[trigger] moves[i]).from == path || moves[i].to == path)
}

/// Moves that can be carried out take every source to its target, with its
/// contents, and leave all other files alone.
pub proof fn lemma_after_moves(files: Files, moves: Seq<MoveView>)
    requires
        can_carry_out(files, moves),
    ensures
        forall|i: int|
            0 <= i < moves.len() ==> after_moves(files, moves).dom().contains(
                (#[trigger] moves[i]).to,
            ) && after_moves(files, moves)[moves[i].to] == files[moves[i].from],
        forall|i: int|
            0 <= i < moves.len() ==> !after_moves(files, moves).dom().contains(
                (#[trigger] moves[i]).from,
            ),
        forall|path: Seq<char>|
            !is_touched(moves, path) ==> (#[trigger] after_moves(files, moves).dom().contains(path)
                == files.dom().contains(path)) && after_moves(files, moves)[path] == files[path],
    decreases moves.len(),
{
    if moves.len() > 0 {
        let shorter = moves.drop_last();
        let m = moves.last();
        assert forall|i: int| 0 <= i < shorter.len() implies (#[trigger] shorter[i])
            == moves[i] by {}
        assert(can_carry_out(files, shorter)) by {
            assert forall|i: int| 0 <= i < shorter.len() implies files.dom().contains(
                (#[trigger] shorter[i]).from,
            ) by {
                assert(shorter[i] == moves[i]);
            }
            assert forall|i: int| 0 <= i < shorter.len() implies !files.dom().contains(
                (#[trigger] shorter[i]).to,
            ) by {
                assert(shorter[i] == moves[i]);
            }
            assert forall|i: int, j: int| 0 <= i < j < shorter.len() implies (
            #[trigger] shorter[i]).from != (#[trigger] shorter[j]).from by {
                assert(shorter[i] == moves[i] && shorter[j] == moves[j]);
            }
            assert forall|i: int, j: int| 0 <= i < j < shorter.len() implies (
            #[trigger] shorter[i]).to != (#[trigger] shorter[j]).to by {
                assert(shorter[i] == moves[i] && shorter[j] == moves[j]);
            }
        }
        lemma_after_moves(files, shorter);
        let before = after_moves(files, shorter);
        let after = after_moves(files, moves);
        assert(!is_touched(shorter, m.from)) by {
            if is_touched(shorter, m.from) {
                let i = choose|i: int|
                    0 <= i < shorter.len() && ((#[trigger] shorter[i]).from == m.from
                        || shorter[i].to == m.from);
                assert(shorter[i] == moves[i]);
                assert(moves[moves.len() - 1] == m);
            }
        }
        assert(before.dom().contains(m.from));
        assert(before[m.from] == files[m.from]);
        assert(after == before.remove(m.from).insert(m.to, before[m.from]));
        assert forall|i: int| 0 <= i < moves.len() implies after.dom().contains(
            (#[trigger] moves[i]).to,
        ) && after[moves[i].to] == files[moves[i].from] by {
            if i < shorter.len() {
                assert(shorter[i] == moves[i]);
                assert(moves[moves.len() - 1] == m);
            }
        }
        assert forall|i: int| 0 <= i < moves.len() implies !after.dom().contains(
            (#[trigger] moves[i]).from,
        ) by {
            assert(moves[moves.len() - 1] == m);
            if i < shorter.len() {
                assert(shorter[i] == moves[i]);
            }
        }
        assert forall|path: Seq<char>| !is_touched(moves, path) implies (
        #[trigger] after.dom().contains(path) == files.dom().contains(path)) && after[path]
            == files[path] by {
            assert(moves[moves.len() - 1] == m);
            assert(!is_touched(shorter, path)) by {
                if is_touched(shorter, path) {
                    let i = choose|i: int|
                        0 <= i < shorter.len() && ((#[trigger] shorter[i]).from == path
                            || shorter[i].to == path);
                    assert(shorter[i] == moves[i]);
                }
            }
        }
    }
}

/// Moves that can be carried out, and then the same moves turned round,
/// leave every file where it was, with the contents it had.
pub proof fn lemma_moves_and_back(files: Files, moves: Seq<MoveView>)
    requires
        can_carry_out(files, moves),
    ensures
        after_moves(after_moves(files, moves), turned_round(moves)) == files,
{
    let there = after_moves(files, moves);
    let back_moves = turned_round(moves);
    lemma_after_moves(files, moves);
    assert(can_carry_out(there, back_moves));
    lemma_after_moves(there, back_moves);
    let back = after_moves(there, back_moves);
    assert forall|path: Seq<char>|
        back.dom().contains(path) == files.dom().contains(path) && (files.dom().contains(path)
            ==> back[path] == files[path]) by {
        if is_touched(moves, path) {
            let i = choose|i: int|
                0 <= i < moves.len() && ((#[trigger] moves[i]).from == path || moves[i].to
                    == path);
            if moves[i].from == path {
                assert(back_moves[i].to == path);
            } else {
                assert(back_moves[i].from == path);
            }
        } else {
            assert(!is_touched(back_moves, path)) by {
                if is_touched(back_moves, path) {
                    let i = choose|i: int|
                        0 <= i < back_moves.len() && ((#[trigger] back_moves[i]).from == path
                            || back_moves[i].to == path);
                    assert(moves[i].from == path || moves[i].to == path);
                }
            }
            assert(back.dom().contains(path) == there.dom().contains(path));
            assert(there.dom().contains(path) == files.dom().contains(path));
        }
    }
    assert(back =~= files);
}

/// Moves carried out one list after the other are the moves of the two
/// lists joined.
pub proof fn lemma_moves_joined(files: Files, first: Seq<MoveView>, second: Seq<MoveView>)
    ensures
        after_moves(after_moves(files, first), second) == after_moves(files, first + second),
    decreases second.len(),
{
    if second.len() == 0 {
        assert(first + second =~= first);
    } else {
        lemma_moves_joined(files, first, second.drop_last());
        assert((first + second).drop_last() =~= first + second.drop_last());
        assert((first + second).last() == second.last());
    }
}

/// The names of the binaries while they are disabled.
pub open spec fn disabled_names(binaries: Seq<Seq<char>>) -> Seq<Seq<char>> {
    Seq::new(binaries.len(), |i: int| disabled_name(binaries[i]))
}

/// For binaries of which none is disabled, disabling renames every one, and
/// enabling them afterwards renames every one back.
pub proof fn lemma_renames_turn_round(binaries: Seq<Seq<char>>)
    requires
        forall|i: int|
            0 <= i < binaries.len() ==> is_binary(#[trigger] binaries[i]) && !is_disabled_name(
                binaries[i],
            ),
    ensures
        planned_renames(true, binaries) == Seq::new(
            binaries.len(),
            |i: int| MoveView { from: binaries[i], to: disabled_name(binaries[i]) },
        ),
        planned_renames(false, disabled_names(binaries)) == turned_round(
            planned_renames(true, binaries),
        ),
    decreases binaries.len(),
{
    let all = Seq::new(
        binaries.len(),
        |i: int| MoveView { from: binaries[i], to: disabled_name(binaries[i]) },
    );
    if binaries.len() == 0 {
        assert(planned_renames(true, binaries) =~= all);
        assert(disabled_names(binaries) =~= Seq::<Seq<char>>::empty());
        assert(planned_renames(false, disabled_names(binaries)) =~= turned_round(all));
    } else {
        let shorter = binaries.drop_last();
        let last = binaries.last();
        assert forall|i: int| 0 <= i < shorter.len() implies is_binary(#[trigger] shorter[i])
            && !is_disabled_name(shorter[i]) by {
            assert(shorter[i] == binaries[i]);
        }
        lemma_renames_turn_round(shorter);
        assert(is_binary(binaries[binaries.len() - 1]) && !is_disabled_name(
            binaries[binaries.len() - 1],
        ));
        lemma_rename_round_trip(last);
        assert(planned_renames(true, binaries) =~= all);
        assert(disabled_names(binaries).drop_last() =~= disabled_names(shorter));
        assert(disabled_names(binaries).last() == disabled_name(last));
        assert(planned_renames(false, disabled_names(binaries)) =~= turned_round(all));
    }
}

/// Disabling a mod and enabling it again leaves every file where it was,
/// with the contents it had, where the plan for disabling can be carried out
/// and every file is a plugin binary that is not disabled to begin with. The
/// plan for enabling
/// is made for the state that disabling left: the binaries under their
/// disabled names, the same external files.
pub proof fn lemma_toggle_round_trip(
    files: Files,
    folder: Seq<char>,
    binaries: Seq<Seq<char>>,
    external_files: Seq<Seq<char>>,
)
    requires
        forall|i: int|
            0 <= i < binaries.len() ==> is_binary(#[trigger] binaries[i]) && !is_disabled_name(
                binaries[i],
            ),
        can_carry_out(
            files,
            planned_renames(true, binaries) + planned_moves(true, folder, external_files),
        ),
    ensures
        ({
            let disabled = after_moves(
                after_moves(files, planned_renames(true, binaries)),
                planned_moves(true, folder, external_files),
            );
            after_moves(
                after_moves(disabled, planned_renames(false, disabled_names(binaries))),
                planned_moves(false, folder, external_files),
            ) == files
        }),
{
    let renames = planned_renames(true, binaries);
    let moves = planned_moves(true, folder, external_files);
    let renames_back = planned_renames(false, disabled_names(binaries));
    let moves_back = planned_moves(false, folder, external_files);
    lemma_renames_turn_round(binaries);
    assert(moves_back =~= turned_round(moves));
    assert(renames_back + moves_back =~= turned_round(renames + moves));
    lemma_moves_joined(files, renames, moves);
    let disabled = after_moves(files, renames + moves);
    lemma_moves_joined(disabled, renames_back, moves_back);
    lemma_moves_and_back(files, renames + moves);
}

/// The moves of which the source is there, in order. `present` says of each
/// move, by its place, whether its source was found; a move without a word
/// in `present` counts as one whose source is missing.
pub open spec fn due_moves(moves: Seq<MoveView>, present: Seq<bool>) -> Seq<MoveView>
    decreases moves.len(),
{
    if moves.len() == 0 {
        Seq::empty()
    } else {
        let before = due_moves(moves.drop_last(), present);
        let k = moves.len() - 1;
        if k < present.len() && present[k] {
            before.push(moves.last())
        } else {
            before
        }
    }
}

/// The moves of external files that are carried out. On enabling a mod whose
/// sidecar folder is not there nothing was parked, and no file moves; in every
/// other case the moves whose source is there are carried out.
pub open spec fn moves_to_carry_out(
    enabling: bool,
    sidecar_exists: bool,
    moves: Seq<MoveView>,
    present: Seq<bool>,
) -> Seq<MoveView> {
    if enabling && !sidecar_exists {
        Seq::empty()
    } else {
        due_moves(moves, present)
    }
}

/// The moves of external files of the plan that are to be carried out, given
/// what was found on disk: of each move, by its place, whether its source is
/// there, and whether the mod's sidecar folder is there.
pub fn moves_due(plan: &TogglePlan, present: &Vec<bool>, sidecar_exists: bool) -> (due: Vec<
    FileMove,
>)
    ensures
        due.deep_view() == moves_to_carry_out(
            plan.enabled,
            sidecar_exists,
            plan.moves.deep_view(),
            present@,
        ),
{
    let mut due: Vec<FileMove> = Vec::new();
    if plan.enabled && !sidecar_exists {
        assert(due.deep_view() =~= Seq::<MoveView>::empty());
        return due;
    }
    let ghost moves = plan.moves.deep_view();
    let mut i: usize = 0;
    assert(due.deep_view() =~= due_moves(moves.take(0), present@));
    while i < plan.moves.len()
        invariant
            i <= plan.moves.len(),
            moves == plan.moves.deep_view(),
            due.deep_view() == due_moves(moves.take(i as int), present@),
        decreases plan.moves.len() - i,
    {
        let ghost before = due.deep_view();
        proof {
            assert(moves.take(i + 1).drop_last() =~= moves.take(i as int));
            assert(moves.take(i + 1).last() == plan.moves[i as int].deep_view());
        }
        if i < present.len() && present[i] {
            let m = &plan.moves[i];
            due.push(FileMove { from: m.from.clone(), to: m.to.clone() });
            assert(due.deep_view() =~= before.push(m.deep_view()));
        }
        i += 1;
    }
    assert(moves.take(plan.moves.len() as int) =~= moves);
    due
}

/// Moves leave alone what is neither a source nor a target of one of them.
pub proof fn lemma_untouched_by_moves(files: Files, moves: Seq<MoveView>, path: Seq<char>)
    requires
        !is_touched(moves, path),
    ensures
        after_moves(files, moves).dom().contains(path) == files.dom().contains(path),
        after_moves(files, moves)[path] == files[path],
    decreases moves.len(),
{
    if moves.len() > 0 {
        let shorter = moves.drop_last();
        assert(!is_touched(shorter, path)) by {
            if is_touched(shorter, path) {
                let i = choose|i: int|
                    0 <= i < shorter.len() && ((#[trigger] shorter[i]).from == path
                        || shorter[i].to == path);
                assert(shorter[i] == moves[i]);
            }
        }
        lemma_untouched_by_moves(files, shorter, path);
        assert(moves[moves.len() - 1] == moves.last());
    }
}

/// Leaving out the moves whose source is missing changes nothing of what
/// the moves do, where `present` says of every move whether its source is
/// there and no move has a source that an earlier move takes away or puts
/// there.
pub proof fn lemma_due_moves_do_the_same(files: Files, moves: Seq<MoveView>, present: Seq<bool>)
    requires
        present.len() == moves.len(),
        forall|i: int|
            0 <= i < moves.len() ==> present[i] == files.dom().contains((#[trigger] moves[i]).from),
        forall|i: int, j: int|
            0 <= i < j < moves.len() ==> (#[trigger] moves[j]).from != (#[trigger] moves[i]).from
                && moves[j].from != moves[i].to,
    ensures
        after_moves(files, due_moves(moves, present)) == after_moves(files, moves),
    decreases moves.len(),
{
    if moves.len() > 0 {
        let shorter = moves.drop_last();
        let last = moves.last();
        let k = moves.len() - 1;
        assert(moves[k] == last);
        assert forall|i: int| 0 <= i < shorter.len() implies (#[trigger] shorter[i])
            == moves[i] by {}
        lemma_due_moves_do_the_same(files, shorter, present.take(k));
        assert(due_moves(shorter, present.take(k)) == due_moves(shorter, present)) by {
            lemma_due_moves_only_reads_its_places(shorter, present.take(k), present);
        }
        let before = due_moves(shorter, present);
        if present[k] {
            assert(due_moves(moves, present) == before.push(last));
            assert(before.push(last).drop_last() =~= before);
        } else {
            assert(!is_touched(shorter, last.from)) by {
                if is_touched(shorter, last.from) {
                    let i = choose|i: int|
                        0 <= i < shorter.len() && ((#[trigger] shorter[i]).from == last.from
                            || shorter[i].to == last.from);
                    assert(shorter[i] == moves[i]);
                }
            }
            lemma_untouched_by_moves(files, shorter, last.from);
        }
    }
}

/// Which moves are due depends on the words of `present` at the places of
/// the moves alone.
proof fn lemma_due_moves_only_reads_its_places(
    moves: Seq<MoveView>,
    a: Seq<bool>,
    b: Seq<bool>,
)
    requires
        a.len() >= moves.len(),
        b.len() >= moves.len(),
        forall|i: int| 0 <= i < moves.len() ==> a[i] == b[i],
    ensures
        due_moves(moves, a) == due_moves(moves, b),
    decreases moves.len(),
{
    if moves.len() > 0 {
        lemma_due_moves_only_reads_its_places(moves.drop_last(), a, b);
    }
}

} // verus!
