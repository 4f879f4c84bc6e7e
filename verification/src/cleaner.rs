use vstd::prelude::*;

use crate::constants::ProjectInfo;
use crate::paths::{
    dot, file_name, file_name_of, join_path, joined_path, lemma_split_after_separator, separator,
    lemma_split_without_separator,
};
use crate::text::{decode_utf8_lossy, split_on, utf8_lossy};
use crate::utils::{is_dir_name_char, valid_dir_name};
use vstd::utf8::{encode_utf8, is_ascii_chars, is_ascii_chars_encode_utf8};

verus! {

/// The time units that an `--older-than` value may end in: days, months and
/// years.
pub const ALLOWED_TIME_UNITS: [char; 3] = ['d', 'm', 'y'];

/// The paths of the directories to clear in a project: each of its
/// template's `dirs_to_clear` joined onto the project's path, in order.
pub fn dirs_to_clear_paths(pi: &ProjectInfo) -> (paths: Vec<Vec<u8>>)
    ensures
        paths@.len() == pi.template.dirs_to_clear@.len(),
        forall|i: int|
            0 <= i < paths@.len() ==> #[trigger] paths@[i]@ == joined_path(
                pi.path@,
                encode_utf8(pi.template.dirs_to_clear@[i]@),
            ),
{
    let dirs = &pi.template.dirs_to_clear;
    let mut paths: Vec<Vec<u8>> = Vec::new();
    let mut i: usize = 0;
    while i < dirs.len()
        invariant
            dirs == &pi.template.dirs_to_clear,
            i <= dirs@.len(),
            paths@.len() == i,
            forall|j: int|
                0 <= j < i ==> #[trigger] paths@[j]@ == joined_path(
                    pi.path@,
                    encode_utf8(dirs@[j]@),
                ),
        decreases dirs@.len() - i,
    {
        paths.push(join_path(pi.path.as_slice(), dirs[i].as_str().as_bytes()));
        i = i + 1;
    }
    paths
}

/// One directory that the cleaning step acts on: its path, and whether it is
/// deleted (`true`) or only reported as what a real run would delete.
pub struct Removal {
    pub path: Vec<u8>,
    pub delete: bool,
}

/// The directories that cleaning a project acts on: those of
/// `dirs_to_clear_paths` that are directories on disk, in order, each deleted
/// only when `is_apply` is set.
pub open spec fn removal_plan(paths: Seq<Seq<u8>>, is_dir: Seq<bool>, is_apply: bool) -> Seq<
    (Seq<u8>, bool),
>
    decreases paths.len(),
{
    if paths.len() == 0 || is_dir.len() == 0 {
        Seq::empty()
    } else {
        let rest = removal_plan(paths.drop_last(), is_dir.drop_last(), is_apply);
        if is_dir.last() {
            rest.push((paths.last(), is_apply))
        } else {
            rest
        }
    }
}

/// The views of a sequence of removals.
pub open spec fn removals_view(rs: Seq<Removal>) -> Seq<(Seq<u8>, bool)> {
    rs.map_values(|r: Removal| (r.path@, r.delete))
}

/// The name under which a project is shown: the final component of its path,
/// or `unknown`.
pub open spec fn display_name_of(path: Seq<u8>) -> Seq<char> {
    match file_name_of(path) {
        Some(n) => utf8_lossy(n),
        None => "unknown"@,
    }
}

/// The line printed for one directory of a project being cleaned.
pub open spec fn removal_message_of(path: Seq<u8>, is_apply: bool) -> Seq<char> {
    if is_apply {
        "removed directory: "@ + utf8_lossy(path)
    } else {
        "[dry-run] would remove: "@ + utf8_lossy(path)
    }
}

/// The text that precedes a project's name when it is being cleaned.
pub open spec fn cleaning_prefix_of(is_apply: bool) -> Seq<char> {
    if is_apply {
        "Cleaning project: "@
    } else {
        "[dry-run] Cleaning project: "@
    }
}

/// Decides what cleaning a project does with each of its directories to
/// clear; `is_dir[i]` tells whether the `i`-th of `dirs_to_clear_paths(pi)` is
/// a directory on disk.
pub fn plan_removals(pi: &ProjectInfo, is_dir: &Vec<bool>, is_apply: bool) -> (plan: Vec<Removal>)
    requires
        is_dir@.len() == pi.template.dirs_to_clear@.len(),
    ensures
        removals_view(plan@) == removal_plan(
            pi.template.dirs_to_clear.deep_view().map_values(
                |d: Seq<char>| joined_path(pi.path@, encode_utf8(d)),
            ),
            is_dir@,
            is_apply,
        ),
        forall|i: int|
            0 <= i < is_dir@.len() && #[trigger] is_dir@[i] ==> plans_dir(
                removals_view(plan@),
                joined_path(pi.path@, encode_utf8(pi.template.dirs_to_clear@[i]@)),
                is_apply,
            ),
{
    let paths = dirs_to_clear_paths(pi);
    let ghost all = pi.template.dirs_to_clear.deep_view().map_values(
        |d: Seq<char>| joined_path(pi.path@, encode_utf8(d)),
    );
    let n = paths.len();
    let mut plan: Vec<Removal> = Vec::new();
    let mut i: usize = 0;
    assert(all.take(0) =~= Seq::<Seq<u8>>::empty());
    assert(is_dir@.take(0) =~= Seq::<bool>::empty());
    while i < n
        invariant
            n == paths@.len(),
            n == is_dir@.len(),
            all.len() == n,
            forall|j: int| 0 <= j < n ==> #[trigger] all[j] == paths@[j]@,
            i <= n,
            removals_view(plan@) == removal_plan(
                all.take(i as int),
                is_dir@.take(i as int),
                is_apply,
            ),
        decreases n - i,
    {
        assert(all.take(i + 1).drop_last() =~= all.take(i as int));
        assert(is_dir@.take(i + 1).drop_last() =~= is_dir@.take(i as int));
        assert(all.take(i + 1).last() == paths@[i as int]@);
        if is_dir[i] {
            let ghost before = removals_view(plan@);
            let path = paths[i].clone();
            assert(path@ =~= paths@[i as int]@);
            plan.push(Removal { path, delete: is_apply });
            assert(removals_view(plan@) =~= before.push((paths@[i as int]@, is_apply)));
        }
        i = i + 1;
    }
    assert(all.take(n as int) =~= all);
    assert(is_dir@.take(n as int) =~= is_dir@);
    proof {
        lemma_plan_covers_listed_dirs(all, is_dir@, is_apply);
        assert forall|i: int| 0 <= i < is_dir@.len() implies all[i] == joined_path(
            pi.path@,
            encode_utf8(pi.template.dirs_to_clear@[i]@),
        ) by {
            assert(pi.template.dirs_to_clear.deep_view()[i] == pi.template.dirs_to_clear@[i]@);
        }
    }
    plan
}

/// The name under which a project is shown while it is cleaned.
pub fn project_display_name(path: &[u8]) -> (name: String)
    ensures
        name@ == display_name_of(path@),
{
    match file_name(path) {
        Some(n) => decode_utf8_lossy(n.as_slice()),
        None => {
            let mut s = String::new();
            s.append("unknown");
            s
        },
    }
}

/// The text that precedes a project's name when it is being cleaned.
pub fn cleaning_prefix(is_apply: bool) -> (s: String)
    ensures
        s@ == cleaning_prefix_of(is_apply),
{
    let mut s = String::new();
    if is_apply {
        s.append("Cleaning project: ");
    } else {
        s.append("[dry-run] Cleaning project: ");
    }
    s
}

/// The line printed for one directory of a project being cleaned.
pub fn removal_message(path: &[u8], is_apply: bool) -> (s: String)
    ensures
        s@ == removal_message_of(path@, is_apply),
{
    let mut s = String::new();
    if is_apply {
        s.append("removed directory: ");
    } else {
        s.append("[dry-run] would remove: ");
    }
    let shown = decode_utf8_lossy(path);
    s.append(shown.as_str());
    s
}

/// The characters of a valid directory name are ASCII.
proof fn lemma_valid_name_ascii(dir: Seq<char>)
    requires
        valid_dir_name(dir),
    ensures
        is_ascii_chars(dir),
{
    assert forall|i: int| 0 <= i < dir.len() implies '\0' <= #[trigger] dir[i] <= '\u{7f}' by {
        assert(is_dir_name_char(dir[i]));
    }
}

/// A directory to clear whose name is valid and is neither `.` nor `..` lies
/// directly inside its project: its path begins with the project's path, is
/// longer than it, and ends in a component that is exactly the bytes of that
/// name.
pub proof fn lemma_cleared_dir_inside_project(project: Seq<u8>, dir: Seq<char>)
    requires
        valid_dir_name(dir),
        dir != seq!['.'],
        dir != seq!['.', '.'],
    ensures
        joined_path(project, encode_utf8(dir)).len() > project.len(),
        joined_path(project, encode_utf8(dir)).take(project.len() as int) == project,
        file_name_of(joined_path(project, encode_utf8(dir))) == Some(encode_utf8(dir)),
{
    let name = encode_utf8(dir);
    lemma_valid_name_ascii(dir);
    is_ascii_chars_encode_utf8(dir);
    assert forall|i: int| 0 <= i < name.len() implies name[i] != separator() by {
        assert(is_dir_name_char(dir[i]));
        assert(dir[i] as u8 == name[i]);
    }
    assert(name.len() > 0);
    assert(name[0] != separator());
    assert(name != seq![dot()]) by {
        if name == seq![dot()] {
            assert(dir.len() == 1);
            assert(dir[0] as u8 == dot());
            assert(is_dir_name_char(dir[0]));
            assert(dir[0] == '.');
            assert(dir =~= seq!['.']);
        }
    }
    assert(name != seq![dot(), dot()]) by {
        if name == seq![dot(), dot()] {
            assert(dir.len() == 2);
            assert(dir[0] as u8 == dot() && dir[1] as u8 == dot());
            assert(is_dir_name_char(dir[0]) && is_dir_name_char(dir[1]));
            assert(dir[0] == '.' && dir[1] == '.');
            assert(dir =~= seq!['.', '.']);
        }
    }
    let p = joined_path(project, name);
    if project.len() == 0 {
        assert(p =~= name);
        lemma_split_without_separator(name, separator());
    } else if project.last() == separator() {
        let a = project.drop_last();
        assert(p =~= a + seq![separator()] + name);
        lemma_split_after_separator(a, name, separator());
    } else {
        assert(p =~= project + seq![separator()] + name);
        lemma_split_after_separator(project, name, separator());
    }
    let segs = split_on(p, separator());
    assert(segs.last() == name);
    assert(p.take(project.len() as int) =~= project);
}

/// Without `--apply` nothing is deleted: every directory that the cleaning
/// step acts on is only reported.
pub proof fn lemma_dry_run_deletes_nothing(paths: Seq<Seq<u8>>, is_dir: Seq<bool>)
    ensures
        forall|k: int|
            0 <= k < removal_plan(paths, is_dir, false).len() ==> !(#[trigger] removal_plan(
                paths,
                is_dir,
                false,
            )[k]).1,
    decreases paths.len(),
{
    if paths.len() > 0 && is_dir.len() > 0 {
        let p0 = paths.drop_last();
        let d0 = is_dir.drop_last();
        lemma_dry_run_deletes_nothing(p0, d0);
        let plan = removal_plan(paths, is_dir, false);
        let rest = removal_plan(p0, d0, false);
        assert forall|k: int| 0 <= k < plan.len() implies !(#[trigger] plan[k]).1 by {
            if k < rest.len() {
                assert(plan[k] == rest[k]);
            }
        }
    }
}

/// The plan acts on the path `p`, deleting it or not as `delete` says.
pub open spec fn plans_dir(plan: Seq<(Seq<u8>, bool)>, p: Seq<u8>, delete: bool) -> bool {
    exists|k: int| 0 <= k < plan.len() && #[trigger] plan[k] == (p, delete)
}

/// Every listed path that is a directory on disk is acted on: deleted with
/// `--apply`, reported otherwise.
pub proof fn lemma_plan_covers_listed_dirs(paths: Seq<Seq<u8>>, is_dir: Seq<bool>, is_apply: bool)
    requires
        paths.len() == is_dir.len(),
    ensures
        forall|i: int|
            0 <= i < paths.len() && #[trigger] is_dir[i] ==> plans_dir(
                removal_plan(paths, is_dir, is_apply),
                paths[i],
                is_apply,
            ),
    decreases paths.len(),
{
    if paths.len() > 0 {
        let p0 = paths.drop_last();
        let d0 = is_dir.drop_last();
        lemma_plan_covers_listed_dirs(p0, d0, is_apply);
        let plan = removal_plan(paths, is_dir, is_apply);
        let rest = removal_plan(p0, d0, is_apply);
        assert forall|i: int| 0 <= i < paths.len() && #[trigger] is_dir[i] implies plans_dir(
            plan,
            paths[i],
            is_apply,
        ) by {
            if i < p0.len() {
                assert(d0[i] == is_dir[i] && p0[i] == paths[i]);
                assert(plans_dir(rest, p0[i], is_apply));
                let k = choose|k: int| 0 <= k < rest.len() && #[trigger] rest[k] == (p0[i], is_apply);
                assert(plan[k] == rest[k]);
            } else {
                assert(plan[rest.len() as int] == (paths[i], is_apply));
            }
        }
    }
}

/// The paths that a clean acts on do not depend on `--apply`: a dry run
/// reports exactly the directories, in the same order, that a real run
/// deletes.
pub proof fn lemma_plan_paths_independent_of_apply(paths: Seq<Seq<u8>>, is_dir: Seq<bool>)
    ensures
        removal_plan(paths, is_dir, true).len() == removal_plan(paths, is_dir, false).len(),
        forall|k: int|
            0 <= k < removal_plan(paths, is_dir, true).len() ==> (#[trigger] removal_plan(
                paths,
                is_dir,
                true,
            )[k]).0 == removal_plan(paths, is_dir, false)[k].0,
    decreases paths.len(),
{
    if paths.len() > 0 && is_dir.len() > 0 {
        let p0 = paths.drop_last();
        let d0 = is_dir.drop_last();
        lemma_plan_paths_independent_of_apply(p0, d0);
        let t = removal_plan(paths, is_dir, true);
        let f = removal_plan(paths, is_dir, false);
        let rt = removal_plan(p0, d0, true);
        let rf = removal_plan(p0, d0, false);
        assert forall|k: int| 0 <= k < t.len() implies (#[trigger] t[k]).0 == f[k].0 by {
            if k < rt.len() {
                assert(t[k] == rt[k] && f[k] == rf[k]);
            }
        }
    }
}

/// `p` is one of `paths` whose entry in `is_dir` is set.
pub open spec fn is_listed_dir(paths: Seq<Seq<u8>>, is_dir: Seq<bool>, p: Seq<u8>) -> bool {
    exists|i: int| 0 <= i < paths.len() && #[trigger] is_dir[i] && paths[i] == p
}

/// The cleaning step acts only on listed paths that are directories on disk:
/// each directory it acts on is one of `paths` whose entry in `is_dir` is set.
pub proof fn lemma_plan_only_listed_dirs(paths: Seq<Seq<u8>>, is_dir: Seq<bool>, is_apply: bool)
    requires
        paths.len() == is_dir.len(),
    ensures
        forall|k: int|
            0 <= k < removal_plan(paths, is_dir, is_apply).len() ==> is_listed_dir(
                paths,
                is_dir,
                (#[trigger] removal_plan(paths, is_dir, is_apply)[k]).0,
            ),
    decreases paths.len(),
{
    if paths.len() > 0 {
        let p0 = paths.drop_last();
        let d0 = is_dir.drop_last();
        lemma_plan_only_listed_dirs(p0, d0, is_apply);
        let plan = removal_plan(paths, is_dir, is_apply);
        let rest = removal_plan(p0, d0, is_apply);
        assert forall|k: int| 0 <= k < plan.len() implies is_listed_dir(
            paths,
            is_dir,
            (#[trigger] plan[k]).0,
        ) by {
            if k < rest.len() {
                assert(is_listed_dir(p0, d0, rest[k].0));
                let i = choose|i: int| 0 <= i < p0.len() && #[trigger] d0[i] && p0[i] == rest[k].0;
                assert(plan[k] == rest[k]);
                assert(paths[i] == p0[i] && is_dir[i] == d0[i]);
            } else {
                let i = paths.len() - 1;
                assert(plan[k].0 == paths[i]);
                assert(is_dir[i]);
            }
        }
    }
}

/// With `--apply` every directory that the cleaning step acts on is deleted.
pub proof fn lemma_apply_deletes_all_planned(paths: Seq<Seq<u8>>, is_dir: Seq<bool>)
    ensures
        forall|k: int|
            0 <= k < removal_plan(paths, is_dir, true).len() ==> (#[trigger] removal_plan(
                paths,
                is_dir,
                true,
            )[k]).1,
    decreases paths.len(),
{
    if paths.len() > 0 && is_dir.len() > 0 {
        let p0 = paths.drop_last();
        let d0 = is_dir.drop_last();
        lemma_apply_deletes_all_planned(p0, d0);
        let plan = removal_plan(paths, is_dir, true);
        let rest = removal_plan(p0, d0, true);
        assert forall|k: int| 0 <= k < plan.len() implies (#[trigger] plan[k]).1 by {
            if k < rest.len() {
                assert(plan[k] == rest[k]);
            }
        }
    }
}

} // verus!
