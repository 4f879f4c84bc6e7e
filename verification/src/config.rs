use vstd::prelude::*;

use crate::constants::{
    default_templates, project_root_markers, templates_view, ProjectTemplate, TemplateView,
};
use crate::paths::{lemma_split_after_separator, lemma_split_without_separator};
use crate::text::{
    is_white_space, split_by, split_on, trim, trim_end, trim_start, trimmed,
};
use crate::utils::{is_dir_name_char, is_valid_dir_name, valid_dir_name};

verus! {

/// Name of the directory, under the user's configuration directory, that
/// holds the configuration file.
pub const CLI_DIR_NAME: &'static str = "sweepy";

/// Name of the configuration file.
pub const CLI_CONFIG_NAME: &'static str = "config.toml";

/// `d` between double quotes.
pub open spec fn quoted(d: Seq<char>) -> Seq<char> {
    "\""@ + d + "\""@
}

/// The quoted names of `ds`, separated by `, `.
pub open spec fn quoted_list(ds: Seq<Seq<char>>) -> Seq<char>
    decreases ds.len(),
{
    if ds.len() == 0 {
        Seq::<char>::empty()
    } else if ds.len() == 1 {
        quoted(ds[0])
    } else {
        quoted_list(ds.drop_last()) + ", "@ + quoted(ds.last())
    }
}

/// The configuration file entry that describes one language.
pub open spec fn language_entry(t: TemplateView) -> Seq<char> {
    "[[language]]\nname = \""@ + t.name + "\"\nmark = \""@ + t.mark + "\"\ndirs_to_clear = ["@
        + quoted_list(t.dirs_to_clear) + "]\n\n"@
}

/// The entries of `ts`, one after the other.
pub open spec fn language_entries(ts: Seq<TemplateView>) -> Seq<char>
    decreases ts.len(),
{
    if ts.len() == 0 {
        Seq::<char>::empty()
    } else {
        language_entries(ts.drop_last()) + language_entry(ts.last())
    }
}

/// The configuration file written on first run and on reset.
pub open spec fn default_config_text() -> Seq<char> {
    "# Sweepy configuration file.\n\n"@ + language_entries(default_templates())
}

/// The pieces of a comma-separated list of directory names, each trimmed.
pub open spec fn dir_input_pieces(input: Seq<char>) -> Seq<Seq<char>> {
    split_on(input, ',').map_values(|p: Seq<char>| trimmed(p))
}

/// The names among `ps` that are valid directory names (`valid` true), or
/// those that are not (`valid` false), in order.
pub open spec fn names_by_validity(ps: Seq<Seq<char>>, valid: bool) -> Seq<Seq<char>>
    decreases ps.len(),
{
    if ps.len() == 0 {
        Seq::<Seq<char>>::empty()
    } else {
        let rest = names_by_validity(ps.drop_last(), valid);
        if valid_dir_name(ps.last()) == valid {
            rest.push(ps.last())
        } else {
            rest
        }
    }
}

/// Writes the configuration file entry for one language.
pub fn create_config_language_entry(pt: &ProjectTemplate) -> (entry: String)
    ensures
        entry@ == language_entry(pt@),
{
    let mut s = String::new();
    s.append("[[language]]\nname = \"");
    s.append(pt.name.as_str());
    s.append("\"\nmark = \"");
    s.append(pt.mark.as_str());
    s.append("\"\ndirs_to_clear = [");
    let ghost head = s@;
    let ghost dirs = pt.dirs_to_clear.deep_view();
    let n = pt.dirs_to_clear.len();
    let mut i: usize = 0;
    assert(dirs.take(0) =~= Seq::<Seq<char>>::empty());
    while i < n
        invariant
            n == pt.dirs_to_clear@.len(),
            dirs == pt.dirs_to_clear.deep_view(),
            i <= n,
            s@ == head + quoted_list(dirs.take(i as int)),
        decreases n - i,
    {
        let ghost before = s@;
        let d = pt.dirs_to_clear[i].as_str();
        assert(dirs[i as int] == d@);
        assert(dirs.take(i + 1).drop_last() =~= dirs.take(i as int));
        assert(dirs.take(i + 1).last() == d@);
        if i > 0 {
            s.append(", ");
        }
        s.append("\"");
        s.append(d);
        s.append("\"");
        if i == 0 {
            assert(s@ =~= head + quoted_list(dirs.take(i + 1)));
        } else {
            assert(s@ =~= head + quoted_list(dirs.take(i + 1)));
        }
        i = i + 1;
    }
    assert(dirs.take(n as int) =~= dirs);
    s.append("]\n\n");
    s
}

/// Writes the configuration file that lists the languages known out of the
/// box.
pub fn build_default_config() -> (config: String)
    ensures
        config@ == default_config_text(),
{
    let mut s = String::new();
    s.append("# Sweepy configuration file.\n\n");
    let ghost head = s@;
    let markers = project_root_markers();
    let ghost ts = templates_view(markers@);
    let n = markers.len();
    let mut i: usize = 0;
    assert(ts.take(0) =~= Seq::<TemplateView>::empty());
    while i < n
        invariant
            n == markers@.len(),
            ts == templates_view(markers@),
            ts == default_templates(),
            i <= n,
            s@ == head + language_entries(ts.take(i as int)),
        decreases n - i,
    {
        let entry = create_config_language_entry(&markers[i]);
        assert(ts.take(i + 1).drop_last() =~= ts.take(i as int));
        assert(ts.take(i + 1).last() == markers@[i as int]@);
        s.append(entry.as_str());
        assert(s@ =~= head + language_entries(ts.take(i + 1)));
        i = i + 1;
    }
    assert(ts.take(n as int) =~= ts);
    s
}

/// Reads a comma-separated list of directory names: each piece is trimmed;
/// the valid names come first in the result, the others second, each in the
/// order of the input.
pub fn validate_and_format_dirs_input(input: &String) -> (r: (Vec<String>, Vec<String>))
    ensures
        r.0.deep_view() == names_by_validity(dir_input_pieces(input@), true),
        r.1.deep_view() == names_by_validity(dir_input_pieces(input@), false),
{
    let pieces = split_by(input.as_str(), ',');
    let ghost ps = dir_input_pieces(input@);
    let n = pieces.len();
    let mut accepted: Vec<String> = Vec::new();
    let mut rejected: Vec<String> = Vec::new();
    let mut i: usize = 0;
    assert(ps.take(0) =~= Seq::<Seq<char>>::empty());
    while i < n
        invariant
            n == pieces@.len(),
            pieces.deep_view() == split_on(input@, ','),
            ps == dir_input_pieces(input@),
            ps.len() == n,
            i <= n,
            accepted.deep_view() == names_by_validity(ps.take(i as int), true),
            rejected.deep_view() == names_by_validity(ps.take(i as int), false),
        decreases n - i,
    {
        let t = trim(pieces[i].as_str());
        assert(ps[i as int] == t@);
        assert(ps.take(i + 1).drop_last() =~= ps.take(i as int));
        assert(ps.take(i + 1).last() == t@);
        if is_valid_dir_name(t) {
            let ghost before = accepted.deep_view();
            accepted.push(t.to_owned());
            assert(accepted.deep_view() =~= before.push(t@));
        } else {
            let ghost before = rejected.deep_view();
            rejected.push(t.to_owned());
            assert(rejected.deep_view() =~= before.push(t@));
        }
        i = i + 1;
    }
    assert(ps.take(n as int) =~= ps);
    (accepted, rejected)
}

/// The message shown for a directory name that is refused.
pub open spec fn invalid_dir_message_of(name: Seq<char>) -> Seq<char> {
    "Invalid directory name: "@ + name + ". Allowed symbols: a-z A-Z 0-9 . _ -"@
}

/// The message shown for a directory name that is refused.
pub fn invalid_dir_name_message(name: &str) -> (m: String)
    ensures
        m@ == invalid_dir_message_of(name@),
{
    let mut m = String::new();
    m.append("Invalid directory name: ");
    m.append(name);
    m.append(". Allowed symbols: a-z A-Z 0-9 . _ -");
    m
}

/// The language that a user describes by its name, its marker file and a
/// comma-separated list of directories to clear, with the directory names
/// that were refused.
pub fn template_from_input(name: String, mark: String, dirs_input: &String) -> (r: (
    ProjectTemplate,
    Vec<String>,
))
    ensures
        r.0@.name == name@,
        r.0@.mark == mark@,
        r.0@.dirs_to_clear == names_by_validity(dir_input_pieces(dirs_input@), true),
        r.1.deep_view() == names_by_validity(dir_input_pieces(dirs_input@), false),
{
    let (accepted, rejected) = validate_and_format_dirs_input(dirs_input);
    (ProjectTemplate { mark, name, dirs_to_clear: accepted }, rejected)
}

/// Every directory name that the input accepts is valid, and every one that
/// it refuses is not.
pub proof fn lemma_accepted_dir_names_valid(ps: Seq<Seq<char>>)
    ensures
        forall|i: int|
            0 <= i < names_by_validity(ps, true).len() ==> valid_dir_name(
                #[trigger] names_by_validity(ps, true)[i],
            ),
        forall|i: int|
            0 <= i < names_by_validity(ps, false).len() ==> !valid_dir_name(
                #[trigger] names_by_validity(ps, false)[i],
            ),
    decreases ps.len(),
{
    if ps.len() > 0 {
        lemma_accepted_dir_names_valid(ps.drop_last());
        let rest_t = names_by_validity(ps.drop_last(), true);
        let rest_f = names_by_validity(ps.drop_last(), false);
        let all_t = names_by_validity(ps, true);
        let all_f = names_by_validity(ps, false);
        assert forall|i: int| 0 <= i < all_t.len() implies valid_dir_name(#[trigger] all_t[i]) by {
            if i < rest_t.len() {
                assert(all_t[i] == rest_t[i]);
            }
        }
        assert forall|i: int| 0 <= i < all_f.len() implies !valid_dir_name(#[trigger] all_f[i]) by {
            if i < rest_f.len() {
                assert(all_f[i] == rest_f[i]);
            }
        }
    }
}

/// The pieces `ps` written one after the other with `sep` between each two.
pub open spec fn joined_with(ps: Seq<Seq<char>>, sep: char) -> Seq<char>
    decreases ps.len(),
{
    if ps.len() == 0 {
        Seq::<char>::empty()
    } else if ps.len() == 1 {
        ps[0]
    } else {
        joined_with(ps.drop_last(), sep) + seq![sep] + ps.last()
    }
}

/// Joining pieces that hold no separator and splitting the result again
/// gives the pieces back.
pub proof fn lemma_split_joined(ps: Seq<Seq<char>>, sep: char)
    requires
        ps.len() > 0,
        forall|i: int, j: int| 0 <= i < ps.len() && 0 <= j < ps[i].len() ==> ps[i][j] != sep,
    ensures
        split_on(joined_with(ps, sep), sep) == ps,
    decreases ps.len(),
{
    if ps.len() == 1 {
        lemma_split_without_separator(ps[0], sep);
        assert(seq![ps[0]] =~= ps);
    } else {
        let init = ps.drop_last();
        lemma_split_joined(init, sep);
        assert forall|j: int| 0 <= j < ps.last().len() implies ps.last()[j] != sep by {
            assert(ps.last() == ps[ps.len() - 1]);
        }
        lemma_split_after_separator(joined_with(init, sep), ps.last(), sep);
        assert(init.push(ps.last()) =~= ps);
    }
}

/// A valid directory name is left as it is by trimming.
pub proof fn lemma_valid_name_trimmed(name: Seq<char>)
    requires
        valid_dir_name(name),
    ensures
        trimmed(name) == name,
{
    assert(is_dir_name_char(name[0]));
    assert(!is_white_space(name[0]));
    assert(trim_start(name) == name);
    assert(is_dir_name_char(name[name.len() - 1]));
    assert(!is_white_space(name.last()));
    assert(trim_end(name) == name);
}

proof fn lemma_all_valid_kept(ps: Seq<Seq<char>>)
    requires
        forall|i: int| 0 <= i < ps.len() ==> valid_dir_name(#[trigger] ps[i]),
    ensures
        names_by_validity(ps, true) == ps,
        names_by_validity(ps, false) == Seq::<Seq<char>>::empty(),
    decreases ps.len(),
{
    if ps.len() > 0 {
        let init = ps.drop_last();
        assert forall|i: int| 0 <= i < init.len() implies valid_dir_name(#[trigger] init[i]) by {
            assert(init[i] == ps[i]);
        }
        lemma_all_valid_kept(init);
        assert(valid_dir_name(ps[ps.len() - 1]));
        assert(init.push(ps.last()) =~= ps);
    }
}

/// Reading back the accepted directory names, written out with commas
/// between them, accepts exactly the same names and refuses none (where any
/// were accepted); each accepted name is already trimmed.
pub proof fn lemma_accepted_dir_names_read_back(input: Seq<char>)
    ensures
        ({
            let accepted = names_by_validity(dir_input_pieces(input), true);
            let again = dir_input_pieces(joined_with(accepted, ','));
            &&& names_by_validity(again, true) == accepted
            &&& accepted.len() > 0 ==> names_by_validity(again, false) == Seq::<
                Seq<char>,
            >::empty()
            &&& forall|i: int|
                0 <= i < accepted.len() ==> trimmed(#[trigger] accepted[i]) == accepted[i]
        }),
{
    let accepted = names_by_validity(dir_input_pieces(input), true);
    lemma_accepted_dir_names_valid(dir_input_pieces(input));
    assert forall|i: int| 0 <= i < accepted.len() implies trimmed(#[trigger] accepted[i])
        == accepted[i] by {
        lemma_valid_name_trimmed(accepted[i]);
    }
    let joined = joined_with(accepted, ',');
    let again = dir_input_pieces(joined);
    if accepted.len() == 0 {
        assert(joined =~= Seq::<char>::empty());
        assert(split_on(joined, ',') =~= seq![Seq::<char>::empty()]);
        assert(again =~= seq![trimmed(Seq::<char>::empty())]);
        assert(trimmed(Seq::<char>::empty()) =~= Seq::<char>::empty());
        assert(!valid_dir_name(again[0]));
        assert(again.drop_last() =~= Seq::<Seq<char>>::empty());
        assert(names_by_validity(again.drop_last(), true) =~= Seq::<Seq<char>>::empty());
        assert(accepted =~= Seq::<Seq<char>>::empty());
        assert(names_by_validity(again, true) =~= accepted);
    } else {
        assert forall|i: int, j: int|
            0 <= i < accepted.len() && 0 <= j < accepted[i].len() implies accepted[i][j]
            != ',' by {
            assert(is_dir_name_char(accepted[i][j]));
        }
        lemma_split_joined(accepted, ',');
        assert(again =~= accepted);
        lemma_all_valid_kept(accepted);
    }
}

} // verus!
