use vstd::prelude::*;

use crate::cleaner::ALLOWED_TIME_UNITS;
use crate::constants::{
    default_templates, project_root_markers, templates_view, ProjectInfo, ProjectTemplate,
    SweepyConfig, TemplateView,
};
use crate::error::{ErrorView, SweepyError};
use crate::paths::{join_path, joined_path, lies_within, path_lies_within};
use crate::text::{decode_utf8_lossy, parse_i64, parse_i64_spec, trim, trimmed, utf8_lossy};
use crate::utils::{current_time, system_time_to_unix_secs};
use vstd::utf8::encode_utf8;

verus! {

/// One of the time units of `ALLOWED_TIME_UNITS`.
pub open spec fn is_time_unit(c: char) -> bool {
    c == 'd' || c == 'm' || c == 'y'
}

/// Seconds in one time unit: a day, a month of 30 days, a year of 365 days.
pub open spec fn unit_seconds(unit: char) -> int {
    if unit == 'd' {
        86400int
    } else if unit == 'm' {
        86400int * 30
    } else {
        86400int * 365
    }
}

/// How an `--older-than` value reads.
pub enum OlderThan {
    Empty,
    NoUnit,
    BadUnit(char),
    BadNumber,
    Span(int, char),
}

/// The reading of an `--older-than` value such as `90d`, `6m` or `2y`: a
/// number as `i64` parsing takes it, then one time unit.
pub open spec fn read_older_than(s: Seq<char>) -> OlderThan {
    if s.len() == 0 {
        OlderThan::Empty
    } else if !is_time_unit(s.last()) {
        if '0' <= s.last() && s.last() <= '9' {
            OlderThan::NoUnit
        } else {
            OlderThan::BadUnit(s.last())
        }
    } else {
        match parse_i64_spec(s.drop_last()) {
            Some(count) => OlderThan::Span(count, s.last()),
            None => OlderThan::BadNumber,
        }
    }
}

/// The error with which an `--older-than` value is refused, if it is.
pub open spec fn older_than_error(s: Seq<char>) -> Option<ErrorView> {
    match read_older_than(s) {
        OlderThan::Empty => Some(ErrorView::EmptyOlderThan),
        OlderThan::NoUnit => Some(ErrorView::MissingTimeUnit(s)),
        OlderThan::BadUnit(u) => Some(ErrorView::UnexpectedTimeUnit(u, s)),
        OlderThan::BadNumber => Some(ErrorView::InvalidNumber(s)),
        OlderThan::Span(_, _) => None,
    }
}

/// The seconds that an `--older-than` value spans, where it is accepted.
pub open spec fn older_than_secs(s: Seq<char>) -> Option<int> {
    match read_older_than(s) {
        OlderThan::Span(count, unit) => Some(count * unit_seconds(unit)),
        _ => None,
    }
}

/// Reads an `--older-than` value into its count and its time unit.
pub fn parse_older_than(older_than: &str) -> (r: Result<(i64, char), SweepyError>)
    ensures
        match r {
            Ok((count, unit)) => read_older_than(older_than@) == OlderThan::Span(
                count as int,
                unit,
            ),
            Err(e) => older_than_error(older_than@) == Some(e@),
        },
{
    let n = older_than.unicode_len();
    if n == 0 {
        return Err(SweepyError::EmptyOlderThan);
    }
    let unit = older_than.get_char(n - 1);
    assert(older_than@.last() == unit);
    let mut allowed = false;
    let mut k: usize = 0;
    while k < 3
        invariant
            k <= 3,
            ALLOWED_TIME_UNITS@ == seq!['d', 'm', 'y'],
            allowed == (exists|j: int| 0 <= j < k && ALLOWED_TIME_UNITS@[j] == unit),
        decreases 3 - k,
    {
        if ALLOWED_TIME_UNITS[k] == unit {
            allowed = true;
        }
        k = k + 1;
    }
    assert(allowed == is_time_unit(unit)) by {
        if is_time_unit(unit) {
            if unit == 'd' {
                assert(ALLOWED_TIME_UNITS@[0] == unit);
            } else if unit == 'm' {
                assert(ALLOWED_TIME_UNITS@[1] == unit);
            } else {
                assert(ALLOWED_TIME_UNITS@[2] == unit);
            }
        }
    }
    if !allowed {
        if '0' <= unit && unit <= '9' {
            return Err(SweepyError::MissingTimeUnit { value: older_than.to_owned() });
        } else {
            return Err(SweepyError::UnexpectedTimeUnit { unit, value: older_than.to_owned() });
        }
    }
    let number = older_than.substring_char(0, n - 1);
    assert(number@ == older_than@.drop_last());
    match parse_i64(number) {
        Some(count) => Ok((count, unit)),
        None => Err(SweepyError::InvalidNumber { value: older_than.to_owned() }),
    }
}

/// Whether the cutoff for an `--older-than` value read at time `now` can be
/// computed in `i64`: the value is refused, or its span and `now` less the
/// span both fit.
pub fn cutoff_fits_at(older_than: &str, now: i64) -> (fits: bool)
    ensures
        fits == (older_than_secs(older_than@) matches Some(secs) ==> i64::MIN <= secs
            <= i64::MAX && i64::MIN <= now - secs <= i64::MAX),
{
    match parse_older_than(older_than) {
        Err(_) => true,
        Ok((count, unit)) => {
            let wide = count as i128;
            let span: i128 = if unit == 'd' {
                wide * 86400
            } else if unit == 'm' {
                wide * 2592000
            } else {
                wide * 31536000
            };
            let min = i64::MIN as i128;
            let max = i64::MAX as i128;
            if span < min || span > max {
                false
            } else {
                let rest = now as i128 - span;
                min <= rest && rest <= max
            }
        },
    }
}

/// The cutoff timestamp for an `--older-than` value read at time `now`:
/// `now` less the span of the value, in seconds since the Unix epoch.
pub fn older_than_cutoff_at(older_than: &str, now: i64) -> (r: Result<i64, SweepyError>)
    requires
        older_than_secs(older_than@) matches Some(secs) ==> i64::MIN <= secs <= i64::MAX
            && i64::MIN <= now - secs <= i64::MAX,
    ensures
        match r {
            Ok(cutoff) => older_than_secs(older_than@) == Some(now - cutoff),
            Err(e) => older_than_error(older_than@) == Some(e@),
        },
{
    let (count, unit) = parse_older_than(older_than)?;
    proof {
        let span = count * unit_seconds(unit);
        assert(i64::MIN <= span <= i64::MAX);
        // Each partial product lies between zero and the whole product.
        if count >= 0 {
            assert(0 <= count * 60 <= count * 3600 <= count * 86400 <= span);
        } else {
            assert(span <= count * 86400 <= count * 3600 <= count * 60 <= 0);
        }
        assert(count * 86400 * 30 == count * 2592000);
        assert(count * 86400 * 365 == count * 31536000);
    }
    let unix_secs: i64 = if unit == 'd' {
        count * 60 * 60 * 24
    } else if unit == 'm' {
        count * 60 * 60 * 24 * 30
    } else {
        count * 60 * 60 * 24 * 365
    };
    Ok(now - unix_secs)
}

/// The cutoff timestamp for an `--older-than` value: the present, read from
/// the system clock (taken as the epoch where it cannot be read), less the
/// span of the value, in seconds since the Unix epoch.
pub fn get_older_than_unix(older_than: &String) -> (r: Result<i64, SweepyError>)
    requires
        older_than_secs(older_than@) matches Some(secs) ==> 0 <= secs <= i64::MAX,
    ensures
        match r {
            Ok(cutoff) => older_than_secs(older_than@) matches Some(secs) && 0 <= cutoff + secs
                <= i64::MAX,
            Err(e) => older_than_error(older_than@) == Some(e@),
        },
{
    let now = match system_time_to_unix_secs(current_time()) {
        Some(v) => v,
        None => 0,
    };
    older_than_cutoff_at(older_than.as_str(), now)
}

/// What became of the attempt to load the configuration file.
pub enum ConfigLookup {
    /// No location for the configuration file could be found or created.
    NoConfigPath,
    /// The configuration file could not be read or does not parse.
    Unreadable,
    /// The configuration file was read.
    Loaded(SweepyConfig),
}

/// The languages to try on a directory: those of the configuration file when
/// it was read, the built-in ones when it has no location, none when it could
/// not be read.
pub open spec fn lookup_templates(lookup: ConfigLookup) -> Option<Seq<TemplateView>> {
    match lookup {
        ConfigLookup::NoConfigPath => Some(default_templates()),
        ConfigLookup::Unreadable => None,
        ConfigLookup::Loaded(config) => Some(templates_view(config.language@)),
    }
}

/// The first of `ts` whose marker file is present, `present` telling for each
/// one whether it is.
pub open spec fn first_present(ts: Seq<TemplateView>, present: Seq<bool>) -> Option<TemplateView>
    decreases ts.len(),
{
    if ts.len() == 0 || present.len() == 0 {
        None
    } else if present[0] {
        Some(ts[0])
    } else {
        first_present(ts.drop_first(), present.drop_first())
    }
}

/// The timestamp that `git log -1 --format=%ct` printed, given its output as
/// text: the trimmed text read as an `i64`.
pub open spec fn git_timestamp(raw: Seq<char>) -> Option<int> {
    let t = trimmed(raw);
    if t.len() == 0 {
        None
    } else {
        parse_i64_spec(t)
    }
}

/// A project counts as stale when its last modification is known and lies at
/// or before the cutoff.
pub open spec fn is_stale(last_mtime: Option<i64>, cutoff: i64) -> bool {
    match last_mtime {
        Some(t) => t <= cutoff,
        None => false,
    }
}

/// The sum of `sizes`.
pub open spec fn sum_sizes(sizes: Seq<u64>) -> int
    decreases sizes.len(),
{
    if sizes.len() == 0 {
        0
    } else {
        sum_sizes(sizes.drop_last()) + sizes.last()
    }
}

/// The sum of the sizes that are known.
pub open spec fn sum_known_sizes(sizes: Seq<Option<u64>>) -> int
    decreases sizes.len(),
{
    if sizes.len() == 0 {
        0
    } else {
        sum_known_sizes(sizes.drop_last()) + match sizes.last() {
            Some(s) => s as int,
            None => 0,
        }
    }
}

/// The languages to try on a directory, given what became of loading the
/// configuration file.
pub fn language_templates(lookup: ConfigLookup) -> (r: Option<Vec<ProjectTemplate>>)
    ensures
        match r {
            Some(ts) => lookup_templates(lookup) == Some(templates_view(ts@)),
            None => lookup_templates(lookup) is None,
        },
{
    match lookup {
        ConfigLookup::NoConfigPath => Some(project_root_markers()),
        ConfigLookup::Unreadable => None,
        ConfigLookup::Loaded(config) => Some(config.language),
    }
}

/// No path of `rs` lies within another.
pub open spec fn roots_apart(rs: Seq<Seq<u8>>) -> bool {
    forall|i: int, j: int|
        0 <= i < rs.len() && 0 <= j < rs.len() && i != j ==> !lies_within(
            #[trigger] rs[i],
            #[trigger] rs[j],
        )
}

/// `p` lies within one of `rs`, or one of `rs` lies within `p`.
pub open spec fn overlaps_any(p: Seq<u8>, rs: Seq<Seq<u8>>) -> bool {
    exists|i: int| 0 <= i < rs.len() && (lies_within(p, #[trigger] rs[i]) || lies_within(rs[i], p))
}

/// What the walk over a workspace does at a directory.
pub enum WalkStep {
    /// No project is rooted here: the walk enters the directory.
    Descend,
    /// A project is rooted here: it is recorded and the walk does not enter
    /// the directory, so no project nested inside it is reached.
    ProjectRoot(ProjectInfo),
    /// The directory lies within a recorded project root, or holds one: it is
    /// neither recorded nor entered.
    Overlapping,
}

/// The project roots that a walk over a workspace has recorded so far; no
/// one of them lies within another.
pub struct RootWalk {
    roots: Vec<Vec<u8>>,
}

impl RootWalk {
    #[verifier::type_invariant]
    spec fn apart(self) -> bool {
        roots_apart(self.roots.deep_view())
    }

    /// The paths of the project roots recorded so far, in order.
    pub closed spec fn recorded(self) -> Seq<Seq<u8>> {
        self.roots.deep_view()
    }

    /// A walk that has recorded nothing yet.
    pub fn new() -> (w: RootWalk)
        ensures
            w.recorded() == Seq::<Seq<u8>>::empty(),
    {
        let w = RootWalk { roots: Vec::new() };
        assert(w.recorded() =~= Seq::<Seq<u8>>::empty());
        w
    }

    /// What the walk does at the directory `entry_path`, given the project
    /// rooted there, if any. A directory that overlaps a recorded root is
    /// passed over; otherwise a project root is recorded and not entered, and
    /// any other directory is entered. So a project nested inside another is
    /// never recorded, and the recorded roots stay apart.
    pub fn step(&mut self, entry_path: &[u8], project: Option<ProjectInfo>) -> (s: WalkStep)
        ensures
            roots_apart(final(self).recorded()),
            overlaps_any(entry_path@, old(self).recorded()) ==> s == WalkStep::Overlapping
                && final(self).recorded() == old(self).recorded(),
            !overlaps_any(entry_path@, old(self).recorded()) ==> match project {
                Some(p) => s == WalkStep::ProjectRoot(p) && final(self).recorded() == old(
                    self,
                ).recorded().push(entry_path@),
                None => s == WalkStep::Descend && final(self).recorded() == old(
                    self,
                ).recorded(),
            },
    {
        proof {
            use_type_invariant(&*self);
        }
        let ghost rs = self.roots.deep_view();
        let n = self.roots.len();
        let mut i: usize = 0;
        while i < n
            invariant
                n == self.roots@.len(),
                rs == self.roots.deep_view(),
                roots_apart(rs),
                i <= n,
                forall|j: int|
                    0 <= j < i ==> !(lies_within(entry_path@, #[trigger] rs[j]) || lies_within(
                        rs[j],
                        entry_path@,
                    )),
            decreases n - i,
        {
            let r = self.roots[i].as_slice();
            assert(rs[i as int] == r@);
            if path_lies_within(entry_path, r) || path_lies_within(r, entry_path) {
                return WalkStep::Overlapping;
            }
            i = i + 1;
        }
        assert(!overlaps_any(entry_path@, rs));
        match project {
            Some(p) => {
                let path = vstd::slice::slice_to_vec(entry_path);
                let ghost new_rs = rs.push(entry_path@);
                assert(path.deep_view() =~= path@);
                let mut roots: Vec<Vec<u8>> = Vec::new();
                std::mem::swap(&mut roots, &mut self.roots);
                roots.push(path);
                assert(roots.deep_view() =~= new_rs);
                assert forall|a: int, b: int|
                    0 <= a < new_rs.len() && 0 <= b < new_rs.len() && a != b implies !lies_within(
                    #[trigger] new_rs[a],
                    #[trigger] new_rs[b],
                ) by {
                    if a < rs.len() && b < rs.len() {
                        assert(new_rs[a] == rs[a] && new_rs[b] == rs[b]);
                    } else if a < rs.len() {
                        assert(new_rs[a] == rs[a]);
                    } else {
                        assert(new_rs[b] == rs[b]);
                    }
                }
                self.roots = roots;
                WalkStep::ProjectRoot(p)
            },
            None => WalkStep::Descend,
        }
    }
}

/// The paths of the marker files of `templates` inside `entry_path`, one per
/// template, in order.
pub fn marker_paths(entry_path: &[u8], templates: &Vec<ProjectTemplate>) -> (paths: Vec<Vec<u8>>)
    ensures
        paths@.len() == templates@.len(),
        forall|i: int|
            0 <= i < templates@.len() ==> #[trigger] paths@[i]@ == joined_path(
                entry_path@,
                encode_utf8(templates@[i].mark@),
            ),
{
    let mut paths: Vec<Vec<u8>> = Vec::new();
    let mut i: usize = 0;
    while i < templates.len()
        invariant
            i <= templates@.len(),
            paths@.len() == i,
            forall|j: int|
                0 <= j < i ==> #[trigger] paths@[j]@ == joined_path(
                    entry_path@,
                    encode_utf8(templates@[j].mark@),
                ),
        decreases templates@.len() - i,
    {
        paths.push(join_path(entry_path, templates[i].mark.as_str().as_bytes()));
        i = i + 1;
    }
    paths
}

/// The project rooted at `entry_path`, if any: the first of `templates`
/// whose marker file is present there; `marker_exists[i]` tells whether the
/// marker of `templates[i]` is present.
pub fn try_project_info_for(
    entry_path: &[u8],
    templates: &Vec<ProjectTemplate>,
    marker_exists: &Vec<bool>,
) -> (r: Option<ProjectInfo>)
    requires
        marker_exists@.len() == templates@.len(),
    ensures
        match r {
            Some(p) => first_present(templates_view(templates@), marker_exists@) == Some(
                p@.template,
            ) && p@.path == entry_path@,
            None => first_present(templates_view(templates@), marker_exists@) is None,
        },
        forall|i: int|
            0 <= i < templates@.len() && #[trigger] marker_exists@[i] && (forall|j: int|
                0 <= j < i ==> !marker_exists@[j]) ==> (r matches Some(p) && p@.template
                == templates@[i]@ && p@.path == entry_path@),
        (forall|j: int| 0 <= j < templates@.len() ==> !marker_exists@[j]) ==> r is None,
{
    let ghost ts = templates_view(templates@);
    let ghost present = marker_exists@;
    proof {
        lemma_first_present_is_earliest(ts, present);
        assert forall|i: int| 0 <= i < ts.len() implies ts[i] == templates@[i]@ by {}
    }
    let n = templates.len();
    let mut i: usize = 0;
    assert(ts.subrange(0, n as int) =~= ts);
    assert(present.subrange(0, n as int) =~= present);
    while i < n
        invariant
            n == templates@.len(),
            n == marker_exists@.len(),
            ts == templates_view(templates@),
            present == marker_exists@,
            i <= n,
            first_present(ts, present) == first_present(
                ts.subrange(i as int, n as int),
                present.subrange(i as int, n as int),
            ),
        decreases n - i,
    {
        let ghost rest_ts = ts.subrange(i as int, n as int);
        let ghost rest_present = present.subrange(i as int, n as int);
        if marker_exists[i] {
            assert(rest_present[0] == marker_exists@[i as int]);
            assert(rest_ts[0] == templates@[i as int]@);
            let template = templates[i].clone();
            proof {
                lemma_first_present_is_earliest(ts, present);
                assert forall|k: int| 0 <= k < ts.len() implies ts[k] == templates@[k]@ by {}
            }
            return Some(ProjectInfo { template, path: vstd::slice::slice_to_vec(entry_path) });
        }
        assert(rest_ts.drop_first() =~= ts.subrange(i + 1, n as int));
        assert(rest_present.drop_first() =~= present.subrange(i + 1, n as int));
        i = i + 1;
    }
    None
}

/// The language found in a directory is the earliest one, in the order of
/// the list, whose marker is present: for every `i` whose marker is present
/// while no earlier one is, the result is the `i`-th language, wherever it
/// stands in the list (the last one too); with no marker present there is
/// none.
pub proof fn lemma_first_present_is_earliest(ts: Seq<TemplateView>, present: Seq<bool>)
    requires
        ts.len() == present.len(),
    ensures
        forall|i: int|
            0 <= i < ts.len() && #[trigger] present[i] && (forall|j: int|
                0 <= j < i ==> !present[j]) ==> first_present(ts, present) == Some(ts[i]),
        (forall|j: int| 0 <= j < ts.len() ==> !present[j]) ==> first_present(ts, present) is None,
    decreases ts.len(),
{
    if ts.len() > 0 {
        let ts1 = ts.drop_first();
        let p1 = present.drop_first();
        lemma_first_present_is_earliest(ts1, p1);
        assert forall|i: int|
            0 <= i < ts.len() && #[trigger] present[i] && (forall|j: int|
                0 <= j < i ==> !present[j]) implies first_present(ts, present) == Some(ts[i]) by {
            if i > 0 {
                assert(!present[0]);
                assert(p1[i - 1] == present[i]);
                assert forall|j: int| 0 <= j < i - 1 implies !p1[j] by {
                    assert(p1[j] == present[j + 1]);
                }
                assert(ts1[i - 1] == ts[i]);
            }
        }
        if forall|j: int| 0 <= j < ts.len() ==> !present[j] {
            assert(!present[0]);
            assert forall|j: int| 0 <= j < p1.len() implies !p1[j] by {
                assert(p1[j] == present[j + 1]);
            }
        }
    }
}

/// The commit timestamp that `git log -1 --format=%ct` printed, given its
/// output as text.
pub fn timestamp_from_git_output(raw: &str) -> (r: Option<i64>)
    ensures
        match r {
            Some(v) => git_timestamp(raw@) == Some(v as int),
            None => git_timestamp(raw@) is None,
        },
{
    let t = trim(raw);
    if t.unicode_len() == 0 {
        return None;
    }
    parse_i64(t)
}

/// The commit timestamp that a run of `git log -1 --format=%ct` reported,
/// given whether it succeeded and what it printed on its standard output.
pub fn git_commit_timestamp(success: bool, stdout: &Vec<u8>) -> (r: Option<i64>)
    ensures
        !success ==> r is None,
        success ==> match r {
            Some(v) => git_timestamp(utf8_lossy(stdout@)) == Some(v as int),
            None => git_timestamp(utf8_lossy(stdout@)) is None,
        },
{
    if !success {
        return None;
    }
    let raw = decode_utf8_lossy(stdout.as_slice());
    timestamp_from_git_output(raw.as_str())
}

/// Adds `project` to `roots` when it is stale against `cutoff`.
pub fn record_project(
    roots: &mut Vec<ProjectInfo>,
    project: ProjectInfo,
    last_mtime: Option<i64>,
    cutoff: i64,
)
    ensures
        is_stale(last_mtime, cutoff) ==> final(roots)@ == old(roots)@.push(project),
        !is_stale(last_mtime, cutoff) ==> final(roots)@ == old(roots)@,
{
    match last_mtime {
        Some(t) => {
            if t <= cutoff {
                roots.push(project);
            }
        },
        None => {},
    }
}

/// Total size of a directory, given the sizes of the regular files under it.
pub fn get_dir_size_bytes(file_sizes: &Vec<u64>) -> (total: u64)
    requires
        sum_sizes(file_sizes@) <= u64::MAX,
    ensures
        total == sum_sizes(file_sizes@),
{
    let mut total: u64 = 0;
    let mut i: usize = 0;
    while i < file_sizes.len()
        invariant
            i <= file_sizes@.len(),
            sum_sizes(file_sizes@) <= u64::MAX,
            total == sum_sizes(file_sizes@.take(i as int)),
        decreases file_sizes@.len() - i,
    {
        proof {
            lemma_sum_sizes_prefix(file_sizes@, i as int + 1);
        }
        assert(file_sizes@.take(i + 1).drop_last() =~= file_sizes@.take(i as int));
        total = total + file_sizes[i];
        i = i + 1;
    }
    assert(file_sizes@.take(i as int) =~= file_sizes@);
    total
}

/// The total of sizes is their plain sum: one size counts as itself, and
/// the total of two lists written one after the other is the total of the
/// first plus the total of the second, so each size counts once, whatever
/// stands around it (an empty file adds nothing and hides nothing).
pub proof fn lemma_sum_sizes_additive(s: Seq<u64>, t: Seq<u64>)
    ensures
        sum_sizes(s + t) == sum_sizes(s) + sum_sizes(t),
        forall|x: u64| #[trigger] sum_sizes(seq![x]) == x,
    decreases t.len(),
{
    assert forall|x: u64| #[trigger] sum_sizes(seq![x]) == x by {
        assert(seq![x].drop_last() =~= Seq::<u64>::empty());
        assert(sum_sizes(Seq::<u64>::empty()) == 0);
        assert(seq![x].last() == x);
    }
    if t.len() == 0 {
        assert(s + t =~= s);
    } else {
        let t0 = t.drop_last();
        lemma_sum_sizes_additive(s, t0);
        assert((s + t).drop_last() =~= s + t0);
        assert((s + t).last() == t.last());
    }
}

/// The total of the known sizes is their plain sum: a known size counts as
/// itself and an unknown one as zero, and the total of two lists written one
/// after the other is the total of the first plus the total of the second,
/// so each known size counts once, whatever stands around it.
pub proof fn lemma_sum_known_sizes_additive(s: Seq<Option<u64>>, t: Seq<Option<u64>>)
    ensures
        sum_known_sizes(s + t) == sum_known_sizes(s) + sum_known_sizes(t),
        forall|x: u64| #[trigger] sum_known_sizes(seq![Some(x)]) == x,
        sum_known_sizes(seq![None]) == 0,
    decreases t.len(),
{
    assert(sum_known_sizes(Seq::<Option<u64>>::empty()) == 0);
    assert forall|x: u64| #[trigger] sum_known_sizes(seq![Some(x)]) == x by {
        assert(seq![Some(x)].drop_last() =~= Seq::<Option<u64>>::empty());
        assert(seq![Some(x)].last() == Some(x));
    }
    assert(seq![None::<u64>].drop_last() =~= Seq::<Option<u64>>::empty());
    assert(seq![None::<u64>].last() == None::<u64>);
    if t.len() == 0 {
        assert(s + t =~= s);
    } else {
        let t0 = t.drop_last();
        lemma_sum_known_sizes_additive(s, t0);
        assert((s + t).drop_last() =~= s + t0);
        assert((s + t).last() == t.last());
    }
}

proof fn lemma_sum_sizes_prefix(sizes: Seq<u64>, k: int)
    requires
        0 <= k <= sizes.len(),
    ensures
        sum_sizes(sizes.take(k)) <= sum_sizes(sizes),
    decreases sizes.len(),
{
    if k < sizes.len() {
        lemma_sum_sizes_prefix(sizes.drop_last(), k);
        assert(sizes.drop_last().take(k) =~= sizes.take(k));
    } else {
        assert(sizes.take(k) =~= sizes);
    }
}

proof fn lemma_sum_known_sizes_prefix(sizes: Seq<Option<u64>>, k: int)
    requires
        0 <= k <= sizes.len(),
    ensures
        sum_known_sizes(sizes.take(k)) <= sum_known_sizes(sizes),
    decreases sizes.len(),
{
    if k < sizes.len() {
        lemma_sum_known_sizes_prefix(sizes.drop_last(), k);
        assert(sizes.drop_last().take(k) =~= sizes.take(k));
    } else {
        assert(sizes.take(k) =~= sizes);
    }
}

/// Space that clearing a project would free: the sizes of those of its
/// directories to clear that are directories on disk. `dir_sizes[i]` is the
/// size of the `i`-th of `dirs_to_clear_paths(pi)` where that path is a
/// directory (not following a symbolic link), `None` where it is not.
pub fn get_removable_space_bytes(pi: &ProjectInfo, dir_sizes: &Vec<Option<u64>>) -> (total: u64)
    requires
        dir_sizes@.len() == pi.template.dirs_to_clear@.len(),
        sum_known_sizes(dir_sizes@) <= u64::MAX,
    ensures
        total == sum_known_sizes(dir_sizes@),
{
    let mut total: u64 = 0;
    let mut i: usize = 0;
    while i < dir_sizes.len()
        invariant
            i <= dir_sizes@.len(),
            sum_known_sizes(dir_sizes@) <= u64::MAX,
            total == sum_known_sizes(dir_sizes@.take(i as int)),
        decreases dir_sizes@.len() - i,
    {
        proof {
            lemma_sum_known_sizes_prefix(dir_sizes@, i as int + 1);
        }
        assert(dir_sizes@.take(i + 1).drop_last() =~= dir_sizes@.take(i as int));
        match dir_sizes[i] {
            Some(size) => {
                total = total + size;
            },
            None => {},
        }
        i = i + 1;
    }
    assert(dir_sizes@.take(i as int) =~= dir_sizes@);
    total
}

/// A month counts as 30 days and a year as 365: `n` months span as many
/// seconds as `30 * n` days, and `n` years as many as `365 * n` days.
pub proof fn lemma_unit_lengths(n: int)
    ensures
        n * unit_seconds('m') == (30 * n) * unit_seconds('d'),
        n * unit_seconds('y') == (365 * n) * unit_seconds('d'),
{
    assert(n * 2592000 == (30 * n) * 86400) by (nonlinear_arith);
    assert(n * 31536000 == (365 * n) * 86400) by (nonlinear_arith);
}

} // verus!
