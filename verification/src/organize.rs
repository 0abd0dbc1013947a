//! The decisions of a run: where a file goes, what happens when its
//! destination already exists, and what a run reports.

use crate::config::{lowercase, lowercase_text, DuplicateAction};
use crate::report::{Action, Report, ReportEntry};
use crate::pattern::{first_match, first_matching, law_first_match_is_first, pattern_matches};
use crate::strmap::StrMap;
use crate::text::{
    chars_of, concat2, concat3, contains, matches_at, owned, slice_chars, string_of, trim,
    trim_chars,
};
use vstd::prelude::*;

verus! {

/// The position of the last `.` in `name`.
pub open spec fn last_dot(name: Seq<char>) -> Option<int>
    decreases name.len(),
{
    if name.len() == 0 {
        None
    } else if name.last() == '.' {
        Some(name.len() - 1)
    } else {
        last_dot(name.drop_last())
    }
}

proof fn lemma_last_dot(name: Seq<char>)
    ensures
        match last_dot(name) {
            Some(k) => 0 <= k < name.len() && name[k] == '.' && forall|j: int|
                k < j < name.len() ==> name[j] != '.',
            None => forall|j: int| 0 <= j < name.len() ==> name[j] != '.',
        },
    decreases name.len(),
{
    if name.len() > 0 {
        let p = name.drop_last();
        lemma_last_dot(p);
        assert(forall|j: int| 0 <= j < p.len() ==> p[j] == name[j]);
    }
}

/// The extension of a file name, as `Path::extension` finds it: the part
/// after the last `.`, unless there is no `.` or the only one begins the
/// name.
pub open spec fn extension_of(name: Seq<char>) -> Option<Seq<char>> {
    match last_dot(name) {
        Some(k) => if k == 0 {
            None
        } else {
            Some(name.skip(k + 1))
        },
        None => None,
    }
}

/// The extension of a file name.
pub fn file_extension(name: &str) -> (r: Option<String>)
    ensures
        match r {
            Some(e) => extension_of(name@) == Some(e@),
            None => extension_of(name@) is None,
        },
{
    let v = chars_of(name);
    let mut i: usize = v.len();
    proof {
        lemma_last_dot(v@);
    }
    while i > 0 && v[i - 1] != '.'
        invariant
            i <= v.len(),
            forall|j: int| i <= j < v.len() ==> v@[j] != '.',
        decreases i,
    {
        i -= 1;
    }
    if i == 0 {
        return None;
    }
    let k = i - 1;
    assert(last_dot(v@) == Some(k as int));
    if k == 0 {
        return None;
    }
    let e = slice_chars(&v, k + 1, v.len());
    assert(e@ == v@.skip(k + 1));
    Some(string_of(&e))
}

proof fn lemma_last_dot_of_split(stem: Seq<char>, e: Seq<char>)
    requires
        !e.contains('.'),
    ensures
        last_dot(stem + seq!['.'] + e) == Some(stem.len() as int),
        (stem + seq!['.'] + e).skip(stem.len() as int + 1) == e,
{
    let name = stem + seq!['.'] + e;
    lemma_last_dot(name);
    assert(name[stem.len() as int] == '.');
    assert forall|j: int| stem.len() < j < name.len() implies name[j] != '.' by {
        assert(name[j] == e[j - stem.len() - 1]);
    }
    assert(name.skip(stem.len() as int + 1) =~= e);
}

proof fn lemma_no_dot(name: Seq<char>)
    requires
        !name.contains('.'),
    ensures
        last_dot(name) is None,
{
    lemma_last_dot(name);
    if last_dot(name) is Some {
        let k = last_dot(name)->0;
        assert(name[k] == '.');
    }
}

/// A file is routed by the text after the last dot of its name: for a
/// name `stem.e`, with a non-empty stem and no dot in `e`, the plan is the
/// destination of the lower-cased `e` when a rule takes it, and "no rule"
/// otherwise, whatever dots the stem holds. A name without a dot, or with
/// only a leading one, has no extension and is left alone.
pub proof fn law_plan_follows_last_extension(
    ext_map: Map<Seq<char>, String>,
    stem: Seq<char>,
    e: Seq<char>,
)
    requires
        !e.contains('.'),
    ensures
        stem.len() > 0 ==> file_plan(ext_map, stem + seq!['.'] + e) == if ext_map.contains_key(
            lowercase_text(e),
        ) {
            Some(Some(ext_map[lowercase_text(e)]@))
        } else {
            Some(None::<Seq<char>>)
        },
        file_plan(ext_map, e) is None,
        file_plan(ext_map, seq!['.'] + e) is None,
{
    lemma_last_dot_of_split(stem, e);
    lemma_no_dot(e);
    lemma_last_dot_of_split(Seq::empty(), e);
    assert(Seq::<char>::empty() + seq!['.'] + e == seq!['.'] + e);
}

/// Where a file of a source directory goes.
pub enum FilePlan {
    /// The name has no extension: the file is left alone and not reported.
    NoExtension,
    /// No rule takes the extension.
    NoRule,
    /// The rule's destination directory.
    MoveTo(String),
}

/// Where the file `name` goes under the extension map `ext_map`: by its
/// lower-cased extension.
pub open spec fn file_plan(ext_map: Map<Seq<char>, String>, name: Seq<char>) -> Option<
    Option<Seq<char>>,
> {
    match extension_of(name) {
        None => None,
        Some(e) => if ext_map.contains_key(lowercase_text(e)) {
            Some(Some(ext_map[lowercase_text(e)]@))
        } else {
            Some(None)
        },
    }
}

/// Decides where the file `name` goes.
pub fn plan_file(ext_map: &StrMap<String>, name: &str) -> (p: FilePlan)
    ensures
        match p {
            FilePlan::NoExtension => file_plan(ext_map@, name@) is None,
            FilePlan::NoRule => file_plan(ext_map@, name@) == Some(None::<Seq<char>>),
            FilePlan::MoveTo(d) => file_plan(ext_map@, name@) == Some(Some(d@)),
        },
{
    match file_extension(name) {
        None => FilePlan::NoExtension,
        Some(e) => {
            let key = lowercase(e.as_str());
            match ext_map.get(key.as_str()) {
                Some(d) => FilePlan::MoveTo(d.clone()),
                None => FilePlan::NoRule,
            }
        },
    }
}

/// A directory entry of a source directory: its file name, and whether it
/// is a regular file that is not a symbolic link.
pub struct ListedFile {
    pub name: String,
    pub regular: bool,
}

/// One step of organizing a source directory.
pub enum RunStep {
    /// The source directory does not exist.
    MissingSource(String),
    /// The listed file with this index matches the exclude pattern with
    /// this index (the first it matches); it is left alone.
    Excluded(usize, usize),
    /// No rule takes the extension of the listed file with this index; it
    /// stays where it is.
    Unmatched(usize),
    /// The listed file with this index goes to this directory.
    Move(usize, String),
}

/// A step as the contracts see it.
pub enum StepView {
    MissingSource(Seq<char>),
    Excluded(int, int),
    Unmatched(int),
    Move(int, Seq<char>),
}

/// The view of a step.
pub open spec fn step_view(s: RunStep) -> StepView {
    match s {
        RunStep::MissingSource(d) => StepView::MissingSource(d@),
        RunStep::Excluded(i, k) => StepView::Excluded(i as int, k as int),
        RunStep::Unmatched(i) => StepView::Unmatched(i as int),
        RunStep::Move(i, d) => StepView::Move(i as int, d@),
    }
}

/// The views of steps.
pub open spec fn step_views(s: Seq<RunStep>) -> Seq<StepView> {
    s.map_values(|x: RunStep| step_view(x))
}

/// The steps for the listed files, in listing order: nothing for an entry
/// that is not a regular file; an excluded step, naming the first pattern
/// it matches, for a file whose name matches an exclude pattern; nothing
/// for a name without an extension; an unmatched step when no rule takes
/// the extension; otherwise a move to the rule's directory.
pub open spec fn file_steps(
    ext_map: Map<Seq<char>, String>,
    exclude: Seq<String>,
    files: Seq<ListedFile>,
) -> Seq<StepView>
    decreases files.len(),
{
    if files.len() == 0 {
        Seq::empty()
    } else {
        let p = file_steps(ext_map, exclude, files.drop_last());
        let i = files.len() - 1;
        let f = files.last();
        if !f.regular {
            p
        } else {
            match first_match(exclude, f.name@) {
                Some(k) => p.push(StepView::Excluded(i, k)),
                None => match file_plan(ext_map, f.name@) {
                    None => p,
                    Some(None) => p.push(StepView::Unmatched(i)),
                    Some(Some(d)) => p.push(StepView::Move(i, d)),
                },
            }
        }
    }
}

/// The steps for one source directory: a missing-source step when it does
/// not exist (`listing` is `None`), else the steps for its files.
pub open spec fn source_steps(
    source: Seq<char>,
    listing: Option<Seq<ListedFile>>,
    ext_map: Map<Seq<char>, String>,
    exclude: Seq<String>,
) -> Seq<StepView> {
    match listing {
        None => seq![StepView::MissingSource(source)],
        Some(files) => file_steps(ext_map, exclude, files),
    }
}

/// Plans the organizing of the source directory `source`, whose top-level
/// entries are `listing` (`None` when the directory does not exist).
pub fn plan_source(
    source: &str,
    listing: Option<&Vec<ListedFile>>,
    ext_map: &StrMap<String>,
    exclude: &Vec<String>,
) -> (steps: Vec<RunStep>)
    ensures
        step_views(steps@) == source_steps(
            source@,
            match listing {
                Some(v) => Some(v@),
                None => None,
            },
            ext_map@,
            exclude@,
        ),
{
    let mut steps: Vec<RunStep> = Vec::new();
    match listing {
        None => {
            steps.push(RunStep::MissingSource(owned(source)));
            assert(step_views(steps@) =~= seq![StepView::MissingSource(source@)]);
        },
        Some(files) => {
            let mut i: usize = 0;
            assert(files@.take(0) =~= Seq::<ListedFile>::empty());
            while i < files.len()
                invariant
                    i <= files@.len(),
                    step_views(steps@) == file_steps(ext_map@, exclude@, files@.take(i as int)),
                decreases files.len() - i,
            {
                let ghost t = files@.take(i + 1);
                assert(t.drop_last() =~= files@.take(i as int));
                assert(t.last() == files@[i as int]);
                let ghost before = steps@;
                let f = &files[i];
                if f.regular {
                    match first_matching(exclude, f.name.as_str()) {
                        Some(k) => {
                            steps.push(RunStep::Excluded(i, k));
                            assert(step_views(steps@) =~= step_views(before).push(
                                StepView::Excluded(i as int, k as int),
                            ));
                        },
                        None => match plan_file(ext_map, f.name.as_str()) {
                        FilePlan::NoExtension => {},
                        FilePlan::NoRule => {
                            steps.push(RunStep::Unmatched(i));
                            assert(step_views(steps@) =~= step_views(before).push(
                                StepView::Unmatched(i as int),
                            ));
                        },
                        FilePlan::MoveTo(d) => {
                            let ghost dv = d@;
                            steps.push(RunStep::Move(i, d));
                            assert(step_views(steps@) =~= step_views(before).push(
                                StepView::Move(i as int, dv),
                            ));
                        },
                    },
                    }
                }
                i += 1;
            }
            assert(files@.take(files.len() as int) =~= files@);
        },
    }
    steps
}

/// Entries that are not regular files, and regular files that no pattern
/// excludes but whose names have no extension, add no step: they are
/// neither moved nor reported.
pub proof fn law_ignored_entries_add_no_step(
    ext_map: Map<Seq<char>, String>,
    exclude: Seq<String>,
    files: Seq<ListedFile>,
    f: ListedFile,
)
    requires
        !f.regular || (first_match(exclude, f.name@) is None && extension_of(f.name@) is None),
    ensures
        file_steps(ext_map, exclude, files.push(f)) == file_steps(ext_map, exclude, files),
{
    assert(files.push(f).drop_last() == files);
}

/// A regular file whose name matches an exclude pattern is never moved or
/// reported as unmatched: its only step is the excluded one.
pub proof fn law_excluded_files_are_left_alone(
    ext_map: Map<Seq<char>, String>,
    exclude: Seq<String>,
    files: Seq<ListedFile>,
    f: ListedFile,
    k: int,
)
    requires
        f.regular,
        0 <= k < exclude.len(),
        pattern_matches(exclude[k]@, f.name@),
    ensures
        ({
            let i = files.len() as int;
            let steps = file_steps(ext_map, exclude, files.push(f));
            &&& steps.last() matches StepView::Excluded(j, l) && j == i && 0 <= l <= k
                && pattern_matches(exclude[l]@, f.name@)
            &&& steps.drop_last() == file_steps(ext_map, exclude, files)
            &&& forall|n: int|
                0 <= n < steps.len() ==> match #[trigger] steps[n] {
                    StepView::Move(j, _) => j != i,
                    StepView::Unmatched(j) => j != i,
                    _ => true,
                }
        }),
{
    assert(files.push(f).drop_last() == files);
    law_first_match_is_first(exclude, f.name@);
    law_steps_follow_the_listing(ext_map, exclude, files);
    let sp = file_steps(ext_map, exclude, files);
    let steps = file_steps(ext_map, exclude, files.push(f));
    let i = files.len() as int;
    assert forall|n: int| 0 <= n < steps.len() implies match #[trigger] steps[n] {
        StepView::Move(j, _) => j != i,
        StepView::Unmatched(j) => j != i,
        _ => true,
    } by {
        if n < sp.len() {
            assert(steps[n] == sp[n]);
        }
    }
}

/// Every step for a listed source names one of its entries, in listing
/// order, and there are at most as many steps as entries.
pub proof fn law_steps_follow_the_listing(
    ext_map: Map<Seq<char>, String>,
    exclude: Seq<String>,
    files: Seq<ListedFile>,
)
    ensures
        file_steps(ext_map, exclude, files).len() <= files.len(),
        forall|k: int|
            0 <= k < file_steps(ext_map, exclude, files).len() ==> match #[trigger] file_steps(
                ext_map,
                exclude,
                files,
            )[k] {
                StepView::Excluded(i, l) => 0 <= i < files.len() && files[i].regular && first_match(
                    exclude,
                    files[i].name@,
                ) == Some(l),
                StepView::Unmatched(i) => 0 <= i < files.len() && files[i].regular && first_match(
                    exclude,
                    files[i].name@,
                ) is None && file_plan(ext_map, files[i].name@) == Some(None::<Seq<char>>),
                StepView::Move(i, d) => 0 <= i < files.len() && files[i].regular && first_match(
                    exclude,
                    files[i].name@,
                ) is None && file_plan(ext_map, files[i].name@) == Some(Some(d)),
                StepView::MissingSource(_) => false,
            },
    decreases files.len(),
{
    if files.len() > 0 {
        let p = files.drop_last();
        law_steps_follow_the_listing(ext_map, exclude, p);
        let sp = file_steps(ext_map, exclude, p);
        let s = file_steps(ext_map, exclude, files);
        assert forall|k: int| 0 <= k < s.len() implies match #[trigger] s[k] {
            StepView::Excluded(i, l) => 0 <= i < files.len() && files[i].regular && first_match(
                exclude,
                files[i].name@,
            ) == Some(l),
            StepView::Unmatched(i) => 0 <= i < files.len() && files[i].regular && first_match(
                exclude,
                files[i].name@,
            ) is None && file_plan(ext_map, files[i].name@) == Some(None::<Seq<char>>),
            StepView::Move(i, d) => 0 <= i < files.len() && files[i].regular && first_match(
                exclude,
                files[i].name@,
            ) is None && file_plan(ext_map, files[i].name@) == Some(Some(d)),
            StepView::MissingSource(_) => false,
        } by {
            if k < sp.len() {
                assert(s[k] == sp[k]);
                match sp[k] {
                    StepView::Excluded(i, l) => {
                        assert(files[i] == p[i]);
                    },
                    StepView::Unmatched(i) => {
                        assert(files[i] == p[i]);
                    },
                    StepView::Move(i, d) => {
                        assert(files[i] == p[i]);
                    },
                    StepView::MissingSource(_) => {},
                }
            } else {
                assert(files.last() == files[files.len() - 1]);
            }
        }
    }
}

/// Whether a reason is present and reads `text`.
pub open spec fn reason_is(reason: Option<String>, text: Seq<char>) -> bool {
    match reason {
        Some(r) => r@ == text,
        None => false,
    }
}

/// The outcome of moving one file.
pub struct MoveOutcome {
    pub action: Action,
    pub destination: String,
    pub reason: Option<String>,
}

/// The outcome for a path without a file name: skipped.
pub fn unnamed_outcome(dest_dir: &str) -> (o: MoveOutcome)
    ensures
        o.action == Action::Skip,
        o.destination@ == dest_dir@,
        reason_is(o.reason, "no filename"@),
{
    MoveOutcome {
        action: Action::Skip,
        destination: owned(dest_dir),
        reason: Some(owned("no filename")),
    }
}

/// The outcome of a file moved to `dest` (or, in a dry run, to be moved).
pub fn moved_outcome(dest: &str) -> (o: MoveOutcome)
    ensures
        o.action == Action::Move,
        o.destination@ == dest@,
        o.reason is None,
{
    MoveOutcome { action: Action::Move, destination: owned(dest), reason: None }
}

/// When the destination `dest` already exists with a size other than the
/// source's, the move is a conflict; equal sizes decide nothing yet.
pub fn size_conflict(dest: &str, src_len: u64, dest_len: u64) -> (o: Option<MoveOutcome>)
    ensures
        src_len != dest_len <==> o is Some,
        o matches Some(c) ==> c.action == Action::Conflict && c.destination@ == dest@
            && reason_is(c.reason, "differs from "@ + dest@ + " (different size)"@),
{
    if src_len != dest_len {
        Some(
            MoveOutcome {
                action: Action::Conflict,
                destination: owned(dest),
                reason: Some(concat3("differs from ", dest, " (different size)")),
            },
        )
    } else {
        None
    }
}

/// What to do about a file whose destination `dest` (in `dest_dir`)
/// already exists with the same size.
pub struct ExistingPlan {
    pub outcome: MoveOutcome,
    /// Whether the source file is to be removed.
    pub remove_source: bool,
}

/// Resolves a file whose destination already exists with the same size,
/// given the SHA-256 of both: different content is a conflict; identical
/// content is deduplicated (the source removed, except in a dry run) or
/// skipped, as `on_duplicate` says. The source is removed only when the
/// contents are identical, the policy is `Dedup`, and it is no dry run.
pub fn resolve_existing(
    dest: &str,
    dest_dir: &str,
    src_hash: &String,
    dest_hash: &String,
    on_duplicate: DuplicateAction,
    dry_run: bool,
) -> (p: ExistingPlan)
    ensures
        p.remove_source <==> (src_hash@ == dest_hash@ && on_duplicate == DuplicateAction::Dedup
            && !dry_run),
        p.outcome.destination@ == dest@,
        src_hash@ != dest_hash@ ==> p.outcome.action == Action::Conflict
            && reason_is(p.outcome.reason, "differs from "@ + dest@
            + " (different content)"@),
        src_hash@ == dest_hash@ && on_duplicate == DuplicateAction::Dedup ==> p.outcome.action
            == Action::Dedup && reason_is(p.outcome.reason, "identical to "@ + dest@
            + ", source removed"@),
        src_hash@ == dest_hash@ && on_duplicate == DuplicateAction::Skip ==> p.outcome.action
            == Action::Skip && reason_is(p.outcome.reason, "already exists at "@
            + dest_dir@),
{
    if *src_hash != *dest_hash {
        return ExistingPlan {
            outcome: MoveOutcome {
                action: Action::Conflict,
                destination: owned(dest),
                reason: Some(concat3("differs from ", dest, " (different content)")),
            },
            remove_source: false,
        };
    }
    match on_duplicate {
        DuplicateAction::Dedup => ExistingPlan {
            outcome: MoveOutcome {
                action: Action::Dedup,
                destination: owned(dest),
                reason: Some(concat3("identical to ", dest, ", source removed")),
            },
            remove_source: !dry_run,
        },
        DuplicateAction::Skip => ExistingPlan {
            outcome: MoveOutcome {
                action: Action::Skip,
                destination: owned(dest),
                reason: Some(concat2("already exists at ", dest_dir)),
            },
            remove_source: false,
        },
    }
}

/// Whether `pat` occurs in `s` at position `i`.
pub open spec fn occurs_at(s: Seq<char>, pat: Seq<char>, i: int) -> bool {
    0 <= i && i + pat.len() <= s.len() && s.subrange(i, i + pat.len()) == pat
}

/// The new name that dashify's dry-run output announces: the trimmed
/// output is `old -> new`, and the new name is what follows the first
/// `" -> "`, trimmed; empty output, or output without an arrow, announces
/// no new name.
pub open spec fn dashify_new_name(stdout: Seq<char>) -> Option<Seq<char>> {
    let t = trim(stdout);
    if t.len() > 0 && contains(t, " -> "@) {
        let i = choose|i: int|
            occurs_at(t, " -> "@, i) && forall|j: int| 0 <= j < i ==> !occurs_at(t, " -> "@, j);
        Some(trim(t.skip(i + 4)))
    } else {
        None
    }
}

/// Reads the new name out of dashify's dry-run output.
pub fn parse_dashify_output(stdout: &str) -> (r: Option<String>)
    ensures
        match r {
            Some(n) => dashify_new_name(stdout@) == Some(n@),
            None => dashify_new_name(stdout@) is None,
        },
{
    let v = chars_of(stdout);
    let t = trim_chars(&v);
    let arrow = chars_of(" -> ");
    proof {
        reveal_strlit(" -> ");
    }
    if t.len() == 0 || t.len() < 4 {
        proof {
            if contains(t@, " -> "@) {
                let i = choose|i: int|
                    0 <= i && i + 4 <= t@.len() && #[trigger] t@.subrange(i, i + 4) == " -> "@;
            }
        }
        return None;
    }
    let last = t.len() - 4;
    let mut i: usize = 0;
    loop
        invariant
            last == t@.len() - 4,
            4 <= t@.len(),
            i <= last,
            arrow@ == " -> "@,
            arrow@.len() == 4,
            t@ == trim(stdout@),
            forall|j: int| 0 <= j < i ==> !occurs_at(t@, " -> "@, j),
        decreases last - i,
    {
        if matches_at(&t, &arrow, i) {
            assert(occurs_at(t@, " -> "@, i as int));
            assert(contains(t@, " -> "@));
            let ghost c = choose|c: int|
                occurs_at(t@, " -> "@, c) && forall|j: int| 0 <= j < c ==> !occurs_at(t@, " -> "@, j);
            assert(c == i) by {
                if c < i {
                } else if c > i {
                }
            }
            assert(i + 4 <= t.len());
            let rest = slice_chars(&t, i + 4, t.len());
            assert(rest@ == t@.skip(i + 4));
            let name = trim_chars(&rest);
            assert(t@ == trim(stdout@));
            assert(t@.len() > 0);
            assert(dashify_new_name(stdout@) == Some(trim(t@.skip(c + 4))));
            return Some(string_of(&name));
        }
        if i == last {
            proof {
                assert forall|j: int| #![trigger t@.subrange(j, j + 4)]
                    0 <= j && j + 4 <= t@.len() implies t@.subrange(j, j + 4) != " -> "@ by {
                    assert(!occurs_at(t@, " -> "@, j));
                }
            }
            return None;
        }
        i += 1;
    }
}

/// What to do with a file after dashify's dry run.
pub enum DashifyPlan {
    /// Keep the file's current path.
    Keep,
    /// Run dashify for real; the file is expected to get this name.
    Rename(String),
}

/// Decides on dashify's dry run: `stdout` is its output when it ran and
/// succeeded, `None` when it could not run or failed. The file is renamed
/// only outside a dry run, and only when the output announces a new name.
pub fn plan_dashify(stdout: Option<&str>, dry_run: bool) -> (p: DashifyPlan)
    ensures
        match p {
            DashifyPlan::Keep => dry_run || stdout is None || dashify_new_name(stdout->0@) is None,
            DashifyPlan::Rename(n) => !dry_run && stdout is Some && dashify_new_name(stdout->0@)
                == Some(n@),
        },
{
    match stdout {
        None => DashifyPlan::Keep,
        Some(out) => match parse_dashify_output(out) {
            None => DashifyPlan::Keep,
            Some(name) => if dry_run {
                DashifyPlan::Keep
            } else {
                DashifyPlan::Rename(name)
            },
        },
    }
}

/// Where a file is after dashify was run to rename it.
#[derive(Debug, Clone, Copy, PartialEq, Eq, Structural)]
pub enum RenamedPath {
    /// At its new name.
    New,
    /// Still at its old name.
    Original,
    /// At neither: an error.
    Lost,
}

/// Where the file is, from whether dashify's rename succeeded and which
/// of the new and the old path exist afterwards: a failed rename leaves
/// the old path; else the new path if it exists, then the old one.
pub fn settle_dashify(renamed: bool, new_exists: bool, old_exists: bool) -> (r: RenamedPath)
    ensures
        r == (if !renamed {
            RenamedPath::Original
        } else if new_exists {
            RenamedPath::New
        } else if old_exists {
            RenamedPath::Original
        } else {
            RenamedPath::Lost
        }),
{
    if !renamed {
        RenamedPath::Original
    } else if new_exists {
        RenamedPath::New
    } else if old_exists {
        RenamedPath::Original
    } else {
        RenamedPath::Lost
    }
}

impl Report {
    /// Records a source directory that does not exist.
    pub fn record_missing_source(&mut self, source: String)
        ensures
            final(self).entries@.len() == old(self).entries@.len() + 1,
            final(self).entries@.drop_last() == old(self).entries@,
            ({
                let e = final(self).entries@.last();
                e.action == Action::Skip && e.source == source && e.destination is None
                    && reason_is(e.reason, "source directory not found"@)
            }),
    {
        self.push(Action::Skip, source, None, Some(owned("source directory not found")));
    }

    /// Records a file whose extension no rule takes.
    pub fn record_unmatched(&mut self, path: String)
        ensures
            final(self).entries@.len() == old(self).entries@.len() + 1,
            final(self).entries@.drop_last() == old(self).entries@,
            ({
                let e = final(self).entries@.last();
                e.action == Action::Skip && e.source == path && e.destination is None
                    && reason_is(e.reason, "no matching rule"@)
            }),
    {
        self.push(Action::Skip, path, None, Some(owned("no matching rule")));
    }

    /// Records that dashify failed on a file, with the error's text.
    pub fn record_dashify_failure(&mut self, path: String, error: &str)
        ensures
            final(self).entries@.len() == old(self).entries@.len() + 1,
            final(self).entries@.drop_last() == old(self).entries@,
            ({
                let e = final(self).entries@.last();
                e.action == Action::Error && e.source == path && e.destination is None
                    && reason_is(e.reason, "dashify failed: "@ + error@)
            }),
    {
        self.push(Action::Error, path, None, Some(concat2("dashify failed: ", error)));
    }

    /// Records a file left alone because its name matches `pattern`.
    pub fn record_excluded(&mut self, path: String, pattern: &str)
        ensures
            final(self).entries@.len() == old(self).entries@.len() + 1,
            final(self).entries@.drop_last() == old(self).entries@,
            ({
                let e = final(self).entries@.last();
                e.action == Action::Exclude && e.source == path && e.destination is None
                    && reason_is(e.reason, "matched "@ + pattern@)
            }),
    {
        self.push(Action::Exclude, path, None, Some(concat2("matched ", pattern)));
    }

    /// Records that moving the file at `path` failed, with the error's text.
    pub fn record_move_failure(&mut self, path: String, error: &str)
        ensures
            final(self).entries@.len() == old(self).entries@.len() + 1,
            final(self).entries@.drop_last() == old(self).entries@,
            ({
                let e = final(self).entries@.last();
                e.action == Action::Error && e.source == path && e.destination is None
                    && reason_is(e.reason, error@)
            }),
    {
        self.push(Action::Error, path, None, Some(owned(error)));
    }

    /// Records the outcome of moving the file at `path`.
    pub fn record_move(&mut self, path: String, outcome: MoveOutcome)
        ensures
            final(self).entries@ == old(self).entries@.push(
                ReportEntry {
                    action: outcome.action,
                    source: path,
                    destination: Some(outcome.destination),
                    reason: outcome.reason,
                },
            ),
    {
        self.push(outcome.action, path, Some(outcome.destination), outcome.reason);
    }
}

} // verus!
