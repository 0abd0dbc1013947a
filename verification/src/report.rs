//! The after-action report: what happened to each file, counted per
//! action and listed in detail.

use crate::fmt::{decimal, decimal_string, pad_left, pad_left_str, pad_right, pad_right_str};
use crate::text::{concat2, concat3, owned};
use vstd::prelude::*;

verus! {

/// What kondo did (or, in a dry run, would do) with a file.
#[derive(Debug, Clone, Copy, PartialEq, Eq, Structural)]
pub enum Action {
    Move,
    Dedup,
    Skip,
    Conflict,
    Exclude,
    Unmanaged,
    Error,
}

/// The present-tense label of an action, used in dry runs.
pub open spec fn present_label(a: Action) -> Seq<char> {
    match a {
        Action::Move => "move"@,
        Action::Dedup => "dedup"@,
        Action::Skip => "skip"@,
        Action::Conflict => "conflict"@,
        Action::Exclude => "exclude"@,
        Action::Unmanaged => "unmanaged"@,
        Action::Error => "error"@,
    }
}

/// The past-tense label of an action, used after a real run.
pub open spec fn past_label(a: Action) -> Seq<char> {
    match a {
        Action::Move => "moved"@,
        Action::Dedup => "deduped"@,
        Action::Skip => "skipped"@,
        Action::Conflict => "conflict"@,
        Action::Exclude => "excluded"@,
        Action::Unmanaged => "unmanaged"@,
        Action::Error => "error"@,
    }
}

/// The label of an action in a report: present tense in a dry run.
pub open spec fn label(a: Action, dry_run: bool) -> Seq<char> {
    if dry_run {
        present_label(a)
    } else {
        past_label(a)
    }
}

impl Action {
    /// Present tense label (for dry-run)
    pub fn present(&self) -> (r: &'static str)
        ensures
            r@ == present_label(*self),
    {
        match self {
            Action::Move => "move",
            Action::Dedup => "dedup",
            Action::Skip => "skip",
            Action::Conflict => "conflict",
            Action::Exclude => "exclude",
            Action::Unmanaged => "unmanaged",
            Action::Error => "error",
        }
    }

    /// Past tense label (for normal mode)
    pub fn past(&self) -> (r: &'static str)
        ensures
            r@ == past_label(*self),
    {
        match self {
            Action::Move => "moved",
            Action::Dedup => "deduped",
            Action::Skip => "skipped",
            Action::Conflict => "conflict",
            Action::Exclude => "excluded",
            Action::Unmanaged => "unmanaged",
            Action::Error => "error",
        }
    }

    /// The label for a report: present tense in a dry run, else past tense.
    pub fn label(&self, dry_run: bool) -> (r: &'static str)
        ensures
            r@ == label(*self, dry_run),
    {
        if dry_run {
            self.present()
        } else {
            self.past()
        }
    }
}

/// The colour an action is shown in.
#[derive(Debug, Clone, Copy, PartialEq, Eq, Structural)]
pub enum Colour {
    Green,
    Yellow,
    Red,
    Dimmed,
}

/// Moves and dedups are green, skips yellow, conflicts and errors red,
/// excluded and unmanaged files dimmed.
pub open spec fn colour_of(a: Action) -> Colour {
    match a {
        Action::Move | Action::Dedup => Colour::Green,
        Action::Skip => Colour::Yellow,
        Action::Conflict | Action::Error => Colour::Red,
        Action::Exclude | Action::Unmanaged => Colour::Dimmed,
    }
}

impl Action {
    /// The colour this action is shown in.
    pub fn colour(&self) -> (c: Colour)
        ensures
            c == colour_of(*self),
    {
        match self {
            Action::Move | Action::Dedup => Colour::Green,
            Action::Skip => Colour::Yellow,
            Action::Conflict | Action::Error => Colour::Red,
            Action::Exclude | Action::Unmanaged => Colour::Dimmed,
        }
    }
}

/// One file's outcome.
pub struct ReportEntry {
    pub action: Action,
    pub source: String,
    pub destination: Option<String>,
    pub reason: Option<String>,
}

/// How an entry reads: `source`, then ` -> destination` and ` (reason)`
/// when present.
pub open spec fn entry_text(e: ReportEntry) -> Seq<char> {
    e.source@ + match e.destination {
        Some(d) => " -> "@ + d@,
        None => Seq::empty(),
    } + match e.reason {
        Some(r) => " ("@ + r@ + ")"@,
        None => Seq::empty(),
    }
}

impl ReportEntry {
    /// The entry as it reads in the report's details.
    pub fn display(&self) -> (r: String)
        ensures
            r@ == entry_text(*self),
    {
        let mut r = self.source.clone();
        match &self.destination {
            Some(d) => {
                r.append(concat2(" -> ", d.as_str()).as_str());
            },
            None => {
                assert(r@ + Seq::<char>::empty() == r@);
            },
        }
        let ghost mid = r@;
        match &self.reason {
            Some(reason) => {
                r.append(concat3(" (", reason.as_str(), ")").as_str());
            },
            None => {
                assert(mid + Seq::<char>::empty() == mid);
            },
        }
        r
    }
}

/// The outcome of a run.
pub struct Report {
    pub entries: Vec<ReportEntry>,
}

impl Default for Report {
    fn default() -> (r: Self)
        ensures
            r.entries@.len() == 0,
    {
        Report { entries: Vec::new() }
    }
}

/// How many entries have the action `a`.
pub open spec fn count_of(es: Seq<ReportEntry>, a: Action) -> nat
    decreases es.len(),
{
    if es.len() == 0 {
        0
    } else {
        count_of(es.drop_last(), a) + if es.last().action == a {
            1nat
        } else {
            0nat
        }
    }
}

/// The entries with the action `a`, in order.
pub open spec fn with_action(es: Seq<ReportEntry>, a: Action) -> Seq<ReportEntry>
    decreases es.len(),
{
    if es.len() == 0 {
        Seq::empty()
    } else {
        let p = with_action(es.drop_last(), a);
        if es.last().action == a {
            p.push(es.last())
        } else {
            p
        }
    }
}

pub proof fn lemma_count_bounded(es: Seq<ReportEntry>, a: Action)
    ensures
        count_of(es, a) <= es.len(),
        with_action(es, a).len() == count_of(es, a),
    decreases es.len(),
{
    if es.len() > 0 {
        lemma_count_bounded(es.drop_last(), a);
    }
}

/// The order in which actions appear in a report.
pub open spec fn report_order() -> Seq<Action> {
    seq![
        Action::Unmanaged,
        Action::Exclude,
        Action::Move,
        Action::Dedup,
        Action::Skip,
        Action::Conflict,
        Action::Error,
    ]
}

/// The actions whose entries a report lists in detail: all of them when
/// verbose; otherwise neither moves (the expected outcome) nor unmanaged
/// files.
pub open spec fn detail_order(verbose: bool) -> Seq<Action> {
    if verbose {
        report_order()
    } else {
        seq![Action::Exclude, Action::Dedup, Action::Skip, Action::Conflict, Action::Error]
    }
}

/// A row of the summary: an action, its label and how many files had it.
pub struct SummaryRow {
    pub action: Action,
    pub label: String,
    pub count: usize,
}

/// A row of the details: an entry's action, its label and how it reads.
pub struct DetailRow {
    pub action: Action,
    pub label: String,
    pub text: String,
}

/// The detail rows of the entries with action `a`.
pub open spec fn rows_of(es: Seq<ReportEntry>, a: Action, dry_run: bool) -> Seq<
    (Action, Seq<char>, Seq<char>),
> {
    with_action(es, a).map_values(
        |e: ReportEntry| (e.action, label(e.action, dry_run), entry_text(e)),
    )
}

/// The detail rows for the actions `acts`, grouped by action in that order.
pub open spec fn detail_rows(es: Seq<ReportEntry>, acts: Seq<Action>, dry_run: bool) -> Seq<
    (Action, Seq<char>, Seq<char>),
>
    decreases acts.len(),
{
    if acts.len() == 0 {
        Seq::empty()
    } else {
        detail_rows(es, acts.drop_last(), dry_run) + rows_of(es, acts.last(), dry_run)
    }
}

/// The view of detail rows.
pub open spec fn detail_views(rows: Seq<DetailRow>) -> Seq<(Action, Seq<char>, Seq<char>)> {
    rows.map_values(|r: DetailRow| (r.action, r.label@, r.text@))
}

impl Report {
    /// Records one file's outcome.
    pub fn push(
        &mut self,
        action: Action,
        source: String,
        destination: Option<String>,
        reason: Option<String>,
    )
        ensures
            final(self).entries@ == old(self).entries@.push(
                ReportEntry { action, source, destination, reason },
            ),
    {
        self.entries.push(ReportEntry { action, source, destination, reason });
    }

    /// How many entries have the given action.
    pub fn count(&self, action: &Action) -> (n: usize)
        ensures
            n == count_of(self.entries@, *action),
    {
        let mut n: usize = 0;
        let mut i: usize = 0;
        while i < self.entries.len()
            invariant
                i <= self.entries.len(),
                n == count_of(self.entries@.take(i as int), *action),
            decreases self.entries.len() - i,
        {
            let ghost t = self.entries@.take(i + 1);
            assert(t.drop_last() == self.entries@.take(i as int));
            proof {
                lemma_count_bounded(self.entries@.take(i as int), *action);
            }
            if self.entries[i].action == *action {
                n += 1;
            }
            i += 1;
        }
        assert(self.entries@.take(self.entries.len() as int) == self.entries@);
        n
    }

    /// The summary: one row per action, in report order, with its label
    /// and count.
    pub fn summary(&self, dry_run: bool) -> (rows: Vec<SummaryRow>)
        ensures
            rows@.len() == report_order().len(),
            forall|i: int|
                0 <= i < rows@.len() ==> (#[trigger] rows@[i]).action == report_order()[i]
                    && rows@[i].label@ == label(report_order()[i], dry_run) && rows@[i].count
                    == count_of(self.entries@, report_order()[i]),
    {
        let actions = [
            Action::Unmanaged,
            Action::Exclude,
            Action::Move,
            Action::Dedup,
            Action::Skip,
            Action::Conflict,
            Action::Error,
        ];
        assert(actions@ == report_order());
        let mut rows: Vec<SummaryRow> = Vec::new();
        let mut i: usize = 0;
        while i < 7
            invariant
                i <= 7,
                actions@ == report_order(),
                rows@.len() == i,
                forall|j: int|
                    0 <= j < i ==> (#[trigger] rows@[j]).action == report_order()[j]
                        && rows@[j].label@ == label(report_order()[j], dry_run) && rows@[j].count
                        == count_of(self.entries@, report_order()[j]),
            decreases 7 - i,
        {
            let a = actions[i];
            let count = self.count(&a);
            let lbl = crate::text::owned(a.label(dry_run));
            rows.push(SummaryRow { action: a, label: lbl, count });
            i += 1;
        }
        rows
    }

    /// The details: for each action in report order (moves and unmanaged
    /// files only when verbose), the entries with that action, in the order
    /// they were recorded.
    pub fn details(&self, dry_run: bool, verbose: bool) -> (rows: Vec<DetailRow>)
        ensures
            detail_views(rows@) == detail_rows(self.entries@, detail_order(verbose), dry_run),
    {
        let mut actions: Vec<Action> = Vec::new();
        if verbose {
            actions.push(Action::Unmanaged);
        }
        actions.push(Action::Exclude);
        if verbose {
            actions.push(Action::Move);
        }
        actions.push(Action::Dedup);
        actions.push(Action::Skip);
        actions.push(Action::Conflict);
        actions.push(Action::Error);
        let ghost acts = detail_order(verbose);
        assert(actions@ == acts);
        let mut rows: Vec<DetailRow> = Vec::new();
        let mut k: usize = 0;
        assert(acts.take(0) == Seq::<Action>::empty());
        while k < actions.len()
            invariant
                k <= actions@.len(),
                actions@ == acts,
                detail_views(rows@) == detail_rows(self.entries@, acts.take(k as int), dry_run),
            decreases actions.len() - k,
        {
            let a = actions[k];
            let ghost before = detail_views(rows@);
            let ghost base = detail_rows(self.entries@, acts.take(k as int), dry_run);
            let mut i: usize = 0;
            assert(self.entries@.take(0) == Seq::<ReportEntry>::empty());
            while i < self.entries.len()
                invariant
                    i <= self.entries.len(),
                    detail_views(rows@) == base + rows_of(
                        self.entries@.take(i as int),
                        a,
                        dry_run,
                    ),
                decreases self.entries.len() - i,
            {
                let ghost t = self.entries@.take(i + 1);
                assert(t.drop_last() == self.entries@.take(i as int));
                assert(t.last() == self.entries@[i as int]);
                let e = &self.entries[i];
                if e.action == a {
                    let ghost old_rows = rows@;
                    let lbl = crate::text::owned(a.label(dry_run));
                    let text = e.display();
                    rows.push(DetailRow { action: a, label: lbl, text });
                    assert(detail_views(rows@) == detail_views(old_rows).push(
                        (a, label(a, dry_run), entry_text(*e)),
                    ));
                    assert(rows_of(t, a, dry_run) == rows_of(
                        self.entries@.take(i as int),
                        a,
                        dry_run,
                    ).push((a, label(a, dry_run), entry_text(*e))));
                }
                i += 1;
            }
            assert(self.entries@.take(self.entries.len() as int) == self.entries@);
            assert(acts.take(k + 1).drop_last() == acts.take(k as int));
            assert(acts.take(k + 1).last() == a);
            k += 1;
        }
        assert(acts.take(actions.len() as int) == acts);
        rows
    }
}

/// How the middle part of a printed report line is shown.
#[derive(Debug, Clone, Copy, PartialEq, Eq, Structural)]
pub enum LineStyle {
    /// The report's title.
    Title,
    /// A section heading.
    Heading,
    /// No styling.
    Plain,
    /// In the colour of an action.
    OfAction(Action),
}

/// One printed line of a report: `lead`, then `styled` shown in `style`,
/// then `rest`.
pub struct ReportLine {
    pub lead: String,
    pub styled: String,
    pub style: LineStyle,
    pub rest: String,
}

/// The parts of a report line: lead, styled part, style, rest.
pub open spec fn line_view(l: ReportLine) -> (Seq<char>, Seq<char>, LineStyle, Seq<char>) {
    (l.lead@, l.styled@, l.style, l.rest@)
}

/// The views of report lines.
pub open spec fn line_views(ls: Seq<ReportLine>) -> Seq<(Seq<char>, Seq<char>, LineStyle, Seq<char>)> {
    ls.map_values(|l: ReportLine| line_view(l))
}

/// The text of a line without styling.
pub open spec fn line_text(l: (Seq<char>, Seq<char>, LineStyle, Seq<char>)) -> Seq<char> {
    l.0 + l.1 + l.3
}

/// The title line: `kondo report`, with ` (dry run)` in a dry run.
pub open spec fn title_line(dry_run: bool) -> (Seq<char>, Seq<char>, LineStyle, Seq<char>) {
    (
        Seq::empty(),
        if dry_run {
            "kondo report (dry run)"@
        } else {
            "kondo report"@
        },
        LineStyle::Title,
        Seq::empty(),
    )
}

/// A summary line, `format!("  {:<10} {:>4} file(s)", label, n)`, with the
/// padded label in the action's colour.
pub open spec fn summary_line(a: Action, n: nat, dry_run: bool) -> (
    Seq<char>,
    Seq<char>,
    LineStyle,
    Seq<char>,
) {
    (
        "  "@,
        pad_right(label(a, dry_run), 10),
        LineStyle::OfAction(a),
        " "@ + pad_left(decimal(n), 4) + " file(s)"@,
    )
}

/// The summary lines for the actions `acts`, in that order.
pub open spec fn summary_lines(es: Seq<ReportEntry>, acts: Seq<Action>, dry_run: bool) -> Seq<
    (Seq<char>, Seq<char>, LineStyle, Seq<char>),
> {
    acts.map_values(|a: Action| summary_line(a, count_of(es, a), dry_run))
}

/// A detail line, `format!("  {:<10} {}", label, entry)`, with the padded
/// label in the action's colour.
pub open spec fn detail_line(row: (Action, Seq<char>, Seq<char>)) -> (
    Seq<char>,
    Seq<char>,
    LineStyle,
    Seq<char>,
) {
    ("  "@, pad_right(row.1, 10), LineStyle::OfAction(row.0), " "@ + row.2)
}

/// The blank line and the `details:` heading that open the details.
pub open spec fn details_heading() -> Seq<(Seq<char>, Seq<char>, LineStyle, Seq<char>)> {
    seq![
        (Seq::empty(), Seq::empty(), LineStyle::Plain, Seq::empty()),
        (Seq::empty(), "details"@, LineStyle::Heading, ":"@),
    ]
}

/// The printed report: the title; one summary line per action in report
/// order, always; then, only when some entry is listed in detail, a blank
/// line, the `details:` heading and one line per detail row.
pub open spec fn report_lines(es: Seq<ReportEntry>, dry_run: bool, verbose: bool) -> Seq<
    (Seq<char>, Seq<char>, LineStyle, Seq<char>),
> {
    let d = detail_rows(es, detail_order(verbose), dry_run);
    seq![title_line(dry_run)] + summary_lines(es, report_order(), dry_run) + if d.len() == 0 {
        Seq::empty()
    } else {
        details_heading() + d.map_values(
            |r: (Action, Seq<char>, Seq<char>)| detail_line(r),
        )
    }
}

impl Report {
    /// The lines of the printed report, each with the part to be coloured.
    pub fn lines(&self, dry_run: bool, verbose: bool) -> (out: Vec<ReportLine>)
        ensures
            line_views(out@) == report_lines(self.entries@, dry_run, verbose),
    {
        let mut out: Vec<ReportLine> = Vec::new();
        let title = if dry_run {
            owned("kondo report (dry run)")
        } else {
            owned("kondo report")
        };
        out.push(ReportLine { lead: String::new(), styled: title, style: LineStyle::Title, rest: String::new() });
        assert(line_views(out@) == seq![title_line(dry_run)]);
        let rows = self.summary(dry_run);
        let ghost es = self.entries@;
        let ghost head = seq![title_line(dry_run)];
        let mut k: usize = 0;
        assert(summary_lines(es, report_order().take(0), dry_run) =~= Seq::empty());
        while k < rows.len()
            invariant
                k <= rows@.len(),
                es == self.entries@,
                head == seq![title_line(dry_run)],
                rows@.len() == report_order().len(),
                forall|i: int|
                    0 <= i < rows@.len() ==> (#[trigger] rows@[i]).action == report_order()[i]
                        && rows@[i].label@ == label(report_order()[i], dry_run) && rows@[i].count
                        == count_of(es, report_order()[i]),
                line_views(out@) == head + summary_lines(es, report_order().take(k as int), dry_run),
            decreases rows.len() - k,
        {
            let row = &rows[k];
            let mut rest = owned(" ");
            rest.append(pad_left_str(decimal_string(row.count).as_str(), 4).as_str());
            rest.append(" file(s)");
            let line = ReportLine {
                lead: owned("  "),
                styled: pad_right_str(row.label.as_str(), 10),
                style: LineStyle::OfAction(row.action),
                rest,
            };
            let ghost before = line_views(out@);
            out.push(line);
            assert(line_views(out@) == before.push(line_view(line)));
            assert(line_view(line) == summary_line(report_order()[k as int], count_of(es, report_order()[k as int]), dry_run));
            assert(summary_lines(es, report_order().take(k + 1), dry_run) =~= summary_lines(
                es,
                report_order().take(k as int),
                dry_run,
            ).push(summary_line(report_order()[k as int], count_of(es, report_order()[k as int]), dry_run)));
            k += 1;
        }
        assert(report_order().take(7) == report_order());
        let ghost with_summary = line_views(out@);
        assert(with_summary == head + summary_lines(es, report_order(), dry_run));
        let details = self.details(dry_run, verbose);
        let ghost d = detail_rows(es, detail_order(verbose), dry_run);
        assert(detail_views(details@) == d);
        if details.len() == 0 {
            assert(line_views(out@) =~= report_lines(es, dry_run, verbose));
            return out;
        }
        out.push(ReportLine { lead: String::new(), styled: String::new(), style: LineStyle::Plain, rest: String::new() });
        out.push(ReportLine { lead: String::new(), styled: owned("details"), style: LineStyle::Heading, rest: owned(":") });
        assert(line_views(out@) =~= with_summary + details_heading());
        let ghost opened = line_views(out@);
        let mut j: usize = 0;
        while j < details.len()
            invariant
                j <= details@.len(),
                detail_views(details@) == d,
                line_views(out@) == opened + d.take(j as int).map_values(
                    |r: (Action, Seq<char>, Seq<char>)| detail_line(r),
                ),
            decreases details.len() - j,
        {
            let row = &details[j];
            let mut rest = owned(" ");
            rest.append(row.text.as_str());
            let line = ReportLine {
                lead: owned("  "),
                styled: pad_right_str(row.label.as_str(), 10),
                style: LineStyle::OfAction(row.action),
                rest,
            };
            let ghost before = line_views(out@);
            out.push(line);
            assert(line_views(out@) == before.push(line_view(line)));
            assert(d[j as int] == (row.action, row.label@, row.text@));
            assert(d.take(j + 1).map_values(|r: (Action, Seq<char>, Seq<char>)| detail_line(r))
                =~= d.take(j as int).map_values(|r: (Action, Seq<char>, Seq<char>)| detail_line(r)).push(
                detail_line(d[j as int]),
            ));
            j += 1;
        }
        assert(d.take(d.len() as int) == d);
        assert(line_views(out@) =~= report_lines(es, dry_run, verbose));
        out
    }
}

/// Recording an entry adds one to the count of its action and leaves the
/// other counts as they were.
pub proof fn law_push_counts(es: Seq<ReportEntry>, e: ReportEntry, a: Action)
    ensures
        count_of(es.push(e), a) == count_of(es, a) + if e.action == a {
            1nat
        } else {
            0nat
        },
{
    assert(es.push(e).drop_last() == es);
}

/// Every entry is counted under exactly one action: the summary counts
/// add up to the number of entries.
pub proof fn law_summary_counts_add_up(es: Seq<ReportEntry>)
    ensures
        count_of(es, Action::Unmanaged) + count_of(es, Action::Exclude) + count_of(es, Action::Move)
            + count_of(es, Action::Dedup) + count_of(es, Action::Skip) + count_of(
            es,
            Action::Conflict,
        ) + count_of(es, Action::Error) == es.len(),
    decreases es.len(),
{
    if es.len() > 0 {
        law_summary_counts_add_up(es.drop_last());
    }
}

proof fn lemma_detail_rows_len(es: Seq<ReportEntry>, acts: Seq<Action>, dry_run: bool)
    ensures
        detail_rows(es, acts, dry_run).len() == detail_count(es, acts),
    decreases acts.len(),
{
    if acts.len() > 0 {
        lemma_detail_rows_len(es, acts.drop_last(), dry_run);
        lemma_count_bounded(es, acts.last());
    }
}

/// The number of entries with any of the actions `acts`.
pub open spec fn detail_count(es: Seq<ReportEntry>, acts: Seq<Action>) -> nat
    decreases acts.len(),
{
    if acts.len() == 0 {
        0
    } else {
        detail_count(es, acts.drop_last()) + count_of(es, acts.last())
    }
}

/// The details list every entry, except, when not verbose, the moves and
/// the unmanaged files.
pub proof fn law_details_list_every_shown_entry(es: Seq<ReportEntry>, dry_run: bool, verbose: bool)
    ensures
        detail_rows(es, detail_order(verbose), dry_run).len() == es.len() - if verbose {
            0
        } else {
            count_of(es, Action::Unmanaged) + count_of(es, Action::Move)
        },
{
    lemma_detail_rows_len(es, detail_order(verbose), dry_run);
    law_summary_counts_add_up(es);
    let o = report_order();
    assert(detail_count(es, o) == count_of(es, Action::Unmanaged) + count_of(es, Action::Exclude)
        + count_of(es, Action::Move) + count_of(es, Action::Dedup) + count_of(es, Action::Skip)
        + count_of(es, Action::Conflict) + count_of(es, Action::Error)) by {
        reveal_with_fuel(detail_count, 8);
        assert(o.drop_last() == seq![Action::Unmanaged, Action::Exclude, Action::Move, Action::Dedup, Action::Skip, Action::Conflict]);
        assert(o.drop_last().drop_last() == seq![Action::Unmanaged, Action::Exclude, Action::Move, Action::Dedup, Action::Skip]);
        assert(o.drop_last().drop_last().drop_last() == seq![Action::Unmanaged, Action::Exclude, Action::Move, Action::Dedup]);
        assert(o.drop_last().drop_last().drop_last().drop_last() == seq![Action::Unmanaged, Action::Exclude, Action::Move]);
        assert(o.drop_last().drop_last().drop_last().drop_last().drop_last() == seq![Action::Unmanaged, Action::Exclude]);
        assert(o.drop_last().drop_last().drop_last().drop_last().drop_last().drop_last() == seq![Action::Unmanaged]);
        assert(seq![Action::Unmanaged].drop_last() == Seq::<Action>::empty());
    }
    let d = detail_order(false);
    assert(detail_count(es, d) == count_of(es, Action::Exclude) + count_of(es, Action::Dedup)
        + count_of(es, Action::Skip) + count_of(es, Action::Conflict) + count_of(es, Action::Error)) by {
        reveal_with_fuel(detail_count, 6);
        assert(d.drop_last() == seq![Action::Exclude, Action::Dedup, Action::Skip, Action::Conflict]);
        assert(d.drop_last().drop_last() == seq![Action::Exclude, Action::Dedup, Action::Skip]);
        assert(d.drop_last().drop_last().drop_last() == seq![Action::Exclude, Action::Dedup]);
        assert(d.drop_last().drop_last().drop_last().drop_last() == seq![Action::Exclude]);
        assert(seq![Action::Exclude].drop_last() == Seq::<Action>::empty());
    }
}

/// The entries grouped by action, for the actions `acts` in that order,
/// each group in the order its entries were recorded.
pub open spec fn grouped(es: Seq<ReportEntry>, acts: Seq<Action>) -> Seq<ReportEntry>
    decreases acts.len(),
{
    if acts.len() == 0 {
        Seq::empty()
    } else {
        grouped(es, acts.drop_last()) + with_action(es, acts.last())
    }
}

/// The detail row of an entry.
pub open spec fn row_of(e: ReportEntry, dry_run: bool) -> (Action, Seq<char>, Seq<char>) {
    (e.action, label(e.action, dry_run), entry_text(e))
}

proof fn lemma_detail_rows_grouped(es: Seq<ReportEntry>, acts: Seq<Action>, dry_run: bool)
    ensures
        detail_rows(es, acts, dry_run) == grouped(es, acts).map_values(
            |e: ReportEntry| row_of(e, dry_run),
        ),
    decreases acts.len(),
{
    if acts.len() > 0 {
        lemma_detail_rows_grouped(es, acts.drop_last(), dry_run);
        assert(detail_rows(es, acts, dry_run) =~= grouped(es, acts).map_values(
            |e: ReportEntry| row_of(e, dry_run),
        ));
    }
}

proof fn lemma_grouped_empty(acts: Seq<Action>)
    ensures
        grouped(Seq::<ReportEntry>::empty(), acts) == Seq::<ReportEntry>::empty(),
    decreases acts.len(),
{
    if acts.len() > 0 {
        lemma_grouped_empty(acts.drop_last());
        assert(grouped(Seq::<ReportEntry>::empty(), acts) =~= Seq::<ReportEntry>::empty());
    }
}

proof fn lemma_grouped_push(es: Seq<ReportEntry>, e: ReportEntry, acts: Seq<Action>)
    requires
        forall|i: int, j: int| 0 <= i < j < acts.len() ==> acts[i] != acts[j],
    ensures
        acts.contains(e.action) ==> grouped(es.push(e), acts).to_multiset() =~= grouped(
            es,
            acts,
        ).to_multiset().insert(e),
        !acts.contains(e.action) ==> grouped(es.push(e), acts).to_multiset() =~= grouped(
            es,
            acts,
        ).to_multiset(),
    decreases acts.len(),
{
    broadcast use vstd::multiset::group_multiset_axioms;
    broadcast use vstd::seq_lib::lemma_multiset_commutative;
    broadcast use vstd::seq_lib::to_multiset_build;

    if acts.len() > 0 {
        let dl = acts.drop_last();
        let l = acts.last();
        lemma_grouped_push(es, e, dl);
        assert(es.push(e).drop_last() == es);
        let a = grouped(es, dl);
        let w = with_action(es, l);
        let a2 = grouped(es.push(e), dl);
        let w2 = with_action(es.push(e), l);
        assert(grouped(es.push(e), acts) == a2 + w2);
        assert(grouped(es, acts) == a + w);
        assert((a2 + w2).to_multiset() =~= a2.to_multiset().add(w2.to_multiset()));
        assert((a + w).to_multiset() =~= a.to_multiset().add(w.to_multiset()));
        assert(acts.contains(e.action) <==> (dl.contains(e.action) || l == e.action)) by {
            if acts.contains(e.action) {
                let k = choose|k: int| 0 <= k < acts.len() && acts[k] == e.action;
                if k < acts.len() - 1 {
                    assert(dl[k] == e.action);
                }
            }
            if dl.contains(e.action) {
                let k = choose|k: int| 0 <= k < dl.len() && dl[k] == e.action;
                assert(acts[k] == e.action);
            }
            if l == e.action {
                assert(acts[acts.len() - 1] == e.action);
            }
        }
        if l == e.action {
            assert(!dl.contains(e.action)) by {
                if dl.contains(e.action) {
                    let k = choose|k: int| 0 <= k < dl.len() && dl[k] == e.action;
                    assert(acts[k] == acts[acts.len() - 1]);
                }
            }
            assert(w2 == w.push(e));
        } else {
            assert(w2 == w);
        }
    }
}

proof fn lemma_grouped_all(es: Seq<ReportEntry>)
    ensures
        grouped(es, report_order()).to_multiset() =~= es.to_multiset(),
    decreases es.len(),
{
    broadcast use vstd::multiset::group_multiset_axioms;
    broadcast use vstd::seq_lib::to_multiset_build;

    let o = report_order();
    if es.len() == 0 {
        lemma_grouped_empty(o);
        assert(es =~= Seq::<ReportEntry>::empty());
        assert(grouped(es, o) == es);
    } else {
        let p = es.drop_last();
        let e = es.last();
        lemma_grouped_all(p);
        assert(p.push(e) == es);
        assert(o.contains(e.action)) by {
            match e.action {
                Action::Unmanaged => assert(o[0] == e.action),
                Action::Exclude => assert(o[1] == e.action),
                Action::Move => assert(o[2] == e.action),
                Action::Dedup => assert(o[3] == e.action),
                Action::Skip => assert(o[4] == e.action),
                Action::Conflict => assert(o[5] == e.action),
                Action::Error => assert(o[6] == e.action),
            }
        }
        lemma_grouped_push(p, e, o);
    }
}

/// With verbose on, the details list every entry exactly once: they are
/// the rows of a rearrangement of the entries (the same multiset) that
/// groups them by action in report order, each group in the order its
/// entries were recorded.
pub proof fn law_verbose_details_list_each_entry_once(es: Seq<ReportEntry>, dry_run: bool)
    ensures
        detail_rows(es, detail_order(true), dry_run) == grouped(es, report_order()).map_values(
            |e: ReportEntry| row_of(e, dry_run),
        ),
        grouped(es, report_order()).to_multiset() == es.to_multiset(),
{
    lemma_detail_rows_grouped(es, report_order(), dry_run);
    lemma_grouped_all(es);
}

/// The printed report opens with its title, which depends on the dry run
/// alone: `kondo report (dry run)` in a dry run and `kondo report`
/// otherwise, verbose or not. The title and the seven summary lines are
/// the same whether or not the run is verbose, and the summary counts
/// every action even when nothing happened.
pub proof fn law_report_title_follows_dry_run(es: Seq<ReportEntry>, dry_run: bool, verbose: bool)
    ensures
        report_lines(es, dry_run, verbose).len() >= 8,
        report_lines(es, dry_run, verbose)[0] == (
            Seq::<char>::empty(),
            if dry_run {
                seq!['k', 'o', 'n', 'd', 'o', ' ', 'r', 'e', 'p', 'o', 'r', 't', ' ', '(', 'd', 'r', 'y', ' ', 'r', 'u', 'n', ')']
            } else {
                seq!['k', 'o', 'n', 'd', 'o', ' ', 'r', 'e', 'p', 'o', 'r', 't']
            },
            LineStyle::Title,
            Seq::<char>::empty(),
        ),
        report_lines(es, dry_run, verbose).take(8) == report_lines(es, dry_run, !verbose).take(8),
        forall|k: int|
            1 <= k < 8 ==> (#[trigger] report_lines(es, dry_run, verbose)[k]).2
                == LineStyle::OfAction(report_order()[k - 1]),
{
    reveal_strlit("kondo report (dry run)");
    reveal_strlit("kondo report");
    let a = report_lines(es, dry_run, verbose);
    let b = report_lines(es, dry_run, !verbose);
    let head = seq![title_line(dry_run)] + summary_lines(es, report_order(), dry_run);
    assert(head.len() == 8);
    assert(a.take(8) =~= head);
    assert(b.take(8) =~= head);
    assert(a[0] == head[0]);
    assert forall|k: int| 1 <= k < 8 implies (#[trigger] a[k]).2 == LineStyle::OfAction(
        report_order()[k - 1],
    ) by {
        assert(a[k] == head[k]);
    }
}

proof fn lemma_decimal_short(n: nat)
    requires
        n < 10000,
    ensures
        1 <= decimal(n).len() <= 4,
{
    if n >= 10 {
        if n >= 100 {
            if n >= 1000 {
                assert(decimal(n / 10 / 10 / 10).len() == 1);
            }
            assert(decimal(n / 10 / 10).len() <= 2);
        }
        assert(decimal(n / 10).len() <= 3);
    }
}

/// Each summary line reads: two spaces, the action's label, padding to a
/// ten-character column, then the count right-aligned in four characters
/// and ` file(s)`; with fewer than ten thousand files every summary line
/// is 25 characters long, so the counts line up.
pub proof fn law_summary_line_layout(es: Seq<ReportEntry>, dry_run: bool, verbose: bool, k: int)
    requires
        1 <= k < 8,
    ensures
        ({
            let a = report_order()[k - 1];
            let t = line_text(report_lines(es, dry_run, verbose)[k]);
            let lbl = label(a, dry_run);
            let n = decimal(count_of(es, a));
            &&& t.take(2) == seq![' ', ' ']
            &&& t.subrange(2, 2 + lbl.len() as int) == lbl
            &&& forall|x: int| 2 + lbl.len() <= x < 13 ==> t[x] == ' '
            &&& t.skip(t.len() - 8) == seq![' ', 'f', 'i', 'l', 'e', '(', 's', ')']
            &&& t.subrange(t.len() - 8 - n.len(), t.len() - 8) == n
            &&& count_of(es, a) < 10000 ==> t.len() == 25 && forall|x: int|
                13 <= x < 17 - n.len() ==> t[x] == ' '
        }),
{
    reveal_strlit("  ");
    reveal_strlit(" ");
    reveal_strlit(" file(s)");
    reveal_strlit("unmanaged");
    reveal_strlit("exclude");
    reveal_strlit("excluded");
    reveal_strlit("move");
    reveal_strlit("moved");
    reveal_strlit("dedup");
    reveal_strlit("deduped");
    reveal_strlit("skip");
    reveal_strlit("skipped");
    reveal_strlit("conflict");
    reveal_strlit("error");
    let a = report_order()[k - 1];
    let lines = report_lines(es, dry_run, verbose);
    let head = seq![title_line(dry_run)] + summary_lines(es, report_order(), dry_run);
    assert(lines[k] == head[k]);
    assert(head[k] == summary_line(a, count_of(es, a), dry_run));
    let lbl = label(a, dry_run);
    assert(lbl.len() <= 10);
    let n = decimal(count_of(es, a));
    let padded = pad_right(lbl, 10);
    let num = pad_left(n, 4);
    let t = line_text(lines[k]);
    assert(t == "  "@ + padded + (" "@ + num + " file(s)"@));
    assert(padded.len() == 10);
    assert(t.take(2) =~= seq![' ', ' ']);
    assert(t.subrange(2, 2 + lbl.len() as int) =~= lbl);
    assert forall|x: int| 2 + lbl.len() <= x < 13 implies t[x] == ' ' by {
        if x < 12 {
            assert(t[x] == padded[x - 2]);
        }
    }
    assert(t.skip(t.len() - 8) =~= seq![' ', 'f', 'i', 'l', 'e', '(', 's', ')']);
    assert(num.skip(num.len() - n.len()) =~= n);
    assert(t.subrange(t.len() - 8 - n.len(), t.len() - 8) =~= n);
    if count_of(es, a) < 10000 {
        lemma_decimal_short(count_of(es, a));
        assert(num.len() == 4);
        assert forall|x: int| 13 <= x < 17 - n.len() implies t[x] == ' ' by {
            assert(t[x] == num[x - 13]);
        }
    }
}

/// The labels of the actions: present tense in a dry run ("move",
/// "dedup", "skip", ...), past tense after a real run ("moved",
/// "deduped", "skipped", ...).
pub proof fn law_action_labels()
    ensures
        label(Action::Move, true) == seq!['m', 'o', 'v', 'e'],
        label(Action::Move, false) == seq!['m', 'o', 'v', 'e', 'd'],
        label(Action::Dedup, true) == seq!['d', 'e', 'd', 'u', 'p'],
        label(Action::Dedup, false) == seq!['d', 'e', 'd', 'u', 'p', 'e', 'd'],
        label(Action::Skip, true) == seq!['s', 'k', 'i', 'p'],
        label(Action::Skip, false) == seq!['s', 'k', 'i', 'p', 'p', 'e', 'd'],
        label(Action::Conflict, true) == seq!['c', 'o', 'n', 'f', 'l', 'i', 'c', 't'],
        label(Action::Conflict, false) == seq!['c', 'o', 'n', 'f', 'l', 'i', 'c', 't'],
        label(Action::Exclude, true) == seq!['e', 'x', 'c', 'l', 'u', 'd', 'e'],
        label(Action::Exclude, false) == seq!['e', 'x', 'c', 'l', 'u', 'd', 'e', 'd'],
        label(Action::Unmanaged, true) == seq!['u', 'n', 'm', 'a', 'n', 'a', 'g', 'e', 'd'],
        label(Action::Unmanaged, false) == seq!['u', 'n', 'm', 'a', 'n', 'a', 'g', 'e', 'd'],
        label(Action::Error, true) == seq!['e', 'r', 'r', 'o', 'r'],
        label(Action::Error, false) == seq!['e', 'r', 'r', 'o', 'r'],
{
    reveal_strlit("conflict");
    reveal_strlit("dedup");
    reveal_strlit("deduped");
    reveal_strlit("error");
    reveal_strlit("exclude");
    reveal_strlit("excluded");
    reveal_strlit("move");
    reveal_strlit("moved");
    reveal_strlit("skip");
    reveal_strlit("skipped");
    reveal_strlit("unmanaged");
    assert("conflict"@ =~= seq!['c', 'o', 'n', 'f', 'l', 'i', 'c', 't']);
    assert("dedup"@ =~= seq!['d', 'e', 'd', 'u', 'p']);
    assert("deduped"@ =~= seq!['d', 'e', 'd', 'u', 'p', 'e', 'd']);
    assert("error"@ =~= seq!['e', 'r', 'r', 'o', 'r']);
    assert("exclude"@ =~= seq!['e', 'x', 'c', 'l', 'u', 'd', 'e']);
    assert("excluded"@ =~= seq!['e', 'x', 'c', 'l', 'u', 'd', 'e', 'd']);
    assert("move"@ =~= seq!['m', 'o', 'v', 'e']);
    assert("moved"@ =~= seq!['m', 'o', 'v', 'e', 'd']);
    assert("skip"@ =~= seq!['s', 'k', 'i', 'p']);
    assert("skipped"@ =~= seq!['s', 'k', 'i', 'p', 'p', 'e', 'd']);
    assert("unmanaged"@ =~= seq!['u', 'n', 'm', 'a', 'n', 'a', 'g', 'e', 'd']);
}

} // verus!
