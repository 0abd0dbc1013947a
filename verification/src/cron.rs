//! Human-readable descriptions of cron schedules, the status line for the
//! kondo crontab entry, and the edits that install or remove that entry.

use crate::fmt::{decimal, decimal_chars, digit_char, law_parse_undoes_decimal, parse_u32, parse_u32_chars};
use crate::text::{
    chars_of, concat2, concat3, contains, contains_char, contains_chars, ends_with,
    ends_with_chars, find_containing, first_containing, is_text, join, join_strings,
    lemma_split_on_nonempty, lines, lines_of, owned, slice_chars, split_chars, split_on,
    starts_with, starts_with_chars, string_of, string_views, strip_cr, stripped, trim, trim_chars,
    views, words, words_of,
};
use vstd::prelude::*;

verus! {

// ---------------------------------------------------------------------
// Describing a schedule
// ---------------------------------------------------------------------

/// How the minute field of a cron schedule reads.
pub open spec fn minute_text(m: Seq<char>) -> Seq<char> {
    if m == "*"@ {
        "every minute"@
    } else if starts_with(m, "*/"@) {
        "every "@ + m.skip(2) + " minutes"@
    } else if m == "0"@ {
        "on the hour"@
    } else {
        "at minute "@ + m
    }
}

/// How an hour of the day reads on a 12-hour clock; text that is not an
/// hour below 24 reads as itself.
pub open spec fn hour_text(h: Seq<char>) -> Seq<char> {
    match parse_u32(h) {
        Some(n) => if n == 0 {
            "12am"@
        } else if n < 12 {
            decimal(n as nat) + "am"@
        } else if n == 12 {
            "12pm"@
        } else if n < 24 {
            decimal((n - 12) as nat) + "pm"@
        } else {
            h
        },
        None => h,
    }
}

/// The hour texts of a list of hours.
pub open spec fn hour_texts(hs: Seq<Seq<char>>) -> Seq<Seq<char>> {
    hs.map_values(|h: Seq<char>| hour_text(h))
}

/// How the hour field of a cron schedule reads.
pub open spec fn hours_text(h: Seq<char>) -> Seq<char> {
    if starts_with(h, "*/"@) {
        "every "@ + h.skip(2) + " hours"@
    } else if h.contains('-') && split_on(h, '-').len() == 2 {
        hour_text(split_on(h, '-')[0]) + "\u{2013}"@ + hour_text(split_on(h, '-')[1])
    } else if h.contains(',') {
        "at "@ + join(hour_texts(split_on(h, ',')), ", "@)
    } else {
        "at "@ + hour_text(h)
    }
}

/// The short English name of a day of the week (`0` and `7` are Sunday);
/// anything else reads as itself.
pub open spec fn day_text(d: Seq<char>) -> Seq<char> {
    if d == "0"@ || d == "7"@ {
        "Sun"@
    } else if d == "1"@ {
        "Mon"@
    } else if d == "2"@ {
        "Tue"@
    } else if d == "3"@ {
        "Wed"@
    } else if d == "4"@ {
        "Thu"@
    } else if d == "5"@ {
        "Fri"@
    } else if d == "6"@ {
        "Sat"@
    } else {
        d
    }
}

/// The day texts of a list of days.
pub open spec fn day_texts(ds: Seq<Seq<char>>) -> Seq<Seq<char>> {
    ds.map_values(|d: Seq<char>| day_text(d))
}

/// How the day-of-week field of a cron schedule reads.
pub open spec fn days_text(d: Seq<char>) -> Seq<char> {
    if d.contains('-') && split_on(d, '-').len() == 2 {
        day_text(split_on(d, '-')[0]) + "-"@ + day_text(split_on(d, '-')[1])
    } else if d.contains(',') {
        join(day_texts(split_on(d, ',')), ", "@)
    } else {
        day_text(d)
    }
}

/// The phrases that describe a five-field schedule, in order: minute,
/// then each of hour, day of week, day of month and month that is not `*`.
pub open spec fn schedule_phrases(f: Seq<Seq<char>>) -> Seq<Seq<char>> {
    let p0 = seq![minute_text(f[0])];
    let p1 = if f[1] != "*"@ {
        p0.push(hours_text(f[1]))
    } else {
        p0
    };
    let p2 = if f[4] != "*"@ {
        p1.push(days_text(f[4]))
    } else {
        p1
    };
    let p3 = if f[2] != "*"@ {
        p2.push("on day(s) "@ + f[2])
    } else {
        p2
    };
    if f[3] != "*"@ {
        p3.push("in month(s) "@ + f[3])
    } else {
        p3
    }
}

/// How a cron schedule reads: its phrases joined by `", "` when it has
/// exactly five whitespace-separated fields, else the schedule itself.
pub open spec fn schedule_text(s: Seq<char>) -> Seq<char> {
    let f = words(s);
    if f.len() != 5 {
        s
    } else {
        join(schedule_phrases(f), ", "@)
    }
}

/// `v` without its first two characters, when it starts with `"*/"`.
fn after_step_prefix(v: &Vec<char>) -> (r: Option<Vec<char>>)
    ensures
        match r {
            Some(rest) => starts_with(v@, "*/"@) && rest@ == v@.skip(2),
            None => !starts_with(v@, "*/"@),
        },
{
    let p = chars_of("*/");
    if starts_with_chars(v, &p) {
        proof {
            reveal_strlit("*/");
        }
        let rest = slice_chars(v, 2, v.len());
        assert(rest@ == v@.skip(2));
        Some(rest)
    } else {
        None
    }
}

/// Describes the minute field of a cron schedule.
pub fn describe_minute(minute: &str) -> (r: String)
    ensures
        r@ == minute_text(minute@),
{
    let m = chars_of(minute);
    if is_text(&m, "*") {
        return owned("every minute");
    }
    match after_step_prefix(&m) {
        Some(rest) => {
            let n = string_of(&rest);
            return concat3("every ", n.as_str(), " minutes");
        },
        None => {},
    }
    if is_text(&m, "0") {
        return owned("on the hour");
    }
    concat2("at minute ", minute)
}

/// Formats an hour of the day on a 12-hour clock (`"0"` is `"12am"`,
/// `"13"` is `"1pm"`); other text is returned as it is.
pub fn format_hour(h: &str) -> (r: String)
    ensures
        r@ == hour_text(h@),
{
    let v = chars_of(h);
    match parse_u32_chars(&v) {
        Some(n) => {
            if n == 0 {
                owned("12am")
            } else if n < 12 {
                let d = string_of(&decimal_chars(n));
                concat2(d.as_str(), "am")
            } else if n == 12 {
                owned("12pm")
            } else if n < 24 {
                let d = string_of(&decimal_chars(n - 12));
                concat2(d.as_str(), "pm")
            } else {
                owned(h)
            }
        },
        None => owned(h),
    }
}

/// Hour texts of each piece.
fn format_hours(pieces: &Vec<Vec<char>>) -> (r: Vec<String>)
    ensures
        string_views(r@) == hour_texts(views(pieces@)),
{
    let mut r: Vec<String> = Vec::new();
    let mut i: usize = 0;
    while i < pieces.len()
        invariant
            i <= pieces.len(),
            string_views(r@) == hour_texts(views(pieces@)).take(i as int),
        decreases pieces.len() - i,
    {
        let s = string_of(&pieces[i]);
        let t = format_hour(s.as_str());
        let ghost old_r = r@;
        r.push(t);
        assert(string_views(r@) == string_views(old_r).push(t@));
        assert(hour_texts(views(pieces@)).take(i + 1) == hour_texts(views(pieces@)).take(
            i as int,
        ).push(hour_text(pieces@[i as int]@)));
        i += 1;
    }
    assert(hour_texts(views(pieces@)).take(pieces.len() as int) == hour_texts(views(pieces@)));
    r
}

/// Describes the hour field of a cron schedule.
pub fn describe_hour(hour: &str) -> (r: String)
    ensures
        r@ == hours_text(hour@),
{
    let h = chars_of(hour);
    match after_step_prefix(&h) {
        Some(rest) => {
            let n = string_of(&rest);
            return concat3("every ", n.as_str(), " hours");
        },
        None => {},
    }
    if contains_char(&h, '-') {
        let parts = split_chars(&h, '-');
        if parts.len() == 2 {
            let a = format_hour(string_of(&parts[0]).as_str());
            let b = format_hour(string_of(&parts[1]).as_str());
            return concat3(a.as_str(), "\u{2013}", b.as_str());
        }
    }
    if contains_char(&h, ',') {
        let parts = split_chars(&h, ',');
        let texts = format_hours(&parts);
        let joined = join_strings(&texts, ", ");
        return concat2("at ", joined.as_str());
    }
    let t = format_hour(hour);
    concat2("at ", t.as_str())
}

/// The short name of a day of the week.
pub fn day_name(d: &str) -> (r: String)
    ensures
        r@ == day_text(d@),
{
    let v = chars_of(d);
    if is_text(&v, "0") || is_text(&v, "7") {
        owned("Sun")
    } else if is_text(&v, "1") {
        owned("Mon")
    } else if is_text(&v, "2") {
        owned("Tue")
    } else if is_text(&v, "3") {
        owned("Wed")
    } else if is_text(&v, "4") {
        owned("Thu")
    } else if is_text(&v, "5") {
        owned("Fri")
    } else if is_text(&v, "6") {
        owned("Sat")
    } else {
        owned(d)
    }
}

/// Day names of each piece.
fn day_names(pieces: &Vec<Vec<char>>) -> (r: Vec<String>)
    ensures
        string_views(r@) == day_texts(views(pieces@)),
{
    let mut r: Vec<String> = Vec::new();
    let mut i: usize = 0;
    while i < pieces.len()
        invariant
            i <= pieces.len(),
            string_views(r@) == day_texts(views(pieces@)).take(i as int),
        decreases pieces.len() - i,
    {
        let s = string_of(&pieces[i]);
        let t = day_name(s.as_str());
        let ghost old_r = r@;
        r.push(t);
        assert(string_views(r@) == string_views(old_r).push(t@));
        assert(day_texts(views(pieces@)).take(i + 1) == day_texts(views(pieces@)).take(
            i as int,
        ).push(day_text(pieces@[i as int]@)));
        i += 1;
    }
    assert(day_texts(views(pieces@)).take(pieces.len() as int) == day_texts(views(pieces@)));
    r
}

/// Describes the day-of-week field of a cron schedule.
pub fn describe_dow(dow: &str) -> (r: String)
    ensures
        r@ == days_text(dow@),
{
    let d = chars_of(dow);
    if contains_char(&d, '-') {
        let parts = split_chars(&d, '-');
        if parts.len() == 2 {
            let a = day_name(string_of(&parts[0]).as_str());
            let b = day_name(string_of(&parts[1]).as_str());
            return concat3(a.as_str(), "-", b.as_str());
        }
    }
    if contains_char(&d, ',') {
        let parts = split_chars(&d, ',');
        let names = day_names(&parts);
        return join_strings(&names, ", ");
    }
    day_name(dow)
}

/// Describes a cron schedule in words, e.g. `"*/15 * * * *"` reads
/// `"every 15 minutes"`; a schedule without exactly five fields is
/// returned unchanged.
pub fn describe_cron(schedule: &str) -> (r: String)
    ensures
        r@ == schedule_text(schedule@),
{
    let v = chars_of(schedule);
    let fields = words_of(&v);
    if fields.len() != 5 {
        return owned(schedule);
    }
    let ghost f = views(fields@);
    assert(f[0] == fields@[0]@ && f[1] == fields@[1]@ && f[2] == fields@[2]@ && f[3]
        == fields@[3]@ && f[4] == fields@[4]@);
    let minute = string_of(&fields[0]);
    let hour = string_of(&fields[1]);
    let dom = string_of(&fields[2]);
    let month = string_of(&fields[3]);
    let dow = string_of(&fields[4]);
    let mut parts: Vec<String> = Vec::new();
    parts.push(describe_minute(minute.as_str()));
    let ghost p0 = string_views(parts@);
    assert(p0 == seq![minute_text(f[0])]);
    if !is_text(&fields[1], "*") {
        parts.push(describe_hour(hour.as_str()));
    }
    let ghost p1 = string_views(parts@);
    assert(p1 == (if f[1] != "*"@ {
        p0.push(hours_text(f[1]))
    } else {
        p0
    }));
    if !is_text(&fields[4], "*") {
        parts.push(describe_dow(dow.as_str()));
    }
    let ghost p2 = string_views(parts@);
    assert(p2 == (if f[4] != "*"@ {
        p1.push(days_text(f[4]))
    } else {
        p1
    }));
    if !is_text(&fields[2], "*") {
        parts.push(concat2("on day(s) ", dom.as_str()));
    }
    let ghost p3 = string_views(parts@);
    assert(p3 == (if f[2] != "*"@ {
        p2.push("on day(s) "@ + f[2])
    } else {
        p2
    }));
    if !is_text(&fields[3], "*") {
        parts.push(concat2("in month(s) ", month.as_str()));
    }
    assert(string_views(parts@) == schedule_phrases(f));
    join_strings(&parts, ", ")
}

// ---------------------------------------------------------------------
// The kondo crontab entry
// ---------------------------------------------------------------------

/// The comment that marks kondo's own crontab line.
pub open spec fn marker() -> Seq<char> {
    "# kondo-auto"@
}

/// The status reported when no kondo crontab line exists.
pub open spec fn not_installed_text() -> Seq<char> {
    "\u{274c} not installed (use: kondo cron install)"@
}

/// `s` without the suffix `pat`, when it ends with it.
pub open spec fn strip_suffix_or_keep(s: Seq<char>, pat: Seq<char>) -> Seq<char> {
    if ends_with(s, pat) {
        s.take(s.len() - pat.len())
    } else {
        s
    }
}

/// The schedule and command of a kondo crontab line: the trimmed line
/// without its marker, trimmed again.
pub open spec fn entry_of(line: Seq<char>) -> Seq<char> {
    trim(strip_suffix_or_keep(trim(line), marker()))
}

/// `" (<schedule described>)"` when the entry has at least five
/// space-separated fields, the first five being the schedule.
pub open spec fn entry_description(e: Seq<char>) -> Seq<char> {
    let f = split_on(e, ' ');
    if f.len() >= 5 {
        " ("@ + schedule_text(join(f.take(5), " "@)) + ")"@
    } else {
        Seq::empty()
    }
}

/// The status line for a crontab listing (`None` when it could not be
/// read): the first line holding the marker is reported as installed.
pub open spec fn cron_status_text(crontab: Option<Seq<char>>) -> Seq<char> {
    match crontab {
        Some(t) => match first_containing(lines(t), marker()) {
            Some(l) => "\u{2705} installed: "@ + entry_of(l) + entry_description(entry_of(l)),
            None => not_installed_text(),
        },
        None => not_installed_text(),
    }
}

/// The first five pieces of `v` split at spaces, joined by single spaces,
/// when there are at least five.
fn first_five_fields(v: &Vec<char>) -> (r: Option<String>)
    ensures
        match r {
            Some(s) => split_on(v@, ' ').len() >= 5 && s@ == join(split_on(v@, ' ').take(5), " "@),
            None => split_on(v@, ' ').len() < 5,
        },
{
    let pieces = split_chars(v, ' ');
    if pieces.len() < 5 {
        return None;
    }
    let mut fields: Vec<String> = Vec::new();
    let mut i: usize = 0;
    while i < 5
        invariant
            5 <= pieces.len(),
            i <= 5,
            string_views(fields@) == views(pieces@).take(i as int),
        decreases 5 - i,
    {
        let ghost old_f = fields@;
        fields.push(string_of(&pieces[i]));
        assert(string_views(fields@) == string_views(old_f).push(pieces@[i as int]@));
        assert(views(pieces@).take(i + 1) == views(pieces@).take(i as int).push(
            pieces@[i as int]@,
        ));
        i += 1;
    }
    Some(join_strings(&fields, " "))
}

/// The status line for a crontab listing: `crontab` is the listing, or
/// `None` when it could not be read.
pub fn cron_status_from(crontab: Option<&str>) -> (r: String)
    ensures
        r@ == cron_status_text(
            match crontab {
                Some(t) => Some(t@),
                None => None,
            },
        ),
{
    let not_installed = owned("\u{274c} not installed (use: kondo cron install)");
    let text = match crontab {
        Some(t) => t,
        None => {
            return not_installed;
        },
    };
    let v = chars_of(text);
    let ls = lines_of(&v);
    let m = chars_of("# kondo-auto");
    let line = match find_containing(&ls, &m) {
        Some(l) => l,
        None => {
            return not_installed;
        },
    };
    let t1 = trim_chars(&line);
    let stripped = if ends_with_chars(&t1, &m) {
        slice_chars(&t1, 0, t1.len() - m.len())
    } else {
        slice_chars(&t1, 0, t1.len())
    };
    assert(t1@.subrange(0, t1@.len() as int) == t1@);
    assert(stripped@ == strip_suffix_or_keep(trim(line@), marker()));
    let entry = trim_chars(&stripped);
    let entry_s = string_of(&entry);
    let mut r = concat2("\u{2705} installed: ", entry_s.as_str());
    match first_five_fields(&entry) {
        Some(schedule) => {
            let d = describe_cron(schedule.as_str());
            let tail = concat3(" (", d.as_str(), ")");
            r.append(tail.as_str());
        },
        None => {
            assert(entry_description(entry@) == Seq::<char>::empty());
        },
    }
    r
}

/// The lines of `ls` that do not hold the marker, in order.
pub open spec fn unmarked(ls: Seq<Seq<char>>) -> Seq<Seq<char>>
    decreases ls.len(),
{
    if ls.len() == 0 {
        Seq::empty()
    } else {
        let p = unmarked(ls.drop_last());
        if contains(ls.last(), marker()) {
            p
        } else {
            p.push(ls.last())
        }
    }
}

/// The command a kondo crontab line runs: the binary, with
/// `--config <path>` when a configuration file was given.
pub open spec fn cron_command(binary: Seq<char>, config: Option<Seq<char>>) -> Seq<char> {
    match config {
        Some(c) => binary + " --config "@ + c,
        None => binary,
    }
}

/// A crontab line without its marker: schedule, a space, the command.
pub open spec fn cron_line_text(
    schedule: Seq<char>,
    binary: Seq<char>,
    config: Option<Seq<char>>,
) -> Seq<char> {
    schedule + " "@ + cron_command(binary, config)
}

/// A crontab with every kondo line of `existing` replaced by one kondo
/// line, `line` followed by the marker, at the end.
pub open spec fn crontab_with_entry(existing: Seq<char>, line: Seq<char>) -> Seq<char> {
    let body = join(unmarked(lines(existing)), "\n"@);
    let body2 = if body.len() > 0 && body.last() != '\n' {
        body.push('\n')
    } else {
        body
    };
    body2 + line + " "@ + marker() + "\n"@
}

/// A crontab with every kondo line of `existing` removed.
pub open spec fn crontab_without_entry(existing: Seq<char>) -> Seq<char> {
    join(unmarked(lines(existing)), "\n"@) + "\n"@
}

/// The crontab line that runs kondo on `schedule`.
pub fn cron_line(schedule: &str, binary: &str, config: Option<&str>) -> (r: String)
    ensures
        r@ == cron_line_text(
            schedule@,
            binary@,
            match config {
                Some(c) => Some(c@),
                None => None,
            },
        ),
{
    let mut r = concat3(schedule, " ", binary);
    match config {
        Some(c) => {
            r.append(" --config ");
            r.append(c);
        },
        None => {},
    }
    r
}

/// The non-kondo lines of a crontab listing, joined by newlines.
fn unmarked_body(existing: &str) -> (r: String)
    ensures
        r@ == join(unmarked(lines(existing@)), "\n"@),
{
    let v = chars_of(existing);
    let ls = lines_of(&v);
    let m = chars_of("# kondo-auto");
    let mut kept: Vec<String> = Vec::new();
    let mut i: usize = 0;
    assert(views(ls@).take(0) == Seq::<Seq<char>>::empty());
    while i < ls.len()
        invariant
            i <= ls.len(),
            m@ == marker(),
            string_views(kept@) == unmarked(views(ls@).take(i as int)),
        decreases ls.len() - i,
    {
        let ghost t = views(ls@).take(i + 1);
        assert(t.drop_last() == views(ls@).take(i as int));
        assert(t.last() == ls@[i as int]@);
        if !contains_chars(&ls[i], &m) {
            let ghost old_k = kept@;
            kept.push(string_of(&ls[i]));
            assert(string_views(kept@) == string_views(old_k).push(ls@[i as int]@));
        }
        i += 1;
    }
    assert(views(ls@).take(ls.len() as int) == views(ls@));
    join_strings(&kept, "\n")
}

/// The crontab after installing kondo's line `line` into the listing
/// `existing`: other kondo lines are dropped, and the new line, followed
/// by the marker, comes last.
pub fn crontab_with(existing: &str, line: &str) -> (r: String)
    ensures
        r@ == crontab_with_entry(existing@, line@),
{
    let mut body = unmarked_body(existing);
    let bv = chars_of(body.as_str());
    if bv.len() > 0 && bv[bv.len() - 1] != '\n' {
        push_newline(&mut body);
    }
    body.append(line);
    body.append(" ");
    body.append("# kondo-auto");
    body.append("\n");
    body
}

/// Appends a newline.
fn push_newline(s: &mut String)
    ensures
        final(s)@ == old(s)@.push('\n'),
{
    crate::text::push_char(s, '\n');
}

/// The crontab after removing kondo's lines from the listing `existing`.
pub fn crontab_without(existing: &str) -> (r: String)
    ensures
        r@ == crontab_without_entry(existing@),
{
    let mut body = unmarked_body(existing);
    body.append("\n");
    body
}

// ---------------------------------------------------------------------
// Laws of the crontab edits
// ---------------------------------------------------------------------

proof fn lemma_split_pieces_lack_sep(s: Seq<char>, c: char)
    ensures
        forall|i: int| 0 <= i < split_on(s, c).len() ==> !(#[trigger] split_on(s, c)[i]).contains(c),
    decreases s.len(),
{
    if s.len() > 0 {
        lemma_split_pieces_lack_sep(s.drop_last(), c);
        lemma_split_on_nonempty(s.drop_last(), c);
        let p = split_on(s.drop_last(), c);
        if s.last() != c {
            let q = p.last().push(s.last());
            assert forall|i: int| 0 <= i < split_on(s, c).len() implies !(
            #[trigger] split_on(s, c)[i]).contains(c) by {
                if i == p.len() - 1 {
                    if q.contains(c) {
                        let k = choose|k: int| 0 <= k < q.len() && q[k] == c;
                        if k < p.last().len() {
                            assert(p.last()[k] == c);
                        }
                    }
                }
            }
        }
    }
}

proof fn lemma_split_push_sep(s: Seq<char>, c: char)
    ensures
        split_on(s.push(c), c) == split_on(s, c).push(Seq::empty()),
{
    assert(s.push(c).drop_last() == s);
}

proof fn lemma_split_append_plain(s1: Seq<char>, s2: Seq<char>, c: char)
    requires
        !s2.contains(c),
    ensures
        split_on(s1 + s2, c) == split_on(s1, c).update(
            split_on(s1, c).len() - 1,
            split_on(s1, c).last() + s2,
        ),
    decreases s2.len(),
{
    lemma_split_on_nonempty(s1, c);
    let q = split_on(s1, c);
    if s2.len() == 0 {
        assert(s1 + s2 == s1);
        assert(q.last() + s2 == q.last());
        assert(q.update(q.len() - 1, q.last()) == q);
    } else {
        let s2p = s2.drop_last();
        assert(!s2p.contains(c)) by {
            if s2p.contains(c) {
                let k = choose|k: int| 0 <= k < s2p.len() && s2p[k] == c;
                assert(s2[k] == c);
            }
        }
        lemma_split_append_plain(s1, s2p, c);
        assert((s1 + s2).drop_last() == s1 + s2p);
        assert((s1 + s2).last() == s2.last());
        assert(s2.last() != c) by {
            assert(s2[s2.len() - 1] == s2.last());
        }
        assert((q.last() + s2p).push(s2.last()) == q.last() + s2);
    }
}

proof fn lemma_split_join(ls: Seq<Seq<char>>, c: char)
    requires
        ls.len() >= 1,
        forall|i: int| 0 <= i < ls.len() ==> !(#[trigger] ls[i]).contains(c),
    ensures
        split_on(join(ls, seq![c]), c) == ls,
    decreases ls.len(),
{
    if ls.len() == 1 {
        lemma_split_append_plain(Seq::empty(), ls[0], c);
        assert(Seq::<char>::empty() + ls[0] == ls[0]);
        assert(split_on(Seq::<char>::empty(), c) == seq![Seq::<char>::empty()]);
        assert(ls == seq![ls[0]]);
    } else {
        let lp = ls.drop_last();
        assert forall|i: int| 0 <= i < lp.len() implies !(#[trigger] lp[i]).contains(c) by {
            assert(lp[i] == ls[i]);
        }
        lemma_split_join(lp, c);
        let j = join(lp, seq![c]);
        assert(j + seq![c] == j.push(c));
        lemma_split_push_sep(j, c);
        assert(!ls.last().contains(c)) by {
            assert(ls[ls.len() - 1] == ls.last());
        }
        lemma_split_append_plain(j.push(c), ls.last(), c);
        assert(Seq::<char>::empty() + ls.last() == ls.last());
        assert(lp.push(Seq::empty()).update(lp.len() as int, ls.last()) == ls);
    }
}

proof fn lemma_strip_cr_keeps_absence(s: Seq<char>, pat: Seq<char>, c: char)
    ensures
        contains(strip_cr(s), pat) ==> contains(s, pat),
        strip_cr(s).contains(c) ==> s.contains(c),
{
    if contains(strip_cr(s), pat) {
        let i = choose|i: int|
            0 <= i && i + pat.len() <= strip_cr(s).len() && #[trigger] strip_cr(s).subrange(
                i,
                i + pat.len(),
            ) == pat;
        assert(s.subrange(i, i + pat.len()) == strip_cr(s).subrange(i, i + pat.len()));
    }
    if strip_cr(s).contains(c) {
        let k = choose|k: int| 0 <= k < strip_cr(s).len() && strip_cr(s)[k] == c;
        assert(s[k] == c);
    }
}

proof fn lemma_lines_lack_newline(s: Seq<char>)
    ensures
        forall|i: int| 0 <= i < lines(s).len() ==> !(#[trigger] lines(s)[i]).contains('\n'),
{
    lemma_split_pieces_lack_sep(s, '\n');
    lemma_split_on_nonempty(s, '\n');
    let p = split_on(s, '\n');
    assert forall|i: int| 0 <= i < lines(s).len() implies !(#[trigger] lines(s)[i]).contains(
        '\n',
    ) by {
        if i < p.len() - 1 {
            lemma_strip_cr_keeps_absence(p[i], Seq::empty(), '\n');
        }
    }
}

proof fn lemma_unmarked_props(ls: Seq<Seq<char>>)
    requires
        forall|i: int| 0 <= i < ls.len() ==> !(#[trigger] ls[i]).contains('\n'),
    ensures
        forall|i: int|
            0 <= i < unmarked(ls).len() ==> !(#[trigger] unmarked(ls)[i]).contains('\n')
                && !contains(unmarked(ls)[i], marker()),
    decreases ls.len(),
{
    if ls.len() > 0 {
        let lp = ls.drop_last();
        assert forall|i: int| 0 <= i < lp.len() implies !(#[trigger] lp[i]).contains('\n') by {
            assert(lp[i] == ls[i]);
        }
        lemma_unmarked_props(lp);
        assert(!ls.last().contains('\n')) by {
            assert(ls[ls.len() - 1] == ls.last());
        }
        let p = unmarked(lp);
        if !contains(ls.last(), marker()) {
            assert forall|i: int| 0 <= i < unmarked(ls).len() implies !(
            #[trigger] unmarked(ls)[i]).contains('\n') && !contains(unmarked(ls)[i], marker()) by {
                if i < p.len() {
                    assert(unmarked(ls)[i] == p[i]);
                }
            }
        }
    }
}

proof fn lemma_first_containing_none(ls: Seq<Seq<char>>, pat: Seq<char>)
    requires
        forall|i: int| 0 <= i < ls.len() ==> !contains(#[trigger] ls[i], pat),
    ensures
        first_containing(ls, pat) is None,
    decreases ls.len(),
{
    if ls.len() > 0 {
        assert forall|i: int| 0 <= i < ls.drop_first().len() implies !contains(
            #[trigger] ls.drop_first()[i],
            pat,
        ) by {
            assert(ls.drop_first()[i] == ls[i + 1]);
        }
        lemma_first_containing_none(ls.drop_first(), pat);
    }
}

proof fn lemma_first_containing_last(ls: Seq<Seq<char>>, e: Seq<char>, pat: Seq<char>)
    requires
        forall|i: int| 0 <= i < ls.len() ==> !contains(#[trigger] ls[i], pat),
        contains(e, pat),
    ensures
        first_containing(ls.push(e), pat) == Some(e),
    decreases ls.len(),
{
    if ls.len() == 0 {
        assert(ls.push(e)[0] == e);
    } else {
        assert forall|i: int| 0 <= i < ls.drop_first().len() implies !contains(
            #[trigger] ls.drop_first()[i],
            pat,
        ) by {
            assert(ls.drop_first()[i] == ls[i + 1]);
        }
        lemma_first_containing_last(ls.drop_first(), e, pat);
        assert(ls.push(e).drop_first() == ls.drop_first().push(e));
        assert(ls.push(e)[0] == ls[0]);
    }
}

/// Lines strip one `"\r"` from each terminated piece.
proof fn lemma_stripped_lack(ps: Seq<Seq<char>>)
    requires
        forall|i: int| 0 <= i < ps.len() ==> !contains(#[trigger] ps[i], marker()),
    ensures
        forall|i: int|
            0 <= i < stripped(ps).len() ==> !contains(
                #[trigger] stripped(ps)[i],
                marker(),
            ),
{
    assert forall|i: int| 0 <= i < stripped(ps).len() implies !contains(
        #[trigger] stripped(ps)[i],
        marker(),
    ) by {
        lemma_strip_cr_keeps_absence(ps[i], marker(), '\n');
    }
}

/// After kondo's line is removed from a crontab, no line of it holds the
/// kondo marker, so the status reads "not installed".
pub proof fn law_uninstall_leaves_no_entry(existing: Seq<char>)
    ensures
        first_containing(lines(crontab_without_entry(existing)), marker()) is None,
        cron_status_text(Some(crontab_without_entry(existing))) == not_installed_text(),
{
    reveal_strlit("\n");
    reveal_strlit("# kondo-auto");
    let f = unmarked(lines(existing));
    lemma_lines_lack_newline(existing);
    lemma_unmarked_props(lines(existing));
    let text = crontab_without_entry(existing);
    let j = join(f, "\n"@);
    assert("\n"@ == seq!['\n']);
    assert(text == j.push('\n'));
    lemma_split_push_sep(j, '\n');
    if f.len() == 0 {
        assert(j == Seq::<char>::empty());
        assert(split_on(j, '\n') == seq![Seq::<char>::empty()]);
        let ls = lines(text);
        assert(ls == seq![Seq::<char>::empty()]);
        assert(!contains(Seq::<char>::empty(), marker()));
        lemma_first_containing_none(ls, marker());
    } else {
        lemma_split_join(f, '\n');
        let p = split_on(text, '\n');
        assert(p == f.push(Seq::empty()));
        assert(p.drop_last() == f);
        lemma_stripped_lack(f);
        lemma_first_containing_none(lines(text), marker());
    }
}

/// The lines kept before a newly installed kondo line: the kept lines
/// `f`, less a final empty one when their text already ends in a newline.
pub open spec fn kept_before_entry(f: Seq<Seq<char>>) -> Seq<Seq<char>> {
    let body = join(f, seq!['\n']);
    if body.len() == 0 {
        Seq::empty()
    } else if body.last() != '\n' {
        f
    } else {
        f.drop_last()
    }
}

/// The pieces, at newlines, of the body that precedes a newly installed
/// kondo line: pieces without the marker, then an empty piece.
proof fn lemma_install_body_pieces(f: Seq<Seq<char>>) -> (g: Seq<Seq<char>>)
    requires
        forall|i: int|
            0 <= i < f.len() ==> !(#[trigger] f[i]).contains('\n') && !contains(f[i], marker()),
    ensures
        ({
            let body = join(f, seq!['\n']);
            let body2 = if body.len() > 0 && body.last() != '\n' {
                body.push('\n')
            } else {
                body
            };
            split_on(body2, '\n') == g.push(Seq::empty())
        }),
        forall|i: int| 0 <= i < g.len() ==> !contains(#[trigger] g[i], marker()),
        g == kept_before_entry(f),
        join(f, seq!['\n']).len() > 0 && join(f, seq!['\n']).last() == '\n' ==> f.len() >= 2
            && f.last().len() == 0,
{
    let body = join(f, seq!['\n']);
    if body.len() == 0 {
        assert(split_on(body, '\n') == seq![Seq::<char>::empty()]);
        let g = Seq::<Seq<char>>::empty();
        assert(g.push(Seq::empty()) == seq![Seq::<char>::empty()]);
        g
    } else {
        assert(f.len() >= 1);
        lemma_split_join(f, '\n');
        if body.last() != '\n' {
            lemma_split_push_sep(body, '\n');
            f
        } else {
            assert(f.len() >= 2 && f.last().len() == 0) by {
                if f.len() == 1 {
                    assert(body == f[0]);
                    assert(body[body.len() - 1] == '\n');
                    assert(f[0].contains('\n'));
                } else if f.last().len() > 0 {
                    assert(body == join(f.drop_last(), seq!['\n']) + seq!['\n'] + f.last());
                    assert(body.last() == f.last().last());
                    assert(f.last()[f.last().len() - 1] == '\n');
                    assert(f[f.len() - 1].contains('\n'));
                }
            }
            let g = f.drop_last();
            assert(g.push(Seq::empty()) == f);
            assert forall|i: int| 0 <= i < g.len() implies !contains(#[trigger] g[i], marker()) by {
                assert(g[i] == f[i]);
            }
            g
        }
    }
}

#[verifier::rlimit(60)]
proof fn lemma_install_lines(existing: Seq<char>, line: Seq<char>)
    requires
        !line.contains('\n'),
    ensures
        ({
            let ls = lines(crontab_with_entry(existing, line));
            &&& ls.len() >= 1
            &&& ls.last() == line + " "@ + marker()
            &&& forall|i: int| 0 <= i < ls.len() - 1 ==> !contains(#[trigger] ls[i], marker())
        }),
        first_containing(lines(crontab_with_entry(existing, line)), marker()) == Some(
            line + " "@ + marker(),
        ),
        lines(crontab_with_entry(existing, line)) == stripped(
            kept_before_entry(unmarked(lines(existing))),
        ).push(line + " "@ + marker()),
{
    reveal_strlit("\n");
    reveal_strlit(" ");
    reveal_strlit("# kondo-auto");
    let f = unmarked(lines(existing));
    lemma_lines_lack_newline(existing);
    lemma_unmarked_props(lines(existing));
    let e = line + " "@ + marker();
    assert(!e.contains('\n')) by {
        if e.contains('\n') {
            let k = choose|k: int| 0 <= k < e.len() && e[k] == '\n';
            if k < line.len() {
                assert(line[k] == '\n');
            }
        }
    }
    assert(e.last() == 'o');
    assert(strip_cr(e) == e);
    assert(contains(e, marker())) by {
        let at: int = line.len() as int + 1;
        assert(e.subrange(at, at + marker().len()) == marker());
    }
    assert("\n"@ == seq!['\n']);
    let g = lemma_install_body_pieces(f);
    let body = join(f, "\n"@);
    let body2 = if body.len() > 0 && body.last() != '\n' {
        body.push('\n')
    } else {
        body
    };
    let text = crontab_with_entry(existing, line);
    assert(text == (body2 + e).push('\n'));
    lemma_split_push_sep(body2 + e, '\n');
    lemma_split_append_plain(body2, e, '\n');
    let p = split_on(text, '\n');
    assert(Seq::<char>::empty() + e == e);
    assert(p == g.push(e).push(Seq::empty()));
    assert(p.drop_last() == g.push(e));
    let ls = lines(text);
    assert(ls == stripped(g.push(e)));
    assert(stripped(g.push(e)) == stripped(g).push(e));
    lemma_stripped_lack(g);
    lemma_first_containing_last(stripped(g), e, marker());
}

/// After kondo's line `line` (a single line) is installed into any
/// crontab, the last line of the result is `line` followed by the marker
/// and no other line holds the marker; so the status reads "installed"
/// with that line's entry.
pub proof fn law_install_leaves_one_entry(existing: Seq<char>, line: Seq<char>)
    requires
        !line.contains('\n'),
    ensures
        ({
            let ls = lines(crontab_with_entry(existing, line));
            &&& ls.len() >= 1
            &&& ls.last() == line + " "@ + marker()
            &&& forall|i: int| 0 <= i < ls.len() - 1 ==> !contains(#[trigger] ls[i], marker())
        }),
        cron_status_text(Some(crontab_with_entry(existing, line))) == "\u{2705} installed: "@
            + entry_of(line + " "@ + marker()) + entry_description(entry_of(line + " "@ + marker())),
{
    lemma_install_lines(existing, line);
}


/// A line that does not end in a carriage return.
pub open spec fn no_cr_end(s: Seq<char>) -> bool {
    !(s.len() > 0 && s.last() == '\r')
}

proof fn lemma_stripped_id(ps: Seq<Seq<char>>)
    requires
        forall|i: int| 0 <= i < ps.len() ==> no_cr_end(#[trigger] ps[i]),
    ensures
        stripped(ps) == ps,
{
    assert(stripped(ps) =~= ps);
}

proof fn lemma_unmarked_id(ls: Seq<Seq<char>>)
    requires
        forall|i: int| 0 <= i < ls.len() ==> !contains(#[trigger] ls[i], marker()),
    ensures
        unmarked(ls) == ls,
    decreases ls.len(),
{
    if ls.len() > 0 {
        let lp = ls.drop_last();
        assert forall|i: int| 0 <= i < lp.len() implies !contains(#[trigger] lp[i], marker()) by {
            assert(lp[i] == ls[i]);
        }
        lemma_unmarked_id(lp);
        assert(!contains(ls.last(), marker())) by {
            assert(ls[ls.len() - 1] == ls.last());
        }
        assert(lp.push(ls.last()) == ls);
    }
}

proof fn lemma_join_last(ls: Seq<Seq<char>>)
    requires
        ls.len() >= 1,
        ls.last().len() > 0,
    ensures
        join(ls, seq!['\n']).len() > 0,
        join(ls, seq!['\n']).last() == ls.last().last(),
{
    if ls.len() == 1 {
        assert(ls[0] == ls.last());
    } else {
        let j = join(ls.drop_last(), seq!['\n']) + seq!['\n'];
        assert(join(ls, seq!['\n']) == j + ls.last());
        assert((j + ls.last()).last() == ls.last().last());
    }
}

proof fn lemma_entry_line_marked(line: Seq<char>)
    ensures
        contains(line + " "@ + marker(), marker()),
{
    reveal_strlit(" ");
    reveal_strlit("# kondo-auto");
    let e = line + " "@ + marker();
    let at: int = line.len() as int + 1;
    assert(e.subrange(at, at + marker().len()) == marker());
}

/// Installing kondo's line a second time leaves the crontab exactly as the
/// first install wrote it. This needs the kept (non-kondo) lines not to
/// end in two empty lines, of which each install drops one, nor any of
/// them to end in a carriage return, which reading the lines drops.
pub proof fn law_second_install_is_unchanged(existing: Seq<char>, line: Seq<char>)
    requires
        !line.contains('\n'),
        forall|i: int|
            0 <= i < unmarked(lines(existing)).len() ==> no_cr_end(
                #[trigger] unmarked(lines(existing))[i],
            ),
        !(unmarked(lines(existing)).len() >= 2 && unmarked(lines(existing)).last().len() == 0
            && unmarked(lines(existing))[unmarked(lines(existing)).len() - 2].len() == 0),
    ensures
        crontab_with_entry(crontab_with_entry(existing, line), line) == crontab_with_entry(
            existing,
            line,
        ),
{
    reveal_strlit("\n");
    let f = unmarked(lines(existing));
    lemma_lines_lack_newline(existing);
    lemma_unmarked_props(lines(existing));
    lemma_install_lines(existing, line);
    let g = lemma_install_body_pieces(f);
    assert(g == kept_before_entry(f));
    let e = line + " "@ + marker();
    assert forall|i: int| 0 <= i < g.len() implies no_cr_end(#[trigger] g[i]) && !contains(
        g[i],
        marker(),
    ) && !g[i].contains('\n') by {
        assert(g[i] == f[i]);
    }
    lemma_stripped_id(g);
    lemma_entry_line_marked(line);
    assert(g.push(e).drop_last() == g);
    lemma_unmarked_id(g);
    let t1 = crontab_with_entry(existing, line);
    assert(unmarked(lines(t1)) == g);
    assert("\n"@ == seq!['\n']);
    let body = join(f, seq!['\n']);
    let bg = join(g, seq!['\n']);
    if body.len() > 0 && body.last() == '\n' {
        assert(g == f.drop_last());
        assert(g.last() == f[f.len() - 2]);
        assert(g.last().len() > 0);
        lemma_join_last(g);
        assert(g.last().last() != '\n') by {
            assert(g.last()[g.last().len() - 1] == g.last().last());
        }
        assert(f.drop_last().push(f.last()) == f);
        assert(body == bg + seq!['\n'] + f.last());
        assert(body == bg.push('\n'));
    }
}

/// Removing kondo's line right after installing it gives back the crontab
/// as it was: here a crontab of the whole lines `ls`, each ended by a
/// newline, the last one not empty, none holding the marker or ending in
/// a carriage return.
pub proof fn law_uninstall_undoes_install(ls: Seq<Seq<char>>, line: Seq<char>)
    requires
        ls.len() >= 1,
        ls.last().len() > 0,
        !line.contains('\n'),
        forall|i: int|
            0 <= i < ls.len() ==> !(#[trigger] ls[i]).contains('\n') && !contains(ls[i], marker())
                && no_cr_end(ls[i]),
    ensures
        crontab_without_entry(crontab_with_entry(join(ls, "\n"@) + "\n"@, line)) == join(
            ls,
            "\n"@,
        ) + "\n"@,
{
    reveal_strlit("\n");
    assert("\n"@ == seq!['\n']);
    let j = join(ls, seq!['\n']);
    let c = j + seq!['\n'];
    assert(c == j.push('\n'));
    lemma_split_join(ls, '\n');
    lemma_split_push_sep(j, '\n');
    assert(split_on(c, '\n').drop_last() == ls);
    lemma_stripped_id(ls);
    assert(lines(c) == ls);
    lemma_unmarked_id(ls);
    lemma_join_last(ls);
    assert(ls.last().last() != '\n') by {
        assert(ls[ls.len() - 1] == ls.last());
        assert(ls.last()[ls.last().len() - 1] == ls.last().last());
    }
    assert(kept_before_entry(ls) == ls);
    lemma_install_lines(c, line);
    let e = line + " "@ + marker();
    lemma_entry_line_marked(line);
    assert(ls.push(e).drop_last() == ls);
    assert(unmarked(lines(crontab_with_entry(c, line))) == ls);
}

/// Each day-of-week digit names its own weekday, Sunday being both `0`
/// and `7`: `1` to `6` give six different names, none of them Sunday's.
pub proof fn law_day_digits_name_weekdays()
    ensures
        day_text(seq!['0']) == seq!['S', 'u', 'n'],
        day_text(seq!['7']) == seq!['S', 'u', 'n'],
        day_text(seq!['1']) == seq!['M', 'o', 'n'],
        day_text(seq!['2']) == seq!['T', 'u', 'e'],
        day_text(seq!['3']) == seq!['W', 'e', 'd'],
        day_text(seq!['4']) == seq!['T', 'h', 'u'],
        day_text(seq!['5']) == seq!['F', 'r', 'i'],
        day_text(seq!['6']) == seq!['S', 'a', 't'],
        ({
            let names = seq![
                day_text(seq!['1']),
                day_text(seq!['2']),
                day_text(seq!['3']),
                day_text(seq!['4']),
                day_text(seq!['5']),
                day_text(seq!['6']),
                day_text(seq!['0']),
            ];
            forall|i: int, j: int| 0 <= i < j < 7 ==> #[trigger] names[i] != #[trigger] names[j]
        }),
{
    reveal_strlit("0");
    reveal_strlit("1");
    reveal_strlit("2");
    reveal_strlit("3");
    reveal_strlit("4");
    reveal_strlit("5");
    reveal_strlit("6");
    reveal_strlit("7");
    reveal_strlit("Sun");
    reveal_strlit("Mon");
    reveal_strlit("Tue");
    reveal_strlit("Wed");
    reveal_strlit("Thu");
    reveal_strlit("Fri");
    reveal_strlit("Sat");
    assert("0"@ == seq!['0'] && "1"@ == seq!['1'] && "2"@ == seq!['2'] && "3"@ == seq!['3']);
    assert("4"@ == seq!['4'] && "5"@ == seq!['5'] && "6"@ == seq!['6'] && "7"@ == seq!['7']);
    let names = seq![
        day_text(seq!['1']),
        day_text(seq!['2']),
        day_text(seq!['3']),
        day_text(seq!['4']),
        day_text(seq!['5']),
        day_text(seq!['6']),
        day_text(seq!['0']),
    ];
    assert forall|a: char, b: char| a != b implies #[trigger] seq![a] != #[trigger] seq![b] by {
        assert(seq![a][0] != seq![b][0]);
    }
    assert(day_text(seq!['1']) == seq!['M', 'o', 'n']);
    assert(day_text(seq!['2']) == seq!['T', 'u', 'e']);
    assert(day_text(seq!['3']) == seq!['W', 'e', 'd']);
    assert(day_text(seq!['4']) == seq!['T', 'h', 'u']);
    assert(day_text(seq!['5']) == seq!['F', 'r', 'i']);
    assert(day_text(seq!['6']) == seq!['S', 'a', 't']);
    assert(day_text(seq!['0']) == seq!['S', 'u', 'n']);
    assert(day_text(seq!['7']) == seq!['S', 'u', 'n']);
    let shown = seq![seq!['M', 'o', 'n'], seq!['T', 'u', 'e'], seq!['W', 'e', 'd'], seq!['T', 'h', 'u'], seq!['F', 'r', 'i'], seq!['S', 'a', 't'], seq!['S', 'u', 'n']];
    assert(names =~= shown);
    assert forall|i: int, j: int| 0 <= i < j < 7 implies #[trigger] names[i] != #[trigger] names[j] by {
        if i == 0 && j == 1 {
            assert(shown[0][0] != shown[1][0] || shown[0][1] != shown[1][1]);
        } else if i == 0 && j == 2 {
            assert(shown[0][0] != shown[2][0] || shown[0][1] != shown[2][1]);
        } else if i == 0 && j == 3 {
            assert(shown[0][0] != shown[3][0] || shown[0][1] != shown[3][1]);
        } else if i == 0 && j == 4 {
            assert(shown[0][0] != shown[4][0] || shown[0][1] != shown[4][1]);
        } else if i == 0 && j == 5 {
            assert(shown[0][0] != shown[5][0] || shown[0][1] != shown[5][1]);
        } else if i == 0 && j == 6 {
            assert(shown[0][0] != shown[6][0] || shown[0][1] != shown[6][1]);
        } else if i == 1 && j == 2 {
            assert(shown[1][0] != shown[2][0] || shown[1][1] != shown[2][1]);
        } else if i == 1 && j == 3 {
            assert(shown[1][0] != shown[3][0] || shown[1][1] != shown[3][1]);
        } else if i == 1 && j == 4 {
            assert(shown[1][0] != shown[4][0] || shown[1][1] != shown[4][1]);
        } else if i == 1 && j == 5 {
            assert(shown[1][0] != shown[5][0] || shown[1][1] != shown[5][1]);
        } else if i == 1 && j == 6 {
            assert(shown[1][0] != shown[6][0] || shown[1][1] != shown[6][1]);
        } else if i == 2 && j == 3 {
            assert(shown[2][0] != shown[3][0] || shown[2][1] != shown[3][1]);
        } else if i == 2 && j == 4 {
            assert(shown[2][0] != shown[4][0] || shown[2][1] != shown[4][1]);
        } else if i == 2 && j == 5 {
            assert(shown[2][0] != shown[5][0] || shown[2][1] != shown[5][1]);
        } else if i == 2 && j == 6 {
            assert(shown[2][0] != shown[6][0] || shown[2][1] != shown[6][1]);
        } else if i == 3 && j == 4 {
            assert(shown[3][0] != shown[4][0] || shown[3][1] != shown[4][1]);
        } else if i == 3 && j == 5 {
            assert(shown[3][0] != shown[5][0] || shown[3][1] != shown[5][1]);
        } else if i == 3 && j == 6 {
            assert(shown[3][0] != shown[6][0] || shown[3][1] != shown[6][1]);
        } else if i == 4 && j == 5 {
            assert(shown[4][0] != shown[5][0] || shown[4][1] != shown[5][1]);
        } else if i == 4 && j == 6 {
            assert(shown[4][0] != shown[6][0] || shown[4][1] != shown[6][1]);
        } else if i == 5 && j == 6 {
            assert(shown[5][0] != shown[6][0] || shown[5][1] != shown[6][1]);
        }
    }
}

/// An hour `n` of the day reads on a 12-hour clock: `0` is `12am`, `1` to
/// `11` are `1am` to `11am`, `12` is `12pm` and `13` to `23` are `1pm` to
/// `11pm`.
pub proof fn law_hours_read_on_twelve_hour_clock(n: u32)
    requires
        n < 24,
    ensures
        hour_text(decimal(n as nat)) == decimal(if n % 12 == 0 {
            12nat
        } else {
            (n % 12) as nat
        }) + if n < 12 {
            seq!['a', 'm']
        } else {
            seq!['p', 'm']
        },
{
    law_parse_undoes_decimal(n);
    reveal_strlit("12am");
    reveal_strlit("12pm");
    reveal_strlit("am");
    reveal_strlit("pm");
    assert("am"@ =~= seq!['a', 'm']);
    assert("pm"@ =~= seq!['p', 'm']);
    assert(decimal(12) == decimal(1).push('2'));
    assert(decimal(1) == seq!['1']);
    assert(digit_char(2) == '2') by {
        assert(((48 + 2) as u8) == 50u8);
    }
    assert(digit_char(1) == '1') by {
        assert(((48 + 1) as u8) == 49u8);
    }
    assert("12am"@ =~= decimal(12) + seq!['a', 'm']);
    assert("12pm"@ =~= decimal(12) + seq!['p', 'm']);
}

} // verus!
