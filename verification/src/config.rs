//! The configuration: which directories to scan, and which destination
//! directory takes which file extensions.

use crate::strmap::StrMap;
use crate::text::{
    chars_of, concat3, is_text, owned, slice_chars, starts_with, starts_with_chars, string_of,
};
use vstd::prelude::*;

verus! {

/// What to do when the destination already holds a file with identical
/// content.
#[derive(Debug, Clone, Copy, PartialEq, Eq, Structural)]
pub enum DuplicateAction {
    /// Leave the source file where it is.
    Skip,
    /// Remove the source file.
    Dedup,
}

impl Default for DuplicateAction {
    fn default() -> (d: Self)
        ensures
            d == DuplicateAction::Skip,
    {
        DuplicateAction::Skip
    }
}

/// The user's home directory, when it can be determined (`dirs::home_dir`).
/// Nothing is stated of the result: it depends on the environment.
#[verifier::external_body]
pub(crate) fn home_dir() -> (h: Option<String>) {
    match dirs::home_dir() {
        Some(p) => Some(p.to_string_lossy().into_owned()),
        None => None,
    }
}

/// The lower-case form of a string, by the Unicode `Lowercase` mapping.
pub uninterp spec fn lowercase_text(s: Seq<char>) -> Seq<char>;

/// `str::to_lowercase`: the string lower-cased by the Unicode mapping.
#[verifier::external_body]
pub(crate) fn lowercase(s: &str) -> (r: String)
    ensures
        r@ == lowercase_text(s@),
{
    s.to_lowercase()
}

/// `rest` appended to the path `base` as `Path::join` does on Unix: an
/// absolute `rest` replaces `base`; otherwise a `/` separates them unless
/// `base` is empty or already ends with one.
pub open spec fn join_path(base: Seq<char>, rest: Seq<char>) -> Seq<char> {
    if rest.len() > 0 && rest[0] == '/' {
        rest
    } else if base.len() == 0 || base.last() == '/' {
        base + rest
    } else {
        base + seq!['/'] + rest
    }
}

/// Joins two paths.
pub fn join_paths(base: &str, rest: &str) -> (r: String)
    ensures
        r@ == join_path(base@, rest@),
{
    let b = chars_of(base);
    let r = chars_of(rest);
    if r.len() > 0 && r[0] == '/' {
        owned(rest)
    } else if b.len() == 0 || b[b.len() - 1] == '/' {
        let mut out = owned(base);
        out.append(rest);
        out
    } else {
        let out = concat3(base, "/", rest);
        proof {
            reveal_strlit("/");
        }
        out
    }
}

/// A path with a leading `~` expanded to the home directory `home`: `~/x`
/// becomes `x` under home, `~` becomes home; any other path, or any path
/// when the home directory is unknown, stays as it is.
pub open spec fn expand_tilde_text(path: Seq<char>, home: Option<Seq<char>>) -> Seq<char> {
    match home {
        Some(h) => if starts_with(path, "~/"@) {
            join_path(h, path.skip(2))
        } else if path == "~"@ {
            h
        } else {
            path
        },
        None => path,
    }
}

/// Expands a leading `~` in `path` given the home directory.
pub fn expand_tilde_with(path: &str, home: Option<&str>) -> (r: String)
    ensures
        r@ == expand_tilde_text(
            path@,
            match home {
                Some(h) => Some(h@),
                None => None,
            },
        ),
{
    match home {
        Some(h) => {
            let v = chars_of(path);
            let prefix = chars_of("~/");
            if starts_with_chars(&v, &prefix) {
                proof {
                    reveal_strlit("~/");
                }
                let rest = string_of(&slice_chars(&v, 2, v.len()));
                assert(v@.subrange(2, v@.len() as int) == v@.skip(2));
                join_paths(h, rest.as_str())
            } else if is_text(&v, "~") {
                owned(h)
            } else {
                owned(path)
            }
        },
        None => owned(path),
    }
}

/// `s` without its leading `.` characters (`str::trim_start_matches('.')`).
pub open spec fn trim_leading_dots(s: Seq<char>) -> Seq<char>
    decreases s.len(),
{
    if s.len() > 0 && s[0] == '.' {
        trim_leading_dots(s.drop_first())
    } else {
        s
    }
}

/// The key an extension is stored under: without leading dots, lower case.
pub open spec fn normalized_ext(e: Seq<char>) -> Seq<char> {
    lowercase_text(trim_leading_dots(e))
}

/// Normalizes an extension from the configuration.
pub fn normalize_ext(e: &str) -> (r: String)
    ensures
        r@ == normalized_ext(e@),
{
    let v = chars_of(e);
    let mut i: usize = 0;
    assert(v@.skip(0) == v@);
    while i < v.len() && v[i] == '.'
        invariant
            i <= v.len(),
            trim_leading_dots(v@) == trim_leading_dots(v@.skip(i as int)),
        decreases v.len() - i,
    {
        assert(v@.skip(i as int).drop_first() == v@.skip(i + 1));
        i += 1;
    }
    assert(v@.skip(i as int) == v@.subrange(i as int, v@.len() as int));
    let t = string_of(&slice_chars(&v, i, v.len()));
    lowercase(t.as_str())
}

/// The configuration.
pub struct Config {
    /// Whether to run dashify on files before moving them
    pub dashify: bool,
    /// Source directories to scan for files
    pub sources: Vec<String>,
    /// Rules mapping destination directory -> list of extensions
    pub rules: StrMap<Vec<String>>,
    /// What to do when destination file already exists with identical content
    pub on_duplicate: DuplicateAction,
    /// Glob patterns for filenames to exclude from processing
    pub exclude: Vec<String>,
}

impl Default for Config {
    /// Dashify on, `~/Downloads` as the only source, no rules, skip
    /// duplicates, exclude nothing.
    fn default() -> (c: Self)
        ensures
            c.dashify,
            c.sources@.len() == 1,
            c.sources@[0]@ == "~/Downloads"@,
            c.rules@ == Map::<Seq<char>, Vec<String>>::empty(),
            c.on_duplicate == DuplicateAction::Skip,
            c.exclude@.len() == 0,
    {
        let mut sources = Vec::new();
        sources.push(owned("~/Downloads"));
        Config {
            dashify: true,
            sources,
            rules: StrMap::new(),
            on_duplicate: DuplicateAction::Skip,
            exclude: Vec::new(),
        }
    }
}

/// The map from normalized extension to destination that the rule for
/// `dest` adds on top of `m`: each of its extensions, in order.
pub open spec fn with_rule(
    m: Map<Seq<char>, Seq<char>>,
    dest: Seq<char>,
    exts: Seq<String>,
) -> Map<Seq<char>, Seq<char>>
    decreases exts.len(),
{
    if exts.len() == 0 {
        m
    } else {
        with_rule(m, dest, exts.drop_last()).insert(normalized_ext(exts.last()@), dest)
    }
}

/// The extension map of the rules (destination, extensions), taken in
/// order, with destinations expanded under `home`: a later rule that lists
/// the same extension wins.
pub open spec fn extension_map_of(
    rules: Seq<(String, Vec<String>)>,
    home: Option<Seq<char>>,
) -> Map<Seq<char>, Seq<char>>
    decreases rules.len(),
{
    if rules.len() == 0 {
        Map::empty()
    } else {
        with_rule(
            extension_map_of(rules.drop_last(), home),
            expand_tilde_text(rules.last().0@, home),
            rules.last().1@,
        )
    }
}

proof fn lemma_with_rule(m: Map<Seq<char>, Seq<char>>, dest: Seq<char>, exts: Seq<String>)
    ensures
        forall|k: Seq<char>| m.contains_key(k) ==> #[trigger] with_rule(m, dest, exts).contains_key(k),
        forall|j: int|
            0 <= j < exts.len() ==> #[trigger] with_rule(m, dest, exts).contains_key(
                normalized_ext(exts[j]@),
            ) && with_rule(m, dest, exts)[normalized_ext(exts[j]@)] == dest,
    decreases exts.len(),
{
    if exts.len() > 0 {
        let p = exts.drop_last();
        lemma_with_rule(m, dest, p);
        let w = with_rule(m, dest, p);
        assert(with_rule(m, dest, exts) == w.insert(normalized_ext(exts.last()@), dest));
        assert forall|k: Seq<char>| m.contains_key(k) implies #[trigger] with_rule(
            m,
            dest,
            exts,
        ).contains_key(k) by {
            assert(w.contains_key(k));
        }
        assert forall|j: int| 0 <= j < exts.len() implies #[trigger] with_rule(
            m,
            dest,
            exts,
        ).contains_key(normalized_ext(exts[j]@)) && with_rule(m, dest, exts)[normalized_ext(
            exts[j]@,
        )] == dest by {
            if j < exts.len() - 1 {
                assert(exts[j] == p[j]);
                assert(w.contains_key(normalized_ext(p[j]@)));
            }
        }
    }
}

/// Every extension that a rule lists is routed somewhere, and the
/// extensions of the last rule are routed to its destination (a later
/// rule wins over an earlier one).
pub proof fn law_every_extension_is_routed(
    rules: Seq<(String, Vec<String>)>,
    home: Option<Seq<char>>,
    i: int,
    j: int,
)
    requires
        0 <= i < rules.len(),
        0 <= j < rules[i].1@.len(),
    ensures
        extension_map_of(rules, home).contains_key(normalized_ext(rules[i].1@[j]@)),
        i == rules.len() - 1 ==> extension_map_of(rules, home)[normalized_ext(rules[i].1@[j]@)]
            == expand_tilde_text(rules[i].0@, home),
    decreases rules.len(),
{
    let p = rules.drop_last();
    let m = extension_map_of(p, home);
    lemma_with_rule(m, expand_tilde_text(rules.last().0@, home), rules.last().1@);
    if i < rules.len() - 1 {
        assert(p[i] == rules[i]);
        law_every_extension_is_routed(p, home, i, j);
        assert(m.contains_key(normalized_ext(rules[i].1@[j]@)));
    } else {
        assert(rules.last() == rules[i]);
        assert(with_rule(m, expand_tilde_text(rules.last().0@, home), rules.last().1@).contains_key(
            normalized_ext(rules.last().1@[j]@),
        ));
    }
}

proof fn lemma_with_rule_other(
    m: Map<Seq<char>, Seq<char>>,
    dest: Seq<char>,
    exts: Seq<String>,
    k: Seq<char>,
)
    requires
        forall|j: int| 0 <= j < exts.len() ==> normalized_ext(#[trigger] exts[j]@) != k,
    ensures
        with_rule(m, dest, exts).contains_key(k) == m.contains_key(k),
        with_rule(m, dest, exts)[k] == m[k],
    decreases exts.len(),
{
    if exts.len() > 0 {
        let p = exts.drop_last();
        assert forall|j: int| 0 <= j < p.len() implies normalized_ext(#[trigger] p[j]@) != k by {
            assert(p[j] == exts[j]);
        }
        lemma_with_rule_other(m, dest, p, k);
        assert(exts.last() == exts[exts.len() - 1]);
    }
}

proof fn lemma_with_rule_keys(
    m: Map<Seq<char>, Seq<char>>,
    dest: Seq<char>,
    exts: Seq<String>,
    k: Seq<char>,
)
    requires
        with_rule(m, dest, exts).contains_key(k),
    ensures
        m.contains_key(k) || exists|j: int| 0 <= j < exts.len() && normalized_ext(#[trigger] exts[j]@) == k,
    decreases exts.len(),
{
    if exts.len() > 0 {
        let p = exts.drop_last();
        if normalized_ext(exts.last()@) == k {
            assert(normalized_ext(exts[exts.len() - 1]@) == k);
        } else {
            lemma_with_rule_keys(m, dest, p, k);
            if !m.contains_key(k) {
                let j = choose|j: int| 0 <= j < p.len() && normalized_ext(#[trigger] p[j]@) == k;
                assert(p[j] == exts[j]);
            }
        }
    }
}

/// Each extension of a rule is routed to that rule's destination, when no
/// other rule lists an extension with the same key.
pub proof fn law_extension_routes_to_its_rule(
    rules: Seq<(String, Vec<String>)>,
    home: Option<Seq<char>>,
    i: int,
    j: int,
)
    requires
        0 <= i < rules.len(),
        0 <= j < rules[i].1@.len(),
        forall|k: int, l: int|
            0 <= k < rules.len() && k != i && 0 <= l < rules[k].1@.len() ==> normalized_ext(
                #[trigger] rules[k].1@[l]@,
            ) != normalized_ext(rules[i].1@[j]@),
    ensures
        extension_map_of(rules, home).contains_key(normalized_ext(rules[i].1@[j]@)),
        extension_map_of(rules, home)[normalized_ext(rules[i].1@[j]@)] == expand_tilde_text(
            rules[i].0@,
            home,
        ),
    decreases rules.len(),
{
    let key = normalized_ext(rules[i].1@[j]@);
    let p = rules.drop_last();
    let m = extension_map_of(p, home);
    let n = rules.len() - 1;
    law_every_extension_is_routed(rules, home, i, j);
    if i < n {
        assert(p[i] == rules[i]);
        assert forall|k: int, l: int|
            0 <= k < p.len() && k != i && 0 <= l < p[k].1@.len() implies normalized_ext(
            #[trigger] p[k].1@[l]@,
        ) != key by {
            assert(p[k] == rules[k]);
        }
        law_extension_routes_to_its_rule(p, home, i, j);
        assert(rules.last() == rules[n]);
        assert forall|l: int| 0 <= l < rules.last().1@.len() implies normalized_ext(
            #[trigger] rules.last().1@[l]@,
        ) != key by {
            assert(rules[n].1@[l] == rules.last().1@[l]);
        }
        lemma_with_rule_other(m, expand_tilde_text(rules.last().0@, home), rules.last().1@, key);
    }
}

/// Only the extensions that some rule lists are routed.
pub proof fn law_routed_keys_come_from_rules(
    rules: Seq<(String, Vec<String>)>,
    home: Option<Seq<char>>,
    key: Seq<char>,
)
    requires
        extension_map_of(rules, home).contains_key(key),
    ensures
        exists|i: int, j: int|
            0 <= i < rules.len() && 0 <= j < rules[i].1@.len() && normalized_ext(
                #[trigger] rules[i].1@[j]@,
            ) == key,
    decreases rules.len(),
{
    let p = rules.drop_last();
    let m = extension_map_of(p, home);
    let n = rules.len() - 1;
    lemma_with_rule_keys(m, expand_tilde_text(rules.last().0@, home), rules.last().1@, key);
    if m.contains_key(key) {
        law_routed_keys_come_from_rules(p, home, key);
        let (i, j) = choose|i: int, j: int|
            0 <= i < p.len() && 0 <= j < p[i].1@.len() && normalized_ext(#[trigger] p[i].1@[j]@)
                == key;
        assert(p[i] == rules[i]);
    } else {
        let j = choose|j: int|
            0 <= j < rules.last().1@.len() && normalized_ext(#[trigger] rules.last().1@[j]@) == key;
        assert(rules.last() == rules[n]);
    }
}

/// With a known home directory `h` (not ending in `/`), a path `~/r`
/// (with `r` relative) reads `h/r` and the path `~` reads `h`; a path
/// that does not begin with `~` is left as it is, and so is every path
/// when the home directory is unknown.
pub proof fn law_tilde_expands_to_home(h: Seq<char>, r: Seq<char>, path: Seq<char>)
    requires
        h.len() > 0,
        h.last() != '/',
        !(r.len() > 0 && r[0] == '/'),
    ensures
        expand_tilde_text(seq!['~', '/'] + r, Some(h)) == h + seq!['/'] + r,
        expand_tilde_text(seq!['~'], Some(h)) == h,
        !(path.len() > 0 && path[0] == '~') ==> expand_tilde_text(path, Some(h)) == path,
        expand_tilde_text(path, None) == path,
{
    reveal_strlit("~/");
    reveal_strlit("~");
    assert("~/"@ =~= seq!['~', '/']);
    assert("~"@ =~= seq!['~']);
    let t = seq!['~', '/'] + r;
    assert(t.take(2) =~= seq!['~', '/']);
    assert(t.skip(2) =~= r);
    assert(starts_with(t, "~/"@));
    assert(!starts_with(seq!['~'], "~/"@));
    if !(path.len() > 0 && path[0] == '~') {
        if starts_with(path, "~/"@) {
            assert(path.take(2)[0] == '~');
        }
        if path == "~"@ {
            assert(path[0] == '~');
        }
    }
}

/// A leading `~` of `path` expanded to the user's home directory, as far
/// as it can be determined.
pub fn expand_tilde(path: &str) -> (r: String)
    ensures
        exists|home: Option<Seq<char>>| r@ == expand_tilde_text(path@, home),
{
    let home = home_dir();
    match &home {
        Some(h) => expand_tilde_with(path, Some(h.as_str())),
        None => expand_tilde_with(path, None),
    }
}

/// The view of a map whose values are strings.
pub open spec fn text_values(m: Map<Seq<char>, String>) -> Map<Seq<char>, Seq<char>> {
    m.map_values(|v: String| v@)
}

/// The expanded source paths given the home directory.
pub open spec fn source_paths_of(sources: Seq<String>, home: Option<Seq<char>>) -> Seq<Seq<char>> {
    sources.map_values(|s: String| expand_tilde_text(s@, home))
}

impl Config {
    /// The source directories with `~` expanded under `home`.
    pub fn source_paths_with(&self, home: Option<&str>) -> (r: Vec<String>)
        ensures
            crate::text::string_views(r@) == source_paths_of(
                self.sources@,
                match home {
                    Some(h) => Some(h@),
                    None => None,
                },
            ),
    {
        let ghost hv = match home {
            Some(h) => Some(h@),
            None => None,
        };
        let mut r: Vec<String> = Vec::new();
        let mut i: usize = 0;
        while i < self.sources.len()
            invariant
                i <= self.sources@.len(),
                hv == match home {
                    Some(h) => Some(h@),
                    None => None,
                },
                crate::text::string_views(r@) == source_paths_of(self.sources@, hv).take(i as int),
            decreases self.sources.len() - i,
        {
            let p = expand_tilde_with(self.sources[i].as_str(), home);
            let ghost old_r = r@;
            r.push(p);
            assert(crate::text::string_views(r@) == crate::text::string_views(old_r).push(p@));
            assert(source_paths_of(self.sources@, hv).take(i + 1) == source_paths_of(
                self.sources@,
                hv,
            ).take(i as int).push(expand_tilde_text(self.sources@[i as int]@, hv)));
            i += 1;
        }
        assert(source_paths_of(self.sources@, hv).take(self.sources.len() as int)
            == source_paths_of(self.sources@, hv));
        r
    }

    /// Get expanded source paths
    pub fn source_paths(&self) -> (r: Vec<String>)
        ensures
            exists|home: Option<Seq<char>>|
                crate::text::string_views(r@) == source_paths_of(self.sources@, home),
    {
        let home = home_dir();
        let r = match &home {
            Some(h) => self.source_paths_with(Some(h.as_str())),
            None => self.source_paths_with(None),
        };
        r
    }

    /// The extension map given the home directory: each extension of each
    /// rule, normalized, maps to the rule's destination with `~` expanded.
    pub fn extension_map_with(&self, home: Option<&str>) -> (m: StrMap<String>)
        ensures
            text_values(m@) == extension_map_of(
                self.rules.pairs(),
                match home {
                    Some(h) => Some(h@),
                    None => None,
                },
            ),
    {
        let ghost hv = match home {
            Some(h) => Some(h@),
            None => None,
        };
        let rules = self.rules.items();
        let mut m: StrMap<String> = StrMap::new();
        let mut i: usize = 0;
        assert(rules@.take(0) == Seq::<(String, Vec<String>)>::empty());
        assert(text_values(m@) =~= Map::<Seq<char>, Seq<char>>::empty());
        while i < rules.len()
            invariant
                i <= rules@.len(),
                hv == match home {
                    Some(h) => Some(h@),
                    None => None,
                },
                text_values(m@) == extension_map_of(rules@.take(i as int), hv),
            decreases rules.len() - i,
        {
            let (dest, exts) = &rules[i];
            let dest_path = expand_tilde_with(dest.as_str(), home);
            let ghost base = text_values(m@);
            let mut j: usize = 0;
            assert(exts@.take(0) == Seq::<String>::empty());
            while j < exts.len()
                invariant
                    j <= exts@.len(),
                    text_values(m@) == with_rule(base, dest_path@, exts@.take(j as int)),
                decreases exts.len() - j,
            {
                let key = normalize_ext(exts[j].as_str());
                let ghost before = m@;
                m.insert(key, dest_path.clone());
                assert(exts@.take(j + 1).drop_last() == exts@.take(j as int));
                assert(exts@.take(j + 1).last() == exts@[j as int]);
                assert(text_values(m@) =~= text_values(before).insert(key@, dest_path@));
                j += 1;
            }
            assert(exts@.take(exts.len() as int) == exts@);
            assert(rules@.take(i + 1).drop_last() == rules@.take(i as int));
            assert(rules@.take(i + 1).last() == rules@[i as int]);
            i += 1;
        }
        assert(rules@.take(rules.len() as int) == rules@);
        m
    }

    /// Build a reverse lookup: extension -> destination path
    pub fn extension_map(&self) -> (m: StrMap<String>)
        ensures
            exists|home: Option<Seq<char>>|
                text_values(m@) == extension_map_of(self.rules.pairs(), home),
    {
        let home = home_dir();
        match &home {
            Some(h) => self.extension_map_with(Some(h.as_str())),
            None => self.extension_map_with(None),
        }
    }
}

} // verus!
