//! Pattern matching on diff content lines, whole-file captures and filters.
use vstd::prelude::*;
use vstd::string::StringExecFns;
use crate::git::{decode_lossy, lossy_text, ChangeType, Commit};
use crate::matcher::{base64_text, encode_base64, leftmost_match, Matcher};
use crate::text::{chars_of, string_of, trim, trimmed};

verus! {

/// Whether a record comes from a matched line or from a captured file.
#[derive(Clone, Copy, Debug, PartialEq, Eq, Structural)]
pub enum MatchType {
    Pattern,
    File,
}

/// A rule for line matching (or, used as a filter, for suppressing matches).
pub struct Pattern {
    pub description: String,
    pub pattern: String,
    pub enabled: Option<bool>,
    pub case_sensitive: Option<bool>,
    /// The compiled matcher; `None` when the rule is disabled or did not compile.
    pub regex: Option<Matcher>,
}

/// A rule selecting whole files for capture by their extension.
pub struct FilePattern {
    pub description: String,
    pub extension: String,
    pub binary: Option<bool>,
}

/// One reported finding.
pub struct PatternMatch {
    pub description: String,
    pub text: String,
    pub repo_path: String,
    pub file: String,
    pub full_path: String,
    pub match_type: MatchType,
    pub change_type: ChangeType,
    pub commit_hash: String,
    pub commit_date: String,
}

/// The model of a `PatternMatch`.
pub struct MatchView {
    pub description: Seq<char>,
    pub text: Seq<char>,
    pub repo_path: Seq<char>,
    pub file: Seq<char>,
    pub full_path: Seq<char>,
    pub match_type: MatchType,
    pub change_type: ChangeType,
    pub commit_hash: Seq<char>,
    pub commit_date: Seq<char>,
}

impl View for PatternMatch {
    type V = MatchView;

    open spec fn view(&self) -> MatchView {
        MatchView {
            description: self.description@,
            text: self.text@,
            repo_path: self.repo_path@,
            file: self.file@,
            full_path: self.full_path@,
            match_type: self.match_type,
            change_type: self.change_type,
            commit_hash: self.commit_hash@,
            commit_date: self.commit_date@,
        }
    }
}

pub open spec fn match_views(v: Seq<PatternMatch>) -> Seq<MatchView> {
    v.map_values(|m: PatternMatch| m@)
}

/// A rule is enabled unless it says otherwise.
pub open spec fn is_enabled(enabled: Option<bool>) -> bool {
    enabled != Some(false)
}

/// The text a rule is compiled from: case-insensitive unless it asks for case.
pub open spec fn effective_source(pattern: Seq<char>, case_sensitive: Option<bool>) -> Seq<char> {
    if case_sensitive == Some(true) {
        pattern
    } else {
        "(?i)"@ + pattern
    }
}

/// The leftmost match of a rule in `hay`; an inert or disabled rule matches nothing.
pub open spec fn rule_match(p: Pattern, hay: Seq<char>) -> Option<(int, int)> {
    match p.regex {
        Some(m) => if is_enabled(p.enabled) {
            leftmost_match(m.source(), hay)
        } else {
            None
        },
        None => None,
    }
}

impl Pattern {
    /// A well-formed rule holds a matcher only if enabled, compiled from its effective source.
    pub open spec fn wf(&self) -> bool {
        match self.regex {
            Some(m) => is_enabled(self.enabled) && m.source() == effective_source(
                self.pattern@,
                self.case_sensitive,
            ),
            None => true,
        }
    }

    /// A rule with its matcher compiled; a disabled rule is not compiled, and
    /// one that does not compile stays inert.
    pub fn new(
        description: String,
        pattern: String,
        enabled: Option<bool>,
        case_sensitive: Option<bool>,
    ) -> (r: Pattern)
        ensures
            r.wf(),
            r.description@ == description@,
            r.pattern@ == pattern@,
            r.enabled == enabled,
            r.case_sensitive == case_sensitive,
            r.regex is Some <==> is_enabled(enabled) && crate::matcher::regex_compiles(
                effective_source(pattern@, case_sensitive),
            ),
    {
        let on = match enabled {
            Some(b) => b,
            None => true,
        };
        let regex = if on {
            let exact = match case_sensitive {
                Some(b) => b,
                None => false,
            };
            if exact {
                Matcher::compile(pattern.as_str())
            } else {
                let src = String::from_str("(?i)").concat(pattern.as_str());
                Matcher::compile(src.as_str())
            }
        } else {
            None
        };
        Pattern { description, pattern, enabled, case_sensitive, regex }
    }

    /// The leftmost match of this rule in `hay`, if it is enabled and compiled.
    pub fn find_in(&self, hay: &str) -> (r: Option<(usize, usize)>)
        ensures
            match r {
                Some((s, e)) => rule_match(*self, hay@) == Some((s as int, e as int)) && s <= e
                    <= hay@.len(),
                None => rule_match(*self, hay@) is None,
            },
    {
        let on = match self.enabled {
            Some(b) => b,
            None => true,
        };
        if !on {
            return None;
        }
        match &self.regex {
            Some(m) => m.find(hay),
            None => None,
        }
    }
}

/// `rel` joined onto `base` as `Path::join` does on Unix: an absolute `rel`
/// replaces `base`, otherwise one separator stands between them.
pub open spec fn joined(base: Seq<char>, rel: Seq<char>) -> Seq<char> {
    if rel.len() > 0 && rel[0] == '/' {
        rel
    } else if base.len() == 0 || base.last() == '/' {
        base + rel
    } else {
        base + seq!['/'] + rel
    }
}

pub fn join_path(base: &String, rel: &String) -> (r: String)
    ensures
        r@ == joined(base@, rel@),
{
    let b = chars_of(base.as_str());
    let l = chars_of(rel.as_str());
    if l.len() > 0 && l[0] == '/' {
        string_of(l.as_slice())
    } else if b.len() == 0 || b[b.len() - 1] == '/' {
        base.clone().concat(rel.as_str())
    } else {
        let sep = string_of(&['/']);
        assert(sep@ =~= seq!['/']);
        base.clone().concat(sep.as_str()).concat(rel.as_str())
    }
}

/// The change a content line records, from its leading diff marker; other
/// markers (such as the `@` of a hunk header) record none.
pub open spec fn change_of(line: Seq<char>) -> Option<ChangeType> {
    if line.len() > 0 && line[0] == '+' {
        Some(ChangeType::Addition)
    } else if line.len() > 0 && line[0] == '-' {
        Some(ChangeType::Removal)
    } else {
        None
    }
}

/// The reported text of a match at `s..e` of a content line: the matched span
/// without the diff marker (a match starting at the marker loses it), trimmed.
pub open spec fn match_text(line: Seq<char>, s: int, e: int) -> Seq<char> {
    let lo = if s == 0 {
        1
    } else {
        s
    };
    let hi = if e < lo {
        lo
    } else {
        e
    };
    trimmed(line.subrange(lo, hi))
}

pub open spec fn line_record(
    description: Seq<char>,
    text: Seq<char>,
    change: ChangeType,
    repo: Seq<char>,
    file: Seq<char>,
    commit: Commit,
) -> MatchView {
    MatchView {
        description,
        text,
        repo_path: repo,
        file,
        full_path: joined(repo, file),
        match_type: MatchType::Pattern,
        change_type: change,
        commit_hash: commit.hash@,
        commit_date: commit.date@,
    }
}

/// The records a content line yields: one per rule that matches it, in rule
/// order, and none at all when the line has no `+` or `-` marker.
pub open spec fn line_records(
    ps: Seq<Pattern>,
    line: Seq<char>,
    repo: Seq<char>,
    file: Seq<char>,
    commit: Commit,
) -> Seq<MatchView>
    decreases ps.len(),
{
    if ps.len() == 0 || change_of(line) is None {
        Seq::empty()
    } else {
        let rest = line_records(ps.drop_last(), line, repo, file, commit);
        match rule_match(ps.last(), line) {
            Some((s, e)) => rest.push(
                line_record(
                    ps.last().description@,
                    match_text(line, s, e),
                    change_of(line).unwrap(),
                    repo,
                    file,
                    commit,
                ),
            ),
            None => rest,
        }
    }
}

pub proof fn lemma_match_views_push(v: Seq<PatternMatch>, m: PatternMatch)
    ensures
        match_views(v.push(m)) == match_views(v).push(m@),
{
    assert(match_views(v.push(m)) =~= match_views(v).push(m@));
}

/// Applies every rule to one content line of `file_name` in `commit`.
pub fn check_patterns(
    patterns: &Vec<Pattern>,
    line: &str,
    repo_path: &String,
    file_name: &String,
    commit: &Commit,
) -> (r: Vec<PatternMatch>)
    ensures
        match_views(r@) == line_records(patterns@, line@, repo_path@, file_name@, *commit),
{
    let cs = chars_of(line);
    let mut r: Vec<PatternMatch> = Vec::new();
    let change = if cs.len() > 0 && cs[0] == '+' {
        ChangeType::Addition
    } else if cs.len() > 0 && cs[0] == '-' {
        ChangeType::Removal
    } else {
        assert(match_views(r@) =~= Seq::empty());
        return r;
    };
    let full = join_path(repo_path, file_name);
    let mut i: usize = 0;
    while i < patterns.len()
        invariant
            i <= patterns@.len(),
            cs@ == line@,
            change_of(line@) == Some(change),
            full@ == joined(repo_path@, file_name@),
            match_views(r@) == line_records(
                patterns@.take(i as int),
                line@,
                repo_path@,
                file_name@,
                *commit,
            ),
        decreases patterns@.len() - i,
    {
        assert(patterns@.take(i + 1).drop_last() =~= patterns@.take(i as int));
        let p = &patterns[i];
        match p.find_in(line) {
            Some((s, e)) => {
                let lo: usize = if s == 0 {
                    1
                } else {
                    s
                };
                let hi: usize = if e < lo {
                    lo
                } else {
                    e
                };
                let t = trim(&cs[lo..hi]);
                let m = PatternMatch {
                    description: p.description.clone(),
                    text: string_of(t.as_slice()),
                    repo_path: repo_path.clone(),
                    file: file_name.clone(),
                    full_path: full.clone(),
                    match_type: MatchType::Pattern,
                    change_type: change,
                    commit_hash: commit.hash.clone(),
                    commit_date: commit.date.clone(),
                };
                proof {
                    lemma_match_views_push(r@, m);
                    assert(cs@.subrange(lo as int, hi as int) =~= line@.subrange(lo as int, hi as int));
                }
                r.push(m);
            },
            None => {},
        }
        i = i + 1;
    }
    assert(patterns@.take(patterns@.len() as int) =~= patterns@);
    r
}

/// The text of a captured file: base64 for binary files, lossy UTF-8 otherwise.
pub open spec fn file_text(binary: bool, data: Seq<u8>) -> Seq<char> {
    if binary {
        base64_text(data)
    } else {
        lossy_text(data)
    }
}

pub open spec fn file_record(
    description: Seq<char>,
    file: Seq<char>,
    text: Seq<char>,
    repo: Seq<char>,
    commit: Commit,
) -> MatchView {
    MatchView {
        description,
        text,
        repo_path: repo,
        file,
        full_path: joined(repo, file),
        match_type: MatchType::File,
        change_type: ChangeType::Unknown,
        commit_hash: commit.hash@,
        commit_date: commit.date@,
    }
}

/// Whether the direct read of a blob came back empty, so that the file is to
/// be read by commit and path instead.
pub fn needs_path_read(direct: &Vec<u8>) -> (r: bool)
    ensures
        r == (direct@.len() == 0),
{
    direct.len() == 0
}

/// The record of a captured file's content `data`.
pub fn file_match(
    description: &String,
    binary: bool,
    file: &String,
    data: &Vec<u8>,
    repo_path: &String,
    commit: &Commit,
) -> (r: PatternMatch)
    ensures
        r@ == file_record(description@, file@, file_text(binary, data@), repo_path@, *commit),
{
    let text = if binary {
        encode_base64(data.as_slice())
    } else {
        decode_lossy(data.as_slice())
    };
    PatternMatch {
        description: description.clone(),
        text,
        repo_path: repo_path.clone(),
        file: file.clone(),
        full_path: join_path(repo_path, file),
        match_type: MatchType::File,
        change_type: ChangeType::Unknown,
        commit_hash: commit.hash.clone(),
        commit_date: commit.date.clone(),
    }
}

/// Whether some filter matches a text.
pub open spec fn filtered(fs: Seq<Pattern>, t: Seq<char>) -> bool {
    exists|i: int| 0 <= i < fs.len() && (#[trigger] rule_match(fs[i], t)) is Some
}

/// Whether a record is written: captured files always, matched lines unless a filter matches their text.
pub open spec fn accepted(fs: Seq<Pattern>, m: MatchView) -> bool {
    m.match_type == MatchType::File || !filtered(fs, m.text)
}

pub fn accepts(filters: &Vec<Pattern>, m: &PatternMatch) -> (r: bool)
    ensures
        r == accepted(filters@, m@),
{
    if let MatchType::File = m.match_type {
        return true;
    }
    let mut i: usize = 0;
    while i < filters.len()
        invariant
            i <= filters@.len(),
            m.match_type == MatchType::Pattern,
            forall|k: int| 0 <= k < i ==> (#[trigger] rule_match(filters@[k], m.text@)) is None,
        decreases filters@.len() - i,
    {
        if filters[i].find_in(m.text.as_str()).is_some() {
            assert(rule_match(filters@[i as int], m.text@) is Some);
            return false;
        }
        i = i + 1;
    }
    true
}

/// The records of `ms` that are written, in order.
pub open spec fn accepted_of(fs: Seq<Pattern>, ms: Seq<MatchView>) -> Seq<MatchView>
    decreases ms.len(),
{
    if ms.len() == 0 {
        Seq::empty()
    } else {
        let rest = accepted_of(fs, ms.drop_last());
        if accepted(fs, ms.last()) {
            rest.push(ms.last())
        } else {
            rest
        }
    }
}

/// Keeps the records of a drained batch that are to be written, in order.
pub fn select_accepted(filters: &Vec<Pattern>, batch: Vec<PatternMatch>) -> (r: Vec<PatternMatch>)
    ensures
        match_views(r@) == accepted_of(filters@, match_views(batch@)),
{
    let ghost all = batch@;
    let mut r: Vec<PatternMatch> = Vec::new();
    for m in it: batch.into_iter()
        invariant
            it.seq() == all,
            match_views(r@) == accepted_of(filters@, match_views(all.take(it.index() as int))),
    {
        let ghost k = it.index() as int;
        assert(match_views(all.take(k + 1)).drop_last() =~= match_views(all.take(k)));
        assert(match_views(all.take(k + 1)).last() == m@);
        if accepts(filters, &m) {
            proof {
                lemma_match_views_push(r@, m);
            }
            r.push(m);
        }
    }
    assert(all.take(all.len() as int) =~= all);
    r
}

/// A rule that does not ask for case is compiled case-insensitively: its
/// matcher's text is its pattern text behind the `(?i)` flag.
pub proof fn lemma_case_insensitive_default(p: Pattern)
    requires
        p.wf(),
        p.case_sensitive != Some(true),
        p.regex is Some,
    ensures
        p.regex.unwrap().source() == "(?i)"@ + p.pattern@,
{
}

/// Every record of a content line carries the change of its marker: `+` an
/// addition, `-` a removal; a line with any other marker (a hunk header's `@`
/// among them) yields no record at all.
pub proof fn lemma_change_from_marker(
    ps: Seq<Pattern>,
    line: Seq<char>,
    repo: Seq<char>,
    file: Seq<char>,
    commit: Commit,
)
    ensures
        line.len() > 0 && line[0] == '+' ==> forall|k: int|
            0 <= k < line_records(ps, line, repo, file, commit).len() ==> (#[trigger] line_records(
                ps,
                line,
                repo,
                file,
                commit,
            )[k]).change_type == ChangeType::Addition,
        line.len() > 0 && line[0] == '-' ==> forall|k: int|
            0 <= k < line_records(ps, line, repo, file, commit).len() ==> (#[trigger] line_records(
                ps,
                line,
                repo,
                file,
                commit,
            )[k]).change_type == ChangeType::Removal,
        !(line.len() > 0 && (line[0] == '+' || line[0] == '-')) ==> line_records(
            ps,
            line,
            repo,
            file,
            commit,
        ).len() == 0,
    decreases ps.len(),
{
    if ps.len() > 0 {
        lemma_change_from_marker(ps.drop_last(), line, repo, file, commit);
    }
}

/// A matched line whose text an enabled filter matches is not written; a
/// disabled filter suppresses nothing.
pub proof fn lemma_filter_suppresses(fs: Seq<Pattern>, m: MatchView, i: int)
    requires
        0 <= i < fs.len(),
        m.match_type == MatchType::Pattern,
    ensures
        rule_match(fs[i], m.text) is Some ==> !accepted(fs, m),
        !is_enabled(fs[i].enabled) ==> rule_match(fs[i], m.text) is None,
        fs.len() == 1 && !is_enabled(fs[0].enabled) ==> accepted(fs, m),
{
    if fs.len() == 1 && !is_enabled(fs[0].enabled) {
        assert forall|k: int| 0 <= k < fs.len() implies (#[trigger] rule_match(fs[k], m.text)) is None by {
            assert(k == 0);
        }
    }
}

} // verus!
