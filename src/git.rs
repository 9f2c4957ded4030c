//! Commits and the interpretation of what the version-control tool prints.
use std::sync::Arc;
use vstd::prelude::*;
use vstd::string::StringExecFns;
use vstd::utf8::{decode_utf8, valid_utf8};
use crate::text::{
    chars_of, lines_of, skip_white, skip_white_from, split_lines, string_of, token_end,
    token_end_from, views,
};

verus! {

/// Whether a content line adds or removes text; whole files have no polarity.
#[derive(Clone, Copy, Debug, PartialEq, Eq, Structural)]
pub enum ChangeType {
    Addition,
    Removal,
    Unknown,
}

/// One commit of a repository's history.
#[derive(Clone)]
pub struct Commit {
    pub hash: String,
    pub date: String,
    /// The repository the commit was listed from, shared by all its commits.
    pub client: Option<Arc<GitClient>>,
}

/// A handle on one repository, known by its path.
pub struct GitClient {
    pub repo_path: String,
}

/// What `String::from_utf8_lossy` makes of some bytes.
pub uninterp spec fn lossy_text(b: Seq<u8>) -> Seq<char>;

/// Relies on `String::from_utf8_lossy`: valid UTF-8 is decoded as it is, and the
/// result depends on the bytes alone.
#[verifier::external_body]
pub(crate) fn decode_lossy(b: &[u8]) -> (r: String)
    ensures
        r@ == lossy_text(b@),
        valid_utf8(b@) ==> r@ == decode_utf8(b@),
{
    String::from_utf8_lossy(b).into_owned()
}

/// The hash and the date of a line of the history listing: its first two
/// whitespace-separated fields, if it has two.
pub open spec fn listing_fields(l: Seq<char>) -> Option<(Seq<char>, Seq<char>)> {
    let a = skip_white(l, 0);
    let e = token_end(l, a);
    let b = skip_white(l, e);
    let f = token_end(l, b);
    if a < e && b < f {
        Some((l.subrange(a, e), l.subrange(b, f)))
    } else {
        None
    }
}

/// The commits that the listing lines `ls` describe, in order; lines with
/// fewer than two fields describe none.
pub open spec fn listed_commits(ls: Seq<Seq<char>>) -> Seq<(Seq<char>, Seq<char>)>
    decreases ls.len(),
{
    if ls.len() == 0 {
        Seq::empty()
    } else {
        let rest = listed_commits(ls.drop_last());
        match listing_fields(ls.last()) {
            Some(p) => rest.push(p),
            None => rest,
        }
    }
}

pub open spec fn string_views(v: Seq<String>) -> Seq<Seq<char>> {
    v.map_values(|s: String| s@)
}

pub open spec fn commit_views(cs: Seq<Commit>) -> Seq<(Seq<char>, Seq<char>)> {
    cs.map_values(|c: Commit| (c.hash@, c.date@))
}

fn parse_listing_line(l: &[char]) -> (r: Option<(String, String)>)
    ensures
        match r {
            Some((h, d)) => listing_fields(l@) == Some((h@, d@)),
            None => listing_fields(l@) is None,
        },
{
    let a = skip_white_from(l, 0);
    let e = token_end_from(l, a);
    let b = skip_white_from(l, e);
    let f = token_end_from(l, b);
    if a < e && b < f {
        Some((string_of(&l[a..e]), string_of(&l[b..f])))
    } else {
        None
    }
}

/// `--<flag>="<date>"`: a date bound passed through to the history listing.
pub open spec fn date_arg(flag: Seq<char>, date: Seq<char>) -> Seq<char> {
    flag + "=\""@ + date + "\""@
}

pub open spec fn opt_arg(flag: Seq<char>, date: Option<Seq<char>>) -> Seq<Seq<char>> {
    match date {
        Some(d) => seq![date_arg(flag, d)],
        None => Seq::empty(),
    }
}

/// The arguments that list all branches' history, one `<hash> <date>` line per commit.
pub open spec fn log_args_view(since: Option<Seq<char>>, until: Option<Seq<char>>) -> Seq<Seq<char>> {
    seq!["log"@, "--format=%H %aI"@, "--branches=*"@] + opt_arg("--since"@, since) + opt_arg(
        "--until"@,
        until,
    )
}

pub open spec fn str_opt(o: Option<&str>) -> Option<Seq<char>> {
    match o {
        Some(s) => Some(s@),
        None => None,
    }
}

fn quoted_date(flag: &str, date: &str) -> (r: String)
    ensures
        r@ == date_arg(flag@, date@),
{
    String::from_str(flag).concat("=\"").concat(date).concat("\"")
}

impl GitClient {
    pub fn new(repo_path: String) -> (r: GitClient)
        ensures
            r.repo_path@ == repo_path@,
    {
        GitClient { repo_path: repo_path }
    }

    /// The arguments of the history listing, bounded by the optional dates.
    pub fn log_args(since: Option<&str>, until: Option<&str>) -> (r: Vec<String>)
        ensures
            string_views(r@) == log_args_view(str_opt(since), str_opt(until)),
    {
        let mut r: Vec<String> = Vec::new();
        r.push(String::from_str("log"));
        r.push(String::from_str("--format=%H %aI"));
        r.push(String::from_str("--branches=*"));
        assert(string_views(r@) =~= seq!["log"@, "--format=%H %aI"@, "--branches=*"@]);
        match since {
            Some(d) => {
                let a = quoted_date("--since", d);
                let ghost before = r@;
                r.push(a);
                assert(string_views(r@) =~= string_views(before).push(a@));
            },
            None => {},
        }
        assert(string_views(r@) =~= seq!["log"@, "--format=%H %aI"@, "--branches=*"@] + opt_arg(
            "--since"@,
            str_opt(since),
        ));
        match until {
            Some(d) => {
                let a = quoted_date("--until", d);
                let ghost before = r@;
                r.push(a);
                assert(string_views(r@) =~= string_views(before).push(a@));
            },
            None => {},
        }
        assert(string_views(r@) =~= log_args_view(str_opt(since), str_opt(until)));
        r
    }

    /// The arguments of a commit's zero-context diff against its parent.
    pub fn diff_args(commit: &Commit) -> (r: Vec<String>)
        ensures
            string_views(r@) == seq!["diff"@, "-U0"@, commit.hash@ + "^!"@],
    {
        let mut r: Vec<String> = Vec::new();
        r.push(String::from_str("diff"));
        r.push(String::from_str("-U0"));
        r.push(commit.hash.clone().concat("^!"));
        assert(string_views(r@) =~= seq!["diff"@, "-U0"@, commit.hash@ + "^!"@]);
        r
    }

    /// The arguments that list the paths a commit changed.
    pub fn file_names_args(commit: &Commit) -> (r: Vec<String>)
        ensures
            string_views(r@) == seq!["diff"@, "--name-only"@, commit.hash@],
    {
        let mut r: Vec<String> = Vec::new();
        r.push(String::from_str("diff"));
        r.push(String::from_str("--name-only"));
        r.push(commit.hash.clone());
        assert(string_views(r@) =~= seq!["diff"@, "--name-only"@, commit.hash@]);
        r
    }

    /// The object that `show` reads: the blob `commit` itself, or the file
    /// `path` as it stands at commit `commit`.
    pub fn show_object(commit: &str, filename: Option<&String>) -> (r: String)
        ensures
            r@ == match filename {
                Some(path) => commit@ + ":"@ + path@,
                None => commit@,
            },
    {
        match filename {
            Some(path) => String::from_str(commit).concat(":").concat(path.as_str()),
            None => String::from_str(commit),
        }
    }

    /// The commits of a history listing (one `<hash> <date>` line per commit),
    /// in listing order, with no repository attached.
    pub fn get_commits(&self, listing: &str) -> (r: Vec<Commit>)
        ensures
            commit_views(r@) == listed_commits(lines_of(listing@)),
            forall|i: int| 0 <= i < r@.len() ==> r@[i].client is None,
    {
        let text = chars_of(listing);
        let ls = split_lines(text.as_slice());
        let mut r: Vec<Commit> = Vec::new();
        let mut i: usize = 0;
        while i < ls.len()
            invariant
                i <= ls@.len(),
                views(ls@) == lines_of(listing@),
                commit_views(r@) == listed_commits(views(ls@).take(i as int)),
                forall|k: int| 0 <= k < r@.len() ==> r@[k].client is None,
            decreases ls@.len() - i,
        {
            assert(views(ls@).take(i + 1).drop_last() =~= views(ls@).take(i as int));
            match parse_listing_line(ls[i].as_slice()) {
                Some((h, d)) => {
                    r.push(Commit { hash: h, date: d, client: None });
                    assert(commit_views(r@) =~= listed_commits(views(ls@).take(i + 1)));
                },
                None => {},
            }
            i = i + 1;
        }
        assert(views(ls@).take(ls@.len() as int) =~= views(ls@));
        r
    }

    /// The text of a commit's diff, from the bytes the tool printed.
    pub fn get_commit_content(&self, diff_output: &Vec<u8>) -> (r: String)
        ensures
            r@ == lossy_text(diff_output@),
    {
        decode_lossy(diff_output.as_slice())
    }

    /// The paths a commit changed, one per line of what the tool printed.
    pub fn get_file_names_for_commit(&self, names_output: &Vec<u8>) -> (r: Vec<String>)
        ensures
            string_views(r@) == lines_of(lossy_text(names_output@)),
    {
        let text = decode_lossy(names_output.as_slice());
        let ls = split_lines(chars_of(text.as_str()).as_slice());
        let mut r: Vec<String> = Vec::new();
        let mut i: usize = 0;
        while i < ls.len()
            invariant
                i <= ls@.len(),
                string_views(r@) == views(ls@).take(i as int),
            decreases ls@.len() - i,
        {
            let line = string_of(ls[i].as_slice());
            assert(line@ == views(ls@)[i as int]);
            let ghost before = r@;
            r.push(line);
            assert(r@ == before.push(line));
            i = i + 1;
            assert(string_views(before).len() == before.len());
            assert(string_views(r@).len() == i);
            assert forall|k: int| 0 <= k < i implies #[trigger] string_views(r@)[k] == views(ls@).take(i as int)[k] by {
                assert(string_views(r@)[k] == r@[k]@);
                if k < i - 1 {
                    assert(string_views(before)[k] == views(ls@).take(i - 1)[k]);
                    assert(string_views(before)[k] == before[k]@);
                } else {
                    assert(r@[k] == line);
                }
            }
            assert(string_views(r@) =~= views(ls@).take(i as int));
        }
        assert(views(ls@).take(ls@.len() as int) =~= views(ls@));
        r
    }
}

} // verus!
