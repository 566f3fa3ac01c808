//! The harvesting side of the updater: which open pull request to look at next,
//! where its expansions file is, and which of its lines to keep.
use rustrict::CensorStr;
use vstd::prelude::*;
use crate::expansions_model::{is_comment, strings_view};
use crate::request::{lookup, PairsView};
use crate::text::{chars_of, line_ranges, lines_of, pieces, push_text, str_eq, trim, trim_range, string_of, utf8_string};
use crate::mime_type::params_view;
use vstd::utf8::{decode_utf8, valid_utf8};

verus! {

/// Whether `rustrict` classifies a text as inappropriate.
pub uninterp spec fn inappropriate(s: Seq<char>) -> bool;

/// Relies on `rustrict::CensorStr::is_inappropriate`: the profanity filter's
/// verdict on a text.
#[verifier::external_body]
fn is_inappropriate(s: &str) -> (r: bool)
    ensures
        r == inappropriate(s@),
{
    s.is_inappropriate()
}

/// The file of a pull request that holds its proposed expansions.
pub const EXPANSIONS_FILE_NAME: &'static str = "expansions.txt";

/// The repository whose pull requests propose expansions.
pub const NPM_EXPANSIONS_REPO: &'static str = "https://api.github.com/repos/npm/npm-expansions";

/// The lines of a proposed expansions file that are kept: neither comments nor
/// inappropriate, each trimmed.
pub open spec fn kept_lines(ls: Seq<Seq<char>>) -> Seq<Seq<char>>
    decreases ls.len(),
{
    if ls.len() == 0 {
        seq![]
    } else if is_comment(ls.last()) || inappropriate(ls.last()) {
        kept_lines(ls.drop_last())
    } else {
        kept_lines(ls.drop_last()).push(trim(ls.last()))
    }
}

/// The first of `open` that is not among `used`.
pub open spec fn first_unused(open: Seq<Seq<char>>, used: Seq<Seq<char>>) -> Option<Seq<char>>
    decreases open.len(),
{
    if open.len() == 0 {
        None
    } else if !used.contains(open[0]) {
        Some(open[0])
    } else {
        first_unused(open.drop_first(), used)
    }
}

/// The entries of a pull request's file listing that name both a file and its
/// raw URL.
pub open spec fn named_files(entries: Seq<(Option<String>, Option<String>)>) -> PairsView
    decreases entries.len(),
{
    if entries.len() == 0 {
        seq![]
    } else {
        let rest = named_files(entries.drop_last());
        match entries.last() {
            (Some(name), Some(url)) => rest.push((name@, url@)),
            _ => rest,
        }
    }
}

/// The repository that the updater harvests.
pub struct NpmExpansionsGithubRepo {
    repo_url: String,
}

impl NpmExpansionsGithubRepo {
    /// The base URL of the repository.
    pub closed spec fn url_spec(&self) -> Seq<char> {
        self.repo_url@
    }

    /// The repository at `repo_url`.
    pub fn new(repo_url: &str) -> (r: NpmExpansionsGithubRepo)
        ensures
            r.url_spec() == repo_url@,
    {
        NpmExpansionsGithubRepo { repo_url: repo_url.to_owned() }
    }

    /// The base URL of the repository.
    pub fn repo_url(&self) -> (r: &str)
        ensures
            r@ == self.url_spec(),
    {
        self.repo_url.as_str()
    }

    /// The URL that lists the open pull requests.
    pub fn open_prs_url(&self) -> (r: String)
        ensures
            r@ == self.url_spec() + "/pulls?state=open"@,
    {
        let mut r = self.repo_url.clone();
        push_text(&mut r, "/pulls?state=open");
        r
    }

    /// The URL that lists the files of pull request `pr_number`.
    pub fn pr_files_url(&self, pr_number: &str) -> (r: String)
        ensures
            r@ == self.url_spec() + "/pulls/"@ + pr_number@ + "/files"@,
    {
        let mut r = self.repo_url.clone();
        push_text(&mut r, "/pulls/");
        push_text(&mut r, pr_number);
        push_text(&mut r, "/files");
        r
    }

    /// The first open pull request that has not been harvested yet.
    pub fn unused_open_pr(open_pr_numbers: &Vec<String>, used_pr_numbers: &Vec<String>) -> (r: Option<String>)
        ensures
            match first_unused(strings_view(open_pr_numbers@), strings_view(used_pr_numbers@)) {
                Some(p) => r is Some && r->0@ == p,
                None => r is None,
            },
    {
        let ghost open = strings_view(open_pr_numbers@);
        let ghost used = strings_view(used_pr_numbers@);
        let mut i: usize = 0;
        assert(open.skip(0) =~= open);
        while i < open_pr_numbers.len()
            invariant
                i <= open_pr_numbers.len(),
                open == strings_view(open_pr_numbers@),
                used == strings_view(used_pr_numbers@),
                first_unused(open, used) == first_unused(open.skip(i as int), used),
            decreases open_pr_numbers.len() - i,
        {
            assert(open.skip(i as int)[0] == open_pr_numbers@[i as int]@);
            assert(open.skip(i as int).drop_first() =~= open.skip(i + 1));
            let mut seen = false;
            let mut j: usize = 0;
            while j < used_pr_numbers.len()
                invariant
                    j <= used_pr_numbers.len(),
                    used == strings_view(used_pr_numbers@),
                    i < open_pr_numbers.len(),
                    seen == exists|k: int| 0 <= k < j && used[k] == open_pr_numbers@[i as int]@,
                decreases used_pr_numbers.len() - j,
            {
                if str_eq(used_pr_numbers[j].as_str(), open_pr_numbers[i].as_str()) {
                    seen = true;
                }
                assert(used[j as int] == used_pr_numbers@[j as int]@);
                j += 1;
            }
            if !seen {
                return Some(open_pr_numbers[i].clone());
            }
            i += 1;
        }
        assert(open.skip(i as int) =~= seq![]);
        None
    }

    /// The files of a pull request's listing that name both a file and its raw
    /// URL.
    pub fn pr_file_urls(entries: &Vec<(Option<String>, Option<String>)>) -> (r: Vec<(String, String)>)
        ensures
            params_view(r@) == named_files(entries@),
    {
        let mut r: Vec<(String, String)> = Vec::new();
        let mut i: usize = 0;
        while i < entries.len()
            invariant
                i <= entries.len(),
                params_view(r@) == named_files(entries@.take(i as int)),
            decreases entries.len() - i,
        {
            assert(entries@.take(i + 1).drop_last() =~= entries@.take(i as int));
            assert(entries@.take(i + 1).last() == entries@[i as int]);
            match &entries[i] {
                (Some(name), Some(url)) => {
                    let ghost before = r@;
                    r.push((name.clone(), url.clone()));
                    assert(params_view(r@) =~= params_view(before).push((name@, url@)));
                },
                _ => {},
            }
            i += 1;
        }
        assert(entries@.take(i as int) =~= entries@);
        r
    }

    /// The raw URL of the file `filename` in a pull request's files.
    pub fn raw_url_of_pr_file(pr_files: &Vec<(String, String)>, filename: &str) -> (r: Option<String>)
        ensures
            match lookup(params_view(pr_files@), filename@) {
                Some(u) => r is Some && r->0@ == u,
                None => r is None,
            },
    {
        let ghost pv = params_view(pr_files@);
        let mut i = pr_files.len();
        assert(pv.take(i as int) =~= pv);
        while i > 0
            invariant
                i <= pr_files.len(),
                pv == params_view(pr_files@),
                lookup(pv, filename@) == lookup(pv.take(i as int), filename@),
            decreases i,
        {
            assert(pv.take(i as int).last() == pv[i - 1]);
            if str_eq(pr_files[i - 1].0.as_str(), filename) {
                return Some(pr_files[i - 1].1.clone());
            }
            assert(pv.take(i as int).drop_last() =~= pv.take(i - 1));
            i -= 1;
        }
        assert(pv.take(0) =~= seq![]);
        None
    }

    /// The text of a fetched file, when it is UTF-8.
    pub fn stringifyed_file_contents(file_bytes: &Vec<u8>) -> (r: Option<String>)
        ensures
            r is Some <==> vstd::utf8::valid_utf8(file_bytes@),
            r is Some ==> r->0@ == vstd::utf8::decode_utf8(file_bytes@),
    {
        utf8_string(file_bytes)
    }

    /// The expansions that a proposed expansions file offers: its lines that are
    /// neither comments nor inappropriate, trimmed.
    pub fn clean_expansions_string(expansions_string: &str) -> (r: Vec<String>)
        ensures
            strings_view(r@) == kept_lines(lines_of(expansions_string@)),
    {
        let chars = chars_of(expansions_string);
        let ranges = line_ranges(&chars);
        let ghost ls = lines_of(expansions_string@);
        let mut r: Vec<String> = Vec::new();
        let mut i: usize = 0;
        while i < ranges.len()
            invariant
                i <= ranges.len(),
                chars@ == expansions_string@,
                crate::text::ranges_within(ranges@, chars.len() as int),
                pieces(chars@, ranges@) == ls,
                ls == lines_of(expansions_string@),
                strings_view(r@) == kept_lines(ls.take(i as int)),
            decreases ranges.len() - i,
        {
            let (lo, hi) = ranges[i];
            assert(ls[i as int] == chars@.subrange(lo as int, hi as int));
            assert(ls.take(i + 1).drop_last() =~= ls.take(i as int));
            assert(ls.take(i + 1).last() == ls[i as int]);
            let line = string_of(&chars, lo, hi);
            let comment = hi > lo && chars[lo] == '#';
            assert(comment == is_comment(ls[i as int]));
            if !comment && !is_inappropriate(line.as_str()) {
                let (a, b) = trim_range(&chars, lo, hi);
                let kept = string_of(&chars, a, b);
                let ghost before = r@;
                r.push(kept);
                assert(strings_view(r@) =~= strings_view(before).push(kept@));
            }
            i += 1;
        }
        assert(ls.take(i as int) =~= ls);
        r
    }
}

/// What the updater learned from its last outside call.
pub enum UpdaterEvent {
    /// The numbers of the open pull requests, or `None` when listing them failed.
    OpenPrs(Option<Vec<String>>),
    /// A pull request and its file listing (name and raw URL of each entry, where
    /// present), or `None` when fetching it failed.
    PrFiles(String, Option<Vec<(Option<String>, Option<String>)>>),
    /// A pull request and the bytes of its expansions file, or `None` when
    /// fetching them failed.
    ExpansionsFile(String, Option<Vec<u8>>),
    /// The expansions of a pull request were appended to the model.
    Added(String),
}

/// What the updater does next.
pub enum UpdaterAction {
    /// Fetch the file listing of a pull request from a URL.
    FetchPrFiles(String, String),
    /// Fetch the expansions file of a pull request from a URL.
    FetchFile(String, String),
    /// Append the candidates of a pull request to the expansions model.
    AddExpansions(String, Vec<String>),
    /// Record a run for a pull request: success or failure.
    Record(String, bool),
    /// End the run, with a message for the log.
    Stop(String),
}

/// The identifier recorded when the open pull requests could not be listed.
pub open spec fn upstream_id() -> Seq<char> {
    "upstream"@
}

/// Texts as plain values, for an optional list.
pub open spec fn opt_strings(v: Option<Vec<String>>) -> Option<Seq<Seq<char>>> {
    match v {
        Some(x) => Some(strings_view(x@)),
        None => None,
    }
}

impl NpmExpansionsGithubRepo {
    /// The updater's next step after `event`, given the pull requests already
    /// recorded as `used`: list, pick the first unused pull request, find its
    /// expansions file, fetch and clean it, append, and record the outcome.
    pub fn next_action(&self, used: &Vec<String>, event: UpdaterEvent) -> (r: UpdaterAction)
        ensures
            match event {
                UpdaterEvent::OpenPrs(None) => r matches UpdaterAction::Record(pr, false)
                    && pr@ == upstream_id(),
                UpdaterEvent::OpenPrs(Some(open)) => match first_unused(
                    strings_view(open@),
                    strings_view(used@),
                ) {
                    None => r is Stop,
                    Some(p) => r matches UpdaterAction::FetchPrFiles(pr, url) && pr@ == p && url@
                        == self.url_spec() + "/pulls/"@ + p + "/files"@,
                },
                UpdaterEvent::PrFiles(pr, None) => r is Stop,
                UpdaterEvent::PrFiles(pr, Some(entries)) => match lookup(
                    named_files(entries@),
                    "expansions.txt"@,
                ) {
                    None => r matches UpdaterAction::Record(p, false) && p@ == pr@,
                    Some(u) => r matches UpdaterAction::FetchFile(p, url) && p@ == pr@ && url@ == u,
                },
                UpdaterEvent::ExpansionsFile(pr, None) => r is Stop,
                UpdaterEvent::ExpansionsFile(pr, Some(bytes)) => if valid_utf8(bytes@) {
                    r matches UpdaterAction::AddExpansions(p, xs) && p@ == pr@ && strings_view(xs@)
                        == kept_lines(lines_of(decode_utf8(bytes@)))
                } else {
                    r is Stop
                },
                UpdaterEvent::Added(pr) => r matches UpdaterAction::Record(p, true) && p@ == pr@,
            },
    {
        match event {
            UpdaterEvent::OpenPrs(None) => UpdaterAction::Record("upstream".to_owned(), false),
            UpdaterEvent::OpenPrs(Some(open)) => match Self::unused_open_pr(&open, used) {
                None => UpdaterAction::Stop("No new prs to get!".to_owned()),
                Some(pr) => {
                    let url = self.pr_files_url(pr.as_str());
                    UpdaterAction::FetchPrFiles(pr, url)
                },
            },
            UpdaterEvent::PrFiles(_pr, None) => UpdaterAction::Stop(
                "Could not fetch the files of the pull request".to_owned(),
            ),
            UpdaterEvent::PrFiles(pr, Some(entries)) => {
                let files = Self::pr_file_urls(&entries);
                match Self::raw_url_of_pr_file(&files, EXPANSIONS_FILE_NAME) {
                    None => UpdaterAction::Record(pr, false),
                    Some(url) => UpdaterAction::FetchFile(pr, url),
                }
            },
            UpdaterEvent::ExpansionsFile(_pr, None) => UpdaterAction::Stop(
                "Could not fetch the expansions file".to_owned(),
            ),
            UpdaterEvent::ExpansionsFile(pr, Some(bytes)) => match Self::stringifyed_file_contents(&bytes) {
                None => UpdaterAction::Stop("The expansions file is not UTF-8".to_owned()),
                Some(text) => UpdaterAction::AddExpansions(pr, Self::clean_expansions_string(text.as_str())),
            },
            UpdaterEvent::Added(pr) => UpdaterAction::Record(pr, true),
        }
    }
}

} // verus!
