use chrono::TimeZone;
use npm_expansions::add;
use npm_expansions::expansions_getter::{NpmExpansionsGithubRepo, UpdaterAction, UpdaterEvent};
use npm_expansions::expansions_model::{appended_text, ExpansionsModel, NpmExpansions};
use npm_expansions::expansions_updater::{outcome, sleep_millis, UpdaterError, DEFAULT_UPDATE_INTERVAL_MILLIS};
use npm_expansions::history_model::{HistoryEntry, HistoryModel, HistoryModelError};
use npm_expansions::npm_expansion_error::{NpmErrorKind, NpmExpansionsError};

const NACHOS: &str = "Nacho Pizza Marinade\nNacho Portion Monitor\nNacho Portmanteau Meltdown\nNacho Printing Machine\nNachos Pillage Milwaukee\nNachos Preventing Motivation\nNadie Programa más\nNagging Penguin Matriarchs\nNahi Pata Mujhe!\nNail Polish Makeover\nNail Polishing Minions\nNaive Pac Man\nNaive Props Mutation\nNaive Puppets Marching";

fn strings(v: &[&str]) -> Vec<String> {
    v.iter().map(|s| s.to_string()).collect()
}

#[test]
fn it_works() {
    let result = add(2, 2);
    assert_eq!(result, 4);
}

#[test]
fn random_expansion() {
    let model = ExpansionsModel::new("expansions.txt", "Nacho Pizza Marinade \n Nacho Portion Monitor \n Nacho Portmanteau Meltdown");
    let expansion = model.random_expansion();
    assert!(!expansion.is_empty());
    assert!(model.all().contains(&expansion));
}

#[test]
fn all_expansions() {
    let model = ExpansionsModel::new("expansions.txt", "Nacho Pizza Marinade \n Nacho Portion Monitor \n Nacho Portmanteau Meltdown");
    assert_eq!(model.all().len(), 3)
}

#[test]
fn search_expansions_exact_match() {
    let expansions = ExpansionsModel::new("expansions.txt", NACHOS).search("Nachos Pillage Milwaukee");
    assert_eq!(expansions.first().unwrap(), "Nachos Pillage Milwaukee")
}

#[test]
fn search_expansions_returns_top_ten() {
    let expansions = ExpansionsModel::new("expansions.txt", NACHOS).search("Nachos Pillage Milwaukee");
    assert_eq!(expansions.len(), 10)
}

#[test]
fn search_of_few_expansions_returns_all() {
    let model = ExpansionsModel::new("expansions.txt", "b\na\nb");
    let found = model.search("zzz");
    assert_eq!(found.len(), 3);
    let empty = ExpansionsModel::new("expansions.txt", "");
    assert!(empty.search("x").is_empty());
}

#[test]
fn search_ties_keep_file_order() {
    let model = ExpansionsModel::new("expansions.txt", "same\nother\nsame");
    let found = model.search("same");
    assert_eq!(found, strings(&["same", "same", "other"]));
}

#[test]
fn comments_are_not_expansions() {
    let model = ExpansionsModel::new("expansions.txt", "# header\nnode package manager\r\n#x\nnpm\n");
    assert_eq!(model.all(), &strings(&["node package manager", "npm"]));
    assert_eq!(model.expansions_file(), "expansions.txt");
}

#[test]
fn writes_new_expansions() {
    let model = ExpansionsModel::new("expansions.txt", "");
    let written = model.update_expansions_file(&strings(&["no manager please", "nix program mistress"]));
    assert_eq!(appended_text(&written), "no manager please\nnix program mistress\n")
}

#[test]
fn append_skips_known_expansions() {
    let model = ExpansionsModel::new("expansions.txt", "a\nb\n");
    let written = model.update_expansions_file(&strings(&["b", "c", "a", "d"]));
    assert_eq!(written, strings(&["c", "d"]));
}

#[test]
fn append_idempotence_scenario() {
    let mut file = String::new();
    let mut model = ExpansionsModel::new("expansions.txt", &file);
    let written = model.update_expansions_file(&strings(&["a", "b"]));
    file.push_str(&appended_text(&written));
    model.reload(&file);
    let written = model.update_expansions_file(&strings(&["a", "b", "c"]));
    file.push_str(&appended_text(&written));
    model.reload(&file);
    assert_eq!(file, "a\nb\nc\n");
    assert_eq!(model.all(), &strings(&["a", "b", "c"]));
}

#[test]
fn append_twice_changes_nothing_more() {
    let mut file = String::from("# comment\nx\n");
    let xs = strings(&["y", "x", "z"]);
    let mut model = ExpansionsModel::new("expansions.txt", &file);
    file.push_str(&appended_text(&model.update_expansions_file(&xs)));
    let once = file.clone();
    model.reload(&file);
    file.push_str(&appended_text(&model.update_expansions_file(&xs)));
    assert_eq!(file, once);
}

#[test]
fn valid_file() {
    let text = "2023-01-01T00:00:00+00:00,4301,success\n2023-01-02T00:00:00+00:00,4302,failure\n";
    let model = HistoryModel::new("history.txt", text).unwrap();
    assert_eq!(model.history_entries().len(), 2);
    assert_eq!(model.pr_numbers(), strings(&["4301", "4302"]));
    let latest = model.latest_entry().unwrap();
    assert_eq!(latest.pr_number, "4302");
    assert_eq!(latest.status, "failure");
    assert_eq!(latest.timestamp_millis, 1672617600000);
    assert_eq!(model.history_file(), "history.txt");
}

#[test]
#[should_panic]
fn file_with_missing_comma() {
    HistoryModel::new("history.txt", "2023-01-01T00:00:00+00:00,4301success\n").unwrap();
}

#[test]
#[should_panic]
fn file_with_incorrect_date() {
    HistoryModel::new("history.txt", "2023-13-01T00:00:00+00:00,4301,success\n").unwrap();
}

#[test]
#[should_panic]
fn file_with_no_pr_number() {
    HistoryModel::new("history.txt", "2023-01-01T00:00:00+00:00\n").unwrap();
}

#[test]
#[should_panic]
fn file_with_no_status() {
    HistoryModel::new("history.txt", "2023-01-01T00:00:00+00:00,4301\n").unwrap();
}

#[test]
fn empty_history() {
    let model = HistoryModel::new("history.txt", "").unwrap();
    assert!(model.latest_entry().is_none());
    assert!(model.pr_numbers().is_empty());
}

#[test]
fn writes_new_pr_number() {
    let mut model = HistoryModel::new("history.txt", "").unwrap();
    let line = model.update_history_file(1672531200000, "4301", "success").unwrap();
    assert_eq!(line, "2023-01-01T00:00:00+00:00,4301,success\n");
    assert_eq!(model.pr_numbers(), strings(&["4301"]));
}

#[test]
fn writes_multiple_pr_numbers() {
    let mut model = HistoryModel::from(Vec::new());
    let mut file = String::new();
    file.push_str(&model.update_history_file(1672531200000, "4301", "success").unwrap());
    file.push_str(&model.update_history_file(1672617600000, "4302", "failure").unwrap());
    let before = model.pr_numbers();
    model.reload(&file).unwrap();
    assert_eq!(model.pr_numbers(), before);
    assert_eq!(model.pr_numbers(), strings(&["4301", "4302"]));
}

#[test]
fn pr_ids_after_append_scenario() {
    let entries = vec![HistoryEntry { timestamp_millis: 0, pr_number: "1".to_string(), status: "success".to_string() }];
    let mut model = HistoryModel::from(entries);
    model.update_history_file(1000, "2", "failure").unwrap();
    model.update_history_file(2000, "1", "failure").unwrap();
    let mut ids = model.pr_numbers();
    ids.sort();
    ids.dedup();
    assert_eq!(ids, strings(&["1", "2"]));
}

#[test]
fn history_errors_carry_messages() {
    let err: HistoryModelError = HistoryModel::new("h", "bad\n").err().unwrap();
    assert!(!err.message().is_empty());
    assert_eq!(HistoryModelError::from("m").message(), "m");
}

#[test]
fn correctly_returns_expansions() {
    let files = vec![
        ("expansions.txt".to_string(), "https://npm.com/expansions.txt".to_string()),
        ("metadata.txt".to_string(), "expansions are fun!".to_string()),
    ];
    let url = NpmExpansionsGithubRepo::raw_url_of_pr_file(&files, "expansions.txt").unwrap();
    assert_eq!(url, "https://npm.com/expansions.txt");
    let expansions = NpmExpansionsGithubRepo::clean_expansions_string("node package manager\r\nno purpose much\r\nnice puppet master\r\n");
    assert_eq!(expansions, vec!["node package manager", "no purpose much", "nice puppet master"])
}

#[test]
fn unused_open_pr_returns_first_unused_number() {
    let open = strings(&["4301", "4302", "4303"]);
    let expansions = NpmExpansionsGithubRepo::unused_open_pr(&open, &strings(&["4301"]));
    assert_eq!(expansions.unwrap(), "4302")
}

#[test]
fn no_unused_open_pr_returns_first_unused_number() {
    let open = strings(&["4301", "4302", "4303"]);
    let expansions = NpmExpansionsGithubRepo::unused_open_pr(&open, &strings(&["4301", "4302", "4303"]));
    assert!(expansions.is_none())
}

#[test]
fn pr_files_need_name_and_url() {
    let entries = vec![
        (Some("a.txt".to_string()), Some("u1".to_string())),
        (None, Some("u2".to_string())),
        (Some("b.txt".to_string()), None),
        (Some("expansions.txt".to_string()), Some("u3".to_string())),
    ];
    let files = NpmExpansionsGithubRepo::pr_file_urls(&entries);
    assert_eq!(files, vec![("a.txt".to_string(), "u1".to_string()), ("expansions.txt".to_string(), "u3".to_string())]);
    assert!(NpmExpansionsGithubRepo::raw_url_of_pr_file(&files, "b.txt").is_none());
}

#[test]
fn proposed_file_is_cleaned() {
    let kept = NpmExpansionsGithubRepo::clean_expansions_string("# comment\n  nice package manager  \n\nnpm\n");
    assert_eq!(kept, strings(&["nice package manager", "", "npm"]));
    assert_eq!(NpmExpansionsGithubRepo::stringifyed_file_contents(&b"npm\n".to_vec()).unwrap(), "npm\n");
    assert!(NpmExpansionsGithubRepo::stringifyed_file_contents(&vec![0xff, 0xfe]).is_none());
}

#[test]
fn repo_urls() {
    let repo = NpmExpansionsGithubRepo::new("https://api.github.com/repos/npm/npm-expansions");
    assert_eq!(repo.open_prs_url(), "https://api.github.com/repos/npm/npm-expansions/pulls?state=open");
    assert_eq!(repo.pr_files_url("4301"), "https://api.github.com/repos/npm/npm-expansions/pulls/4301/files");
    assert_eq!(repo.repo_url(), "https://api.github.com/repos/npm/npm-expansions");
}

#[test]
fn updater_sleep() {
    assert_eq!(sleep_millis(10_000, None, DEFAULT_UPDATE_INTERVAL_MILLIS), 0);
    assert_eq!(sleep_millis(10_000, Some(4_000), 10_000), 4_000);
    assert_eq!(sleep_millis(20_000, Some(4_000), 10_000), 0);
    assert_eq!(sleep_millis(i64::MIN, Some(i64::MAX), i64::MAX), u64::MAX);
    assert_eq!(DEFAULT_UPDATE_INTERVAL_MILLIS, 14 * 24 * 60 * 60 * 1000);
    assert_eq!(outcome(true), "success");
    assert_eq!(outcome(false), "failure");
    assert_eq!(UpdaterError::from("no new prs").message(), "no new prs");
}

#[test]
fn error_values() {
    let e = NpmExpansionsError::new(NpmErrorKind::RouteNotFound, "missing");
    assert!(matches!(e.kind(), NpmErrorKind::RouteNotFound));
    assert_eq!(e.message(), "missing");
    assert_eq!(NpmExpansionsError::from(NpmErrorKind::InternalServerError).message(), "An NPM expansion error occured");
}

#[test]
fn returns_valid_expansion() {
    let expansion_one = NpmExpansions::new("no please manager").random_expansion();
    assert!(!expansion_one.is_empty())
}

#[test]
fn plain_list_skips_comments_and_searches_by_distance() {
    let list = NpmExpansions::new("* title\n# note\nnpm\nnode package manager\nnpn");
    assert_eq!(list.expansions(), &strings(&["* title", "npm", "node package manager", "npn"]));
    assert_eq!(list.levenshtein_search("npm"), strings(&["npm", "npn", "* title", "node package manager"]));
}

#[test]
fn updater_steps() {
    let repo = NpmExpansionsGithubRepo::new("https://x/repo");
    let used = strings(&["1"]);
    match repo.next_action(&used, UpdaterEvent::OpenPrs(Some(strings(&["1", "2"])))) {
        UpdaterAction::FetchPrFiles(pr, url) => {
            assert_eq!(pr, "2");
            assert_eq!(url, "https://x/repo/pulls/2/files");
        }
        _ => panic!("expected a file listing fetch"),
    }
    assert!(matches!(repo.next_action(&used, UpdaterEvent::OpenPrs(Some(strings(&["1"])))), UpdaterAction::Stop(_)));
    assert!(matches!(repo.next_action(&used, UpdaterEvent::OpenPrs(None)), UpdaterAction::Record(p, false) if p == "upstream"));
    let listing = vec![(Some("expansions.txt".to_string()), Some("https://raw/e".to_string()))];
    assert!(matches!(repo.next_action(&used, UpdaterEvent::PrFiles("2".to_string(), Some(listing))), UpdaterAction::FetchFile(p, u) if p == "2" && u == "https://raw/e"));
    assert!(matches!(repo.next_action(&used, UpdaterEvent::PrFiles("2".to_string(), Some(Vec::new()))), UpdaterAction::Record(p, false) if p == "2"));
    match repo.next_action(&used, UpdaterEvent::ExpansionsFile("2".to_string(), Some(b"# c\nnpm\n".to_vec()))) {
        UpdaterAction::AddExpansions(pr, xs) => {
            assert_eq!(pr, "2");
            assert_eq!(xs, strings(&["npm"]));
        }
        _ => panic!("expected expansions to add"),
    }
    assert!(matches!(repo.next_action(&used, UpdaterEvent::ExpansionsFile("2".to_string(), Some(vec![0xff]))), UpdaterAction::Stop(_)));
    assert!(matches!(repo.next_action(&used, UpdaterEvent::Added("2".to_string())), UpdaterAction::Record(p, true) if p == "2"));
}

fn entry(ms: i64, pr: &str, status: &str) -> HistoryEntry {
    HistoryEntry { timestamp_millis: ms, pr_number: pr.to_string(), status: status.to_string() }
}

fn millis(y: i32, m: u32, d: u32) -> i64 {
    chrono::Utc.with_ymd_and_hms(y, m, d, 0, 0, 0).unwrap().timestamp_millis()
}

#[test]
fn history_model_returns_pr_numbers() {
    let now = chrono::Utc::now().timestamp_millis();
    let model = HistoryModel::from(vec![entry(now, "4301", "success"), entry(now, "4302", "success")]);
    assert_eq!(model.pr_numbers(), vec!["4301".to_string(), "4302".to_string()])
}

#[test]
fn returns_correct_date() {
    let model = HistoryModel::from(vec![
        entry(millis(2022, 2, 2), "4301", "success"),
        entry(millis(2022, 2, 3), "4302", "success"),
    ]);
    assert_eq!(model.latest_entry().unwrap().timestamp_millis, millis(2022, 2, 3))
}

#[test]
fn returns_correct_pr_number() {
    let model = HistoryModel::from(vec![
        entry(millis(2022, 2, 2), "4301", "success"),
        entry(millis(2022, 2, 3), "4302", "success"),
    ]);
    assert_eq!(model.latest_entry().unwrap().pr_number, "4302")
}
