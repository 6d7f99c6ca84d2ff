use hwatud_core::downloads::{
    candidate_name, download_dir, download_notice, expand_home, notice_target, home, save_name, user_dirs_path, xdg_download_dir,
    DownloadRecord, DownloadState, NameSearch, RecordUpdate, Registry, REGISTRY_CAP,
};
use hwatud_core::text::path_join_exec;

fn record(url: &str) -> DownloadRecord {
    DownloadRecord {
        id: 0,
        url: url.to_string(),
        destination: None,
        state: DownloadState::Active,
        error: None,
        window: Some(3),
        started_at: 1_700_000_000,
    }
}

#[test]
fn expand_home_tilde() {
    let h = "/home/agent";
    assert_eq!(expand_home("~/x", h), "/home/agent/x".to_string());
    assert_eq!(expand_home("/abs/x", h), "/abs/x".to_string());
}

#[test]
fn expand_home_leaves_other_tildes() {
    assert_eq!(expand_home("~x", "/h"), "~x");
    assert_eq!(expand_home("~/", "/h"), "/h/");
    assert_eq!(expand_home("~//abs", "/h"), "/abs");
}

#[test]
fn home_falls_back_to_tmp() {
    assert_eq!(home(None), "/tmp");
    assert_eq!(home(Some("/home/u".to_string())), "/home/u");
}

#[test]
fn path_join_rules() {
    assert_eq!(path_join_exec("/a", "b"), "/a/b");
    assert_eq!(path_join_exec("/a/", "b"), "/a/b");
    assert_eq!(path_join_exec("/a", "/b"), "/b");
    assert_eq!(path_join_exec("", "b"), "b");
    assert_eq!(path_join_exec("a", ""), "a/");
}

#[test]
fn candidate_names_follow_counter() {
    assert_eq!(candidate_name("a.txt", 0), "a.txt");
    assert_eq!(candidate_name("a.txt", 1), "a (1).txt");
    assert_eq!(candidate_name("a.txt", 2), "a (2).txt");
    assert_eq!(candidate_name("README", 0), "README");
    assert_eq!(candidate_name("README", 1), "README (1)");
    assert_eq!(candidate_name(".bashrc", 1), ".bashrc (1)");
    assert_eq!(candidate_name("x.tar.gz", 12), "x.tar (12).gz");
    assert_eq!(candidate_name("report.pdf", 10), "report (10).pdf");
}

#[test]
fn save_name_defaults_to_download() {
    assert_eq!(save_name(""), "download");
    assert_eq!(save_name("a.zip"), "a.zip");
}

#[test]
fn download_dir_prefers_setting() {
    assert_eq!(download_dir(Some("  ~/dl  "), Some("XDG_DOWNLOAD_DIR=\"/x\""), "/h"), "/h/dl");
    assert_eq!(download_dir(Some("/srv/dl"), None, "/h"), "/srv/dl");
}

#[test]
fn download_dir_blank_setting_falls_through() {
    assert_eq!(download_dir(Some("   "), Some("XDG_DOWNLOAD_DIR=\"$HOME/Dl\"\n"), "/h"), "/h/Dl");
    assert_eq!(download_dir(None, None, "/h"), "/h/Downloads");
    assert_eq!(download_dir(None, Some("# nothing\n"), "/h"), "/h/Downloads");
}

#[test]
fn xdg_entry_parsing() {
    let text = "# written by xdg-user-dirs-update\nXDG_DESKTOP_DIR=\"$HOME/Desktop\"\n  XDG_DOWNLOAD_DIR=\"$HOME/Downloads/inbox\"  \r\n";
    assert_eq!(xdg_download_dir(Some(text), "/home/u"), Some("/home/u/Downloads/inbox".to_string()));
    assert_eq!(xdg_download_dir(Some("XDG_DOWNLOAD_DIR=\"/data/dl\""), "/h"), Some("/data/dl".to_string()));
    assert_eq!(xdg_download_dir(Some("XDG_DOWNLOAD_DIR=\"$HOME\""), "/h"), None);
    assert_eq!(xdg_download_dir(Some("XDG_DOWNLOAD_DIR=\"$HOME/\""), "/h"), None);
    assert_eq!(download_dir(None, Some("XDG_DOWNLOAD_DIR=\"$HOME/\"\n"), "/h"), "/h/Downloads");
    assert_eq!(xdg_download_dir(Some(""), "/h"), None);
    assert_eq!(xdg_download_dir(None, "/h"), None);
    // The first matching line decides.
    assert_eq!(
        xdg_download_dir(Some("XDG_DOWNLOAD_DIR=/a\nXDG_DOWNLOAD_DIR=/b\n"), "/h"),
        Some("/a".to_string())
    );
}

#[test]
fn user_dirs_location() {
    assert_eq!(user_dirs_path(None, "/h"), "/h/.config/user-dirs.dirs");
    assert_eq!(user_dirs_path(Some("/cfg"), "/h"), "/cfg/user-dirs.dirs");
}

#[test]
fn registry_assigns_increasing_ids() {
    let mut r = Registry::new();
    assert_eq!(r.insert(record("https://a/1")), 1);
    assert_eq!(r.insert(record("https://a/2")), 2);
    let all = r.list(None);
    assert_eq!(all.len(), 2);
    assert_eq!(all[0].id, 1);
    assert_eq!(all[1].url, "https://a/2");
}

#[test]
fn registry_read_after_insert() {
    let mut r = Registry::new();
    r.insert(record("https://a/1"));
    let id = r.insert(record("https://a/2"));
    let newest = r.list(Some(1));
    assert_eq!(newest.len(), 1);
    assert_eq!(newest[0].id, id);
    assert_eq!(newest[0].url, "https://a/2");
    assert_eq!(r.list(Some(50)).len(), 2);
    assert_eq!(r.list(Some(0)).len(), 0);
}

#[test]
fn registry_evicts_oldest_at_cap() {
    let mut r = Registry::new();
    for i in 0..(REGISTRY_CAP + 5) {
        r.insert(record(&format!("https://a/{i}")));
    }
    let all = r.list(None);
    assert_eq!(all.len(), REGISTRY_CAP);
    assert_eq!(all[0].id, 6);
    assert_eq!(all[REGISTRY_CAP - 1].id, (REGISTRY_CAP + 5) as u64);
}

#[test]
fn registry_updates_lifecycle() {
    let mut r = Registry::new();
    let a = r.insert(record("https://a/1"));
    let b = r.insert(record("https://a/2"));
    r.update(a, RecordUpdate::Destination("/d/a".to_string()));
    r.update(a, RecordUpdate::Finished("/d/a (1)".to_string()));
    r.update(b, RecordUpdate::Failed("network".to_string()));
    r.update(b, RecordUpdate::Finished("/d/b".to_string()));
    r.update(99, RecordUpdate::Failed("ignored".to_string()));
    let all = r.list(None);
    assert_eq!(all[0].state, DownloadState::Finished);
    assert_eq!(all[0].destination.as_deref(), Some("/d/a (1)"));
    assert_eq!(all[1].state, DownloadState::Failed);
    assert_eq!(all[1].error.as_deref(), Some("network"));
    assert_eq!(all[1].destination.as_deref(), Some("/d/b"));
    assert_eq!(all[1].state.as_str(), "failed");
    assert_eq!(all[0].state.as_str(), "finished");
}

#[test]
fn download_notices() {
    assert_eq!(
        download_notice(&RecordUpdate::Finished("/d/a.txt".to_string())),
        Some(("saved /d/a.txt".to_string(), 5))
    );
    assert_eq!(
        download_notice(&RecordUpdate::Failed("network".to_string())),
        Some(("download failed: network".to_string(), 8))
    );
    assert_eq!(download_notice(&RecordUpdate::Destination("/d/a.txt".to_string())), None);
}

#[test]
fn name_search_tries_candidates_in_turn() {
    let taken = ["a.txt", "a (1).txt"];
    let mut search = NameSearch::new("a.txt");
    let mut tried = Vec::new();
    let free = loop {
        let c = search.candidate();
        tried.push(c.clone());
        if let Some(free) = search.step(taken.contains(&c.as_str())) {
            break free;
        }
    };
    assert_eq!(free, "a (2).txt");
    assert_eq!(tried, vec!["a.txt", "a (1).txt", "a (2).txt"]);
    let mut search = NameSearch::new("README");
    assert_eq!(search.step(false), Some("README".to_string()));
    assert_eq!(search.n, 0);
}

#[test]
fn notice_goes_to_owner_or_any_window() {
    assert_eq!(notice_target(Some(4), &vec![2, 4, 7]), Some(4));
    assert_eq!(notice_target(Some(9), &vec![2, 4, 7]), Some(2));
    assert_eq!(notice_target(None, &vec![7]), Some(7));
    assert_eq!(notice_target(Some(1), &vec![]), None);
}

#[test]
fn name_search_settles_on_least_free_name() {
    let search_in = |name: &str, taken: &[&str]| {
        let mut search = NameSearch::new(name);
        loop {
            let c = search.candidate();
            if let Some(free) = search.step(taken.contains(&c.as_str())) {
                break free;
            }
        }
    };
    assert_eq!(search_in(".bashrc", &[".bashrc"]), ".bashrc (1)");
    assert_eq!(search_in("a.txt", &[]), "a.txt");
    assert_eq!(search_in("a.txt", &["a.txt", "a (2).txt"]), "a (1).txt");
}
