//! Files, directories, redirects and modules.

use gatel_core::goals::directory::{generate_directory_listing, DirEntry};
use gatel_core::goals::file_server::{
    answer_compressed, answer_list, answer_part, answer_whole, compressed_candidates, plan_file, FileInfo,
    FileServerGoal, FileStep, ServeStep,
};
use gatel_core::goals::redirect::RedirectHandler;
use gatel_core::message::{Headers, Uri};
use gatel_core::plugin::{ModuleLoader, ModuleRegistry, ModuleResult};
use gatel_core::sorted_map::SortedMap;
use gatel_core::time::SystemTime;
use gatel_core::ProxyError;

fn entry(name: &str, is_dir: bool, size: u64) -> DirEntry {
    DirEntry {
        name: name.to_string(),
        is_dir,
        size,
        modified: Some(SystemTime { secs: 784_111_777, nanos: 0 }),
    }
}

#[test]
fn directories_come_first_in_a_list() {
    let html = generate_directory_listing(
        &vec![
            entry("b.txt", false, 2048),
            entry("A<1>", true, 0),
            entry("a b.txt", false, 5),
        ],
        "/files/",
        false,
    );
    let place = |s: &str| html.find(s).unwrap_or_else(|| panic!("no {s} in {html}"));
    assert!(place("<a href=\"/\">..</a>") < place("A&lt;1&gt;"));
    assert!(place("A&lt;1&gt;") < place("a b.txt"));
    assert!(place("a b.txt") < place("b.txt</a>"));
    assert!(html.contains("a%20b.txt"));
    assert!(html.contains("2.0 KB"));
    assert!(html.contains("Sun, 06 Nov 1994 08:49:37 GMT"));
    let root = generate_directory_listing(&Vec::new(), "/", true);
    assert!(!root.contains(">..</a>"));
}

#[test]
fn requests_become_paths_below_the_root() {
    let goal = FileServerGoal::new(
        "/srv".to_string(),
        true,
        true,
        vec!["index.html".to_string()],
    );
    assert_eq!(goal.resolve_path("/a%20b/c.txt"), Some("/srv/a b/c.txt".to_string()));
    assert_eq!(goal.resolve_path("/../etc/passwd"), None);
    assert_eq!(goal.resolve_path("/..%5cetc"), None);
    assert_eq!(goal.index_paths("/srv/a"), vec!["/srv/a/index.html".to_string()]);
    match goal.serve("/a", true, None) {
        ServeStep::Answer(r) => {
            assert_eq!(r.status, 301);
            assert_eq!(r.headers.text("location"), Some("/a/".to_string()));
        }
        other => panic!("unexpected: {other:?}"),
    }
    assert!(matches!(goal.serve("/a/", true, None), ServeStep::List));
    match goal.serve("/a/", true, Some(0)) {
        ServeStep::File(path) => assert_eq!(path, "/srv/a/index.html"),
        other => panic!("unexpected: {other:?}"),
    }
    match goal.serve("/../x", false, None) {
        ServeStep::Answer(r) => assert_eq!(r.status, 403),
        other => panic!("unexpected: {other:?}"),
    }
    let closed = FileServerGoal::new("/srv".to_string(), false, false, Vec::new());
    match closed.serve("/a/", true, None) {
        ServeStep::Answer(r) => assert_eq!(r.status, 404),
        other => panic!("unexpected: {other:?}"),
    }
}

#[test]
fn files_are_sent_whole_or_in_part() {
    let info = FileInfo {
        size: 10,
        modified: Some(SystemTime { secs: 784_111_777, nanos: 5 }),
    };
    let mut headers = Headers::new();
    assert!(matches!(plan_file(&headers, info), FileStep::Whole));
    headers.insert("range", b"bytes=2-4".to_vec());
    assert!(matches!(plan_file(&headers, info), FileStep::Part(2, 4)));
    let part = answer_part("/srv/a.txt", info, 2, 4, b"234".to_vec());
    assert_eq!(part.status, 206);
    assert_eq!(part.headers.text("content-range"), Some("bytes 2-4/10".to_string()));
    assert_eq!(part.headers.text("content-length"), Some("3".to_string()));
    headers.insert("range", b"bytes=20-".to_vec());
    match plan_file(&headers, info) {
        FileStep::Answer(r) => assert_eq!(r.status, 416),
        other => panic!("unexpected: {other:?}"),
    }
    let whole = answer_whole("/srv/a.css", info, b"0123456789".to_vec());
    assert_eq!(whole.status, 200);
    assert_eq!(
        whole.headers.text("last-modified"),
        Some("Sun, 06 Nov 1994 08:49:37 GMT".to_string())
    );
    let mut again = Headers::new();
    again.insert("if-none-match", whole.headers.get("etag").unwrap());
    match plan_file(&again, info) {
        FileStep::Answer(r) => assert_eq!(r.status, 304),
        other => panic!("unexpected: {other:?}"),
    }
    let mut accept = Headers::new();
    accept.insert("accept-encoding", b"gzip, br".to_vec());
    let forms = compressed_candidates(&accept, "/srv/a.css");
    assert!(forms.iter().any(|f| f.0 == "br" || f.1 == "br"));
    assert_eq!(answer_list("<p>").body, b"<p>".to_vec());
}

#[test]
fn redirects_fill_in_the_request() {
    let handler = RedirectHandler::new("https://b{path}?{query}".to_string(), 308);
    let uri = Uri {
        scheme: None,
        authority: None,
        path_and_query: Some("/x?y=1".to_string()),
    };
    let answer = handler.handle(&uri);
    assert_eq!(answer.status, 308);
    assert_eq!(answer.headers.text("location"), Some("https://b/x?y=1".to_string()));
}

struct Loader {
    name: &'static str,
    broken: bool,
}

impl Loader {
    fn outcome(&self) -> ModuleResult<()> {
        if self.broken {
            Err(ProxyError::Internal("broken".to_string()))
        } else {
            Ok(())
        }
    }
}

impl ModuleLoader for Loader {
    fn name(&self) -> String {
        self.name.to_string()
    }

    fn validate_config(&self, _config: &SortedMap<String, String>) -> ModuleResult<()> {
        self.outcome()
    }

    fn on_load(&self) -> ModuleResult<()> {
        self.outcome()
    }

    fn on_unload(&self) -> ModuleResult<()> {
        self.outcome()
    }

    fn on_reload(&self, _config: &SortedMap<String, String>) -> ModuleResult<()> {
        self.outcome()
    }
}

#[test]
fn modules_are_found_by_name() {
    let mut registry = ModuleRegistry::new();
    assert!(registry.is_empty());
    assert_eq!(registry.register(Loader { name: "waf", broken: false }), "waf");
    registry.register_as("geo".to_string(), Loader { name: "geoip", broken: true });
    assert_eq!(registry.len(), 2);
    assert!(registry.get("waf").is_some());
    assert!(registry.get("geoip").is_none());
    assert!(registry.load_all().is_err());
    assert_eq!(registry.unload_all().len(), 1);
    // A name that is taken again stands for the new module.
    registry.register_as("geo".to_string(), Loader { name: "geo", broken: false });
    assert_eq!(registry.len(), 2);
    assert!(registry.load_all().is_ok());
    assert!(registry.reload_all(&SortedMap::new()).is_empty());
}

#[test]
fn compressed_files_say_so() {
    let info = FileInfo { size: 10, modified: None };
    let answer = answer_compressed("/srv/a.css", info, "br", 4, b"pack".to_vec());
    assert_eq!(answer.status, 200);
    assert_eq!(answer.headers.text("content-encoding"), Some("br".to_string()));
    assert_eq!(answer.headers.text("content-length"), Some("4".to_string()));
    assert_eq!(answer.body, b"pack".to_vec());
}

#[test]
fn errors_are_answered() {
    let answer = ProxyError::BadRequest("no".to_string()).into_response();
    assert_eq!(answer.status, 400);
    assert_eq!(answer.body, b"bad request: no".to_vec());
    assert_eq!(ProxyError::NoUpstream.into_response().status, 502);
    assert_eq!(ProxyError::Internal("x".to_string()).into_response().status, 500);
}

#[test]
fn only_redirects_redirect() {
    let uri = Uri { scheme: None, authority: None, path_and_query: Some("/".to_string()) };
    for code in [301, 302, 307, 308] {
        assert_eq!(RedirectHandler::new("/x".to_string(), code).handle(&uri).status, code);
    }
    for code in [200, 300, 303, 304, 404] {
        assert_eq!(RedirectHandler::new("/x".to_string(), code).handle(&uri).status, 302);
    }
}

/// A module that has nothing but a name.
struct Bare;

impl ModuleLoader for Bare {
    fn name(&self) -> String {
        "bare".to_string()
    }
}

/// A module that takes no configuration when it is loaded again.
struct Stubborn;

impl ModuleLoader for Stubborn {
    fn name(&self) -> String {
        "stubborn".to_string()
    }

    fn on_reload(&self, config: &SortedMap<String, String>) -> ModuleResult<()> {
        match config.get(&"why".to_string()) {
            Some(why) => Err(ProxyError::Internal(why.clone())),
            None => Ok(()),
        }
    }
}

#[test]
fn modules_of_several_types_share_a_registry() {
    let mut registry: ModuleRegistry<Box<dyn ModuleLoader>> = ModuleRegistry::default();
    assert_eq!(registry.register(Box::new(Bare)), "bare");
    assert_eq!(registry.register(Box::new(Loader { name: "waf", broken: true })), "waf");
    assert_eq!(registry.register(Box::new(Stubborn)), "stubborn");
    let listed: Vec<(&str, String)> =
        registry.iter().into_iter().map(|(name, module)| (name, module.name())).collect();
    assert_eq!(
        listed,
        vec![
            ("bare", "bare".to_string()),
            ("waf", "waf".to_string()),
            ("stubborn", "stubborn".to_string()),
        ]
    );
    assert!(registry.get("bare").unwrap().validate_config(&SortedMap::new()).is_ok());
    assert_eq!(
        registry.load_all().unwrap_err().message(),
        "module 'waf' on_load failed: broken"
    );
    assert_eq!(
        registry.unload_all(),
        vec![("waf".to_string(), "broken".to_string())]
    );
    let mut own = SortedMap::new();
    own.insert("why".to_string(), "no".to_string());
    let mut configs = SortedMap::new();
    configs.insert("stubborn".to_string(), own);
    assert_eq!(
        registry.reload_all(&configs),
        vec![("stubborn".to_string(), "no".to_string())]
    );
}
