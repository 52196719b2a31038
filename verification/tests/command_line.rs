use trinity::cli::{
    build_manifest, listing_url, module_file_name, module_url, parse_command, search_hits, search_listing, trpip_action,
    Command, TrpipAction,
};

fn args(xs: &[&str]) -> Vec<String> {
    xs.iter().map(|s| s.to_string()).collect()
}

#[test]
fn too_few_arguments_show_the_usage() {
    assert!(matches!(parse_command(&args(&["trinity"])), Command::Usage));
    assert!(matches!(parse_command(&args(&[])), Command::Usage));
}

#[test]
fn trpip_takes_the_rest_of_the_arguments() {
    match parse_command(&args(&["trinity", "trpip", "install", "math"])) {
        Command::Trpip(rest) => assert_eq!(rest, args(&["install", "math"])),
        _ => panic!("expected trpip"),
    }
    match parse_command(&args(&["trinity", "trpip"])) {
        Command::Trpip(rest) => assert!(rest.is_empty()),
        _ => panic!("expected trpip"),
    }
}

#[test]
fn a_file_is_run_or_built() {
    match parse_command(&args(&["trinity", "hello.tr", "--run"])) {
        Command::Run { input, build } => {
            assert_eq!(input, "hello.tr");
            assert!(!build);
        }
        _ => panic!("expected run"),
    }
    match parse_command(&args(&["trinity", "app.tr", "--build"])) {
        Command::Run { input, build } => {
            assert_eq!(input, "app.tr");
            assert!(build);
        }
        _ => panic!("expected run"),
    }
    match parse_command(&args(&["--build", "app.tr"])) {
        Command::Run { build, .. } => assert!(build),
        _ => panic!("expected run"),
    }
    match parse_command(&args(&["trinity", "app.tr", "--builds"])) {
        Command::Run { build, .. } => assert!(!build),
        _ => panic!("expected run"),
    }
}

#[test]
fn package_manager_verbs() {
    assert!(matches!(trpip_action(&args(&[])), TrpipAction::Help));
    assert!(matches!(trpip_action(&args(&["uninstall", "x"])), TrpipAction::Help));
    assert!(matches!(trpip_action(&args(&["remove", "math"])), TrpipAction::Remove(Some(n)) if n == "math"));
    assert!(matches!(trpip_action(&args(&["remove"])), TrpipAction::Remove(None)));
    assert!(matches!(trpip_action(&args(&["list"])), TrpipAction::List));
    assert!(matches!(trpip_action(&args(&["install"])), TrpipAction::Install(None)));
    assert!(matches!(trpip_action(&args(&["install", "math"])), TrpipAction::Install(Some(n)) if n == "math"));
    assert!(matches!(trpip_action(&args(&["search"])), TrpipAction::Search(q) if q.is_empty()));
    assert!(matches!(trpip_action(&args(&["search", "ma"])), TrpipAction::Search(q) if q == "ma"));
}

#[test]
fn addresses_and_file_names() {
    assert_eq!(
        module_url("math"),
        "https://raw.githubusercontent.com/ivan2002312/Trinity-Module/main/math/math.trm"
    );
    assert_eq!(module_file_name("strings"), "strings.trm");
    assert_eq!(
        build_manifest("app"),
        "[package]\nname = \"app\"\nversion = \"0.1.0\"\nedition = \"2021\"\n\n[[bin]]\nname = \"app\"\npath = \"app.rs\""
    );
    assert_eq!(listing_url(), "https://api.github.com/repos/ivan2002312/Trinity-Module/contents");
}

fn entry(name: Option<&str>, kind: Option<&str>) -> (Option<String>, Option<String>) {
    (name.map(|s| s.to_string()), kind.map(|s| s.to_string()))
}

#[test]
fn search_shows_directories_that_hold_the_text() {
    let es = vec![
        entry(Some(".git"), Some("dir")),
        entry(Some("math"), Some("dir")),
        entry(Some("README.md"), Some("file")),
        entry(Some("strings"), Some("dir")),
        entry(None, Some("dir")),
        entry(Some("mathx"), None),
    ];
    assert_eq!(search_hits(&es, ""), vec!["math".to_string(), "strings".to_string(), String::new()]);
    assert_eq!(search_hits(&es, "at"), vec!["math".to_string()]);
    assert_eq!(search_hits(&es, "rings"), vec!["strings".to_string()]);
    assert!(search_hits(&es, "zzz").is_empty());
    assert!(search_hits(&es, "mathematics").is_empty());
}

#[test]
fn search_reads_the_listing_json() {
    let body = r#"[{"name":"math","type":"dir"},{"name":".git","type":"dir"},
                  {"name":"notes.txt","type":"file"},{"name":"matrix","type":"dir"},
                  {"name":7,"type":"dir"},{"type":"dir"}]"#;
    assert_eq!(
        search_listing(body, "ma"),
        Some(vec!["math".to_string(), "matrix".to_string()])
    );
    assert_eq!(
        search_listing(body, ""),
        Some(vec!["math".to_string(), "matrix".to_string(), String::new(), String::new()])
    );
    assert_eq!(search_listing("[]", "x"), Some(Vec::new()));
    assert_eq!(search_listing("{\"name\":\"math\"}", ""), None);
    assert_eq!(search_listing("not json", ""), None);
}
