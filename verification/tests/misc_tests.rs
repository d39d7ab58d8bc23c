use pwdmgr::cache::Cache;
use pwdmgr::convert::Format;
use pwdmgr::filemgr::FileManagerError;
use pwdmgr::http::{HttpMethod, HttpResponse, HttpServer, HttpStatus};
use pwdmgr::log_analyzer::{LogDate, LogEntry, LogLevel};
use pwdmgr::plugin::{GreetPlugin, Plugin, PluginBox, PluginManager, ReversePlugin, UppercasePlugin};
use pwdmgr::projgen::{generate_template_files, TemplateType};
use pwdmgr::rpn::CalcError;
use pwdmgr::search::{line_matches, matches_criteria};
use pwdmgr::task_store::{PriorityLevel, TaskStore};
use pwdmgr::tasks::{add_task, clear_task, set_description, set_priority, toggle_completed, Priority, Task};

#[test]
fn test_cache_insert_get() {
    let mut cache: Cache<String> = Cache::new(10);
    cache.insert(1, String::from("one"), 100);
    assert_eq!(cache.get(&1, 105), Some(&String::from("one")));
    assert_eq!(cache.get(&2, 105), None);
    assert_eq!(cache.len(), 1);
}

#[test]
fn test_cache_expiry() {
    let mut cache: Cache<u32> = Cache::new(10);
    cache.insert(1, 11, 100);
    assert_eq!(cache.get(&1, 110), Some(&11));
    assert_eq!(cache.get(&1, 111), None);
    assert_eq!(cache.len(), 0);
}

#[test]
fn test_cache_cleanup() {
    let mut cache: Cache<u32> = Cache::new(10);
    cache.insert(1, 11, 0);
    cache.insert(2, 22, 100);
    cache.insert(3, 33, 100);
    cache.cleanup_expired(50);
    assert_eq!(cache.len(), 2);
    assert_eq!(cache.get(&1, 50), None);
    assert_eq!(cache.get(&2, 50), Some(&22));
}

#[test]
fn test_cache_replace() {
    let mut cache: Cache<u32> = Cache::new(10);
    cache.insert(1, 11, 0);
    cache.insert(1, 12, 1);
    assert_eq!(cache.len(), 1);
    assert_eq!(cache.get(&1, 5), Some(&12));
}

#[test]
fn test_plugins_execute() {
    assert_eq!(GreetPlugin.execute("World").unwrap(), "Hello, World!");
    assert_eq!(ReversePlugin.execute("abc").unwrap(), "cba");
    assert_eq!(UppercasePlugin.execute("hé ho").unwrap(), "HÉ HO");
    assert_eq!(GreetPlugin.name(), "GreetPlugin");
    assert_eq!(GreetPlugin.version(), "1.0.0");
}

#[test]
fn test_plugin_manager() {
    let mut mgr = PluginManager::new();
    mgr.register(PluginBox::Greet(GreetPlugin));
    mgr.register(PluginBox::Reverse(ReversePlugin));
    assert!(mgr.get_plugin("GreetPlugin").is_some());
    assert!(mgr.get_plugin("NoSuchPlugin").is_none());
    assert_eq!(mgr.execute_plugin("GreetPlugin", "World").unwrap(), "Hello, World!");
    assert_eq!(mgr.execute_plugin("ReversePlugin", "abc").unwrap(), "cba");
    assert_eq!(
        mgr.execute_plugin("UppercasePlugin", "x"),
        Err(String::from("Plugin is disabled"))
    );
    assert!(mgr.disable("GreetPlugin"));
    assert_eq!(
        mgr.execute_plugin("GreetPlugin", "x"),
        Err(String::from("Plugin is disabled"))
    );
    assert!(mgr.enable("GreetPlugin"));
    assert_eq!(mgr.execute_plugin("GreetPlugin", "x").unwrap(), "Hello, x!");
    assert!(!mgr.enable("NoSuchPlugin"));
    assert_eq!(mgr.unregister("GreetPlugin"), Ok(true));
    assert!(mgr.get_plugin("GreetPlugin").is_none());
    assert_eq!(mgr.unregister("GreetPlugin"), Err(String::from("Plugin not found")));
}

#[test]
fn test_parse_request() {
    let req = HttpServer::parse_request(
        "GET /about HTTP/1.1\r\nHost: example.com\r\nAccept: text/html\r\n\r\n",
    )
    .unwrap();
    assert_eq!(req.method, HttpMethod::GET);
    assert_eq!(req.path, "/about");
    assert_eq!(req.headers.len(), 2);
    assert_eq!(req.headers[0], (String::from("Host"), String::from("example.com")));
}

#[test]
fn test_parse_request_errors() {
    match HttpServer::parse_request("GET /\r\n") {
        Err(m) => assert_eq!(m, "Invalid HTTP request line"),
        Ok(_) => panic!("expected an error"),
    }
    match HttpServer::parse_request("BREW /pot HTTP/1.1\r\n\r\n") {
        Err(m) => assert_eq!(m, "Unsupported HTTP method"),
        Ok(_) => panic!("expected an error"),
    }
    let req = HttpServer::parse_request("DELETE /x HTTP/1.1\r\n\r\n").unwrap();
    assert_eq!(req.method, HttpMethod::DELETE);
}

#[test]
fn test_route_request() {
    let server = HttpServer::new(String::from("127.0.0.1"), 8080);
    let mut req = HttpServer::parse_request("GET / HTTP/1.1\r\n\r\n").unwrap();
    assert!(server.route_request(&req).contains("Bonjour"));
    req.path = String::from("/about");
    assert!(server.route_request(&req).contains("propos"));
    req.path = String::from("/api/data");
    assert!(server.route_request(&req).contains("application/json"));
    req.path = String::from("/missing");
    assert!(server.route_request(&req).contains("404 Not Found"));
}

#[test]
fn test_response_generate() {
    let resp = HttpResponse {
        status_code: HttpStatus::NotFound,
        headers: vec![(String::from("Content-Type"), String::from("text/plain"))],
        body: String::from("gone"),
    };
    assert_eq!(
        resp.generate(),
        "HTTP/1.1 404 Not Found\r\nContent-Type: text/plain\r\n\r\ngone"
    );
    assert_eq!(HttpStatus::OK.code(), 200);
    assert_eq!(HttpStatus::InternalServerError.code(), 500);
}

fn task(id: u32, desc: &str) -> Task {
    Task {
        id,
        description: String::from(desc),
        completed: false,
        priority: Priority::Low,
        created_at: 1000,
        tags: Vec::new(),
    }
}

#[test]
fn test_tasks_add_and_clear() {
    let tasks = vec![task(1, "a"), task(5, "b"), task(3, "c")];
    let tasks = add_task(tasks, String::from("d"), Priority::High, 2000);
    assert_eq!(tasks.len(), 4);
    assert_eq!(tasks[3].id, 6);
    assert_eq!(tasks[3].priority, Priority::High);
    let tasks = clear_task(tasks, 5);
    assert_eq!(tasks.len(), 3);
    assert!(tasks.iter().all(|t| t.id != 5));
}

#[test]
fn test_tasks_updates() {
    let mut tasks = vec![task(1, "a"), task(2, "b")];
    assert!(toggle_completed(&mut tasks, 2));
    assert!(tasks[1].completed);
    assert!(set_description(&mut tasks, 1, String::from("renamed")));
    assert_eq!(tasks[0].description, "renamed");
    assert!(set_priority(&mut tasks, 1, Priority::Medium));
    assert_eq!(tasks[0].priority, Priority::Medium);
    assert!(!toggle_completed(&mut tasks, 9));
}

#[test]
fn test_task_store() {
    let mut store = TaskStore::new();
    store.add_task(String::from("write tests"), PriorityLevel::High, None);
    store.add_task(String::from("rest"), PriorityLevel::Low, Some(12345));
    assert_eq!(store.tasks.len(), 2);
    assert_eq!(store.tasks[0].id, 1);
    assert_eq!(store.next_id, 3);
    assert!(store.complete_task(1).is_ok());
    assert!(store.tasks[0].completed);
    assert_eq!(store.complete_task(7), Err(String::from("ID 7 introuvable")));
    assert!(store.update_priority(2, PriorityLevel::Medium).is_ok());
    assert_eq!(store.tasks[1].priority, PriorityLevel::Medium);
    assert!(store.delete_task(1).is_ok());
    assert_eq!(store.tasks.len(), 1);
    assert_eq!(store.delete_task(1), Err(String::from("ID 1 introuvable")));
}

#[test]
fn test_template_files() {
    let files = generate_template_files(TemplateType::Rust, "demo");
    assert_eq!(files.len(), 4);
    assert_eq!(files[0].path, "Cargo.toml");
    assert!(files[0].content.contains("name = \"demo\""));
    assert_eq!(files[1].path, "src/main.rs");
    let web = generate_template_files(TemplateType::Web, "site");
    assert_eq!(web.len(), 4);
    assert!(web[0].content.contains("<title>site</title>"));
    let cli = generate_template_files(TemplateType::Cli, "tool");
    assert_eq!(cli.len(), 1);
    assert_eq!(cli[0].content, "# CLI tool\nUsage: ./tool [options]");
}

#[test]
fn test_detect_format() {
    assert_eq!(Format::detect_format("data.json"), Ok(Format::Json));
    assert_eq!(Format::detect_format("dir.d/data.YAML"), Ok(Format::Yaml));
    assert_eq!(Format::detect_format("a/b/c.yml"), Ok(Format::Yaml));
    assert_eq!(Format::detect_format("table.csv"), Ok(Format::Csv));
    assert_eq!(
        Format::detect_format("notes.txt"),
        Err(String::from("Extension non supportée ou inconnue pour : notes.txt"))
    );
    assert!(Format::detect_format("no_extension").is_err());
    assert!(Format::detect_format(".hidden").is_err());
}

#[test]
fn test_matches_criteria() {
    assert!(matches_criteria("Report.PDF", "report", None, None));
    assert!(!matches_criteria("summary.pdf", "report", None, None));
    assert!(matches_criteria("Report.PDF", "report", Some("PDF"), Some("pdf")));
    assert!(!matches_criteria("Report.PDF", "report", Some("PDF"), Some("txt")));
    assert!(!matches_criteria("Makefile", "make", None, Some("mk")));
}

#[test]
fn test_line_matches() {
    assert!(line_matches("Hello World", "world", true));
    assert!(!line_matches("Hello World", "world", false));
    assert!(line_matches("Hello World", "o W", false));
}

#[test]
fn test_log_parse() {
    let entry = LogEntry::parse("2024-01-15 10:30:00 [ERROR] Disk is  full").unwrap();
    assert_eq!(entry.level, LogLevel::Error);
    assert_eq!(entry.timestamp.date, LogDate { year: 2024, month: 1, day: 15 });
    assert_eq!(entry.timestamp.hour, 10);
    assert_eq!(entry.timestamp.minute, 30);
    assert_eq!(entry.timestamp.second, 0);
    assert_eq!(entry.message, "Disk is full");
    assert!(LogEntry::parse("2024-01-15 10:30:00 [TRACE] nope").is_none());
    assert!(LogEntry::parse("2024-02-30 10:30:00 [INFO] bad date").is_none());
    assert!(LogEntry::parse("2024-02-29 23:59:59 [INFO] leap day").is_some());
    assert!(LogEntry::parse("not a log line").is_none());
}

#[test]
fn test_log_stats_and_rapport() {
    let lines = vec![
        String::from("2024-01-15 10:30:00 [ERROR] one"),
        String::from("2024-01-15 10:30:01 [INFO] two"),
        String::from("garbage"),
        String::from("2024-01-15 10:30:02 [ERROR] three"),
        String::from("2024-01-16 11:00:00 [DEBUG] four"),
    ];
    let stats = LogEntry::stats_of_lines(&lines);
    assert_eq!(stats.total_lines, 4);
    assert_eq!(stats.error_count, 2);
    assert_eq!(stats.info_count, 1);
    assert_eq!(stats.warning_count, 0);
    assert_eq!(stats.debug_count, 1);
    let rapport = LogEntry::generate_rapport(&stats);
    assert!(rapport.contains("Total des lignes : 4"));
    assert!(rapport.contains("Erreurs : 2"));
}

#[test]
fn test_log_filter() {
    let entries: Vec<LogEntry> = vec![
        LogEntry::parse("2024-01-15 10:30:00 [ERROR] one").unwrap(),
        LogEntry::parse("2024-01-15 10:30:01 [INFO] two").unwrap(),
        LogEntry::parse("2024-01-16 10:30:02 [ERROR] three").unwrap(),
    ];
    let filtered = LogEntry::filter_logs(
        entries,
        Some(LogLevel::Error),
        Some(LogDate { year: 2024, month: 1, day: 15 }),
    );
    assert_eq!(filtered.len(), 1);
    assert_eq!(filtered[0].message, "one");
}

#[test]
fn test_error_message_helpers() {
    assert_eq!(FileManagerError::FileNotFound.message(), "File not found.");
    assert_eq!(
        FileManagerError::IoError(String::from("x")).message(),
        "Erreur : x"
    );
    assert_eq!(CalcError::DivisionByZero.message(), "Division by zero");
    assert_eq!(
        CalcError::FileError(String::from("gone")).message(),
        "File error: gone"
    );
    assert_eq!(pwdmgr::sysmon::bytes_to_mb(3 * 1024 * 1024), 3);
    assert_eq!(pwdmgr::sysmon::memory_mb(2097152, 4194304), (2, 4));
}
