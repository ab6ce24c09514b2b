use command_server::command::{
    build_command_api_response, build_command_line_string, build_command_map, command_api_response,
    run_command_output, CommandApiPlan,
};
use command_server::config::{CommandInfo, Configuration, MainPageInfo, ProxyInfo, ServerInfo};
use command_server::environment::{get_env_vars, get_environment, get_git_hash, EnvironmentError};
use command_server::id_map::IdMap;
use command_server::logging::{
    format_log_line, get_log_level, run_logging_output_step, LogLevel, LogLevelFilter, LogSetupError,
    OutputEvent, OutputState,
};
use command_server::proxy::{
    build_html_map, build_proxy_api_response, fetch_proxy_response, proxy_api_response,
    try_build_proxy_map, FetchOutcome, ProxyApiPlan, ResponseInfo,
};
use command_server::sorted_map::{text_order, SortedMap, TextOrder};
use command_server::text::{combine_output, page_text, prefixed, ProcessOutput};

fn command(id: &str, program: &str, args: &[&str]) -> CommandInfo {
    CommandInfo::new(
        id.to_string(),
        format!("runs {}", program),
        program.to_string(),
        args.iter().map(|a| a.to_string()).collect(),
    )
}

fn proxy(id: &str, url: &str) -> ProxyInfo {
    ProxyInfo::new(id.to_string(), format!("fetches {}", url), url.to_string())
}

fn output(stderr: &[u8], stdout: &[u8]) -> ProcessOutput {
    ProcessOutput { stderr: stderr.to_vec(), stdout: stdout.to_vec() }
}

#[test]
fn configuration_getters_return_fields() {
    let config = Configuration::new(
        ServerInfo::new("127.0.0.1:8443".to_string()),
        MainPageInfo::new("Console".to_string()),
        vec![command("uptime", "uptime", &[]), command("df", "df", &["-h"])],
        vec![proxy("local", "http://localhost:8080/status")],
    );
    assert_eq!(config.server_info().listen_address(), "127.0.0.1:8443");
    assert_eq!(config.main_page_info().title(), "Console");
    assert_eq!(config.commands().len(), 2);
    assert_eq!(config.commands()[1].id(), "df");
    assert_eq!(config.commands()[1].command(), "df");
    assert_eq!(config.commands()[1].args(), &vec!["-h".to_string()]);
    assert_eq!(config.commands()[0].description(), "runs uptime");
    assert_eq!(config.proxies()[0].id(), "local");
    assert_eq!(config.proxies()[0].url(), "http://localhost:8080/status");
    assert_eq!(config.proxies()[0].description(), "fetches http://localhost:8080/status");
}

#[test]
fn cloned_command_keeps_fields() {
    let original = command("ls", "ls", &["-l", "/tmp"]);
    let copy = original.clone();
    assert_eq!(copy.id(), "ls");
    assert_eq!(copy.args(), original.args());
}

#[test]
fn command_map_finds_each_command() {
    let commands = vec![command("uptime", "uptime", &[]), command("df", "df", &["-h"])];
    let map = build_command_map(&commands);
    assert_eq!(map.len(), 2);
    assert_eq!(map.get(&"df".to_string()).unwrap().command(), "df");
    assert_eq!(map.get(&"uptime".to_string()).unwrap().command(), "uptime");
    assert!(map.get(&"missing".to_string()).is_none());
}

#[test]
fn command_map_keeps_last_command_with_same_id() {
    let commands = vec![
        command("x", "first", &[]),
        command("y", "other", &[]),
        command("x", "second", &["a"]),
    ];
    let map = build_command_map(&commands);
    assert_eq!(map.len(), 2);
    let found = map.get(&"x".to_string()).unwrap();
    assert_eq!(found.command(), "second");
    assert_eq!(found.args(), &vec!["a".to_string()]);
}

#[test]
fn command_map_of_no_commands_is_empty() {
    let map = build_command_map(&Vec::new());
    assert_eq!(map.len(), 0);
    assert!(map.get(&"x".to_string()).is_none());
}

#[test]
fn id_map_insert_replaces_value() {
    let mut map: IdMap<u32> = IdMap::new();
    map.insert("a".to_string(), 1);
    map.insert("b".to_string(), 2);
    map.insert("a".to_string(), 3);
    assert_eq!(map.len(), 2);
    assert_eq!(map.get(&"a".to_string()), Some(&3));
    assert_eq!(map.get(&"b".to_string()), Some(&2));
}

#[test]
fn command_line_joins_program_and_args() {
    assert_eq!(build_command_line_string(&command("c", "ls", &["-l", "/tmp"])), "ls -l /tmp");
    assert_eq!(build_command_line_string(&command("c", "uptime", &[])), "uptime");
    assert_eq!(build_command_line_string(&command("c", "echo", &[""])), "echo ");
}

#[test]
fn combined_output_puts_stderr_first() {
    assert_eq!(combine_output(b"warning\n", b"result\n"), "warning\nresult\n");
    assert_eq!(combine_output(b"", b""), "");
}

#[test]
fn combined_output_replaces_invalid_utf8() {
    assert_eq!(combine_output(b"", &[b'a', 0xff, b'b']), "a\u{FFFD}b");
    assert_eq!(combine_output("é".as_bytes(), b""), "é");
}

#[test]
fn run_command_output_describes_failure() {
    assert_eq!(run_command_output(&Ok(output(b"err ", b"out"))), "err out");
    assert_eq!(
        run_command_output(&Err("No such file or directory (os error 2)".to_string())),
        "command error: No such file or directory (os error 2)"
    );
}

#[test]
fn command_api_plan_for_missing_command_is_not_found() {
    assert!(matches!(build_command_api_response(None), CommandApiPlan::NotFound));
}

#[test]
fn command_api_plan_runs_found_command() {
    let info = command("df", "df", &["-h", "/"]);
    match build_command_api_response(Some(&info)) {
        CommandApiPlan::Run { command_info, command_line } => {
            assert_eq!(command_info.command(), "df");
            assert_eq!(command_line, "df -h /");
        }
        CommandApiPlan::NotFound => panic!("command was found"),
    }
}

#[test]
fn command_api_response_carries_parts() {
    let response = command_api_response(
        "2020-01-01 00:00:00.000000000 +0000".to_string(),
        "df -h".to_string(),
        &Ok(output(b"", b"Filesystem")),
    );
    assert_eq!(response.now, "2020-01-01 00:00:00.000000000 +0000");
    assert_eq!(response.command_line, "df -h");
    assert_eq!(response.output, "Filesystem");
}

#[test]
fn text_order_follows_string_order() {
    assert!(matches!(text_order("abc", "abd"), TextOrder::Less));
    assert!(matches!(text_order("ab", "abc"), TextOrder::Less));
    assert!(matches!(text_order("abc", "abc"), TextOrder::Equal));
    assert!(matches!(text_order("b", "abc"), TextOrder::Greater));
    assert!(matches!(text_order("", ""), TextOrder::Equal));
    assert!(matches!(text_order("Z", "a"), TextOrder::Less));
    assert!(matches!(text_order("é", "z"), TextOrder::Greater));
}

#[test]
fn sorted_map_keeps_keys_in_order() {
    let mut map = SortedMap::new();
    map.insert("PATH".to_string(), "/bin".to_string());
    map.insert("HOME".to_string(), "/root".to_string());
    map.insert("USER".to_string(), "root".to_string());
    map.insert("HOME".to_string(), "/home/x".to_string());
    let keys: Vec<&str> = map.entries().iter().map(|e| e.0.as_str()).collect();
    assert_eq!(keys, vec!["HOME", "PATH", "USER"]);
    assert_eq!(map.get(&"HOME".to_string()).unwrap(), "/home/x");
    assert!(map.get(&"SHELL".to_string()).is_none());
}

#[test]
fn env_vars_are_ordered_like_btree_map() {
    let vars = vec![
        ("b".to_string(), "2".to_string()),
        ("a".to_string(), "1".to_string()),
        ("B".to_string(), "3".to_string()),
        ("ab".to_string(), "4".to_string()),
    ];
    let map = get_env_vars(&vars);
    let expected: std::collections::BTreeMap<String, String> = vars.iter().cloned().collect();
    let got: Vec<(String, String)> = map.entries().clone();
    let want: Vec<(String, String)> = expected.into_iter().collect();
    assert_eq!(got, want);
}

#[test]
fn git_hash_is_trimmed_output() {
    let hash = get_git_hash(&Ok(output(b"", b"  3f2a9c\n"))).ok().unwrap();
    assert_eq!(hash, "3f2a9c");
    let hash = get_git_hash(&Ok(output(b"fatal: not a git repository\n", b""))).ok().unwrap();
    assert_eq!(hash, "fatal: not a git repository");
    let hash = get_git_hash(&Ok(output(b" \t\n", b""))).ok().unwrap();
    assert_eq!(hash, "");
}

#[test]
fn git_hash_reports_failure_to_start_git() {
    match get_git_hash(&Err("No such file or directory".to_string())) {
        Err(EnvironmentError::GitCommand(reason)) => assert_eq!(reason, "No such file or directory"),
        Ok(_) => panic!("git could not run"),
    }
}

#[test]
fn environment_holds_hash_and_vars() {
    let vars = vec![("LANG".to_string(), "C".to_string())];
    let env = get_environment(&Ok(output(b"", b"abc123\n")), &vars).ok().unwrap();
    assert_eq!(env.git_hash(), "abc123");
    assert_eq!(env.env_vars().get(&"LANG".to_string()).unwrap(), "C");
    assert!(get_environment(&Err("denied".to_string()), &vars).is_err());
}

#[test]
fn proxy_map_needs_parseable_urls() {
    let good = vec![proxy("a", "http://localhost:8080/x"), proxy("b", "http://example.com/")];
    let map = try_build_proxy_map(&good).unwrap();
    assert_eq!(map.len(), 2);
    let entry = map.get(&"a".to_string()).unwrap();
    assert_eq!(entry.proxy_info().url(), "http://localhost:8080/x");
    assert_eq!(entry.uri().to_string(), "http://localhost:8080/x");
    let bad = vec![proxy("a", "http://localhost:8080/x"), proxy("c", "http://exa mple.com/")];
    assert!(try_build_proxy_map(&bad).is_none());
}

#[test]
fn proxy_map_keeps_last_target_with_same_id() {
    let proxies = vec![proxy("a", "http://one/"), proxy("a", "http://two/")];
    let map = try_build_proxy_map(&proxies).unwrap();
    assert_eq!(map.len(), 1);
    assert_eq!(map.get(&"a".to_string()).unwrap().proxy_info().url(), "http://two/");
}

#[test]
fn html_map_uses_page_or_error_text() {
    let proxies = vec![proxy("a", "http://one/"), proxy("b", "http://two/")];
    let rendered = vec![Ok("<p>a</p>".to_string()), Err("template not found".to_string())];
    let map = build_html_map(&proxies, &rendered);
    assert_eq!(map.get(&"a".to_string()).unwrap(), "<p>a</p>");
    assert_eq!(map.get(&"b".to_string()).unwrap(), "template not found");
    assert!(map.get(&"c".to_string()).is_none());
}

#[test]
fn page_text_falls_back_to_error() {
    assert_eq!(page_text(&Ok("page".to_string())), "page");
    assert_eq!(page_text(&Err("error".to_string())), "error");
}

#[test]
fn prefixed_joins_texts() {
    assert_eq!(prefixed("proxy error: ", "timeout"), "proxy error: timeout");
}

#[test]
fn failed_fetch_has_empty_parts_and_error_body() {
    let info = fetch_proxy_response(FetchOutcome::Failed("connection refused".to_string()));
    assert_eq!(info.version, "");
    assert_eq!(info.status, "");
    assert_eq!(info.headers, "");
    assert_eq!(info.body, "proxy error: connection refused");
}

#[test]
fn fetched_response_shows_parts_and_body() {
    let info = fetch_proxy_response(FetchOutcome::Responded {
        version: "HTTP/1.1".to_string(),
        status: "200 OK".to_string(),
        headers: "{}".to_string(),
        body: Ok(vec![b'o', b'k', 0xfe]),
    });
    assert_eq!(info.version, "HTTP/1.1");
    assert_eq!(info.status, "200 OK");
    assert_eq!(info.headers, "{}");
    assert_eq!(info.body, "ok\u{FFFD}");
}

#[test]
fn body_failure_is_described() {
    let info = fetch_proxy_response(FetchOutcome::Responded {
        version: "HTTP/1.1".to_string(),
        status: "200 OK".to_string(),
        headers: "{}".to_string(),
        body: Err("connection reset".to_string()),
    });
    assert_eq!(info.body, "proxy body error: connection reset");
}

#[test]
fn proxy_api_response_uses_get() {
    let response = proxy_api_response(
        "now".to_string(),
        "http://one/".to_string(),
        ResponseInfo {
            version: "HTTP/1.1".to_string(),
            status: "404 Not Found".to_string(),
            headers: "h".to_string(),
            body: "b".to_string(),
        },
    );
    assert_eq!(response.now, "now");
    assert_eq!(response.method, "GET");
    assert_eq!(response.url, "http://one/");
    assert_eq!(response.version, "HTTP/1.1");
    assert_eq!(response.status, "404 Not Found");
    assert_eq!(response.headers, "h");
    assert_eq!(response.body, "b");
}

#[test]
fn log_level_defaults_to_info() {
    assert!(matches!(get_log_level(None), Ok(LogLevelFilter::Info)));
}

#[test]
fn log_level_is_read_without_regard_to_case() {
    assert!(matches!(get_log_level(Some("debug".to_string())), Ok(LogLevelFilter::Debug)));
    assert!(matches!(get_log_level(Some("TRACE".to_string())), Ok(LogLevelFilter::Trace)));
    assert!(matches!(get_log_level(Some("Off".to_string())), Ok(LogLevelFilter::Off)));
    assert!(matches!(get_log_level(Some("wArN".to_string())), Ok(LogLevelFilter::Warn)));
    assert!(matches!(get_log_level(Some("error".to_string())), Ok(LogLevelFilter::Error)));
}

#[test]
fn unknown_log_level_is_refused() {
    match get_log_level(Some("verbose".to_string())) {
        Err(LogSetupError::UnknownLevel(text)) => assert_eq!(text, "verbose"),
        Ok(_) => panic!("verbose is not a level"),
    }
    assert!(get_log_level(Some(" info".to_string())).is_err());
    assert!(get_log_level(Some("".to_string())).is_err());
}

#[test]
fn log_line_has_the_fixed_layout() {
    let line = format_log_line(
        "2020-01-01 00:00:00.000000000 +0000",
        Some("main"),
        LogLevel::Info,
        "command_server",
        "reading config.json",
    );
    assert_eq!(line, "2020-01-01 00:00:00.000000000 +0000 [main] INFO command_server - reading config.json");
    let line = format_log_line("t", None, LogLevel::Warn, "x", "m");
    assert_eq!(line, "t [UNKNOWN] WARN x - m");
    assert_eq!(format_log_line("t", None, LogLevel::Error, "x", "m"), "t [UNKNOWN] ERROR x - m");
    assert_eq!(format_log_line("t", None, LogLevel::Debug, "x", "m"), "t [UNKNOWN] DEBUG x - m");
    assert_eq!(format_log_line("t", None, LogLevel::Trace, "x", "m"), "t [UNKNOWN] TRACE x - m");
}

fn run(events: Vec<OutputEvent>) -> (String, usize) {
    let mut state = OutputState::Waiting;
    let mut written = String::new();
    let mut flushes = 0;
    for event in events {
        let step = run_logging_output_step(state, event);
        if let Some(text) = step.write {
            written.push_str(&text);
        }
        if step.flush {
            flushes += 1;
        }
        state = step.state;
    }
    (written, flushes)
}

#[test]
fn output_thread_writes_lines_in_order_and_flushes_per_burst() {
    let (written, flushes) = run(vec![
        OutputEvent::Received("one\n".to_string()),
        OutputEvent::Queued("two\n".to_string()),
        OutputEvent::QueueEmpty,
        OutputEvent::Received("three\n".to_string()),
        OutputEvent::QueueEmpty,
    ]);
    assert_eq!(written, "one\ntwo\nthree\n");
    assert_eq!(flushes, 2);
}

#[test]
fn output_thread_reports_channel_problems() {
    let (written, flushes) = run(vec![OutputEvent::ReceiveFailed("receiving on a closed channel".to_string())]);
    assert_eq!(written, "run_logging_output_thread recv error receiving on a closed channel\n");
    assert_eq!(flushes, 1);
    let (written, flushes) = run(vec![OutputEvent::Received("a".to_string()), OutputEvent::QueueClosed]);
    assert_eq!(written, "arun_logging_output_thread try_recv disconnected error");
    assert_eq!(flushes, 0);
}

#[test]
fn output_thread_states() {
    let step = run_logging_output_step(OutputState::Waiting, OutputEvent::Received("x".to_string()));
    assert!(step.state == OutputState::Draining);
    let step = run_logging_output_step(OutputState::Draining, OutputEvent::QueueEmpty);
    assert!(step.state == OutputState::Waiting);
    assert!(step.write.is_none());
    let step = run_logging_output_step(OutputState::Draining, OutputEvent::QueueClosed);
    assert!(step.state == OutputState::Draining);
}

#[test]
fn repeated_proxy_id_keeps_later_target_and_its_uri() {
    let proxies = vec![
        ProxyInfo::new("a".to_string(), "first".to_string(), "http://x.example/".to_string()),
        ProxyInfo::new("a".to_string(), "second".to_string(), "http://y.example/".to_string()),
    ];
    let map = try_build_proxy_map(&proxies).unwrap();
    assert_eq!(map.len(), 1);
    let entry = map.get(&"a".to_string()).unwrap();
    assert_eq!(entry.proxy_info().url(), "http://y.example/");
    assert_eq!(entry.uri().to_string(), "http://y.example/");
    assert_eq!(entry.uri_text(), "http://y.example/");
}

#[test]
fn each_proxy_entry_holds_its_own_uri() {
    let proxies = vec![proxy("a", "http://one.example/a"), proxy("b", "http://two.example:8080/b?q=1")];
    let map = try_build_proxy_map(&proxies).unwrap();
    assert_eq!(map.get(&"a".to_string()).unwrap().uri().to_string(), "http://one.example/a");
    assert_eq!(map.get(&"b".to_string()).unwrap().uri().to_string(), "http://two.example:8080/b?q=1");
    assert_eq!(map.get(&"b".to_string()).unwrap().uri_text(), "http://two.example:8080/b?q=1");
    let plain = vec![proxy("h", "http://host.example")];
    let map = try_build_proxy_map(&plain).unwrap();
    assert_eq!(map.get(&"h".to_string()).unwrap().uri_text(), "http://host.example/");
}

#[test]
fn proxy_api_plan_fetches_found_target() {
    let proxies = vec![proxy("a", "http://one.example/a")];
    let map = try_build_proxy_map(&proxies).unwrap();
    match build_proxy_api_response(map.get(&"a".to_string())) {
        ProxyApiPlan::Fetch { uri, url } => {
            assert_eq!(uri.to_string(), "http://one.example/a");
            assert_eq!(url, "http://one.example/a");
        }
        ProxyApiPlan::NotFound => panic!("target was found"),
    }
    assert!(matches!(build_proxy_api_response(map.get(&"z".to_string())), ProxyApiPlan::NotFound));
}

#[test]
fn command_line_splits_back_into_program_and_args() {
    let info = command("c", "ls", &["-l", "/tmp", "x"]);
    let line = build_command_line_string(&info);
    let pieces: Vec<&str> = line.split(' ').collect();
    assert_eq!(pieces, vec!["ls", "-l", "/tmp", "x"]);
    assert_eq!(line.chars().count(), 2 + (1 + 2) + (1 + 4) + (1 + 1));
}
