use min::config::{
    budget_in, chat_headers, config_map, config_of, errand, expand, load_config, number_in,
    parse_args, read_config, Cfg, Cli, ConfigError, Draft, Errand, LoadError, Tools,
};
use min::json::Json;

fn env() -> Vec<(String, String)> {
    pairs(&[("KEY", "v1"), ("A_1", "x"), ("KEY", "later"), ("EMPTY", "")])
}

fn pairs(ps: &[(&str, &str)]) -> Vec<(String, String)> {
    ps.iter().map(|(k, v)| (k.to_string(), v.to_string())).collect()
}

fn draft(yaml: &str) -> Result<Draft, ConfigError> {
    read_config(config_map(Json::parse_yaml(yaml).unwrap())?, &env())
}

fn load(yaml: &str) -> Result<Cfg, ConfigError> {
    let mut d = draft(yaml)?;
    let tools = match std::mem::replace(&mut d.tools, Tools::Absent) {
        Tools::Inline(j) => Some(j),
        Tools::File(p) => panic!("file {p}"),
        Tools::Absent => None,
    };
    d.complete(tools)
}

fn fault(yaml: &str) -> ConfigError {
    match load(yaml) {
        Ok(_) => panic!("no fault"),
        Err(e) => e,
    }
}

fn args(ws: &[&str]) -> Vec<String> {
    ws.iter().map(|w| w.to_string()).collect()
}

fn run(config: &str, prompt: &str) -> Cli {
    Cli::Run { config: config.to_string(), prompt: prompt.to_string() }
}

#[test]
fn variables_are_expanded() {
    assert_eq!(expand("Bearer $KEY", &env()), "Bearer v1");
    assert_eq!(expand("$A_1$KEY!", &env()), "xv1!");
    assert_eq!(expand("$KEY", &env()), "v1");
    assert_eq!(expand("<$EMPTY><$MISSING>", &env()), "<><>");
}

#[test]
fn a_lone_dollar_stays() {
    assert_eq!(expand("$", &env()), "$");
    assert_eq!(expand("a$ b$-", &env()), "a$ b$-");
    assert_eq!(expand("$$KEY", &env()), "$v1");
}

#[test]
fn plain_text_stands_for_itself() {
    assert_eq!(expand("", &env()), "");
    assert_eq!(expand("KEY {KEY} 100%", &env()), "KEY {KEY} 100%");
}

#[test]
fn other_text_is_taken_byte_by_byte() {
    assert_eq!(expand("ü", &env()), "\u{c3}\u{bc}");
    assert_eq!(expand("$KEYü", &env()), "v1\u{c3}\u{bc}");
}

#[test]
fn numbers_have_defaults() {
    let n = |s: &str| Json::parse_text(s).unwrap();
    assert_eq!(number_in(None, 9), 9);
    assert_eq!(number_in(Some(&n("4")), 9), 4);
    assert_eq!(number_in(Some(&n("\"4\"")), 9), 9);
    assert_eq!(number_in(Some(&n("-4")), 9), 9);
}

#[test]
fn the_budget_is_a_share_of_the_window() {
    let n = |s: &str| Json::parse_text(s).unwrap();
    assert_eq!(budget_in(None, None), 540_000);
    assert_eq!(budget_in(None, Some(&n("200"))), 108);
    assert_eq!(budget_in(None, Some(&n("1"))), 0);
    assert_eq!(budget_in(Some(&n("5")), Some(&n("200"))), 5);
    assert_eq!(budget_in(Some(&n("null")), Some(&n("200"))), 108);
    let wrapped = u64::MAX.wrapping_mul(54) / 100;
    assert_eq!(budget_in(None, Some(&n("18446744073709551615"))), wrapped);
}

#[test]
fn a_full_configuration_is_read() {
    let c = load(
        "url: http://m\nkey: secret\nmodel: big\ntemperature: 1\nexec: http://e\n\
         headers:\n  X-Key: $KEY\n  N: 5\n  B: true\nexec_headers:\n  H: a$KEY\n\
         steps: 3\nkeep: 2\nwindow: 100\nlog: out.log\nlisten: localhost:1\n\
         agents: a.md\nstream: true\nmessages: []\n\
         tools:\n- function:\n    name: t\n  method: get\n  url: /t\n",
    )
    .unwrap_or_else(|e| panic!("{}", e.message()));
    assert_eq!(c.url, "http://m");
    assert_eq!(c.exec_url, "http://e");
    assert_eq!(c.headers, pairs(&[("B", "true"), ("N", "5"), ("X-Key", "v1")]));
    assert_eq!(c.exec_headers, pairs(&[("H", "av1")]));
    assert_eq!((c.steps, c.keep, c.budget), (3, 2, 54));
    assert_eq!(c.log, Some("out.log".to_string()));
    assert_eq!(c.listen, Some("localhost:1".to_string()));
    assert_eq!(c.inst, Some("a.md".to_string()));
    assert_eq!(
        Json::Dict(c.map).to_text(),
        r#"{"model":"big","temperature":1,"tools":[{"function":{"name":"t"}}]}"#
    );
    assert_eq!(Json::Dict(c.specs).to_text(), r#"{"t":{"method":"get","url":"/t"}}"#);
}

#[test]
fn a_short_configuration_has_defaults() {
    let c = load("url: 8\nexec: true\nmodel: m\n").unwrap_or_else(|e| panic!("{}", e.message()));
    assert_eq!((c.url.as_str(), c.exec_url.as_str()), ("8", "true"));
    assert_eq!((c.steps, c.keep, c.budget), (27, 9, 540_000));
    assert_eq!((c.log, c.listen, c.inst), (None, None, None));
    assert_eq!((c.headers.len(), c.exec_headers.len(), c.specs.len()), (0, 0, 0));
    assert_eq!(Json::Dict(c.map).to_text(), r#"{"model":"m"}"#);
}

#[test]
fn the_first_instructions_count() {
    let inst = |s: &str| load(&format!("url: u\nexec: e\nmodel: m\n{s}"));
    let both = inst("agents.md: x.md\nagents: y.md\n").unwrap_or_else(|_| panic!());
    assert_eq!(both.inst, Some("x.md".to_string()));
    assert_eq!(Json::Dict(both.map).to_text(), r#"{"agents":"y.md","model":"m"}"#);
    let listed = inst("agents.md: [x]\nagents: y.md\n").unwrap_or_else(|_| panic!());
    assert_eq!(listed.inst, Some("y.md".to_string()));
    assert_eq!(Json::Dict(listed.map).to_text(), r#"{"model":"m"}"#);
}

#[test]
fn tools_are_absent_in_a_file_or_at_hand() {
    let tools = |s: &str| match draft(&format!("url: u\nexec: e\n{s}")) {
        Ok(d) => d.tools,
        Err(e) => panic!("{}", e.message()),
    };
    assert_eq!(tools(""), Tools::Absent);
    assert_eq!(tools("tools: t.json\n"), Tools::File("t.json".to_string()));
    assert_eq!(tools("tools: [1]\n"), Tools::Inline(Json::parse_text("[1]").unwrap()));
}

#[test]
fn tools_that_are_no_list_are_carried_along() {
    let d = draft("url: u\nexec: e\nmodel: m\ntools: {}\n").unwrap_or_else(|_| panic!());
    let c = d.complete(Some(Json::Null)).unwrap_or_else(|_| panic!());
    assert_eq!(Json::Dict(c.map).to_text(), r#"{"model":"m","tools":null}"#);
    assert_eq!(c.specs.len(), 0);
}

#[test]
fn every_fault_of_a_configuration_is_named() {
    let e = fault("[1]");
    assert_eq!((e, e.message().as_str()), (ConfigError::NotMap, "config must be a yaml map"));
    let e = fault("exec: e\nmodel: m\n");
    assert_eq!((e, e.message().as_str()), (ConfigError::NeedsUrl, "config needs url"));
    let e = fault("url: u\nexec: e\nmodel: m\nheaders: [1]\n");
    assert_eq!((e, e.message().as_str()), (ConfigError::HeadersNotMap, "headers must be a yaml map"));
    let e = fault("url: u\nexec: e\nmodel: m\nheaders:\n  a: [1]\n");
    assert_eq!((e, e.message().as_str()), (ConfigError::HeaderNotText, "header values must be strings"));
    let e = fault("url: u\nexec: e\nmodel: m\nexec_headers: x\n");
    assert_eq!(
        (e, e.message().as_str()),
        (ConfigError::ExecHeadersNotMap, "exec_headers must be a yaml map")
    );
    let e = fault("url: u\nexec: e\nmodel: m\nexec_headers:\n  a: 1\n");
    assert_eq!(
        (e, e.message().as_str()),
        (ConfigError::ExecHeaderNotText, "exec_headers values must be strings")
    );
    let e = fault("url: u\nmodel: m\n");
    assert_eq!((e, e.message().as_str()), (ConfigError::NeedsExec, "config needs exec"));
    let e = fault("url: u\nexec: e\n");
    assert_eq!((e, e.message().as_str()), (ConfigError::NeedsModel, "config needs model"));
    assert_eq!(fault("url: u\nexec: e\nmodel: ''\n"), ConfigError::NeedsModel);
    assert_eq!(fault("url: u\nexec: e\nmodel: 7\n"), ConfigError::NeedsModel);
}

#[test]
fn the_first_fault_counts() {
    assert_eq!(fault("url: [1]\nheaders: 1\n"), ConfigError::NeedsUrl);
    assert_eq!(fault("url: u\nheaders: 1\nexec_headers: 1\n"), ConfigError::HeadersNotMap);
    assert_eq!(fault("url: u\nexec_headers: 1\n"), ConfigError::ExecHeadersNotMap);
}

#[test]
fn settings_do_not_travel() {
    let keys = [
        "url", "key", "headers", "exec_headers", "steps", "keep", "window", "budget", "exec", "log",
        "listen", "agents.md", "agents", "tools", "stream", "messages",
    ];
    let d = draft(
        "url: u\nkey: k\nheaders: {}\nexec_headers: {}\nsteps: 1\nkeep: 1\nwindow: 1\nbudget: 1\n\
         exec: e\nlog: l\nlisten: a\nagents: g\ntools: []\nstream: 1\nmessages: 1\nother: 2\n",
    )
    .unwrap_or_else(|e| panic!("{}", e.message()));
    for k in keys {
        assert_eq!(d.map.get(k), None);
    }
    assert_eq!(Json::Dict(d.map).to_text(), r#"{"other":2}"#);
}

#[test]
fn the_command_line_is_read() {
    assert_eq!(parse_args(&args(&[])), run("min.yaml", ""));
    assert_eq!(parse_args(&args(&["say", "hi"])), run("min.yaml", "say hi"));
    assert_eq!(parse_args(&args(&["a", "-c", "x.yaml", "b"])), run("x.yaml", "a b"));
    assert_eq!(parse_args(&args(&["-c", "x", "-c", "-h"])), run("-h", ""));
    assert_eq!(parse_args(&args(&["-h"])), Cli::Help);
    assert_eq!(parse_args(&args(&["a", "--help", "-x"])), Cli::Help);
}

#[test]
fn faults_of_the_command_line_are_named() {
    assert_eq!(parse_args(&args(&["-c"])), Cli::Fault { words: "-c needs a file".to_string() });
    assert_eq!(
        parse_args(&args(&["a", "-x", "-h"])),
        Cli::Fault { words: "unknown flag -x".to_string() }
    );
    assert_eq!(parse_args(&args(&["-"])), Cli::Fault { words: "unknown flag -".to_string() });
}

#[test]
fn requests_always_set_the_type() {
    let plain = pairs(&[("A", "1")]);
    let typed = chat_headers(&plain);
    assert_eq!(typed, pairs(&[("A", "1"), ("Content-Type", "application/json")]));
    assert_eq!(chat_headers(&typed), typed);
    let own = pairs(&[("content-TYPE", "text/x"), ("B", "2")]);
    assert_eq!(chat_headers(&own), own);
    assert_eq!(chat_headers(&vec![]), pairs(&[("Content-Type", "application/json")]));
}

#[test]
fn an_address_to_listen_on_comes_first() {
    let base = "url: u\nexec: e\nmodel: m\n";
    let once = load(base).unwrap_or_else(|_| panic!());
    assert_eq!(errand(&once, "hi"), Errand::Once);
    assert_eq!(errand(&once, ""), Errand::Usage);
    let served = load(&format!("{base}listen: 80\n")).unwrap_or_else(|_| panic!());
    assert_eq!(errand(&served, "hi"), Errand::Serve { addr: "80".to_string() });
    assert_eq!(errand(&served, ""), Errand::Serve { addr: "80".to_string() });
}

#[test]
fn a_configuration_is_loaded_from_its_text() {
    let d = load_config("c.yaml", "url: u\nexec: e\nheaders:\n  A: $KEY\n", &env());
    let d = d.unwrap_or_else(|e| panic!("{}", e.message()));
    assert_eq!(d.headers, pairs(&[("A", "v1")]));
    let fault = |text: &str| match load_config("c.yaml", text, &env()) {
        Ok(_) => panic!("no fault"),
        Err(e) => e,
    };
    assert_eq!(fault("[1]"), LoadError::Fault(ConfigError::NotMap));
    assert_eq!(fault("exec: e\n"), LoadError::Fault(ConfigError::NeedsUrl));
    assert_eq!(fault("exec: e\n").message(), "config needs url");
    let words = Json::parse_yaml("a: [").unwrap_err();
    assert_eq!(fault("a: [").message(), format!("c.yaml: {words}"));
    match config_of("c.yaml", Err("odd".to_string()), &env()) {
        Ok(_) => panic!("no fault"),
        Err(e) => assert_eq!(e.message(), "c.yaml: odd"),
    }
}

#[test]
fn tools_are_loaded_from_their_file() {
    let d = |tools: &str| {
        draft(&format!("url: u\nexec: e\nmodel: m\n{tools}")).unwrap_or_else(|_| panic!())
    };
    let file = r#"[{"function":{"name":"t"},"method":"GET"}]"#;
    let c = d("tools: t.json\n").complete_with(file).unwrap_or_else(|e| panic!("{}", e.message()));
    assert_eq!(Json::Dict(c.specs).to_text(), r#"{"t":{"method":"GET"}}"#);
    let c = d("tools: []\n").complete_with("ignored").unwrap_or_else(|_| panic!());
    assert_eq!(Json::Dict(c.map).to_text(), r#"{"model":"m","tools":[]}"#);
    let c = d("").complete_with("ignored").unwrap_or_else(|_| panic!());
    assert_eq!(Json::Dict(c.map).to_text(), r#"{"model":"m"}"#);
    match d("tools: t.json\n").complete_with("") {
        Ok(_) => panic!("no fault"),
        Err(e) => assert_eq!(e.message(), "t.json: EOF while parsing a value at line 1 column 0"),
    }
    let bare = draft("url: u\nexec: e\n").unwrap_or_else(|_| panic!());
    match bare.complete_with("") {
        Ok(_) => panic!("no fault"),
        Err(e) => assert_eq!(e, LoadError::Fault(ConfigError::NeedsModel)),
    }
}

#[test]
fn parts_are_expanded_one_by_one() {
    for (a, b) in [("x$KEY", "-y"), ("$", "-"), ("a b", "KEY"), ("$KEY ", "A_1"), ("$A", "$KEY")] {
        let both = format!("{a}{b}");
        assert_eq!(expand(&both, &env()), expand(a, &env()) + &expand(b, &env()));
    }
    assert_eq!(expand("$KE", &env()) + &expand("Y", &env()), "Y");
    assert_eq!(expand("$KEY", &env()), "v1");
}
