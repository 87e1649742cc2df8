use min::url::{chat_url, job_url, join_url, listen_binds};

#[test]
fn chat_url_appends_the_endpoint() {
    assert_eq!(chat_url("http://h/v1"), "http://h/v1/chat/completions");
    assert_eq!(chat_url("http://h/v1/"), "http://h/v1/chat/completions");
    assert_eq!(chat_url(""), "/chat/completions");
    assert_eq!(chat_url("///"), "/chat/completions");
}

#[test]
fn chat_url_keeps_an_endpoint() {
    assert_eq!(chat_url("http://h/chat/completions"), "http://h/chat/completions");
    assert_eq!(chat_url("http://h/chat/completions//"), "http://h/chat/completions");
    assert_eq!(chat_url("http://h/xchat/completions"), "http://h/xchat/completions/chat/completions");
}

#[test]
fn chat_url_twice_is_once() {
    for base in ["http://h", "http://h/", "http://h/chat/completions/", ""] {
        let once = chat_url(base);
        assert_eq!(chat_url(&once), once);
        assert!(once.ends_with("/chat/completions"));
        assert_eq!(chat_url(&format!("{base}/")), once);
    }
}

#[test]
fn job_url_keeps_the_slashes_of_an_endpoint() {
    assert_eq!(job_url("http://h/v1//"), "http://h/v1/chat/completions");
    assert_eq!(job_url("http://h/chat/completions/"), "http://h/chat/completions/");
}

#[test]
fn join_url_puts_a_path_behind_the_base() {
    assert_eq!(join_url("http://h/", "/x"), "http://h/x");
    assert_eq!(join_url("http://h//", "x"), "http://hx");
    assert_eq!(join_url("http://h", ""), "http://h");
}

#[test]
fn join_url_keeps_a_full_address() {
    assert_eq!(join_url("http://h", "http://o/x"), "http://o/x");
    assert_eq!(join_url("http://h", "https://o/x"), "https://o/x");
    assert_eq!(join_url("http://h", "httpx"), "http://hhttpx");
}

#[test]
fn loopback_stands_for_both_forms() {
    let both = vec!["127.0.0.1:80", "[::1]:80"];
    for addr in ["localhost:80", "127.0.0.1:80", "[::1]:80", "::1:80", "[[localhost]]:80"] {
        assert_eq!(listen_binds(addr), both);
    }
}

#[test]
fn other_addresses_stand_for_themselves() {
    for addr in ["0.0.0.0:80", "localhost", "", "Localhost:80", "[::]:80", "lo[calhost:80"] {
        assert_eq!(listen_binds(addr), vec![addr]);
    }
    assert_eq!(listen_binds("localhost:"), vec!["127.0.0.1:", "[::1]:"]);
}

#[test]
fn addresses_that_are_listened_on_stand_for_the_same() {
    for addr in ["localhost:80", "[::1]:", "0.0.0.0:1", "x", ""] {
        let all = listen_binds(addr);
        for b in &all {
            assert_eq!(listen_binds(b), all);
        }
    }
}
