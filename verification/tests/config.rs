use sshmenu::directive::{classify_line, Directive};
use sshmenu::parser::{parse_config_lines, parse_ssh_config, ConfigParser};

fn aliases(text: &str) -> Vec<String> {
    let registry = parse_ssh_config(text);
    let mut out = Vec::new();
    for i in 0..registry.len() {
        out.push(registry.at(i).alias.clone());
    }
    out
}

#[test]
fn example_with_two_blocks() {
    let registry = parse_ssh_config("Host alpha\n  Hostname 10.0.0.1\n  User ops\nHost beta\n");
    assert_eq!(registry.len(), 2);
    let alpha = registry.get("alpha").unwrap();
    assert_eq!(alpha.alias, "alpha");
    assert_eq!(alpha.hostname, "10.0.0.1");
    assert_eq!(alpha.username.as_deref(), Some("ops"));
    assert_eq!(alpha.identity_file, None);
    assert_eq!(alpha.latency, None);
    let beta = registry.get("beta").unwrap();
    assert_eq!(beta.alias, "beta");
    assert_eq!(beta.hostname, "beta");
    assert_eq!(beta.username, None);
    assert_eq!(beta.identity_file, None);
    assert_eq!(beta.latency, None);
}

#[test]
fn empty_text_gives_empty_registry() {
    let registry = parse_ssh_config("");
    assert!(registry.is_empty());
    assert_eq!(registry.len(), 0);
    assert!(registry.get("alpha").is_none());
}

#[test]
fn text_without_host_lines_gives_empty_registry() {
    let registry = parse_ssh_config("# a comment\n  User nobody\nInclude other\n\n");
    assert!(registry.is_empty());
}

#[test]
fn distinct_host_lines_are_all_counted() {
    let registry = parse_ssh_config("Host c\nHost a\n  User x\nHost d\nHost b\n  Port 22\n");
    assert_eq!(registry.len(), 4);
}

#[test]
fn hosts_are_kept_in_alias_order() {
    assert_eq!(aliases("Host zeta\nHost alpha\nHost Mid\nHost beta\n"), ["Mid", "alpha", "beta", "zeta"]);
}

#[test]
fn alias_order_is_that_of_strings() {
    let mut want = vec!["b", "a", "ab", "B", "é", "z", "a b", "aa", "10", "9"];
    let mut text = String::new();
    for alias in &want {
        text.push_str("Host ");
        text.push_str(alias);
        text.push('\n');
    }
    want.sort();
    assert_eq!(aliases(&text), want);
}

#[test]
fn repeated_alias_counts_once() {
    let registry = parse_ssh_config("Host a\nHost b\nHost a\n");
    assert_eq!(registry.len(), 2);
}

#[test]
fn last_block_of_an_alias_wins_entirely() {
    let text = "Host a\n  Hostname first.example\n  User one\n  IdentityFile ~/.ssh/one\nHost b\nHost a\n  User two\n";
    let registry = parse_ssh_config(text);
    let a = registry.get("a").unwrap();
    assert_eq!(a.hostname, "a");
    assert_eq!(a.username.as_deref(), Some("two"));
    assert_eq!(a.identity_file, None);
}

#[test]
fn block_without_hostname_keeps_alias() {
    let registry = parse_ssh_config("Host gamma\n  User root\n  IdentityFile /keys/g\n");
    let gamma = registry.get("gamma").unwrap();
    assert_eq!(gamma.hostname, "gamma");
    assert_eq!(gamma.username.as_deref(), Some("root"));
    assert_eq!(gamma.identity_file.as_deref(), Some("/keys/g"));
}

#[test]
fn directive_before_first_host_changes_nothing() {
    let with = parse_ssh_config("  Hostname stray\n  User stray\nHost a\n");
    let without = parse_ssh_config("Host a\n");
    assert_eq!(with.len(), 1);
    assert_eq!(without.len(), 1);
    let a = with.get("a").unwrap();
    assert_eq!(a.hostname, "a");
    assert_eq!(a.username, None);
}

#[test]
fn directive_goes_to_the_open_block() {
    let registry = parse_ssh_config("Host a\nHost b\n  User bee\n");
    assert_eq!(registry.get("a").unwrap().username, None);
    assert_eq!(registry.get("b").unwrap().username.as_deref(), Some("bee"));
}

#[test]
fn later_directive_of_a_kind_replaces_earlier() {
    let registry = parse_ssh_config("Host a\n  User one\n  User two\n  Hostname h1\n  Hostname h2\n");
    let a = registry.get("a").unwrap();
    assert_eq!(a.username.as_deref(), Some("two"));
    assert_eq!(a.hostname, "h2");
}

#[test]
fn host_line_may_be_indented() {
    let registry = parse_ssh_config("   Host inner  \n");
    assert_eq!(registry.len(), 1);
    assert_eq!(registry.get("inner").unwrap().hostname, "inner");
}

#[test]
fn directive_must_be_indented() {
    let registry = parse_ssh_config("Host a\nUser flat\nHostname flat\n");
    let a = registry.get("a").unwrap();
    assert_eq!(a.username, None);
    assert_eq!(a.hostname, "a");
}

#[test]
fn tab_indentation_and_crlf_are_read() {
    let registry = parse_ssh_config("Host a\r\n\tHostname 192.168.1.1\r\n\t\tUser me\r\n");
    let a = registry.get("a").unwrap();
    assert_eq!(a.hostname, "192.168.1.1");
    assert_eq!(a.username.as_deref(), Some("me"));
}

#[test]
fn keywords_are_case_sensitive() {
    let registry = parse_ssh_config("host lower\nHOST upper\nHost ok\n  hostname x\n  USER y\n  identityfile z\n");
    assert_eq!(registry.len(), 1);
    let ok = registry.get("ok").unwrap();
    assert_eq!(ok.hostname, "ok");
    assert_eq!(ok.username, None);
    assert_eq!(ok.identity_file, None);
}

#[test]
fn keyword_in_mid_line_is_not_read() {
    let registry = parse_ssh_config("# Host hidden\nHost a\n  # User hidden\n  Port 22 User x\n");
    assert_eq!(registry.len(), 1);
    assert_eq!(registry.get("a").unwrap().username, None);
}

#[test]
fn host_keyword_alone_introduces_nothing() {
    let registry = parse_ssh_config("Host\nHost \nHost   \nHostname x\n");
    assert!(registry.is_empty());
}

#[test]
fn alias_is_the_rest_of_the_line() {
    let registry = parse_ssh_config("Host one two\nHost   spaced\n");
    assert_eq!(registry.len(), 2);
    assert!(registry.get("one two").is_some());
    assert!(registry.get("  spaced").is_some());
}

#[test]
fn last_line_needs_no_newline() {
    let registry = parse_ssh_config("Host a\n  User last");
    assert_eq!(registry.get("a").unwrap().username.as_deref(), Some("last"));
}

#[test]
fn lookup_finds_position() {
    let registry = parse_ssh_config("Host b\nHost a\nHost c\n");
    assert_eq!(registry.position("a"), Some(0));
    assert_eq!(registry.position("b"), Some(1));
    assert_eq!(registry.position("c"), Some(2));
    assert_eq!(registry.position("ab"), None);
    assert_eq!(registry.position(""), None);
    assert_eq!(registry.at(1).alias, "b");
}

#[test]
fn classify_reads_each_kind() {
    assert!(matches!(classify_line("Host web"), Directive::Host(a) if a == "web"));
    assert!(matches!(classify_line("  Hostname web.example"), Directive::Hostname(a) if a == "web.example"));
    assert!(matches!(classify_line("  User deploy"), Directive::User(a) if a == "deploy"));
    assert!(matches!(classify_line("  IdentityFile ~/.ssh/id"), Directive::IdentityFile(a) if a == "~/.ssh/id"));
    assert!(matches!(classify_line("  Port 22"), Directive::Ignored));
    assert!(matches!(classify_line(""), Directive::Ignored));
    assert!(matches!(classify_line("    "), Directive::Ignored));
    assert!(matches!(classify_line("Hostname flat"), Directive::Ignored));
    assert!(matches!(classify_line("  Hostname"), Directive::Ignored));
    assert!(matches!(classify_line("  Users x"), Directive::Ignored));
    assert!(matches!(classify_line("\u{a0}User nbsp\u{3000}"), Directive::User(a) if a == "nbsp"));
}

#[test]
fn classify_keeps_inner_spaces_of_value() {
    assert!(matches!(classify_line("  User   padded name  "), Directive::User(a) if a == "  padded name"));
}

#[test]
fn feeding_lines_equals_parsing_text() {
    let text = "Host x\n  User u\nHost y\n  Hostname h\n";
    let mut parser = ConfigParser::new();
    for line in text.lines() {
        parser.feed_line(line);
    }
    let fed = parser.finish();
    let parsed = parse_ssh_config(text);
    assert_eq!(fed.len(), parsed.len());
    for i in 0..fed.len() {
        assert_eq!(fed.at(i).alias, parsed.at(i).alias);
        assert_eq!(fed.at(i).hostname, parsed.at(i).hostname);
        assert_eq!(fed.at(i).username, parsed.at(i).username);
        assert_eq!(fed.at(i).identity_file, parsed.at(i).identity_file);
    }
}

#[test]
fn parsing_lines_from_a_vector() {
    let lines = vec!["Host v".to_string(), "  IdentityFile key".to_string()];
    let registry = parse_config_lines(&lines);
    assert_eq!(registry.len(), 1);
    assert_eq!(registry.get("v").unwrap().identity_file.as_deref(), Some("key"));
}
