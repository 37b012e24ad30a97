use update_ssh_config::split::{split_lines_on_host, SplitError};
use update_ssh_config::tokens::line_first_two_tokens;

fn gen_lines() -> Vec<String> {
    let mut lines = Vec::<String>::new();
    lines.push(String::from("Host firsthost"));
    lines.push(String::from("  HostName 1.2.3.4"));
    lines.push(String::from("  User noah"));
    lines.push(String::from("  IdentityFile ~/.ssh/id_rsa"));
    lines.push(String::from(""));
    lines.push(String::from("Host secondhost"));
    lines.push(String::from("  HostName 99.99.99.99"));
    lines.push(String::from("  User alice"));
    lines.push(String::from("  IdentityFile ~/.ssh/id_rsa"));
    lines.push(String::from(""));
    lines.push(String::from("Host thirdhost"));
    lines.push(String::from("  HostName 127.0.0.1"));
    lines.push(String::from("  User bob"));
    lines.push(String::from("  IdentityFile ~/.ssh/id_rsa"));
    lines.push(String::from(""));
    lines.push(String::from("Host fourthhost"));
    lines.push(String::from("  HostName 127.9.9.1"));
    lines.push(String::from("  User carly"));
    lines.push(String::from("  IdentityFile ~/.ssh/id_rsa"));
    lines.push(String::from(""));
    lines
}

#[test]
fn before_lines() {
    assert_eq!(
        split_lines_on_host(gen_lines(), "secondhost")
            .unwrap()
            .before
            .len(),
        5
    );
}

#[test]
fn after_lines() {
    assert_eq!(
        split_lines_on_host(gen_lines(), "secondhost")
            .unwrap()
            .after
            .len(),
        11
    );
}

#[test]
fn host() {
    assert_eq!(
        split_lines_on_host(gen_lines(), "secondhost").unwrap().host,
        "secondhost"
    );
}

#[test]
fn hostname() {
    assert_eq!(
        split_lines_on_host(gen_lines(), "secondhost")
            .unwrap()
            .hostname,
        "99.99.99.99"
    );
}

#[test]
fn user() {
    assert_eq!(
        split_lines_on_host(gen_lines(), "secondhost").unwrap().user,
        "alice"
    );
}

#[test]
fn identityfile() {
    assert_eq!(
        split_lines_on_host(gen_lines(), "secondhost")
            .unwrap()
            .identityfile,
        "~/.ssh/id_rsa"
    );
}

#[test]
fn fourthhost() {
    assert_eq!(
        split_lines_on_host(gen_lines(), "fourthhost")
            .unwrap()
            .hostname,
        "127.9.9.1"
    );
}

#[test]
fn missing_alias_is_not_found() {
    assert!(matches!(
        split_lines_on_host(gen_lines(), "nosuchhost"),
        Err(SplitError::NotFound)
    ));
}

#[test]
fn alias_comparison_is_case_sensitive() {
    assert!(matches!(
        split_lines_on_host(gen_lines(), "Secondhost"),
        Err(SplitError::NotFound)
    ));
}

#[test]
fn empty_file_is_not_found() {
    assert!(matches!(
        split_lines_on_host(Vec::new(), "secondhost"),
        Err(SplitError::NotFound)
    ));
}

#[test]
fn keyword_alone_does_not_match_named_alias() {
    let lines = vec![String::from("Host"), String::from("Host secondhost")];
    let parsed = split_lines_on_host(lines, "secondhost").unwrap();
    assert_eq!(parsed.before.len(), 1);
    assert_eq!(parsed.before[0], "Host");
}

#[test]
fn missing_directive_value_becomes_empty() {
    let lines = vec![
        String::from("Host lonely"),
        String::from("  HostName"),
        String::from("  User"),
    ];
    let parsed = split_lines_on_host(lines, "lonely").unwrap();
    assert_eq!(parsed.hostname, "");
    assert_eq!(parsed.user, "");
    assert_eq!(parsed.identityfile, "");
}

#[test]
fn block_at_end_of_file_without_blank_line() {
    let lines = vec![
        String::from("# comment"),
        String::from("Host tail"),
        String::from("  HostName 10.1.2.3"),
    ];
    let parsed = split_lines_on_host(lines, "tail").unwrap();
    assert_eq!(parsed.before.len(), 1);
    assert_eq!(parsed.after.len(), 0);
    assert_eq!(parsed.hostname, "10.1.2.3");
}

#[test]
fn terminating_blank_line_is_kept_in_after() {
    let lines = vec![
        String::from("Host only"),
        String::from("  HostName 10.0.0.1"),
        String::from(""),
        String::from("# trailing"),
    ];
    let parsed = split_lines_on_host(lines, "only").unwrap();
    assert_eq!(parsed.before.len(), 0);
    assert_eq!(parsed.after, vec![String::from(""), String::from("# trailing")]);
}

#[test]
fn tokenization_ignores_extra_whitespace_and_words() {
    let (first, second) = line_first_two_tokens("\t HostName \t 10.0.0.1   extra words");
    assert_eq!(first, Some(String::from("HostName")));
    assert_eq!(second, "10.0.0.1");
}

#[test]
fn whitespace_only_line_has_no_tokens() {
    let (first, second) = line_first_two_tokens(" \t \r ");
    assert_eq!(first, None);
    assert_eq!(second, "");
}

#[test]
fn indented_host_line_still_matches() {
    let lines = vec![
        String::from("   Host deep"),
        String::from("  HostName 10.4.4.4"),
    ];
    let parsed = split_lines_on_host(lines, "deep").unwrap();
    assert_eq!(parsed.before.len(), 0);
    assert_eq!(parsed.hostname, "10.4.4.4");
}

#[test]
fn first_matching_host_line_wins() {
    let lines = vec![
        String::from("Host dup"),
        String::from("  HostName 1.1.1.1"),
        String::from(""),
        String::from("Host dup"),
        String::from("  HostName 2.2.2.2"),
        String::from(""),
    ];
    let parsed = split_lines_on_host(lines, "dup").unwrap();
    assert_eq!(parsed.hostname, "1.1.1.1");
    assert_eq!(parsed.before.len(), 0);
    // the second block, its matching Host line included, sits untouched in after
    assert_eq!(
        parsed.after,
        vec![
            String::from(""),
            String::from("Host dup"),
            String::from("  HostName 2.2.2.2"),
            String::from(""),
        ]
    );
}
