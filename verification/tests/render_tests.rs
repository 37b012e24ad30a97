use update_ssh_config::render::render;
use update_ssh_config::split::{split_lines_on_host, SplitLines};
use update_ssh_config::update::apply_hostname_update;

fn config_lines() -> Vec<String> {
    vec![
        String::from("Host web"),
        String::from("  HostName 192.0.2.7"),
        String::from("  User deploy"),
        String::from("  IdentityFile ~/.ssh/id_ed25519"),
        String::from(""),
        String::from("Host db"),
        String::from("  HostName 192.0.2.8"),
        String::from("  User admin"),
        String::from("  IdentityFile ~/.ssh/id_rsa"),
        String::from(""),
    ]
}

#[test]
fn render_emits_block_between_surroundings() {
    let parsed = split_lines_on_host(config_lines(), "db").unwrap();
    let out = render(&parsed);
    assert_eq!(
        out,
        vec![
            String::from("Host web"),
            String::from("  HostName 192.0.2.7"),
            String::from("  User deploy"),
            String::from("  IdentityFile ~/.ssh/id_ed25519"),
            String::from(""),
            String::from("Host db"),
            String::from("  HostName 192.0.2.8"),
            String::from("  User admin"),
            String::from("  IdentityFile ~/.ssh/id_rsa"),
            String::from(""),
        ]
    );
}

#[test]
fn split_then_render_reproduces_canonical_file() {
    // the file already uses the normalized two-space indent, so the round
    // trip with no mutation reproduces it exactly
    let parsed = split_lines_on_host(config_lines(), "web").unwrap();
    assert_eq!(render(&parsed), config_lines());
}

#[test]
fn render_normalizes_indentation_and_drops_unknown_directives() {
    let lines = vec![
        String::from("Host odd"),
        String::from("\tHostName 10.0.0.9"),
        String::from("    User eve"),
        String::from("  Port 2222"),
        String::from("  IdentityFile ~/.ssh/id_rsa"),
        String::from(""),
    ];
    let parsed = split_lines_on_host(lines, "odd").unwrap();
    let out = render(&parsed);
    assert_eq!(
        out,
        vec![
            String::from("Host odd"),
            String::from("  HostName 10.0.0.9"),
            String::from("  User eve"),
            String::from("  IdentityFile ~/.ssh/id_rsa"),
            String::from(""),
        ]
    );
}

#[test]
fn render_of_empty_partition_is_four_empty_directives() {
    let parsed = SplitLines::new("fresh");
    let out = render(&parsed);
    assert_eq!(
        out,
        vec![
            String::from("Host fresh"),
            String::from("  HostName "),
            String::from("  User "),
            String::from("  IdentityFile "),
        ]
    );
}

#[test]
fn update_replaces_hostname_and_reports_change() {
    let mut parsed = split_lines_on_host(config_lines(), "web").unwrap();
    let changed = apply_hostname_update(&mut parsed, "198.51.100.4");
    assert!(changed);
    assert_eq!(parsed.hostname, "198.51.100.4");
    assert_eq!(render(&parsed)[1], "  HostName 198.51.100.4");
}

#[test]
fn update_to_current_value_reports_no_change() {
    let mut parsed = split_lines_on_host(config_lines(), "web").unwrap();
    let changed = apply_hostname_update(&mut parsed, "192.0.2.7");
    assert!(!changed);
    assert_eq!(render(&parsed), config_lines());
}

#[test]
fn update_flow_twice_reports_no_change_second_time() {
    // first run: replace the hostname and rewrite the file
    let mut parsed = split_lines_on_host(config_lines(), "web").unwrap();
    assert!(apply_hostname_update(&mut parsed, "203.0.113.5"));
    let rewritten = render(&parsed);
    // second run over the rewritten file: the value is already in place,
    // so nothing changes and the file is reproduced untouched
    let mut again = split_lines_on_host(rewritten.clone(), "web").unwrap();
    assert!(!apply_hostname_update(&mut again, "203.0.113.5"));
    assert_eq!(render(&again), rewritten);
}
