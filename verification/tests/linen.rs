use sexos::linen::{
    split_words, CapabilityView, FileSystem, FocusClient, LinenCore, SessionManager, Shell,
    ShellOutcome,
};

fn reply(o: ShellOutcome) -> String {
    match o {
        ShellOutcome::Reply(t) => String::from_utf8(t).unwrap(),
        ShellOutcome::InspectSystem => "<inspect>".to_string(),
    }
}

#[test]
fn words_split_on_unicode_whitespace() {
    let w = split_words("  cd\u{00A0}/tmp\u{3000}x\t".as_bytes());
    assert_eq!(w, vec![b"cd".to_vec(), b"/tmp".to_vec(), b"x".to_vec()]);
    assert!(split_words(b" \n ").is_empty());
    let expected: Vec<Vec<u8>> = "α  βγ".split_whitespace().map(|s| s.as_bytes().to_vec()).collect();
    assert_eq!(split_words("α  βγ".as_bytes()), expected);
}

#[test]
fn shell_commands() {
    let mut s = Shell::new();
    assert_eq!(reply(s.dispatch("ls")), "UCGM-Node(1): /root");
    assert_eq!(reply(s.dispatch("  ls  ")), "UCGM-Node(1): /root");
    assert_eq!(reply(s.dispatch("cd /srv")), "Navigated to /srv");
    assert_eq!(reply(s.dispatch("cd")), "Unknown command");
    assert_eq!(reply(s.dispatch("ls -l")), "Unknown command");
    assert_eq!(reply(s.dispatch("inspect")), "<inspect>");
    assert_eq!(String::from_utf8(s.inspect_reply((7u64 << 16) | 12)).unwrap(), "Services: 12, Active PDs: 7");
    assert_eq!(s.fs.current_node, 1);
}

#[test]
fn linen_state() {
    assert_eq!(CapabilityView::decode_query(0x0003_0010), (0x10, 3));
    let mut f = FocusClient::new();
    assert_eq!(f.current_focus, None);
    f.set_focus(4);
    assert_eq!(f.current_focus, Some(4));
    let m = SessionManager::new();
    assert_eq!(m.state.cwd_node, 1);
    let mut fs = FileSystem::new();
    fs.navigate(b"/x");
    assert_eq!(fs.current_node, 1);
    let core = LinenCore::new();
    assert_eq!(core.fs.current_node, 1);
}
