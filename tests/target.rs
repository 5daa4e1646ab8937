use hg_stdio::target::{spawn_target, PeerAddress};

fn addr(scheme: &str, user: &str, host: Option<&str>, port: Option<u16>, path: &str) -> PeerAddress {
    PeerAddress {
        scheme: scheme.as_bytes().to_vec(),
        username: user.as_bytes().to_vec(),
        host: host.map(|h| h.as_bytes().to_vec()),
        port,
        path: path.as_bytes().to_vec(),
    }
}

#[test]
fn ssh_with_user_and_port() {
    let t = spawn_target(&addr("ssh", "joe", Some("hg.example.org"), Some(2222), "/repo/x"));
    assert!(t.is_remote);
    assert_eq!(t.userhost, Some(b"joe@hg.example.org".to_vec()));
    assert_eq!(t.port, Some(b"2222".to_vec()));
    assert_eq!(t.path, b"repo/x".to_vec());
}

#[test]
fn ssh_strips_one_slash() {
    let t = spawn_target(&addr("ssh", "", Some("host"), None, "//abs/repo"));
    assert_eq!(t.userhost, Some(b"host".to_vec()));
    assert_eq!(t.port, None);
    assert_eq!(t.path, b"/abs/repo".to_vec());
}

#[test]
fn local_path_kept() {
    let t = spawn_target(&addr("file", "", None, None, "/home/me/repo"));
    assert!(!t.is_remote);
    assert_eq!(t.userhost, None);
    assert_eq!(t.path, b"/home/me/repo".to_vec());
}
