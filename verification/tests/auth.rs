use bibliotecaria::auth::{token_in_output, token_in_stdout, NO_TOKEN_ERROR, TOKEN_MARKER};

#[test]
fn token_is_cut_from_the_marker_and_trimmed() {
    assert_eq!(
        token_in_output("Your token: sk-ant-oat01-abc123  \n"),
        Some("sk-ant-oat01-abc123".to_string())
    );
    assert_eq!(token_in_output("sk-ant-oat01-x"), Some("sk-ant-oat01-x".to_string()));
}

#[test]
fn first_marker_wins() {
    assert_eq!(
        token_in_output("a sk-ant-oat01-1 sk-ant-oat01-2"),
        Some("sk-ant-oat01-1 sk-ant-oat01-2".to_string())
    );
}

#[test]
fn no_marker_no_token() {
    assert_eq!(token_in_output("Open the browser to continue"), None);
    assert_eq!(token_in_output("sk-ant-oat01"), None);
    assert_eq!(token_in_output(""), None);
}

#[test]
fn token_from_raw_stdout() {
    assert_eq!(token_in_stdout(b"\x1b[32mtoken sk-ant-oat01-zz\n"), Some("sk-ant-oat01-zz".to_string()));
    assert_eq!(token_in_stdout(&[0xff, 0xfe]), None);
    assert!(TOKEN_MARKER.starts_with("sk-ant"));
    assert_eq!(NO_TOKEN_ERROR, "processo encerrado sem token");
}
