use file_mentions::extension::{
    check_language_server_id, command_from_path_lookup, configured_command, server_name,
};

#[test]
fn only_this_language_server_is_served() {
    assert_eq!(server_name(), "file-mentions-lsp");
    assert!(check_language_server_id("file-mentions-lsp").is_ok());
    assert_eq!(
        check_language_server_id("rust-analyzer"),
        Err("unknown language server: rust-analyzer".to_string())
    );
}

#[test]
fn configured_binary_path_wins() {
    assert_eq!(configured_command(None, Some(vec!["x".to_string()]), None), None);
    let cmd = configured_command(
        Some("/opt/lsp".to_string()),
        Some(vec!["--stdio".to_string()]),
        Some(vec![("RUST_LOG".to_string(), "info".to_string())]),
    )
    .unwrap();
    assert_eq!(cmd.command, "/opt/lsp");
    assert_eq!(cmd.args, vec!["--stdio".to_string()]);
    assert_eq!(cmd.env, vec![("RUST_LOG".to_string(), "info".to_string())]);
    let bare = configured_command(Some("/opt/lsp".to_string()), None, None).unwrap();
    assert!(bare.args.is_empty() && bare.env.is_empty());
}

#[test]
fn path_lookup_or_actionable_error() {
    let cmd = command_from_path_lookup(Some("/usr/bin/file-mentions-lsp".to_string())).unwrap();
    assert_eq!(cmd.command, "/usr/bin/file-mentions-lsp");
    assert!(cmd.args.is_empty() && cmd.env.is_empty());
    let err = command_from_path_lookup(None).unwrap_err();
    assert!(err.starts_with("file-mentions-lsp was not found."));
    assert!(err.contains("lsp.file-mentions-lsp.binary.path"));
}
