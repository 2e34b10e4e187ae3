use bibliotecaria::agent::{
    agent_arguments, agent_run_event, build_mcp_config, relative_to_vault, rewrite_request, system_prompt, AgentEvent,
    AgentMode, AgentTranscript, AUDIT_REQUEST,
};
use bibliotecaria::sessions::SessionEvent;

fn comps(parts: &[&str]) -> Vec<String> {
    parts.iter().map(|p| p.to_string()).collect()
}

#[test]
fn system_prompt_joins_with_blank_line() {
    assert_eq!(system_prompt("compartilhado", "modo"), "compartilhado\n\nmodo");
    assert_eq!(system_prompt("", ""), "\n\n");
}

#[test]
fn requests() {
    assert_eq!(rewrite_request("pasta/nota.md"), "Reescreva a nota `pasta/nota.md` seguindo o modo escrivão.");
    assert_eq!(AUDIT_REQUEST, "Audite o vault e gere o relatório do bibliotecário.");
}

#[test]
fn note_relative_to_vault() {
    let vault = comps(&["/", "home", "ana", "vault"]);
    assert_eq!(
        relative_to_vault(Ok(vault.clone()), Ok(comps(&["/", "home", "ana", "vault", "diario", "hoje.md"]))),
        Ok("diario/hoje.md".to_string())
    );
    assert_eq!(
        relative_to_vault(Ok(vault.clone()), Ok(comps(&["/", "home", "ana", "outra.md"]))),
        Err("A nota escolhida precisa estar dentro do vault selecionado.".to_string())
    );
    assert_eq!(relative_to_vault(Err("sem vault".to_string()), Err("sem nota".to_string())), Err("sem vault".to_string()));
    assert_eq!(relative_to_vault(Ok(vault), Err("sem nota".to_string())), Err("sem nota".to_string()));
}

#[test]
fn mcp_config_is_json() {
    let config = build_mcp_config("/app/vault_mcp", "/data/mirror", "/data/out");
    assert_eq!(
        config,
        "{\"mcpServers\":{\"vault-tools\":{\"args\":[\"/data/mirror\",\"/data/out\"],\"command\":\"/app/vault_mcp\"}}}"
    );
    let parsed: serde_json::Value = serde_json::from_str(&config).unwrap();
    assert_eq!(parsed["mcpServers"]["vault-tools"]["args"][1], "/data/out");
}

#[test]
fn mcp_config_escapes_strings() {
    let config = build_mcp_config("C:\\bin\\mcp", "a\"b", "linha\nnova");
    let parsed: serde_json::Value = serde_json::from_str(&config).unwrap();
    assert_eq!(parsed["mcpServers"]["vault-tools"]["command"], "C:\\bin\\mcp");
    assert_eq!(parsed["mcpServers"]["vault-tools"]["args"][0], "a\"b");
    assert_eq!(parsed["mcpServers"]["vault-tools"]["args"][1], "linha\nnova");
}

#[test]
fn mcp_config_escapes_control_characters() {
    let config = build_mcp_config("\u{1}\u{1f}\u{8}\t\u{c}\r", "\\", "\u{7f}é");
    assert_eq!(
        config,
        "{\"mcpServers\":{\"vault-tools\":{\"args\":[\"\\\\\",\"\u{7f}é\"],\"command\":\"\\u0001\\u001f\\b\\t\\f\\r\"}}}"
    );
}

#[test]
fn mcp_config_matches_serde_json_object() {
    let mut server = serde_json::Map::new();
    server.insert("command".to_string(), serde_json::Value::String("/app/vault_mcp".to_string()));
    server.insert(
        "args".to_string(),
        serde_json::Value::Array(vec![
            serde_json::Value::String("/data/mirror".to_string()),
            serde_json::Value::String("/data/out".to_string()),
        ]),
    );
    let mut servers = serde_json::Map::new();
    servers.insert("vault-tools".to_string(), serde_json::Value::Object(server));
    let mut root = serde_json::Map::new();
    root.insert("mcpServers".to_string(), serde_json::Value::Object(servers));
    let expected = serde_json::Value::Object(root).to_string();
    assert_eq!(build_mcp_config("/app/vault_mcp", "/data/mirror", "/data/out"), expected);
}

#[test]
fn agent_command_line() {
    let args = agent_arguments("pedido", "sistema", "{}");
    assert_eq!(
        args,
        vec![
            "-p",
            "pedido",
            "--system-prompt",
            "sistema",
            "--mcp-config",
            "{}",
            "--strict-mcp-config",
            "--tools",
            "",
            "--permission-mode",
            "bypassPermissions"
        ]
    );
}

#[test]
fn transcript_keeps_stdout_only_and_trims() {
    let mut t = AgentTranscript::new();
    assert_eq!(t.handle(AgentEvent::Stdout(b"  Relat".to_vec())), None);
    assert_eq!(t.handle(AgentEvent::Stderr(b"aviso".to_vec())), Some("aviso".to_string()));
    assert_eq!(t.handle(AgentEvent::Other), None);
    assert_eq!(t.handle(AgentEvent::Stdout("\u{f3}rio pronto\n\n".as_bytes().to_vec())), None);
    assert_eq!(t.finish(), "Relatório pronto");
}

#[test]
fn transcript_replaces_invalid_bytes() {
    let mut t = AgentTranscript::new();
    t.handle(AgentEvent::Stdout(vec![b'a', 0xff, b'b']));
    assert_eq!(t.finish(), "a\u{fffd}b");
    assert_eq!(AgentTranscript::new().finish(), "");
}

#[test]
fn run_is_logged_with_its_result() {
    match agent_run_event(AgentMode::Escrivao, Some("nota.md".to_string()), &Ok("feito".to_string())) {
        SessionEvent::AgentRun { mode, note, success, summary } => {
            assert_eq!(mode, "escrivao");
            assert_eq!(note, Some("nota.md".to_string()));
            assert!(success);
            assert_eq!(summary, "feito");
        }
        SessionEvent::Decision { .. } => panic!("wrong event"),
    }
    match agent_run_event(AgentMode::Bibliotecario, None, &Err("falhou".to_string())) {
        SessionEvent::AgentRun { mode, note, success, summary } => {
            assert_eq!(mode, "bibliotecario");
            assert_eq!(note, None);
            assert!(!success);
            assert_eq!(summary, "falhou");
        }
        SessionEvent::Decision { .. } => panic!("wrong event"),
    }
}
