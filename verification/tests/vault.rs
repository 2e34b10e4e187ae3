use bibliotecaria::mcp::format_note_listing;
use bibliotecaria::vault::configured_vault;

#[test]
fn vault_must_be_configured() {
    assert_eq!(configured_vault(Some("/home/ana/vault".to_string())), Ok("/home/ana/vault".to_string()));
    assert_eq!(configured_vault(None), Err("nenhum vault configurado".to_string()));
}

#[test]
fn listing_of_notes() {
    assert_eq!(format_note_listing(&Vec::new()), "(nenhuma nota encontrada)");
    assert_eq!(format_note_listing(&vec!["a.md".to_string()]), "a.md");
    assert_eq!(format_note_listing(&vec!["a.md".to_string(), "pasta/b.md".to_string()]), "a.md\npasta/b.md");
}
