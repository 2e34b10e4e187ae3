use bibliotecaria::paths::{has_component_prefix, is_plain_relative_path, join_onto, relative_path, resolve_within};

fn comps(parts: &[&str]) -> Vec<String> {
    parts.iter().map(|p| p.to_string()).collect()
}

#[test]
fn rejects_path_traversal() {
    let test_dir = "/tmp/bibliotecaria_teste_proposals_traversal".to_string();
    let result = resolve_within(Ok(test_dir), "../fora.md");
    assert!(result.is_err());
}

#[test]
fn traversal_error_names_the_path() {
    let result = resolve_within(Ok("/srv/out".to_string()), "../fora.md");
    assert_eq!(result, Err("caminho fora da área permitida: ../fora.md".to_string()));
}

#[test]
fn accepted_path_is_joined_onto_root() {
    assert_eq!(resolve_within(Ok("/srv/out".to_string()), "sub/nota.md"), Ok("/srv/out/sub/nota.md".to_string()));
    assert_eq!(resolve_within(Ok("/".to_string()), "nota.md"), Ok("/nota.md".to_string()));
}

#[test]
fn root_error_comes_after_the_path_check() {
    assert_eq!(
        resolve_within(Err("No such file".to_string()), "nota.md"),
        Err("erro no diretório base: No such file".to_string())
    );
    assert_eq!(
        resolve_within(Err("No such file".to_string()), "/etc/passwd"),
        Err("caminho fora da área permitida: /etc/passwd".to_string())
    );
}

#[test]
fn plain_relative_paths() {
    assert!(is_plain_relative_path("nota.md"));
    assert!(is_plain_relative_path("a/b/c.md"));
    assert!(is_plain_relative_path("a/./b"));
    assert!(is_plain_relative_path("a//b"));
    assert!(is_plain_relative_path("...md"));
    assert!(is_plain_relative_path("..a/b"));
    assert!(is_plain_relative_path(""));
    assert!(!is_plain_relative_path("/abs.md"));
    assert!(!is_plain_relative_path("./nota.md"));
    assert!(!is_plain_relative_path("."));
    assert!(!is_plain_relative_path(".."));
    assert!(!is_plain_relative_path("a/../b"));
    assert!(!is_plain_relative_path("a/.."));
    assert!(!is_plain_relative_path("a/../"));
}

#[test]
fn join_adds_one_separator() {
    assert_eq!(join_onto("/srv", "x"), "/srv/x");
    assert_eq!(join_onto("/srv/", "x"), "/srv/x");
    assert_eq!(join_onto("", "x"), "x");
    assert_eq!(join_onto("/srv", ""), "/srv/");
}

#[test]
fn component_prefix_is_whole_components() {
    let vault = comps(&["/", "home", "ana", "vault"]);
    assert!(has_component_prefix(&comps(&["/", "home", "ana", "vault", "mirror"]), &vault));
    assert!(has_component_prefix(&vault, &vault));
    assert!(!has_component_prefix(&comps(&["/", "home", "ana", "vault2"]), &vault));
    assert!(!has_component_prefix(&comps(&["/", "home", "ana"]), &vault));
}

#[test]
fn relative_path_strips_whole_components() {
    let base = comps(&["/", "tmp", "out"]);
    assert_eq!(relative_path(&base, &comps(&["/", "tmp", "out", "subpasta", "relatorio.md"])), Some("subpasta/relatorio.md".to_string()));
    assert_eq!(relative_path(&base, &comps(&["/", "tmp", "out"])), Some(String::new()));
    assert_eq!(relative_path(&base, &comps(&["/", "tmp", "outro", "x.md"])), None);
}
