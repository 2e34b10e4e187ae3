use bibliotecaria::mirror::{check_mirror_location, mirror_step, should_ignore, EntryKind, MirrorStep, StaticSync};

fn comps(parts: &[&str]) -> Vec<String> {
    parts.iter().map(|p| p.to_string()).collect()
}

#[test]
fn mirror_steps_skip_obsidian_and_count_the_note() {
    // The entries of a vault holding `nota.md` and `.obsidian/config`.
    let mut stats = StaticSync::new();
    assert_eq!(mirror_step(".obsidian", EntryKind::Directory), MirrorStep::Skip);
    assert_eq!(mirror_step("nota.md", EntryKind::File), MirrorStep::Copy);
    assert!(stats.can_record("nota.md", 8));
    stats.record_copied_file("nota.md", 8);

    assert_eq!(stats.notes, 1);
    assert_eq!(stats.bytes, 8);
}

#[test]
fn reject_mirror_inside_vault() {
    // The vault does not exist: the run is refused before anything else.
    let vault = "/tmp/bibliotecaria_teste_mirror_erro/vault";
    let results = check_mirror_location(false, vault, Err("unreachable".to_string()), Err("unreachable".to_string()));
    assert!(results.is_err());
    assert_eq!(results, Err("Vault não encontrado: /tmp/bibliotecaria_teste_mirror_erro/vault".to_string()));
}

#[test]
fn mirror_inside_vault_is_refused() {
    let vault = comps(&["/", "home", "ana", "vault"]);
    let r = check_mirror_location(true, "/home/ana/vault", Ok(vault.clone()), Ok(comps(&["/", "home", "ana", "vault", "mirror"])));
    assert_eq!(r, Err("O mirror não pode estar dentro do vault".to_string()));
    let same = check_mirror_location(true, "/home/ana/vault", Ok(vault.clone()), Ok(vault.clone()));
    assert!(same.is_err());
}

#[test]
fn mirror_holding_the_vault_is_refused() {
    let r = check_mirror_location(true, "/t/v", Ok(comps(&["/", "t", "v"])), Ok(comps(&["/", "t"])));
    assert_eq!(r, Err("O vault não pode estar dentro do mirror".to_string()));
    let root = check_mirror_location(true, "/t/v", Ok(comps(&["/", "t", "v"])), Ok(comps(&["/"])));
    assert!(root.is_err());
}

#[test]
fn mirror_beside_vault_is_accepted() {
    let vault = comps(&["/", "home", "ana", "vault"]);
    let r = check_mirror_location(true, "/home/ana/vault", Ok(vault.clone()), Ok(comps(&["/", "home", "ana", "vault-mirror"])));
    assert_eq!(r, Ok(()));
}

#[test]
fn path_errors_come_in_order() {
    let vault = comps(&["/", "v"]);
    assert_eq!(
        check_mirror_location(true, "/v", Err("canon".to_string()), Err("abs".to_string())),
        Err("canon".to_string())
    );
    assert_eq!(check_mirror_location(true, "/v", Ok(vault), Err("abs".to_string())), Err("abs".to_string()));
}

#[test]
fn ignored_names() {
    assert!(should_ignore(".obsidian"));
    assert!(should_ignore(".git"));
    assert!(should_ignore(".trash"));
    assert!(should_ignore("rascunho.tmp"));
    assert!(should_ignore(".tmp"));
    assert!(!should_ignore("nota.md"));
    assert!(!should_ignore(".obsidian2"));
    assert!(!should_ignore("tmp"));
    assert!(!should_ignore("x.tmp.md"));
}

#[test]
fn steps_by_kind() {
    assert_eq!(mirror_step("pasta", EntryKind::Directory), MirrorStep::Descend);
    assert_eq!(mirror_step("link", EntryKind::Other), MirrorStep::Skip);
    assert_eq!(mirror_step(".git", EntryKind::File), MirrorStep::Skip);
    assert_eq!(mirror_step("a.tmp", EntryKind::File), MirrorStep::Skip);
}

#[test]
fn only_markdown_counts_as_note() {
    let mut stats = StaticSync::new();
    stats.record_copied_file("imagem.png", 100);
    stats.record_copied_file(".md", 3);
    stats.record_copied_file("b.md", 5);
    assert_eq!(stats.notes, 2);
    assert_eq!(stats.bytes, 108);
}

#[test]
fn counters_that_would_overflow_are_reported() {
    let stats = StaticSync { notes: 0, bytes: u64::MAX - 1 };
    assert!(stats.can_record("x", 1));
    assert!(!stats.can_record("x", 2));
    let full = StaticSync { notes: usize::MAX, bytes: 0 };
    assert!(full.can_record("x.png", 1));
    assert!(!full.can_record("x.md", 1));
}
