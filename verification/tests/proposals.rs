use bibliotecaria::paths::relative_path;
use bibliotecaria::proposals::{has_md_extension, markdown_step, newest_first, ProposalSummary, WalkStep};

fn comps(parts: &[&str]) -> Vec<String> {
    parts.iter().map(|p| p.to_string()).collect()
}

fn summary(path: &str, modified: u64) -> ProposalSummary {
    ProposalSummary { path: path.to_string(), is_substitution: false, modified }
}

fn keys(v: &[ProposalSummary]) -> Vec<(String, u64)> {
    v.iter().map(|p| (p.path.clone(), p.modified)).collect()
}

#[test]
fn proposal_walk_takes_markdown_relative_to_out() {
    // The entries under out/: subpasta/, nota.md, subpasta/relatorio.md, and a stray file.
    let out = comps(&["/", "tmp", "bibliotecaria_teste_proposals", "out"]);
    let entries: Vec<(Vec<String>, bool)> = vec![
        (comps(&["/", "tmp", "bibliotecaria_teste_proposals", "out", "subpasta"]), true),
        (comps(&["/", "tmp", "bibliotecaria_teste_proposals", "out", "nota.md"]), false),
        (comps(&["/", "tmp", "bibliotecaria_teste_proposals", "out", "subpasta", "relatorio.md"]), false),
        (comps(&["/", "tmp", "bibliotecaria_teste_proposals", "out", "notas.txt"]), false),
    ];
    let mut taken = Vec::new();
    for (path, is_dir) in &entries {
        let name = path.last().unwrap();
        if markdown_step(*is_dir, name) == WalkStep::Take {
            taken.push(relative_path(&out, path).unwrap());
        }
    }
    taken.sort();

    assert_eq!(taken, vec!["nota.md".to_string(), "subpasta/relatorio.md".to_string()]);
}

#[test]
fn markdown_extension() {
    assert!(has_md_extension("nota.md"));
    assert!(has_md_extension("..md"));
    assert!(has_md_extension("a.b.md"));
    assert!(!has_md_extension(".md"));
    assert!(!has_md_extension("md"));
    assert!(!has_md_extension("nota.MD"));
    assert!(!has_md_extension("nota.md.bak"));
    assert!(!has_md_extension("notamd"));
}

#[test]
fn walk_steps() {
    assert_eq!(markdown_step(true, "x.md"), WalkStep::Descend);
    assert_eq!(markdown_step(false, "x.md"), WalkStep::Take);
    assert_eq!(markdown_step(false, "x.txt"), WalkStep::Skip);
}

#[test]
fn newest_proposals_come_first() {
    let sorted = newest_first(vec![summary("a", 10), summary("b", 30), summary("c", 20)]);
    assert_eq!(keys(&sorted), vec![("b".to_string(), 30), ("c".to_string(), 20), ("a".to_string(), 10)]);
}

#[test]
fn same_time_keeps_order() {
    let sorted = newest_first(vec![summary("a", 5), summary("b", 7), summary("c", 5), summary("d", 7), summary("e", 1)]);
    assert_eq!(
        keys(&sorted),
        vec![
            ("b".to_string(), 7),
            ("d".to_string(), 7),
            ("a".to_string(), 5),
            ("c".to_string(), 5),
            ("e".to_string(), 1)
        ]
    );
}

#[test]
fn sorting_twice_changes_nothing() {
    let once = newest_first(vec![summary("a", 2), summary("b", 9), summary("c", 2)]);
    let k = keys(&once);
    let twice = newest_first(once);
    assert_eq!(keys(&twice), k);
    assert!(newest_first(Vec::new()).is_empty());
}
