use toolpulse::types::{ProjectEcosystem, SourceLanguage};
use toolpulse::walk::{PathSet, ProjectWalk, SourceWalk};

fn strings(v: &[&str]) -> Vec<String> {
    v.iter().map(|s| s.to_string()).collect()
}

#[test]
fn path_set_keeps_each_path_once() {
    let mut set = PathSet::new();
    assert!(set.insert("/a".to_string()));
    assert!(set.insert("/b".to_string()));
    assert!(!set.insert("/a".to_string()));
    for i in 0..10_000 {
        assert!(set.insert(format!("/home/u/dir{i}")));
    }
    assert!(!set.insert("/home/u/dir9999".to_string()));
}

#[test]
fn source_walk_reports_loose_files_and_queues_children_last_first() {
    let mut walk = SourceWalk::new("/r".to_string());
    assert_eq!(walk.next_dir(), Some(0));
    let (files, children) = walk.step(
        &strings(&["a", ".hidden", "node_modules", "b"]),
        &strings(&["/r/a", "/r/.hidden", "/r/node_modules", "/r/b"]),
        &strings(&["x.py", "README", "y.rs"]),
        &[SourceLanguage::Python],
    );
    assert_eq!(files, vec![(0, SourceLanguage::Python)]);
    assert_eq!(children, vec![3, 0]);
    // /r/b comes first: it holds a manifest, so nothing of it is reported or entered.
    assert_eq!(walk.next_dir(), Some(1));
    let (files, children) = walk.step(
        &strings(&["src"]),
        &strings(&["/r/b/src"]),
        &strings(&["package.json", "main.py"]),
        &[SourceLanguage::Python],
    );
    assert!(files.is_empty());
    assert!(children.is_empty());
    assert_eq!(walk.next_dir(), Some(2));
    let (files, children) = walk.step(&Vec::new(), &Vec::new(), &strings(&["z.py"]), &[SourceLanguage::Python]);
    assert_eq!(files, vec![(0, SourceLanguage::Python)]);
    assert!(children.is_empty());
    assert_eq!(walk.next_dir(), None);
}

#[test]
fn source_walk_stops_at_its_cap() {
    let mut walk = SourceWalk::new("/r".to_string());
    assert_eq!(walk.next_dir(), Some(0));
    let names: Vec<String> = (0..5000).map(|i| format!("f{i}.py")).collect();
    let (files, children) = walk.step(&strings(&["d"]), &strings(&["/r/d"]), &names, &[SourceLanguage::Python]);
    assert_eq!(files.len(), 5000);
    assert_eq!(children, vec![0]);
    assert_eq!(walk.next_dir(), None);
}

#[test]
fn project_walk_visits_each_path_once() {
    let mut walk = ProjectWalk::new(strings(&["/r", "/r"]));
    assert_eq!(walk.next_dir(), Some(0));
    let (found, children) = walk.step(0, &strings(&["x"]), &strings(&["/r/x"]), &Vec::new());
    assert!(found.is_empty());
    assert_eq!(children, vec![0]);
    // The second root is the same path: it is skipped.
    assert_eq!(walk.next_dir(), Some(2));
    let (found, children) = walk.step(2, &Vec::new(), &Vec::new(), &Vec::new());
    assert!(found.is_empty() && children.is_empty());
    assert_eq!(walk.next_dir(), None);
}

#[test]
fn project_walk_reports_an_ecosystem_once_per_subtree() {
    let mut walk = ProjectWalk::new(strings(&["/r"]));
    assert_eq!(walk.next_dir(), Some(0));
    let (found, children) = walk.step(
        0,
        &strings(&["web", "build", ".git"]),
        &strings(&["/r/web", "/r/build", "/r/.git"]),
        &strings(&["requirements.txt", "pyproject.toml", "package.json"]),
    );
    assert_eq!(found, vec![(0, ProjectEcosystem::Python), (2, ProjectEcosystem::Node)]);
    assert_eq!(children, vec![0]);
    assert_eq!(walk.next_dir(), Some(1));
    let (found, children) = walk.step(
        1,
        &strings(&["api"]),
        &strings(&["/r/web/api"]),
        &strings(&["package.json", "Cargo.toml", "setup.cfg"]),
    );
    assert_eq!(found, vec![(1, ProjectEcosystem::Rust)]);
    assert_eq!(children, vec![0]);
    assert_eq!(walk.next_dir(), Some(2));
    let (found, _) = walk.step(2, &Vec::new(), &Vec::new(), &strings(&["go.mod", "Cargo.toml", "Gemfile"]));
    assert_eq!(found, vec![(0, ProjectEcosystem::Go), (2, ProjectEcosystem::Ruby)]);
}
