use persist_make::error::MaterializeError;
use persist_make::paths::{accumulate_pairs, join_component, relative_components, split_components};

fn b(s: &str) -> Vec<u8> {
    s.as_bytes().to_vec()
}

#[test]
fn split_skips_empty_and_dot_runs() {
    assert_eq!(split_components(&b("/a//b/./c/")), vec![b("a"), b("b"), b("c")]);
    assert_eq!(split_components(&b("/")), Vec::<Vec<u8>>::new());
    assert_eq!(split_components(&b("")), Vec::<Vec<u8>>::new());
    assert_eq!(split_components(&b("/a/../b")), vec![b("a"), b(".."), b("b")]);
    assert_eq!(split_components(&b("/.hidden")), vec![b(".hidden")]);
}

#[test]
fn join_adds_one_separator() {
    assert_eq!(join_component(&b("/src"), &b("a")), b("/src/a"));
    assert_eq!(join_component(&b("/src/"), &b("a")), b("/src/a"));
    assert_eq!(join_component(&b("/"), &b("a")), b("/a"));
    assert_eq!(join_component(&b(""), &b("a")), b("a"));
}

#[test]
fn relative_components_discards_root() {
    assert_eq!(relative_components(&b("/a/b/c.txt")), Ok(vec![b("a"), b("b"), b("c.txt")]));
    assert_eq!(relative_components(&b("/")), Ok(vec![]));
}

#[test]
fn relative_components_refuses_unrooted_path() {
    assert_eq!(relative_components(&b("a/b")), Err(MaterializeError::NotRooted(b("a/b"))));
    assert_eq!(relative_components(&b("")), Err(MaterializeError::NotRooted(b(""))));
}

#[test]
fn pairs_for_nested_path() {
    let pairs = accumulate_pairs(&b("/src"), &b("/dst"), &b("/a/b/c.txt")).unwrap();
    let got: Vec<(Vec<u8>, Vec<u8>)> = pairs.into_iter().map(|p| (p.source, p.target)).collect();
    assert_eq!(
        got,
        vec![
            (b("/src/a"), b("/dst/a")),
            (b("/src/a/b"), b("/dst/a/b")),
            (b("/src/a/b/c.txt"), b("/dst/a/b/c.txt")),
        ]
    );
}

#[test]
fn single_component_gives_one_pair() {
    let pairs = accumulate_pairs(&b("/src/"), &b("/dst"), &b("/a")).unwrap();
    assert_eq!(pairs.len(), 1);
    assert_eq!(pairs[0].source, b("/src/a"));
    assert_eq!(pairs[0].target, b("/dst/a"));
}

#[test]
fn root_path_gives_no_pairs() {
    let pairs = accumulate_pairs(&b("/src"), &b("/dst"), &b("/")).unwrap();
    assert!(pairs.is_empty());
}

#[test]
fn unrooted_path_gives_no_pairs() {
    assert_eq!(
        accumulate_pairs(&b("/src"), &b("/dst"), &b("a/b")),
        Err(MaterializeError::NotRooted(b("a/b")))
    );
}
