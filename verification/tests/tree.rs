use siff::file_utils::{
    add_component, add_entry, build_directories_with_descendants_map, collapse_all_directories, copy_tree,
    expand_all_directories, flatten_visible_tree, generate_file_tree_text, get_selected_files,
    has_selected_descendants, new_tree, select_all_visible_files, toggle_selection_recursive,
    unselect_all_items, validate_file_path,
};
use siff::path::{Component, FilePath};
use siff::types::{Backend, FileNode, FileTree, OutputFormat};

fn rooted(names: &[&str]) -> FilePath {
    let mut components = vec![Component::RootDir];
    for name in names {
        components.push(Component::Normal(name.to_string()));
    }
    FilePath { components }
}

/// w: docs (guide.md), src (main.rs, ui (mod.rs)), README.md
fn sample() -> FileTree {
    let root = rooted(&["w"]);
    let mut tree = new_tree(root.clone());
    assert!(add_entry(&mut tree, &root, "docs", true));
    assert!(add_entry(&mut tree, &root.child("docs"), "guide.md", false));
    assert!(add_entry(&mut tree, &root, "src", true));
    assert!(add_entry(&mut tree, &root.child("src"), "main.rs", false));
    assert!(add_entry(&mut tree, &root.child("src"), "ui", true));
    assert!(add_entry(&mut tree, &rooted(&["w", "src", "ui"]), "mod.rs", false));
    assert!(add_entry(&mut tree, &root, "README.md", false));
    tree
}

fn shown(tree: &FileTree) -> Vec<String> {
    flatten_visible_tree(tree, &rooted(&["w"])).iter().map(|p| p.to_text("/")).collect()
}

fn expand_root(tree: &mut FileTree) {
    let i = tree.position(&rooted(&["w"])).unwrap();
    tree.set_expanded_at(i, true);
}

#[test]
fn entries_are_added_once_and_to_directories() {
    let mut tree = sample();
    assert_eq!(tree.len(), 8);
    assert!(!add_entry(&mut tree, &rooted(&["w"]), "src", true));
    assert!(!add_entry(&mut tree, &rooted(&["w", "README.md"]), "x", false));
    assert!(!add_entry(&mut tree, &rooted(&["missing"]), "x", false));
    assert_eq!(tree.len(), 8);
    let node = tree.get(&rooted(&["w", "src", "ui", "mod.rs"])).unwrap();
    assert_eq!(node.depth, 3);
    assert_eq!(node.name, "mod.rs");
    assert!(!node.is_directory);
    assert_eq!(tree.get(&rooted(&["w", "src"])).unwrap().children.len(), 2);
}

#[test]
fn list_shows_expanded_directories_only() {
    let mut tree = sample();
    assert!(shown(&tree).is_empty());
    expand_root(&mut tree);
    assert_eq!(shown(&tree), vec!["/w/docs", "/w/src", "/w/README.md"]);
    expand_all_directories(&mut tree);
    assert_eq!(
        shown(&tree),
        vec![
            "/w/docs",
            "/w/docs/guide.md",
            "/w/src",
            "/w/src/main.rs",
            "/w/src/ui",
            "/w/src/ui/mod.rs",
            "/w/README.md"
        ]
    );
    let i = tree.position(&rooted(&["w", "src"])).unwrap();
    tree.toggle_expansion_at(i);
    assert_eq!(shown(&tree), vec!["/w/docs", "/w/docs/guide.md", "/w/src", "/w/README.md"]);
    collapse_all_directories(&mut tree);
    assert!(shown(&tree).is_empty());
}

#[test]
fn toggling_selects_all_below() {
    let mut tree = sample();
    assert_eq!(toggle_selection_recursive(&mut tree, &rooted(&["w", "src"])), Ok(()));
    assert_eq!(
        get_selected_files(&tree),
        vec![rooted(&["w", "src", "main.rs"]), rooted(&["w", "src", "ui", "mod.rs"])]
    );
    assert!(tree.get(&rooted(&["w", "src", "ui"])).unwrap().is_selected);
    assert!(!tree.get(&rooted(&["w"])).unwrap().is_selected);
    assert!(has_selected_descendants(&tree, &rooted(&["w"])));
    assert!(!has_selected_descendants(&tree, &rooted(&["w", "docs"])));
    // a part below is unselected, the directory above keeps its state
    assert_eq!(toggle_selection_recursive(&mut tree, &rooted(&["w", "src", "ui"])), Ok(()));
    assert_eq!(get_selected_files(&tree), vec![rooted(&["w", "src", "main.rs"])]);
    assert!(tree.get(&rooted(&["w", "src"])).unwrap().is_selected);
    assert_eq!(
        toggle_selection_recursive(&mut tree, &rooted(&["x"])),
        Err("Path not found in file tree".to_string())
    );
}

#[test]
fn toggling_twice_gives_the_node_back() {
    let mut tree = sample();
    let src = rooted(&["w", "src"]);
    toggle_selection_recursive(&mut tree, &rooted(&["w", "src", "main.rs"])).unwrap();
    toggle_selection_recursive(&mut tree, &src).unwrap();
    toggle_selection_recursive(&mut tree, &src).unwrap();
    assert!(!tree.get(&src).unwrap().is_selected);
    assert!(get_selected_files(&tree).is_empty());
}

#[test]
fn select_all_takes_visible_items() {
    let mut tree = sample();
    expand_root(&mut tree);
    let visible = flatten_visible_tree(&tree, &rooted(&["w"]));
    assert_eq!(select_all_visible_files(&mut tree, &visible), Ok(()));
    assert_eq!(get_selected_files(&tree), vec![rooted(&["w", "README.md"])]);
    assert!(tree.get(&rooted(&["w", "src"])).unwrap().is_selected);
    unselect_all_items(&mut tree);
    assert!(get_selected_files(&tree).is_empty());
    assert!(!has_selected_descendants(&tree, &rooted(&["w"])));
    assert_eq!(
        select_all_visible_files(&mut tree, &vec![rooted(&["w", "src"]), rooted(&["gone"])]),
        Err("Path not found in file tree".to_string())
    );
    assert!(!tree.get(&rooted(&["w", "src"])).unwrap().is_selected);
}

#[test]
fn descendants_map_covers_directories() {
    let mut tree = sample();
    toggle_selection_recursive(&mut tree, &rooted(&["w", "src", "ui", "mod.rs"])).unwrap();
    let map = build_directories_with_descendants_map(&tree);
    assert_eq!(map.len(), 4);
    assert_eq!(map.get(&rooted(&["w"])), Some(&true));
    assert_eq!(map.get(&rooted(&["w", "src"])), Some(&true));
    assert_eq!(map.get(&rooted(&["w", "src", "ui"])), Some(&true));
    assert_eq!(map.get(&rooted(&["w", "docs"])), Some(&false));
    assert_eq!(map.get(&rooted(&["w", "README.md"])), None);
}

#[test]
fn tree_text_lists_every_node() {
    let tree = sample();
    assert_eq!(
        generate_file_tree_text(&tree, &rooted(&["w"])),
        "docs/\n  guide.md\nsrc/\n  main.rs\n  ui/\n    mod.rs\nREADME.md\n"
    );
    assert_eq!(generate_file_tree_text(&tree, &rooted(&["x"])), "");
}

#[test]
fn arguments_are_validated() {
    let dir = rooted(&["w"]);
    assert_eq!(validate_file_path(&rooted(&["w", "a", "b.rs"]), &dir, "/"), Some("a/b.rs".to_string()));
    assert_eq!(validate_file_path(&rooted(&["w", "a", "b.rs"]), &dir, "\\"), Some("a\\b.rs".to_string()));
    assert_eq!(validate_file_path(&rooted(&["x", "b.rs"]), &dir, "/"), None);
    assert_eq!(validate_file_path(&dir, &dir, "/"), None);
    assert_eq!(validate_file_path(&rooted(&["w", "-x"]), &dir, "/"), None);
    assert_eq!(validate_file_path(&rooted(&["w", "a..b"]), &dir, "/"), None);
    assert_eq!(validate_file_path(&rooted(&["w", "a-b"]), &dir, "/"), Some("a-b".to_string()));
}

#[test]
fn copies_are_equal() {
    let mut tree = sample();
    toggle_selection_recursive(&mut tree, &rooted(&["w", "docs"])).unwrap();
    let copy = copy_tree(&tree);
    assert_eq!(copy.len(), tree.len());
    let mut i = 0;
    while i < tree.len() {
        assert_eq!(copy.key_at(i), tree.key_at(i));
        assert_eq!(copy.value_at(i), tree.value_at(i));
        i += 1;
    }
}

#[test]
fn nodes_take_their_name_from_the_path() {
    let mut file = FileNode::new(rooted(&["w", "a.rs"]), false, 1);
    assert_eq!(file.name, "a.rs");
    file.toggle_expansion();
    assert!(!file.is_expanded);
    let mut dir = FileNode::new(rooted(&["w"]), true, 0);
    dir.toggle_expansion();
    assert!(dir.is_expanded);
    assert_eq!(FileNode::new(rooted(&[]), true, 0).name, "");
}

#[test]
fn names_and_flags() {
    assert_eq!(Backend::Repomix.display_name(), "Repomix");
    assert_eq!(Backend::Yek.display_name(), "Yek");
    assert_eq!(Backend::default(), Backend::Repomix);
    assert_eq!(OutputFormat::PlainText.display_name(), "Plain Text");
    assert_eq!(OutputFormat::Markdown.display_name(), "Markdown");
    assert_eq!(OutputFormat::Xml.display_name(), "XML");
    assert_eq!(OutputFormat::PlainText.repomix_flag(), Some("--style=plain"));
    assert_eq!(OutputFormat::Markdown.repomix_flag(), Some("--style=markdown"));
    assert_eq!(OutputFormat::Xml.repomix_flag(), Some("--style=xml"));
    assert_eq!(OutputFormat::default(), OutputFormat::PlainText);
    assert_eq!(OutputFormat::Xml.cycled().cycled().cycled(), OutputFormat::Xml);
}

#[test]
fn foreign_names_stand_in_the_tree() {
    let root = rooted(&["w"]);
    let mut tree = new_tree(root.clone());
    let foreign = |unit| Component::Foreign(vec![unit], "\u{fffd}".to_string());
    assert!(add_component(&mut tree, &root, foreign(0xff), false));
    assert!(add_component(&mut tree, &root, foreign(0xfe), true));
    assert!(!add_component(&mut tree, &root, foreign(0xff), false));
    assert!(!add_component(&mut tree, &root, Component::ParentDir, true));
    assert!(add_entry(&mut tree, &root.with_component(foreign(0xfe)), "a", false));
    let node = tree.get(&root.with_component(foreign(0xff))).unwrap();
    assert_eq!(node.name, "\u{fffd}");
    toggle_selection_recursive(&mut tree, &root.with_component(foreign(0xfe))).unwrap();
    assert_eq!(get_selected_files(&tree), vec![root.with_component(foreign(0xfe)).child("a")]);
}
