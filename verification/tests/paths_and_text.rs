use siff::path::{copy_paths, list_holds, Component, FilePath};
use siff::path_map::{PathMap, PathSet};
use siff::platform::Platform;
use siff::text::{
    contains_text, decimal_text, join_texts, repeat_text, signed_decimal_text, starts_with_text,
};

fn rooted(names: &[&str]) -> FilePath {
    let mut components = vec![Component::RootDir];
    for name in names {
        components.push(Component::Normal(name.to_string()));
    }
    FilePath { components }
}

fn relative(names: &[&str]) -> FilePath {
    FilePath { components: names.iter().map(|n| Component::Normal(n.to_string())).collect() }
}

#[test]
fn parents_stop_at_the_root() {
    let p = rooted(&["a", "b"]);
    assert_eq!(p.parent(), Some(rooted(&["a"])));
    assert_eq!(rooted(&["a"]).parent(), Some(rooted(&[])));
    assert_eq!(rooted(&[]).parent(), None);
    assert_eq!(relative(&["a"]).parent(), Some(FilePath::new()));
    assert_eq!(FilePath::new().parent(), None);
}

#[test]
fn file_names_are_last_names() {
    assert_eq!(rooted(&["a", "b.rs"]).file_name(), Some("b.rs".to_string()));
    assert_eq!(rooted(&[]).file_name(), None);
    assert_eq!(FilePath::current_dir().file_name(), None);
}

#[test]
fn prefixes_are_whole_components() {
    let dir = rooted(&["a"]);
    assert!(rooted(&["a", "b"]).starts_with(&dir));
    assert!(dir.starts_with(&dir));
    assert!(!rooted(&["ab"]).starts_with(&dir));
    assert_eq!(rooted(&["a", "b", "c"]).strip_prefix(&dir), Some(relative(&["b", "c"])));
    assert_eq!(rooted(&["ab"]).strip_prefix(&dir), None);
    assert_eq!(dir.strip_prefix(&dir), Some(FilePath::new()));
}

#[test]
fn paths_as_text() {
    assert_eq!(rooted(&["a", "b"]).to_text("/"), "/a/b");
    assert_eq!(relative(&["a", "b"]).to_text("\\"), "a\\b");
    assert_eq!(rooted(&[]).to_text("/"), "/");
    assert_eq!(FilePath::new().to_text("/"), "");
    assert_eq!(FilePath::current_dir().child("siff").to_text("/"), "./siff");
    let drive = FilePath {
        components: vec![
            Component::Prefix("C:".to_string()),
            Component::RootDir,
            Component::Normal("x".to_string()),
        ],
    };
    assert_eq!(drive.to_text("\\"), "C:\\x");
}

#[test]
fn separators_by_platform() {
    assert_eq!(Platform::Windows.separator(), "\\");
    assert_eq!(Platform::Linux.separator(), "/");
    assert_eq!(Platform::MacOs.separator(), "/");
    assert_eq!(Platform::Other.separator(), "/");
}

#[test]
fn lists_of_paths() {
    let list = vec![relative(&["a"]), relative(&["b"])];
    assert!(list_holds(&list, &relative(&["b"])));
    assert!(!list_holds(&list, &relative(&["c"])));
    assert_eq!(copy_paths(&list), list);
}

#[test]
fn maps_keep_the_order_of_insertion() {
    let mut map: PathMap<usize> = PathMap::new();
    map.insert(relative(&["b"]), 1);
    map.insert(relative(&["a"]), 2);
    map.insert(relative(&["b"]), 3);
    assert_eq!(map.len(), 2);
    assert_eq!(map.key_at(0), &relative(&["b"]));
    assert_eq!(map.get(&relative(&["b"])), Some(&3));
    assert_eq!(map.get(&relative(&["c"])), None);
    map.remove(&relative(&["b"]));
    assert_eq!(map.len(), 1);
    assert_eq!(map.key_at(0), &relative(&["a"]));
    map.clear();
    assert_eq!(map.len(), 0);
}

#[test]
fn sets_hold_members_once() {
    let mut set = PathSet::new();
    assert!(set.is_empty());
    set.insert(relative(&["a"]));
    set.insert(relative(&["a"]));
    set.insert(relative(&["b"]));
    assert_eq!(set.len(), 2);
    set.remove(&relative(&["a"]));
    assert!(!set.contains(&relative(&["a"])));
    assert!(set.contains(&relative(&["b"])));
}

#[test]
fn texts_are_searched_by_character() {
    assert!(contains_text("a → b", "→"));
    assert!(contains_text("abc", ""));
    assert!(!contains_text("ab", "abc"));
    assert!(starts_with_text("✓ done", "✓"));
    assert!(!starts_with_text(" ✓ done", "✓"));
}

#[test]
fn texts_are_built() {
    assert_eq!(decimal_text(0), "0");
    assert_eq!(decimal_text(u128::MAX), u128::MAX.to_string());
    assert_eq!(signed_decimal_text(-1), "-1");
    assert_eq!(signed_decimal_text(i32::MIN), i32::MIN.to_string());
    assert_eq!(signed_decimal_text(127), "127");
    assert_eq!(repeat_text("  ", 3), "      ");
    assert_eq!(join_texts(&vec!["a".to_string(), "b".to_string(), "c".to_string()], ", "), "a, b, c");
    assert_eq!(join_texts(&vec![], ", "), "");
}

#[test]
fn foreign_names_are_told_apart_by_their_units() {
    let dir = rooted(&["a"]);
    let one = dir.with_component(Component::Foreign(vec![0x66, 0xff], "f\u{fffd}".to_string()));
    let other = dir.with_component(Component::Foreign(vec![0x66, 0xfe], "f\u{fffd}".to_string()));
    assert!(one.same(&one.clone()));
    assert!(!one.same(&other));
    assert_eq!(one.to_text("/"), "/a/f\u{fffd}");
    assert_eq!(one.file_name(), None);
    assert_eq!(one.shown_name(), Some("f\u{fffd}".to_string()));
    assert_eq!(one.parent(), Some(dir.clone()));
    assert!(one.starts_with(&dir));
    assert!(!dir.child("f\u{fffd}").same(&one));
    let share = FilePath { components: vec![Component::ForeignPrefix(vec![0xd800], "\u{fffd}".to_string())] };
    assert_eq!(share.parent(), None);
    assert_eq!(share.shown_name(), None);
    assert!(share.same(&share.clone()));
}
