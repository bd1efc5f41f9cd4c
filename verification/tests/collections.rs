use bargo::app_project::{AppProjectClusterResourceWhitelist, AppProjectDestination};
use bargo::order::{is_less, sorted};
use bargo::sorted_map::SortedMap;
use bargo::unique::{Same, UniqueList};

fn strings(list: &[&str]) -> Vec<String> {
    list.iter().map(|s| s.to_string()).collect()
}

#[test]
fn strings_are_ordered_by_code_point() {
    let list = ["", "A", "a", "ab", "b", "é", "z", "\u{ffff}", "\u{10000}"];
    for a in list {
        for b in list {
            assert_eq!(is_less(a, b), a < b);
        }
    }
}

#[test]
fn strings_are_sorted() {
    let list = strings(&["b", "a", "c", "a", "", "B"]);
    assert_eq!(sorted(&list), strings(&["", "B", "a", "a", "b", "c"]));
    assert_eq!(sorted(&Vec::new()), Vec::<String>::new());
}

#[test]
fn the_order_of_listing_does_not_matter() {
    let a = strings(&["x", "y", "z", "x"]);
    let b = strings(&["z", "x", "x", "y"]);
    assert_eq!(sorted(&a), sorted(&b));
}

#[test]
fn a_map_keeps_its_keys_in_order() {
    let mut map = SortedMap::new();
    for key in ["m", "z", "a", "m"] {
        map.insert(key.to_string(), key.len());
    }
    map.insert("m".to_string(), 7);
    assert_eq!(map.len(), 3);
    assert_eq!(map.key_at(0), "a");
    assert_eq!(map.key_at(1), "m");
    assert_eq!(*map.value_at(1), 7);
    assert_eq!(map.key_at(2), "z");
    assert_eq!(map.get("m"), Some(&7));
    assert_eq!(map.get("b"), None);
    assert!(map.contains_key("z"));
    assert!(!map.contains_key("y"));
    assert_eq!(map.remove("m"), Some(7));
    assert_eq!(map.remove("m"), None);
    assert_eq!(map.into_entries(), vec![("a".to_string(), 1), ("z".to_string(), 1)]);
}

#[test]
fn nothing_occurs_twice_in_a_unique_list() {
    let mut list = UniqueList::new();
    for item in ["b", "a", "b", "c", "a"] {
        list.insert(item.to_string());
    }
    assert_eq!(*list.as_vec(), strings(&["b", "a", "c"]));
    assert_eq!(*list.copy().as_vec(), strings(&["b", "a", "c"]));
}

#[test]
fn destinations_and_resources_are_told_apart_by_their_fields() {
    let destination = |name: &str, namespace: &str, server: &str| AppProjectDestination {
        name: name.to_string(),
        namespace: namespace.to_string(),
        server: server.to_string(),
    };
    assert!(destination("a", "b", "c").same(&destination("a", "b", "c")));
    assert!(!destination("a", "b", "c").same(&destination("x", "b", "c")));
    assert!(!destination("a", "b", "c").same(&destination("a", "x", "c")));
    assert!(!destination("a", "b", "c").same(&destination("a", "b", "x")));
    let resource = |group: &str, kind: &str| AppProjectClusterResourceWhitelist {
        group: group.to_string(),
        kind: kind.to_string(),
    };
    assert!(resource("a", "b").same(&resource("a", "b").copied()));
    assert!(!resource("a", "b").same(&resource("a", "x")));
    assert!(!resource("a", "b").same(&resource("x", "b")));
}
