use rex::kind::StateId;
use rex::storage::{Node, StateStore};
use std::sync::Arc;

#[derive(Clone, Copy, Debug, PartialEq, Eq)]
enum Shape {
    Round,
    Square,
}

fn id(uuid: u128) -> StateId<Shape> {
    StateId::new_with_u128(Shape::Round, uuid)
}

fn node(id: StateId<Shape>, state: &'static str) -> Node<StateId<Shape>, &'static str> {
    Node {
        id,
        state,
        descendants: Vec::new(),
    }
}

#[test]
fn nil_ids_are_recognised() {
    assert!(id(0).is_nil());
    assert!(StateId::new_with_u128(Shape::Square, 0).is_nil());
    assert!(!id(1).is_nil());
    assert!(!id(u128::MAX).is_nil());
}

#[test]
fn empty_store_has_no_tree() {
    let store: StateStore<Shape, &'static str> = StateStore::new();
    assert!(store.get_tree(id(1)).is_none());
    let other: StateStore<Shape, &'static str> = StateStore::default();
    assert!(other.get_tree(id(1)).is_none());
}

#[test]
fn new_tree_holds_its_node() {
    let mut root = node(id(1), "root");
    root.descendants.push(node(id(2), "leaf"));
    let tree = StateStore::new_tree(root);
    let guard = tree.mutex().lock();
    assert_eq!(guard.id, id(1));
    assert_eq!(guard.state, "root");
    assert_eq!(guard.descendants.len(), 1);
    assert_eq!(guard.descendants[0].state, "leaf");
}

#[test]
fn inserted_tree_is_found() {
    let mut store = StateStore::new();
    let tree = StateStore::new_tree(node(id(1), "a"));
    store.insert_ref(id(1), tree.clone());
    let found = store.get_tree(id(1)).unwrap();
    assert!(Arc::ptr_eq(&tree, &found));
    assert!(store.get_tree(id(2)).is_none());
}

#[test]
fn later_tree_takes_the_place_of_the_earlier() {
    let mut store = StateStore::new();
    let first = StateStore::new_tree(node(id(1), "first"));
    let second = StateStore::new_tree(node(id(1), "second"));
    store.insert_ref(id(1), first.clone());
    store.insert_ref(id(1), second.clone());
    assert!(Arc::ptr_eq(&store.get_tree(id(1)).unwrap(), &second));
    // only the test holds the first tree now
    assert_eq!(Arc::strong_count(&first), 1);
}

#[test]
fn removed_tree_is_gone() {
    let mut store = StateStore::new();
    let tree = StateStore::new_tree(node(id(1), "a"));
    store.insert_ref(id(1), tree.clone());
    assert_eq!(Arc::strong_count(&tree), 2);
    store.remove_ref(id(1));
    assert!(store.get_tree(id(1)).is_none());
    assert_eq!(Arc::strong_count(&tree), 1);
    // nothing is there to be taken out
    store.remove_ref(id(1));
    store.remove_ref(id(9));
    assert!(store.get_tree(id(1)).is_none());
}

#[test]
fn ids_share_a_tree_independently() {
    let mut store = StateStore::new();
    let tree = StateStore::new_tree(node(id(1), "shared"));
    store.insert_ref(id(1), tree.clone());
    store.insert_ref(id(2), tree.clone());
    store.get_tree(id(2)).unwrap().mutex().lock().state = "changed";
    assert_eq!(store.get_tree(id(1)).unwrap().mutex().lock().state, "changed");
    store.remove_ref(id(1));
    assert!(store.get_tree(id(1)).is_none());
    assert!(Arc::ptr_eq(&store.get_tree(id(2)).unwrap(), &tree));
}

#[test]
fn kinds_tell_ids_of_one_number_apart() {
    let mut store = StateStore::new();
    let round = StateId::new_with_u128(Shape::Round, 5);
    let square = StateId::new_with_u128(Shape::Square, 5);
    store.insert_ref(round, StateStore::new_tree(node(round, "round")));
    assert!(store.get_tree(square).is_none());
    store.insert_ref(square, StateStore::new_tree(node(square, "square")));
    assert_eq!(store.get_tree(round).unwrap().mutex().lock().state, "round");
    assert_eq!(store.get_tree(square).unwrap().mutex().lock().state, "square");
    store.remove_ref(round);
    assert!(store.get_tree(round).is_none());
    assert_eq!(store.get_tree(square).unwrap().mutex().lock().state, "square");
}

#[test]
fn other_trees_stay_when_one_goes() {
    let names = ["a", "b", "c", "d", "e"];
    let mut store = StateStore::new();
    for i in 0..5 {
        let key = id(i as u128 + 1);
        store.insert_ref(key, StateStore::new_tree(node(key, names[i])));
    }
    for gone in [2usize, 0, 4] {
        store.remove_ref(id(gone as u128 + 1));
    }
    for i in 0..5 {
        let found = store
            .get_tree(id(i as u128 + 1))
            .map(|tree| tree.mutex().lock().state);
        if i == 1 || i == 3 {
            assert_eq!(found, Some(names[i]));
        } else {
            assert_eq!(found, None);
        }
    }
    store.insert_ref(id(1), StateStore::new_tree(node(id(1), "again")));
    assert_eq!(store.get_tree(id(1)).unwrap().mutex().lock().state, "again");
    assert_eq!(store.get_tree(id(4)).unwrap().mutex().lock().state, "d");
}
