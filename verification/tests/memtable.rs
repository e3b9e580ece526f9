use kvwal::entity::Entity;
use kvwal::memtable::Memtable;
use kvwal::vector_memtable::VectorMemtable;

#[test]
pub fn test_vector_memetable() {
    let mut vm = VectorMemtable::new();
    vm.insert(Entity::new("id1", "name1", 4));
    vm.insert(Entity::new("id2", "name2", 4));
    vm.insert(Entity::new("id3", "name3", 4));
    assert_eq!(
        vm.find("id1".as_bytes()).unwrap(),
        &Entity::new("id1", "name1", 4)
    );
    assert_eq!(
        vm.find("id2".as_bytes()).unwrap(),
        &Entity::new("id2", "name2", 4)
    );
    assert_eq!(
        vm.find("id3".as_bytes()).unwrap(),
        &Entity::new("id3", "name3", 4)
    );
    vm.insert(Entity::new("id2", "name2updated", 4));
    assert_eq!(
        vm.find("id2".as_bytes()).unwrap(),
        &Entity::new("id2", "name2updated", 4)
    );
    vm.insert(Entity::new("id2", "name2", 4));
    assert_eq!(
        vm.find("id2".as_bytes()).unwrap(),
        &Entity::new("id2", "name2", 4)
    );
    assert!(vm.find("id7".as_bytes()).is_err());
}

#[test]
fn last_insert_wins_for_a_key() {
    let mut vm = VectorMemtable::new();
    vm.insert(Entity::new("k", "first", 1));
    vm.insert(Entity::new("other", "x", 1));
    vm.insert(Entity::new("k", "second", 2));
    assert_eq!(vm.find("k".as_bytes()).unwrap(), &Entity::new("k", "second", 2));
    assert_eq!(vm.find("other".as_bytes()).unwrap(), &Entity::new("other", "x", 1));
}

#[test]
fn delete_shadows_despite_other_keys_in_between() {
    let mut vm = VectorMemtable::new();
    vm.insert(Entity::new("k", "v", 1));
    vm.insert(Entity::new("a", "va", 1));
    vm.insert(Entity::new("b", "vb", 1));
    vm.delete(Entity::new("k", "v", 1));
    vm.insert(Entity::new("c", "vc", 1));
    assert!(vm.find("k".as_bytes()).is_err());
    assert_eq!(vm.find("a".as_bytes()).unwrap(), &Entity::new("a", "va", 1));
    assert_eq!(vm.find("c".as_bytes()).unwrap(), &Entity::new("c", "vc", 1));
}

#[test]
fn reinsert_after_delete_is_found_live() {
    let mut vm = VectorMemtable::new();
    vm.insert(Entity::new("k", "old", 1));
    vm.delete(Entity::new("k", "old", 1));
    assert!(vm.find("k".as_bytes()).is_err());
    vm.insert(Entity::new("k", "new", 2));
    assert_eq!(vm.find("k".as_bytes()).unwrap(), &Entity::new("k", "new", 2));
}

#[test]
fn find_on_never_inserted_key_is_not_found() {
    let mut vm: VectorMemtable<Entity> = VectorMemtable::new();
    assert!(vm.find("missing".as_bytes()).is_err());
    vm.insert(Entity::new("present", "v", 1));
    assert!(vm.find("missing".as_bytes()).is_err());
}

#[test]
fn empty_key_is_a_key_like_any_other() {
    let mut vm = VectorMemtable::new();
    vm.insert(Entity::new("", "empty", 0));
    assert_eq!(vm.find("".as_bytes()).unwrap(), &Entity::new("", "empty", 0));
    assert!(vm.find("x".as_bytes()).is_err());
}
