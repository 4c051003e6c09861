use steel::arena;
use steel::compact_arena;
use steel::tombstoning_arena;

fn plain_items(a: &arena::Arena<i32>) -> Vec<i32> {
    let mut out = Vec::new();
    let mut it = a.iter();
    while let Some(x) = it.next() {
        out.push(*x);
    }
    out
}

fn tombstoning_items(a: &tombstoning_arena::Arena<i32>) -> Vec<i32> {
    let mut out = Vec::new();
    let mut it = a.iter();
    while let Some(x) = it.next() {
        out.push(*x);
    }
    out
}

fn compact_items(a: &compact_arena::Arena<i32>) -> Vec<i32> {
    let mut out = Vec::new();
    let mut it = a.iter();
    while let Some(x) = it.next() {
        out.push(*x);
    }
    out
}

#[test]
fn arena_arena_holds_items() {
    let mut a: arena::Arena<i32> = arena::Arena::new();
    a.add(1);
    a.add(2);
    a.add(3);
    assert_eq!(plain_items(&a), vec![1, 2, 3]);
}

#[test]
fn arena_arena_items_can_be_removed() {
    let mut a: arena::Arena<i32> = arena::Arena::new();
    a.add(1);
    let id_to_remove = a.add(2);
    a.add(3);

    let value = a.remove(id_to_remove);
    assert_eq!(plain_items(&a), vec![1, 3]);
    assert_eq!(value, Ok(2));
}

#[test]
fn arena_arena_items_can_be_modified() {
    let mut a: arena::Arena<i32> = arena::Arena::new();
    a.add(1);
    a.add(2);
    a.add(3);

    {
        let mut it = a.iter_mut();
        while let Some(x) = it.next() {
            *x += 1;
        }
    }
    assert_eq!(plain_items(&a), vec![2, 3, 4]);
}

#[test]
fn arena_removal_is_told_apart_from_a_bad_index() {
    let mut a: arena::Arena<i32> = arena::Arena::new();
    let id = a.add(7);
    assert_eq!(a.remove(id), Ok(7));
    assert_eq!(a.remove(id), Err(arena::ArenaError::IndexEmpty(id)));
    assert_eq!(a.remove(5), Err(arena::ArenaError::IndexOutOfBounds(5, 1)));
    let made = a.add_with_id(|id| id as i32 + 10);
    assert_eq!(made, 1);
    assert_eq!(plain_items(&a), vec![11]);
}

#[test]
fn tombstoning_arena_arena_holds_items() {
    let mut a: tombstoning_arena::Arena<i32> = tombstoning_arena::Arena::new();
    a.add(1);
    a.add(2);
    a.add(3);
    assert_eq!(tombstoning_items(&a), vec![1, 2, 3]);
}

#[test]
fn tombstoning_arena_arena_items_can_be_removed() {
    let mut a: tombstoning_arena::Arena<i32> = tombstoning_arena::Arena::new();
    a.add(1);
    let id_to_remove = a.add(2);
    a.add(3);

    let value = a.remove(id_to_remove);
    assert_eq!(tombstoning_items(&a), vec![1, 3]);
    assert_eq!(value, Ok(Some(2)));
}

#[test]
fn tombstoning_arena_arena_items_can_be_modified() {
    let mut a: tombstoning_arena::Arena<i32> = tombstoning_arena::Arena::new();
    a.add(1);
    a.add(2);
    a.add(3);

    {
        let mut it = a.iter_mut();
        while let Some(x) = it.next() {
            *x += 1;
        }
    }
    assert_eq!(tombstoning_items(&a), vec![2, 3, 4]);
}

#[test]
fn tombstones_stay_tombstones() {
    let mut a: tombstoning_arena::Arena<i32> = tombstoning_arena::Arena::new();
    let first = a.add(1);
    let second = a.add(2);
    assert_eq!(a.remove(first), Ok(Some(1)));
    // the index is not handed out again
    let third = a.add(3);
    assert_eq!(third, 2);
    assert_eq!(a.capacity(), 3);
    // a second removal finds nothing, and a bad index is another matter
    assert_eq!(a.remove(first), Ok(None));
    assert_eq!(
        a.remove(9),
        Err(tombstoning_arena::ArenaError::IndexOutOfBounds(9, 3))
    );
    // a tombstone is not revived by `set`
    assert_eq!(
        a.set(first, 5),
        Err(tombstoning_arena::ArenaError::IndexEmpty("i32".to_string(), first))
    );
    assert_eq!(
        a.get(first),
        Err(tombstoning_arena::ArenaError::IndexEmpty("i32".to_string(), first))
    );
    assert_eq!(a.set(second, 20), Ok(()));
    assert_eq!(a.get(second), Ok(&20));
    assert_eq!(
        a.set(9, 1),
        Err(tombstoning_arena::ArenaError::IndexOutOfBounds(9, 3))
    );
    if let Ok(x) = a.get_mut(third) {
        *x = 30;
    }
    assert_eq!(tombstoning_items(&a), vec![20, 30]);
    assert_eq!(a.active_mem_usage(), 2 * std::mem::size_of::<i32>());
    assert!(a.mem_usage() >= 3 * std::mem::size_of::<i32>());
}

#[test]
fn compact_arena_arena_holds_items() {
    let mut a: compact_arena::Arena<i32> = compact_arena::Arena::new();
    a.add(1);
    a.add(2);
    a.add(3);
    assert_eq!(compact_items(&a), vec![1, 2, 3]);
}

#[test]
fn compact_arena_arena_items_can_be_removed() {
    let mut a: compact_arena::Arena<i32> = compact_arena::Arena::new();
    a.add(1);
    let id_to_remove = a.add(2);
    a.add(3);

    let value = a.remove_by_swap(id_to_remove);
    assert_eq!(compact_items(&a), vec![1, 3]);
    assert_eq!(value, Ok(2));
}

#[test]
fn compact_arena_arena_items_can_be_modified() {
    let mut a: compact_arena::Arena<i32> = compact_arena::Arena::new();
    a.add(1);
    a.add(2);
    a.add(3);

    {
        let mut it = a.iter_mut();
        while let Some(x) = it.next() {
            *x += 1;
        }
    }
    assert_eq!(compact_items(&a), vec![2, 3, 4]);
}

#[test]
fn compact_arena_moves_the_last_entry_into_the_gap() {
    let mut a: compact_arena::Arena<i32> = compact_arena::Arena::new();
    a.add(1);
    a.add(2);
    a.add(3);
    a.add(4);
    assert_eq!(a.remove_by_swap(0), Ok(1));
    assert_eq!(compact_items(&a), vec![4, 2, 3]);
    assert_eq!(a.remove_by_swap(2), Ok(3));
    assert_eq!(compact_items(&a), vec![4, 2]);
    assert_eq!(
        a.remove_by_swap(2),
        Err(compact_arena::ArenaError::IndexOutOfBounds(2, 2))
    );
    assert_eq!(a.set(1, 20), Ok(()));
    assert_eq!(a.get(1), Ok(&20));
    assert_eq!(
        a.get(2),
        Err(compact_arena::ArenaError::IndexOutOfBounds(2, 2))
    );
    assert_eq!(a.capacity(), 2);
    assert_eq!(a.active_mem_usage(), 2 * std::mem::size_of::<i32>());
    let made = a.add_with_id(|id| id as i32 * 100);
    assert_eq!(made, 2);
    assert_eq!(compact_items(&a), vec![4, 20, 200]);
}
