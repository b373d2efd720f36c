use free_range::error::CoreError;
use free_range::store::{EntityStore, IndexView};
use free_range::wildfire::{Agent, AgentColumns};

fn agent(id: u64) -> Agent {
    Agent { id, x: id as usize, y: 0, suppressant: 10, equipment: 3 }
}

fn ids(store: &EntityStore<AgentColumns>, env: usize) -> Vec<u64> {
    let view = store.index_view(env).unwrap();
    (0..view.len()).map(|i| view.get(i).id).collect()
}

#[test]
fn swap_delete_keeps_the_survivors() {
    let mut store = EntityStore::<AgentColumns>::new(2, 4, agent(0));
    for id in [1, 2, 3] {
        store.add(0, agent(id)).unwrap();
    }
    store.remove(0, 0).unwrap();
    let mut left = ids(&store, 0);
    left.sort();
    assert_eq!(left, vec![2, 3]);
    assert_eq!(ids(&store, 0), vec![3, 2]);

    store.add(0, agent(4)).unwrap();
    assert_eq!(ids(&store, 0), vec![3, 2, 4]);
    assert!(ids(&store, 1).is_empty());
}

#[test]
fn removing_the_last_entity_only_shrinks() {
    let mut store = EntityStore::<AgentColumns>::new(1, 3, agent(0));
    store.add(0, agent(7)).unwrap();
    store.add(0, agent(8)).unwrap();
    store.remove(0, 1).unwrap();
    assert_eq!(ids(&store, 0), vec![7]);
}

#[test]
fn environments_do_not_share_entities() {
    let mut store = EntityStore::<AgentColumns>::new(3, 2, agent(0));
    store.add(1, agent(11)).unwrap();
    store.add(0, agent(1)).unwrap();
    store.add(2, agent(21)).unwrap();
    store.add(1, agent(12)).unwrap();
    store.remove(1, 0).unwrap();
    assert_eq!(ids(&store, 0), vec![1]);
    assert_eq!(ids(&store, 1), vec![12]);
    assert_eq!(ids(&store, 2), vec![21]);
    store.clear();
    for env in 0..3 {
        assert_eq!(store.live_count(env), 0);
    }
    store.add(2, agent(5)).unwrap();
    assert_eq!(ids(&store, 2), vec![5]);
}

#[test]
fn capacity_is_enforced() {
    let mut store = EntityStore::<AgentColumns>::new(2, 2, agent(0));
    store.add(0, agent(1)).unwrap();
    store.add(0, agent(2)).unwrap();
    let err = store.add(0, agent(3)).unwrap_err();
    assert!(matches!(err, CoreError::CapacityExceeded { attempted: 3, max: 2 }));
    assert_eq!(ids(&store, 0), vec![1, 2]);
    store.add(1, agent(9)).unwrap();
}

#[test]
fn out_of_bounds_indices_are_rejected() {
    let mut store = EntityStore::<AgentColumns>::new(2, 2, agent(0));
    store.add(0, agent(1)).unwrap();
    assert!(matches!(store.remove(0, 1), Err(CoreError::IndexOutOfBounds(1))));
    assert!(matches!(store.remove(5, 0), Err(CoreError::IndexOutOfBounds(5))));
    assert!(matches!(store.add(2, agent(2)), Err(CoreError::IndexOutOfBounds(2))));
    assert!(store.index_view(2).is_none());
    assert_eq!(ids(&store, 0), vec![1]);
}

#[test]
fn views_of_several_environments() {
    let mut store = EntityStore::<AgentColumns>::new(3, 2, agent(0));
    store.add(0, agent(1)).unwrap();
    store.add(2, agent(5)).unwrap();
    store.add(2, agent(6)).unwrap();
    let views = store.index_views(&vec![2, 0, 1, 7]);
    assert_eq!(views.len(), 4);
    let w = views[0].as_ref().unwrap();
    assert_eq!((w.len(), w.get(0).id, w.get(1).id), (2, 5, 6));
    assert_eq!(views[1].as_ref().unwrap().get(0).id, 1);
    assert_eq!(views[2].as_ref().unwrap().len(), 0);
    assert!(views[3].is_none());
}
