use khigy::surface::SurfaceMap;

#[test]
fn one_render_drains_all_queued_callbacks_with_one_timestamp() {
    let mut map = SurfaceMap::new();
    let s = map.add_surface(None);
    map.set_committed(s);
    map.queue_frame_callback(s, 7);
    map.queue_frame_callback(s, 8);
    map.queue_frame_callback(s, 9);

    let fired = map.drain_frame_callbacks(&vec![s], 42);
    assert_eq!(fired.len(), 3);
    let callbacks: Vec<u32> = fired.iter().map(|f| f.callback).collect();
    assert_eq!(callbacks, vec![7, 8, 9]);
    for f in &fired {
        assert_eq!(f.time, 42);
    }
    assert!(map.surfaces[s].frame_callbacks.is_empty());
}

#[test]
fn a_listener_never_fires_twice_across_frames() {
    let mut map = SurfaceMap::new();
    let s = map.add_surface(None);
    map.set_committed(s);
    map.queue_frame_callback(s, 11);

    let first = map.drain_frame_callbacks(&vec![s], 1);
    assert_eq!(first.len(), 1);
    let second = map.drain_frame_callbacks(&vec![s], 2);
    assert_eq!(second.len(), 0);
}

#[test]
fn empty_queue_is_visited_without_any_invocation() {
    let mut map = SurfaceMap::new();
    let s = map.add_surface(None);
    map.set_committed(s);
    let fired = map.drain_frame_callbacks(&vec![s], 5);
    assert_eq!(fired.len(), 0);
    assert!(map.surfaces[s].frame_callbacks.is_empty());
}

#[test]
fn subsurfaces_of_a_committed_root_are_drained_too() {
    let mut map = SurfaceMap::new();
    let root = map.add_surface(None);
    let child = map.add_surface(Some(root));
    map.set_committed(root);
    map.set_committed(child);
    map.queue_frame_callback(root, 1);
    map.queue_frame_callback(child, 2);

    let fired = map.drain_frame_callbacks(&vec![root], 9);
    let mut callbacks: Vec<u32> = fired.iter().map(|f| f.callback).collect();
    callbacks.sort();
    assert_eq!(callbacks, vec![1, 2]);
    assert!(map.surfaces[child].frame_callbacks.is_empty());
}

#[test]
fn an_uncommitted_subtree_is_stopped_and_keeps_its_queues() {
    let mut map = SurfaceMap::new();
    let root = map.add_surface(None);
    let child = map.add_surface(Some(root));
    let grandchild = map.add_surface(Some(child));
    map.set_committed(root);
    // child never commits: its subtree carries no state yet
    map.set_committed(grandchild);
    map.queue_frame_callback(grandchild, 3);

    let fired = map.drain_frame_callbacks(&vec![root], 9);
    assert_eq!(fired.len(), 0);
    assert_eq!(map.surfaces[grandchild].frame_callbacks, vec![3]);
}

#[test]
fn a_surface_outside_the_frame_keeps_its_queue() {
    let mut map = SurfaceMap::new();
    let shown = map.add_surface(None);
    let other = map.add_surface(None);
    map.set_committed(shown);
    map.set_committed(other);
    map.queue_frame_callback(other, 4);

    let fired = map.drain_frame_callbacks(&vec![shown], 9);
    assert_eq!(fired.len(), 0);
    assert_eq!(map.surfaces[other].frame_callbacks, vec![4]);
}

#[test]
fn flatten_walks_the_tree_in_pre_order() {
    let mut map = SurfaceMap::new();
    let root = map.add_surface(None);
    let first = map.add_surface(Some(root));
    let second = map.add_surface(Some(root));
    let inner = map.add_surface(Some(first));
    map.set_committed(root);
    map.set_committed(first);
    map.set_committed(second);
    map.set_committed(inner);

    let elements = map.flatten_tree(&vec![root]);
    assert_eq!(elements, vec![root, first, inner, second]);
}
