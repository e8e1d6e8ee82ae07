use rtmp_vcam::surface_pool::{SurfaceRing, NULL_SURFACE, RING_SIZE};

#[test]
fn test_ring_empty() {
    let ring = SurfaceRing::new();
    assert!(ring.latest().is_none());
    assert_eq!(ring.write_count(), 0);
}

#[test]
fn test_ring_push_read() {
    let mut ring = SurfaceRing::new();
    ring.push(42, 1000, NULL_SURFACE);
    let (id, ts) = ring.latest().unwrap();
    assert_eq!(id, 42);
    assert_eq!(ts, 1000);
    assert_eq!(ring.write_count(), 1);
}

#[test]
fn test_ring_overwrap() {
    let mut ring = SurfaceRing::new();
    for i in 0..20u32 {
        ring.push(i + 1, (i as u64 + 1) * 33, NULL_SURFACE);
    }
    let (id, ts) = ring.latest().unwrap();
    assert_eq!(id, 20);
    assert_eq!(ts, 20 * 33);
    assert_eq!(ring.write_count(), 20);
}

#[test]
fn ring_has_eight_slots() {
    assert_eq!(RING_SIZE, 8);
}

#[test]
fn push_hands_back_what_it_displaces() {
    let mut ring = SurfaceRing::new();
    // the first eight pushes displace nothing
    for i in 0..8usize {
        assert_eq!(ring.push(i as u32 + 1, i as u64, 0x1000 + i), NULL_SURFACE);
    }
    // from then on each push displaces the handle pushed eight pushes before
    for i in 8..30usize {
        assert_eq!(ring.push(i as u32 + 1, i as u64, 0x1000 + i), 0x1000 + i - 8);
    }
    assert_eq!(ring.write_count(), 30);
}

#[test]
fn exactly_ring_size_handles_stay_retained() {
    let mut ring = SurfaceRing::new();
    let mut live: Vec<usize> = Vec::new();
    for i in 0..21usize {
        let handle = 0x2000 + i;
        live.push(handle);
        let displaced = ring.push(i as u32 + 1, 0, handle);
        if displaced != NULL_SURFACE {
            let at = live.iter().position(|h| *h == displaced).unwrap();
            live.remove(at);
        }
    }
    assert_eq!(live.len(), RING_SIZE);
    let mut released = ring.release_all();
    released.sort();
    assert_eq!(released, live);
    assert_eq!(released, (0x2000 + 13..0x2000 + 21).collect::<Vec<usize>>());
}

#[test]
fn fewer_pushes_than_slots_retain_one_handle_each() {
    let mut ring = SurfaceRing::new();
    for i in 0..3usize {
        ring.push(i as u32 + 1, 0, 0x30 + i);
    }
    assert_eq!(ring.release_all(), vec![0x30, 0x31, 0x32]);
}

#[test]
fn release_all_gives_each_handle_once() {
    let mut ring = SurfaceRing::new();
    ring.push(1, 10, 0xA);
    ring.push(2, 20, NULL_SURFACE);
    ring.push(3, 30, 0xC);
    assert_eq!(ring.release_all(), vec![0xA, 0xC]);
    // a second teardown finds nothing left
    assert_eq!(ring.release_all(), Vec::<usize>::new());
    // entries and counter are as they were
    assert_eq!(ring.latest(), Some((3, 30)));
    assert_eq!(ring.write_count(), 3);
    // and the next pushes displace nothing that was released already
    for i in 0..8u32 {
        assert_eq!(ring.push(i + 4, 0, NULL_SURFACE), NULL_SURFACE);
    }
}

#[test]
fn latest_shows_an_entry_with_id_zero() {
    let mut ring = SurfaceRing::new();
    ring.push(0, 5, NULL_SURFACE);
    assert_eq!(ring.latest(), Some((0, 5)));
    ring.push(7, 70, NULL_SURFACE);
    ring.push(0, 80, NULL_SURFACE);
    assert_eq!(ring.latest(), Some((0, 80)));
    assert_eq!(ring.write_count(), 3);
}

#[test]
fn latest_follows_every_push() {
    let mut ring = SurfaceRing::new();
    for k in 1..=40u64 {
        ring.push(k as u32, k * 1000, NULL_SURFACE);
        assert_eq!(ring.latest(), Some((k as u32, k * 1000)));
        assert_eq!(ring.write_count(), k);
    }
}
