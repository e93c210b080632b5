use megaphone::circular_buffer::CircularBuffer;

#[test]
fn ring_remembers_recent_ids_only() {
    let mut ring = CircularBuffer::new(2);
    ring.push(String::from("a"));
    ring.push(String::from("b"));
    assert!(ring.contains(&String::from("a")));
    assert!(ring.contains(&String::from("b")));
    ring.push(String::from("c"));
    assert!(!ring.contains(&String::from("a")));
    assert!(ring.contains(&String::from("b")));
    assert!(ring.contains(&String::from("c")));
    assert_eq!(ring.buffer.len(), 2);
}

#[test]
fn repeated_event_ids_are_filtered() {
    let mut ring = CircularBuffer::new(3);
    assert!(ring.accept_once(String::from("e1")));
    assert!(!ring.accept_once(String::from("e1")));
    assert!(ring.accept_once(String::from("e2")));
    assert_eq!(ring.buffer.len(), 2);
}

#[test]
fn a_full_ring_overwrites_the_oldest_slot() {
    let mut ring = CircularBuffer::new(2);
    ring.push(String::from("a"));
    ring.push(String::from("b"));
    ring.push(String::from("c"));
    assert_eq!(ring.buffer, vec![String::from("c"), String::from("b")]);
    ring.push(String::from("d"));
    assert_eq!(ring.buffer, vec![String::from("c"), String::from("d")]);
}

#[test]
fn the_ring_holds_exactly_the_last_pushed() {
    let mut ring = CircularBuffer::new(3);
    for id in ["a", "b", "c", "d", "e"] {
        ring.push(String::from(id));
    }
    assert!(!ring.contains(&String::from("a")));
    assert!(!ring.contains(&String::from("b")));
    for id in ["c", "d", "e"] {
        assert!(ring.contains(&String::from(id)));
    }
    assert_eq!(ring.idx, 2);
}
