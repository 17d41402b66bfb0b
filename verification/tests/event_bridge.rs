use keysound::bridge::{EventBridge, Received};
use keysound::sound::{KeyEvent, KeyPressType, SoundType};

#[test]
fn new_bridge_is_open_and_empty() {
    let mut bridge = EventBridge::new();
    assert!(!bridge.is_closed());
    assert_eq!(bridge.pending(), 0);
    assert_eq!(bridge.receive(), Received::Empty);
    assert_eq!(bridge.receive(), Received::Empty);
}

#[test]
fn events_sent_then_closed_arrive_in_order_then_end() {
    let events: Vec<KeyEvent> = vec![
        (KeyPressType::Press, SoundType::Enter),
        (KeyPressType::Release, SoundType::Enter),
        (KeyPressType::Press, SoundType::Generic),
        (KeyPressType::Press, SoundType::Generic),
        (KeyPressType::Release, SoundType::Space),
        (KeyPressType::Press, SoundType::Backspace),
        (KeyPressType::Release, SoundType::Generic),
    ];
    let mut bridge = EventBridge::new();
    for event in &events {
        assert_eq!(bridge.send(*event), Ok(()));
    }
    assert_eq!(bridge.pending(), events.len());
    bridge.close();
    for event in &events {
        assert_eq!(bridge.receive(), Received::Event(*event));
    }
    assert_eq!(bridge.pending(), 0);
    assert_eq!(bridge.receive(), Received::Closed);
    assert_eq!(bridge.receive(), Received::Closed);
}

#[test]
fn closing_an_empty_bridge_ends_the_stream_at_once() {
    let mut bridge = EventBridge::new();
    bridge.close();
    assert!(bridge.is_closed());
    assert_eq!(bridge.receive(), Received::Closed);
}

#[test]
fn many_events_queue_without_loss() {
    let mut bridge = EventBridge::new();
    let sounds = [SoundType::Backspace, SoundType::Enter, SoundType::Generic, SoundType::Space];
    for i in 0..1000usize {
        let state = if i % 3 == 0 { KeyPressType::Release } else { KeyPressType::Press };
        assert_eq!(bridge.send((state, sounds[i % 4])), Ok(()));
    }
    assert_eq!(bridge.pending(), 1000);
    bridge.close();
    for i in 0..1000usize {
        let state = if i % 3 == 0 { KeyPressType::Release } else { KeyPressType::Press };
        assert_eq!(bridge.receive(), Received::Event((state, sounds[i % 4])));
    }
    assert_eq!(bridge.receive(), Received::Closed);
}

#[test]
fn send_on_a_closed_bridge_hands_the_event_back() {
    let mut bridge = EventBridge::new();
    assert_eq!(bridge.send((KeyPressType::Press, SoundType::Space)), Ok(()));
    bridge.close();
    assert_eq!(
        bridge.send((KeyPressType::Release, SoundType::Enter)),
        Err((KeyPressType::Release, SoundType::Enter))
    );
    assert_eq!(bridge.pending(), 1);
    assert_eq!(bridge.receive(), Received::Event((KeyPressType::Press, SoundType::Space)));
    assert_eq!(bridge.receive(), Received::Closed);
}

#[test]
fn receives_between_sends_keep_the_order() {
    let mut bridge = EventBridge::new();
    assert_eq!(bridge.send((KeyPressType::Press, SoundType::Enter)), Ok(()));
    assert_eq!(bridge.send((KeyPressType::Release, SoundType::Enter)), Ok(()));
    assert_eq!(bridge.receive(), Received::Event((KeyPressType::Press, SoundType::Enter)));
    assert_eq!(bridge.send((KeyPressType::Press, SoundType::Space)), Ok(()));
    assert_eq!(bridge.receive(), Received::Event((KeyPressType::Release, SoundType::Enter)));
    assert_eq!(bridge.receive(), Received::Event((KeyPressType::Press, SoundType::Space)));
    assert_eq!(bridge.receive(), Received::Empty);
    assert_eq!(bridge.send((KeyPressType::Release, SoundType::Space)), Ok(()));
    assert_eq!(bridge.receive(), Received::Event((KeyPressType::Release, SoundType::Space)));
}

#[test]
fn closing_twice_changes_nothing() {
    let mut bridge = EventBridge::new();
    assert_eq!(bridge.send((KeyPressType::Press, SoundType::Generic)), Ok(()));
    bridge.close();
    bridge.close();
    assert!(bridge.is_closed());
    assert_eq!(bridge.pending(), 1);
    assert_eq!(bridge.receive(), Received::Event((KeyPressType::Press, SoundType::Generic)));
    assert_eq!(bridge.receive(), Received::Closed);
}
