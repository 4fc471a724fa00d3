use trolly_gym::observation::ObservationWindow;
use trolly_gym::onnx::prepare_observation;
use trolly_gym::replay::ReplayBuffer;
use trolly_gym::ticks::TickTape;
use trolly_gym::Action;

#[derive(Debug, Clone, PartialEq)]
struct Transition {
    observation: Vec<f32>,
    action: Action,
    reward: f32,
    done: bool,
}

fn step(obs: f32, action: Action, reward: f32, done: bool) -> Transition {
    Transition {
        observation: vec![obs],
        action,
        reward,
        done,
    }
}

#[test]
fn replay_buffer_overwrites_oldest() {
    let mut buf = ReplayBuffer::new(2);
    buf.push(step(1.0, Action::Hold, 0.0, false));
    buf.push(step(2.0, Action::Buy, 1.0, false));
    buf.push(step(3.0, Action::Sell, -1.0, true));
    let snap = buf.snapshot();
    assert_eq!(snap.len(), 2);
    assert_eq!(snap[0].observation, vec![2.0]);
    assert_eq!(snap[1].observation, vec![3.0]);
    assert!(snap[1].done);
}

#[test]
fn replay_buffer_reports_fill() {
    let mut buf = ReplayBuffer::new(3);
    assert!(buf.is_empty());
    assert!(!buf.is_full());
    assert_eq!(buf.capacity(), 3);
    for i in 0..3u8 {
        buf.push(i);
    }
    assert!(buf.is_full());
    assert_eq!(buf.len(), 3);
    buf.push(9);
    assert_eq!(buf.snapshot(), vec![1, 2, 9]);
}

#[test]
fn observation_window_rolls_at_capacity() {
    let mut window = ObservationWindow::new(2);
    window.push(vec![1.0f32]);
    window.push(vec![2.0f32]);
    window.push(vec![3.0f32]);
    assert_eq!(window.len(), 2);
    assert_eq!(window.flattened(), vec![2.0, 3.0]);
}

#[test]
fn latest_frame_is_the_newest_and_flattening_keeps_order() {
    let mut window: ObservationWindow<Vec<u8>> = ObservationWindow::new(3);
    assert_eq!(window.latest(), None);
    assert!(window.flattened().is_empty());
    window.push(vec![1, 2]);
    window.push(vec![]);
    window.push(vec![3]);
    window.push(vec![4, 5, 6]);
    assert_eq!(window.latest(), Some(&vec![4, 5, 6]));
    assert_eq!(window.flattened(), vec![3, 4, 5, 6]);
}

#[test]
fn window_of_capacity_zero_keeps_every_frame() {
    let mut window = ObservationWindow::new(0);
    assert!(window.is_empty());
    window.push('a');
    window.push('b');
    window.push('c');
    assert_eq!(window.len(), 3);
    assert_eq!(window.capacity(), 0);
}

#[test]
fn prepare_observation_pads_and_truncates() {
    assert_eq!(
        prepare_observation(&[1.0f32, 2.0], 4, 0.0),
        vec![1.0, 2.0, 0.0, 0.0]
    );
    assert_eq!(prepare_observation(&[1.0f32, 2.0, 3.0], 2, 0.0), vec![1.0, 2.0]);
}

#[test]
fn tape_replays_rows_in_order_and_rewinds() {
    let mut tape = TickTape::new(vec!["a", "b"]);
    assert_eq!(tape.len(), 2);
    assert!(!tape.is_empty());
    assert_eq!(tape.next(), Some("a"));
    assert_eq!(tape.remaining(), 1);
    assert_eq!(tape.next(), Some("b"));
    assert_eq!(tape.next(), None);
    assert_eq!(tape.remaining(), 0);
    tape.reset();
    assert_eq!(tape.next(), Some("a"));
}
