use trolly_gym::replay::TrajectoryReplay;
use trolly_gym::FeatureRingBuffer;

#[test]
fn ring_keeps_the_newest_frames_in_order() {
    let mut ring: FeatureRingBuffer<Vec<u32>> = FeatureRingBuffer::new(3);
    assert_eq!(ring.len(), 0);
    assert!(ring.snapshot().is_empty());
    for i in 0..5u32 {
        ring.push(vec![i, i * 10]);
    }
    assert_eq!(ring.len(), 3);
    assert_eq!(ring.snapshot(), vec![vec![2, 20], vec![3, 30], vec![4, 40]]);
}

#[test]
fn ring_below_capacity_keeps_everything() {
    let mut ring = FeatureRingBuffer::new(4);
    ring.push('a');
    ring.push('b');
    assert_eq!(ring.snapshot(), vec!['a', 'b']);
    ring.push('c');
    ring.push('d');
    ring.push('e');
    assert_eq!(ring.snapshot(), vec!['b', 'c', 'd', 'e']);
}

#[test]
fn ring_of_one_holds_the_last_frame() {
    let mut ring = FeatureRingBuffer::new(1);
    for i in 0..10u8 {
        ring.push(i);
        assert_eq!(ring.snapshot(), vec![i]);
    }
}

#[derive(Debug, Clone, PartialEq)]
struct Episode {
    observations: Vec<Vec<f32>>,
    episode_return: f64,
}

fn episode(observation: f32, episode_return: f64) -> Episode {
    Episode { observations: vec![vec![observation]], episode_return }
}

#[test]
fn trajectory_fifo_evicts_oldest_and_ages() {
    let mut replay = TrajectoryReplay::new(2);
    replay.push(episode(1.0, 1.0));
    replay.push(episode(2.0, 2.0));
    replay.push(episode(3.0, 0.5));
    assert_eq!(replay.len(), 2);
    assert_eq!(replay.trajectories()[0].observations[0], vec![2.0]);
    assert_eq!(replay.ages()[0], 1);
    assert_eq!(replay.ages()[1], 0);
    let best = replay
        .trajectories()
        .iter()
        .max_by(|a, b| a.episode_return.total_cmp(&b.episode_return))
        .unwrap();
    assert_eq!(best.episode_return, 2.0);
    let steps: usize = replay.trajectories().iter().map(|t| t.observations.len()).sum();
    assert_eq!(steps, 2);
}

#[test]
fn trajectory_ages_count_later_pushes() {
    let mut replay: TrajectoryReplay<u32> = TrajectoryReplay::new(0);
    assert!(replay.is_empty());
    replay.push(7);
    replay.push(8);
    assert_eq!(replay.trajectories(), &[8]);
    assert_eq!(replay.ages(), &[0]);
    let mut wide: TrajectoryReplay<u32> = TrajectoryReplay::new(4);
    for i in 0..3u32 {
        wide.push(i);
    }
    assert_eq!(wide.trajectories(), &[0, 1, 2]);
    assert_eq!(wide.ages(), &[2, 1, 0]);
}
