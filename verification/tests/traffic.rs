use citadel::traffic::{broadcast_targets, PacketType, TrafficRng, TrafficStats};

#[test]
fn generator_follows_the_lcg() {
    let mut rng = TrafficRng::new();
    assert_eq!(rng.state, 12345);
    assert_eq!(rng.next(), 578673459679314182);
    assert_eq!(rng.next(), 9383619854758504463);
    assert_eq!(rng.next(), 608924598424648612);
}

#[test]
fn random_node_is_within_visible() {
    let mut rng = TrafficRng::new();
    let picks: Vec<usize> = (0..5).map(|_| rng.random_node(10)).collect();
    assert_eq!(picks, vec![2, 3, 2, 7, 6]);
    let before = rng.state;
    assert_eq!(rng.random_node(0), 0);
    assert_eq!(rng.state, before);
}

#[test]
fn broadcast_skips_the_source() {
    let mut rng = TrafficRng::new();
    let dests = broadcast_targets(&mut rng, 2, 10);
    assert_eq!(dests, vec![3, 7, 6, 1, 8, 5]);
    let mut rng = TrafficRng::new();
    let many = broadcast_targets(&mut rng, 0, 100);
    assert!(many.len() <= 20 && many.iter().all(|d| *d != 0 && *d < 100));
    let mut rng = TrafficRng::new();
    assert!(broadcast_targets(&mut rng, 0, 2).len() <= 1);
}

#[test]
fn stats_start_at_zero() {
    let s = TrafficStats::default();
    assert_eq!((s.packets_sent, s.unicast_sent, s.broadcast_sent, s.packets_delivered), (0, 0, 0, 0));
    assert_ne!(PacketType::Unicast, PacketType::Broadcast);
}
