use citadel::threshold::consensus_threshold;

#[test]
fn threshold_matches_documented_table() {
    let table = [
        (0, 1), (1, 1), (2, 2), (3, 2), (4, 3), (5, 4), (6, 4), (7, 5), (9, 5), (10, 7), (14, 7),
        (15, 9), (19, 9), (20, 11), (1000, 11),
    ];
    for (size, expected) in table {
        assert_eq!(consensus_threshold(size), expected, "mesh size {}", size);
    }
}

#[test]
fn threshold_is_monotone_and_bounded() {
    let mut prev = 0;
    for n in 0..100usize {
        let t = consensus_threshold(n);
        assert!(t >= prev && t >= 1 && t <= 11);
        assert!(t <= n.max(1));
        prev = t;
    }
}
