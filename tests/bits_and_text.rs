use bitset::BitSet;

#[test]
fn fresh_set_reads_clear_everywhere() {
    for size in [1usize, 2, 63, 64, 65, 128, 129, 300] {
        let b = BitSet::new(size);
        for p in 0..size {
            assert!(!b.get(p));
        }
        assert!(!b.any());
        assert_eq!(b.count(), 0);
        assert_eq!(b.to_string(), "0".repeat(size));
    }
}

#[test]
fn block_counts_round_up() {
    assert_eq!(BitSet::new(64).block_count(), 1);
    assert_eq!(BitSet::new(65).block_count(), 2);
    assert_eq!(BitSet::new(128).block_count(), 2);
    assert_eq!(BitSet::new(129).block_count(), 3);
    assert_eq!(BitSet::new(300).block_count(), 5);
}

#[test]
fn setting_a_bit_leaves_the_others() {
    let mut b = BitSet::new(130);
    b.set(64, true);
    b.set(129, true);
    b.set(0, true);
    for q in 0..130 {
        assert_eq!(b.get(q), q == 0 || q == 64 || q == 129);
    }
    b.set(64, false);
    for q in 0..130 {
        assert_eq!(b.get(q), q == 0 || q == 129);
    }
    b.set(0, true);
    assert!(b.get(0));
    assert_eq!(b.count(), 2);
}

#[test]
fn text_puts_bit_zero_last() {
    let mut b = BitSet::new(66);
    b.set(0, true);
    b.set(5, true);
    b.set(64, true);
    let s = b.to_string();
    assert_eq!(s.len(), 66);
    let chars: Vec<char> = s.chars().collect();
    for i in 0..66 {
        let expected = if i == 0 || i == 5 || i == 64 { '1' } else { '0' };
        assert_eq!(chars[66 - 1 - i], expected);
    }
}

#[test]
fn text_of_a_full_block_and_one_more_bit() {
    let mut b = BitSet::new(65);
    b.set(64, true);
    let mut expected = String::from("1");
    expected.push_str(&"0".repeat(64));
    assert_eq!(b.to_string(), expected);
}
