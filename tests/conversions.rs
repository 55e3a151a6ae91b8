use bitset::{BitSet, ConversionError, FixedWidth};

fn samples() -> Vec<u128> {
    let mut v: Vec<u128> = vec![0, 1, 2, 3, 127, 128, 170, 255, 256, 257];
    let mut x: u128 = 1;
    for _ in 0..127 {
        x = x * 2;
        v.push(x);
        v.push(x - 1);
        v.push(x + 1);
        v.push(x ^ 0xaaaa_aaaa_aaaa_aaaa_aaaa_aaaa_aaaa_aaaa);
    }
    v.push(u128::MAX);
    v.push(0x0123_4567_89ab_cdef_fedc_ba98_7654_3210);
    v
}

fn expect_round_trip<S, T>(v: S, wide: u128, target_max: u128)
where
    S: FixedWidth + Copy,
    T: FixedWidth + Copy + PartialEq + std::fmt::Debug + TryFrom<u128>,
{
    let r: Result<T, ConversionError> = BitSet::from_uint(v).try_into_uint::<T>();
    if wide <= target_max {
        let expected: T = match T::try_from(wide) {
            Ok(t) => t,
            Err(_) => panic!("value should fit"),
        };
        assert_eq!(r, Ok(expected));
    } else {
        assert_eq!(r, Err(ConversionError));
    }
}

fn round_trip_all_targets<S: FixedWidth + Copy>(v: S, wide: u128) {
    expect_round_trip::<S, u8>(v, wide, u8::MAX as u128);
    expect_round_trip::<S, u16>(v, wide, u16::MAX as u128);
    expect_round_trip::<S, u32>(v, wide, u32::MAX as u128);
    expect_round_trip::<S, u64>(v, wide, u64::MAX as u128);
    expect_round_trip::<S, u128>(v, wide, u128::MAX);
    expect_round_trip::<S, usize>(v, wide, usize::MAX as u128);
}

#[test]
fn round_trip_every_u8_value() {
    for v in 0..=u8::MAX {
        round_trip_all_targets(v, v as u128);
    }
}

#[test]
fn round_trip_every_u16_value() {
    for v in 0..=u16::MAX {
        round_trip_all_targets(v, v as u128);
    }
}

#[test]
fn round_trip_sampled_wide_values() {
    for x in samples() {
        round_trip_all_targets(x as u32, (x as u32) as u128);
        round_trip_all_targets(x as u64, (x as u64) as u128);
        round_trip_all_targets(x as usize, (x as usize) as u128);
        round_trip_all_targets(x, x);
    }
}

#[test]
fn from_uint_matches_binary_formatting() {
    for x in samples() {
        let b = BitSet::from_uint(x as u8);
        assert_eq!(b.to_string(), format!("{:08b}", x as u8));
        let b = BitSet::from_uint(x as u16);
        assert_eq!(b.to_string(), format!("{:016b}", x as u16));
        let b = BitSet::from_uint(x as u32);
        assert_eq!(b.to_string(), format!("{:032b}", x as u32));
        let b = BitSet::from_uint(x as u64);
        assert_eq!(b.to_string(), format!("{:064b}", x as u64));
        let b = BitSet::from_uint(x);
        assert_eq!(b.to_string(), format!("{:0128b}", x));
        for i in 0..128 {
            assert_eq!(b.get(i), (x >> i) & 1 == 1);
        }
    }
}

#[test]
fn from_uint_sizes_and_blocks() {
    assert_eq!(BitSet::from_uint(1u16).size(), 16);
    assert_eq!(BitSet::from_uint(1u32).size(), 32);
    assert_eq!(BitSet::from_uint(1u64).size(), 64);
    assert_eq!(BitSet::from_uint(1u64).block_count(), 1);
    assert_eq!(BitSet::from_uint(1u128).size(), 128);
    assert_eq!(BitSet::from_uint(1u128).block_count(), 2);
    assert_eq!(BitSet::from_uint(1usize).size(), usize::BITS as usize);
}

#[test]
fn from_u8_170_as_text() {
    assert_eq!(BitSet::from_uint(170u8).to_string(), "10101010");
}

#[test]
fn all_on_largest_values_and_after_clearing_a_bit() {
    let mut sets = vec![
        BitSet::from_uint(u8::MAX),
        BitSet::from_uint(u16::MAX),
        BitSet::from_uint(u32::MAX),
        BitSet::from_uint(u64::MAX),
        BitSet::from_uint(u128::MAX),
        BitSet::from_uint(usize::MAX),
    ];
    for b in sets.iter_mut() {
        assert!(b.all());
        let n = b.size();
        for p in 0..n {
            b.set(p, false);
            assert!(!b.all());
            assert!(b.any());
            assert_eq!(b.count(), n - 1);
            b.set(p, true);
            assert!(b.all());
        }
    }
}

#[test]
fn all_on_a_set_not_a_multiple_of_the_block_width() {
    let mut b = BitSet::new(70);
    for p in 0..70 {
        assert!(!b.all());
        b.set(p, true);
    }
    assert!(b.all());
    assert_eq!(b.count(), 70);
}

#[test]
fn count_of_largest_u128_then_cleared_bit() {
    let mut b = BitSet::from_uint(u128::MAX);
    assert_eq!(b.count(), 128);
    b.set(77, false);
    assert_eq!(b.count(), 127);
}

#[test]
fn reading_a_large_set_as_a_narrow_integer() {
    let mut b = BitSet::new(300);
    b.set(3, true);
    b.set(7, true);
    assert_eq!(b.try_into_uint::<u8>(), Ok(0b1000_1000u8));

    let mut b = BitSet::new(300);
    b.set(3, true);
    b.set(8, true);
    assert_eq!(b.try_into_uint::<u8>(), Err(ConversionError));

    let mut b = BitSet::new(300);
    b.set(1, true);
    b.set(200, true);
    assert_eq!(b.try_into_uint::<u128>(), Err(ConversionError));

    let mut b = BitSet::new(300);
    b.set(127, true);
    b.set(0, true);
    assert_eq!(b.try_into_uint::<u128>(), Ok((1u128 << 127) | 1));

    let mut b = BitSet::new(300);
    b.set(64, true);
    assert_eq!(b.try_into_uint::<u64>(), Err(ConversionError));
    let mut b = BitSet::new(300);
    b.set(63, true);
    assert_eq!(b.try_into_uint::<u64>(), Ok(1u64 << 63));
}

#[test]
fn reading_a_small_set_as_a_wide_integer() {
    let mut b = BitSet::new(5);
    b.set(4, true);
    b.set(0, true);
    assert_eq!(b.try_into_uint::<u128>(), Ok(17u128));
    let mut b = BitSet::new(5);
    b.set(2, true);
    assert_eq!(b.try_into_uint::<u8>(), Ok(4u8));
}
