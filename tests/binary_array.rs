use binarray::BinaryArray;

#[test]
fn test_get_bit() {
    let test_num: u8 = 4;
    assert_eq!(test_num.get_bit(2), true);
    assert_eq!(test_num.get_bit(1), false);
}

#[test]
fn test_set_bit1() {
    let mut test_num: u8 = 0;
    assert_eq!(test_num.set_bit(2, true), 4);
}

#[test]
fn test_set_bit2() {
    let mut test_num: u8 = 6;
    assert_eq!(test_num.set_bit(1, false), 4);
}

#[test]
fn test_print() {
    let num_8 = 69_u8;
    let num_16 = 10740_u16;

    assert_eq!(num_8.to_bstring(), "01000101".to_string());
    assert_eq!(num_16.to_bstring(), "0010100111110100".to_string());
}

#[test]
fn set_bit_leaves_receiver_unchanged() {
    let mut v: u8 = 6;
    let r = v.set_bit(0, true);
    assert_eq!(r, 7);
    assert_eq!(v, 6);
}

#[test]
fn u128_top_bit() {
    let mut v: u128 = 1;
    let r = v.set_bit(127, true);
    assert!(r.get_bit(0));
    assert!(r.get_bit(127));
    for i in 1..127 {
        assert!(!r.get_bit(i));
    }
    assert_eq!(r, (1u128 << 127) | 1);
}

#[test]
fn round_trip_clears_bit() {
    let mut v: u16 = 0b1010_0000_0000_0101;
    for i in 0..16 {
        let mut once = v.set_bit(i, true);
        let twice = once.set_bit(i, false);
        let mut expected = v;
        assert_eq!(twice, expected.set_bit(i, false));
        assert!(once.get_bit(i));
        assert!(!twice.get_bit(i));
    }
}

#[test]
fn set_bit_keeps_other_bits() {
    let mut v: u32 = 0xdead_beef;
    for i in 0..32 {
        for b in [false, true] {
            let r = v.set_bit(i, b);
            assert_eq!(r.get_bit(i), b);
            for j in 0..32 {
                if j != i {
                    assert_eq!(r.get_bit(j), v.get_bit(j));
                }
            }
        }
    }
}

#[test]
fn set_bit_to_current_value_is_identity() {
    let mut v: u64 = 0x0123_4567_89ab_cdef;
    for i in 0..64 {
        let cur = v.get_bit(i);
        assert_eq!(v.set_bit(i, cur), v);
    }
}

#[test]
fn bstring_digits_match_bits() {
    let v: u32 = 0x8000_0001;
    let s = v.to_bstring();
    assert_eq!(s.len(), 32);
    let chars: Vec<char> = s.chars().collect();
    for i in 0..32 {
        assert!(chars[i] == '0' || chars[i] == '1');
        assert_eq!(chars[31 - i] == '1', v.get_bit(i));
    }
    assert_eq!(s, "10000000000000000000000000000001");
}

#[test]
fn bstring_zero_and_max() {
    assert_eq!(0u8.to_bstring(), "00000000");
    assert_eq!(u8::MAX.to_bstring(), "11111111");
    assert_eq!(0u64.to_bstring(), "0".repeat(64));
    assert_eq!(u128::MAX.to_bstring(), "1".repeat(128));
    assert_eq!(1u128.to_bstring(), format!("{}1", "0".repeat(127)));
}

#[test]
fn usize_uses_native_width() {
    let width = usize::BITS as usize;
    let mut v: usize = 5;
    assert_eq!(v.to_bstring().len(), width);
    assert_eq!(v.to_bstring(), format!("{:0w$b}", 5usize, w = width));
    let r = v.set_bit(width - 1, true);
    assert!(r.get_bit(width - 1));
    assert!(r.get_bit(2));
    assert!(!r.get_bit(1));
    let mut r2 = r;
    assert_eq!(r2.set_bit(width - 1, false), 5);
}

#[test]
fn highest_bit_of_each_width() {
    let mut a: u8 = 0;
    assert_eq!(a.set_bit(7, true), 0x80);
    let mut b: u16 = 0;
    assert_eq!(b.set_bit(15, true), 0x8000);
    let mut c: u32 = u32::MAX;
    assert_eq!(c.set_bit(31, false), 0x7fff_ffff);
    let mut d: u64 = u64::MAX;
    assert_eq!(d.set_bit(63, false), 0x7fff_ffff_ffff_ffff);
    let mut e: u128 = 0;
    assert_eq!(e.set_bit(64, true), 1u128 << 64);
}
