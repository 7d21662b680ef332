#[test]
fn u32_to_bignedian_u8array() {
    let n: u32 = 0xFA01C673;
    let n_array = zei::utils::u32_to_bigendian_u8array(n);
    assert_eq!(0xFA, n_array[0]);
    assert_eq!(0x01, n_array[1]);
    assert_eq!(0xC6, n_array[2]);
    assert_eq!(0x73, n_array[3]);
}

#[test]
fn test_u8_bigendian_slice_to_u32() {
    let array = [0xFA as u8, 0x01 as u8, 0xC6 as u8, 0x73 as u8];
    let n = zei::utils::u8_bigendian_slice_to_u32(&array);
    assert_eq!(0xFA01C673, n);
}

#[test]
fn u64_to_bignedian_u8array() {
    let n: u64 = 0xFA01C67322E498A2;
    let n_array = zei::utils::u64_to_bigendian_u8array(n);
    assert_eq!(0xFA, n_array[0]);
    assert_eq!(0x01, n_array[1]);
    assert_eq!(0xC6, n_array[2]);
    assert_eq!(0x73, n_array[3]);
    assert_eq!(0x22, n_array[4]);
    assert_eq!(0xE4, n_array[5]);
    assert_eq!(0x98, n_array[6]);
    assert_eq!(0xA2, n_array[7]);
}

#[test]
fn u8_bigendian_slice_to_u64() {
    let array = [0xFA as u8, 0x01 as u8, 0xC6 as u8, 0x73 as u8, 0x22, 0xE4, 0x98, 0xA2];
    let n = zei::utils::u8_bigendian_slice_to_u64(&array);
    assert_eq!(0xFA01C67322E498A2, n);
}

#[test]
fn min_greater_equal_power_of_two() {
    assert_eq!(16, zei::utils::min_greater_equal_power_of_two(16));
    assert_eq!(16, zei::utils::min_greater_equal_power_of_two(15));
    assert_eq!(16, zei::utils::min_greater_equal_power_of_two(9));
    assert_eq!(8, zei::utils::min_greater_equal_power_of_two(8));
    assert_eq!(8, zei::utils::min_greater_equal_power_of_two(6));
    assert_eq!(8, zei::utils::min_greater_equal_power_of_two(5));
    assert_eq!(4, zei::utils::min_greater_equal_power_of_two(4));
    assert_eq!(4, zei::utils::min_greater_equal_power_of_two(3));
    assert_eq!(2, zei::utils::min_greater_equal_power_of_two(2));
    assert_eq!(1, zei::utils::min_greater_equal_power_of_two(1));
    assert_eq!(0, zei::utils::min_greater_equal_power_of_two(0));
}

#[test]
fn u64_to_u32_pair() {
    assert_eq!((32, 0), zei::utils::u64_to_u32_pair(32u64));
    assert_eq!(
        (0xFFFFFFFF, 0xFFFFFFFF),
        zei::utils::u64_to_u32_pair(0xFFFFFFFFFFFFFFFFu64)
    );
    assert_eq!(
        (0, 0xFFFFFFFF),
        zei::utils::u64_to_u32_pair(0xFFFFFFFF00000000u64)
    );
}
