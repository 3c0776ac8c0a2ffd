use ntrust_native::cmov::cmov;
use ntrust_native::crypto_sort_int32::crypto_sort_int32;
use ntrust_native::crypto_sort_int32::int32_minmax;

#[test]
fn test_cmov() {
    let mut r = [42u8; 32];
    let mut x = [0u8; 204];
    let len = 32usize.min(204);

    for i in 0..204 {
        x[i] = i as u8;
    }

    cmov(&mut r, &x, len as isize, 0);

    for i in 0..len {
        assert_eq!(r[i], 42);
    }

    cmov(&mut r, &x, len as isize, 1);

    for i in 0..len {
        assert_eq!(r[i], i as u8);
    }
}

#[test]
fn test_int32_minmax_simple() {
    let (mut a, mut b) = (0i32, 4i32);
    int32_minmax(&mut a, &mut b);
    assert!(a <= b);
}

#[test]
fn test_int32_minmax_switch() {
    let (mut a, mut b) = (8i32, 4i32);
    int32_minmax(&mut a, &mut b);
    assert!(a <= b);
}

#[test]
fn test_int32_minmax_boundary() {
    let (mut a, mut b) = (i32::MAX, i32::MIN);
    int32_minmax(&mut a, &mut b);
    assert!(a <= b);
}

#[test]
fn test_int32_minmax_diff_31bit() {
    let (mut a, mut b) = (0, i32::MAX);
    int32_minmax(&mut a, &mut b);
    assert!(a <= b);
}

#[test]
fn test_crypto_sort_int32() {
    let mut nums = [0, -3, -100, i32::MIN, 4, i32::MAX, 42];
    let expected_order = [i32::MIN, -100, -3, 0, 4, 42, i32::MAX];
    crypto_sort_int32(&mut nums);
    assert_eq!(nums, expected_order);
}

#[test]
fn test_crypto_sort_full_width() {
    let mut nums = [0i32; 508];
    for i in 0..508 {
        nums[i] = ((i as i32) * 2654435761u32 as i32).wrapping_mul(7) ^ 0x5a5a;
    }
    let mut expected = nums;
    expected.sort();
    crypto_sort_int32(&mut nums);
    assert_eq!(&nums[..], &expected[..]);
}
