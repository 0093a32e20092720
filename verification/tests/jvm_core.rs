use j2me_kit::jvm::{
    array_mut, array_ref, i32_add, i32_div, i32_rem, i32_shl, i32_ushr, i64_ushr, ishl, ishr, iushr,
    java_array_2d_mut, java_array_mut, java_array_ref, java_div, java_ldiv, java_lrem, java_rem, lshl,
    lshr, lushr, Clock, JavaError, VirtualClock,
};

#[test]
fn arithmetic_and_shifts_match_java_edges() {
    assert_eq!(i32_add(i32::MAX, 1), i32::MIN);
    assert_eq!(i32_div(i32::MIN, -1), Ok(i32::MIN));
    assert_eq!(i32_rem(i32::MIN, -1), Ok(0));
    assert_eq!(i32_div(1, 0), Err(JavaError::Arithmetic));
    assert_eq!(i32_shl(1, 32), 1);
    assert_eq!(i32_ushr(-1, 1), i32::MAX);
    assert_eq!(i64_ushr(-1, 60), 15);
}

#[test]
fn arrays_check_null_then_signed_bounds() {
    let mut values = [10, 20];
    assert_eq!(array_ref(Some(&values), 1), Ok(&20));
    assert_eq!(array_ref::<i32>(None, 0), Err(JavaError::NullPointer));
    assert_eq!(
        array_mut(Some(&mut values), -1),
        Err(JavaError::ArrayIndexOutOfBounds {
            index: -1,
            length: 2,
        })
    );
}

#[test]
fn virtual_clock_wraps_like_java_long() {
    let mut clock = VirtualClock::new(i64::MAX);
    clock.advance(1);
    assert_eq!(clock.current_time_millis(), i64::MIN);
}

#[test]
fn division_overflow_matches_java() {
    // Java: i32::MIN / -1 == i32::MIN (no overflow trap).
    assert_eq!(java_div(i32::MIN, -1), Ok(i32::MIN));
    assert_eq!(java_rem(i32::MIN, -1), Ok(0));
    assert_eq!(java_div(7, 2), Ok(3));
    assert_eq!(java_div(-7, 2), Ok(-3)); // truncates toward zero
    assert_eq!(java_rem(-7, 2), Ok(-1)); // sign follows dividend
    assert_eq!(java_div(1, 0), Err(JavaError::Arithmetic));
    assert_eq!(java_ldiv(i64::MIN, -1), Ok(i64::MIN));
    assert_eq!(java_lrem(i64::MIN, -1), Ok(0));
}

#[test]
fn unsigned_shift_masks_and_zero_fills() {
    // >>> fills with zero and masks the count to 5 bits.
    assert_eq!(iushr(-1, 28), 0x0000_000F);
    assert_eq!(iushr(-1, 32), -1); // 32 & 31 == 0 -> no shift, Java semantics
    assert_eq!(ishl(1, 33), 2); // 33 & 31 == 1
    assert_eq!(ishr(-8, 1), -4);
    // long masks to 6 bits.
    assert_eq!(lshl(1, 65), 2);
    assert_eq!(lushr(-1, 60), 0xF);
    assert_eq!(lshr(-8, 1), -4);
}

#[test]
fn virtual_clock_is_deterministic() {
    let mut c = VirtualClock::new(1000);
    assert_eq!(c.current_time_millis(), 1000);
    c.advance(250);
    assert_eq!(c.current_time_millis(), 1250);
}

#[test]
fn checked_array_access_reports_bounds() {
    let mut a = [10i32, 20, 30];
    assert_eq!(java_array_ref(&a, 1).copied(), Ok(20));
    assert_eq!(
        java_array_ref(&a, 5).copied(),
        Err(JavaError::ArrayIndexOutOfBounds { index: 5, length: 3 })
    );
    assert_eq!(
        java_array_ref(&a, -1).copied(),
        Err(JavaError::ArrayIndexOutOfBounds { index: -1, length: 3 })
    );
    assert!(java_array_mut(&mut a, 0).map(|slot| *slot = 99).is_ok());
    assert_eq!(a[0], 99);
}

#[test]
fn array_ref_helpers_report_bounds() {
    let values = [1i32, 2, 3];
    assert_eq!(java_array_ref(&values, 2), Ok(&3));
    assert_eq!(
        java_array_ref(&values, -1),
        Err(JavaError::ArrayIndexOutOfBounds { index: -1, length: 3 })
    );
    // 2D helper checks the outer dimension before the inner one.
    let mut grid = vec![vec![0i32; 2], vec![0i32; 2]];
    *java_array_2d_mut(&mut grid, 1, 0).unwrap() = 9;
    assert_eq!(grid[1][0], 9);
    assert_eq!(
        java_array_2d_mut(&mut grid, 5, 0),
        Err(JavaError::ArrayIndexOutOfBounds { index: 5, length: 2 })
    );
}

#[test]
fn byte_arrays_are_signed() {
    // `byte[]` is `Vec<i8>`. A stored 0xFF reads back as -1, exactly as
    // `baload` sign-extends into an `int`.
    let bytes: Vec<i8> = vec![-1, 0, 127];
    assert_eq!(java_array_ref(&bytes, 0), Ok(&-1i8));
    assert_eq!(bytes[0] as i32 & 0xff, 255);
}
