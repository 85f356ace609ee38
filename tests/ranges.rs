use viola::byte_range::ByteRange;
use viola::copy_range::Range as CopyRange;
use viola::range::{IntoRange, RangeExt};
use viola::range_ext::RangeExt as ResizeExt;

#[test]
fn into_range_forms() {
    assert_eq!((2..5).into_range(9), 2..5);
    assert_eq!((2..).into_range(9), 2..9);
    assert_eq!((..5).into_range(9), 0..5);
    assert_eq!((..).into_range(9), 0..9);
}

#[test]
fn range_ext_helpers() {
    let r = 3..7;
    assert_eq!(RangeExt::before(&r), ..3);
    assert_eq!(RangeExt::after(&r), 7..);
    assert_eq!(r.with_len(2), 3..5);
    assert_eq!(RangeExt::add(&r, 4), 7..11);
    assert_eq!(RangeExt::sub(&r, 3), 0..4);
}

#[test]
fn resize_ext_helpers() {
    let r = 3..7;
    assert_eq!(ResizeExt::before(&r), ..3);
    assert_eq!(ResizeExt::after(&r), 7..);
    assert_eq!(r.resize_end(1), 3..4);
    assert_eq!(r.resize_start(1), 6..7);
}

#[test]
fn byte_range_helpers() {
    let r = ByteRange::from(2..10);
    assert_eq!(r, ByteRange { start: 2, end: 10 });
    assert_eq!(r.len(), 8);
    assert_eq!(r.before(), ..2);
    assert_eq!(r.after(), 10..);
    let back: std::ops::Range<usize> = r.into();
    assert_eq!(back, 2..10);
}

#[test]
fn copy_range_helpers() {
    let r = CopyRange::from(4..9);
    assert_eq!(r.len(), 5);
    assert_eq!(r.before(), ..4);
    assert_eq!(r.after(), 9..);
    assert_eq!(r.shrink(2), CopyRange { start: 4, end: 6 });
    let back: std::ops::Range<usize> = r.into();
    assert_eq!(back, 4..9);
}
