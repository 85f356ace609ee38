use viola::gap::{Buffer, String};
use viola::operation::{Operate, Operation};

#[test]
fn apply_buffer_and_undo() {
    let mut buf = Buffer::from_slice(b"Hello, world!");
    let op = Operation { dest: 7..12, src: b"there".to_vec() };
    let inverse = buf.apply(&op);
    assert!(buf.eq_bytes(b"Hello, there!"));
    assert_eq!(inverse.dest, 7..12);
    assert_eq!(inverse.src, b"world".to_vec());
    let redo = buf.apply(&inverse);
    assert!(buf.eq_bytes(b"Hello, world!"));
    assert_eq!(redo, op);
}

#[test]
fn apply_buffer_insert_and_delete() {
    let mut buf = Buffer::from_slice(b"abc");
    let inverse = buf.apply(&Operation { dest: 1..1, src: b"XYZ".to_vec() });
    assert!(buf.eq_bytes(b"aXYZbc"));
    assert_eq!(inverse.dest, 1..4);
    assert!(inverse.src.is_empty());
    let back = buf.apply(&inverse);
    assert!(buf.eq_bytes(b"abc"));
    assert_eq!(back.src, b"XYZ".to_vec());
}

#[test]
fn apply_string_and_undo() {
    let mut buf = String::from_str("naïve café");
    let op = Operation { dest: 0..6, src: "wise".to_string() };
    let inverse = buf.apply(&op);
    assert_eq!(buf.to_std_string(), "wise café");
    assert_eq!(inverse.dest, 0..4);
    assert_eq!(inverse.src, "naïve");
    buf.apply(&inverse);
    assert_eq!(buf.into_std(), "naïve café");
}

#[test]
fn operation_clone_keeps_fields() {
    let op = Operation { dest: 2..5, src: vec![1u8, 2, 3] };
    let copy = op.clone();
    assert_eq!(copy.dest, 2..5);
    assert_eq!(copy.src, vec![1u8, 2, 3]);
}
