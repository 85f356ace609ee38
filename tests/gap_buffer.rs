use viola::gap_buffer::GapBuffer;

#[test]
fn insert_and_move_gap() {
    let mut buf = GapBuffer::new();
    assert_eq!(buf.len(), 0);
    buf.insert("Good, ");
    buf.insert("world!");
    assert_eq!(buf.to_std_string(), "Good, world!");
    buf.move_gap(4);
    assert_eq!(buf.as_strs(), ("Good", ", world!"));
    buf.insert("bye");
    assert_eq!(buf.to_std_string(), "Goodbye, world!");
    buf.move_gap(15);
    assert_eq!(buf.as_strs(), ("Goodbye, world!", ""));
    buf.move_gap(0);
    assert_eq!(buf.as_strs(), ("", "Goodbye, world!"));
    assert_eq!(buf.len(), 15);
}

#[test]
fn multibyte_text() {
    let mut buf = GapBuffer::from_str("añ€");
    assert_eq!(buf.len(), 6);
    buf.move_gap(3);
    buf.insert("😀");
    assert_eq!(buf.to_std_string(), "añ😀€");
    assert_eq!(GapBuffer::default().len(), 0);
}

#[test]
fn many_inserts_grow() {
    let mut buf = GapBuffer::new();
    let mut expected = std::string::String::new();
    for i in 0..500 {
        let piece = if i % 2 == 0 { "ab" } else { "é" };
        buf.insert(piece);
        expected.push_str(piece);
    }
    assert_eq!(buf.to_std_string(), expected);
}
