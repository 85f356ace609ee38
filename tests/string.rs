use viola::gap::{Str, String};

struct Lcg(u64);

impl Lcg {
    fn next(&mut self) -> u64 {
        self.0 = self.0.wrapping_mul(6364136223846793005).wrapping_add(1442695040888963407);
        self.0 >> 33
    }

    fn below(&mut self, n: usize) -> usize {
        (self.next() % (n as u64 + 1)) as usize
    }

    fn text(&mut self, max: usize) -> std::string::String {
        const PIECES: [&str; 8] = ["a", "b", "é", "ß", "€", "中", "😀", " "];
        let n = self.below(max);
        (0..n).map(|_| PIECES[self.below(PIECES.len() - 1)]).collect()
    }

    // A char boundary of `s` at or before a random offset.
    fn boundary(&mut self, s: &str, from: usize) -> usize {
        let mut i = from + self.below(s.len() - from);
        while !s.is_char_boundary(i) {
            i -= 1;
        }
        i
    }
}

fn std_splice(s: &mut std::string::String, start: usize, end: usize, src: &str) {
    s.drain(start..end);
    s.insert_str(start, src);
}

fn collect_chars(s: Str) -> Vec<char> {
    let mut it = s.chars();
    let mut out = Vec::new();
    while let Some(c) = it.next() {
        out.push(c);
    }
    out
}

fn collect_chars_back(s: Str) -> Vec<char> {
    let mut it = s.chars();
    let mut out = Vec::new();
    while let Some(c) = it.next_back() {
        out.push(c);
    }
    out.reverse();
    out
}

fn collect_indices(s: Str) -> Vec<(usize, char)> {
    let mut it = s.char_indices();
    let mut out = Vec::new();
    while let Some(item) = it.next() {
        out.push(item);
    }
    out
}

fn collect_indices_back(s: Str) -> Vec<(usize, char)> {
    let mut it = s.char_indices();
    let mut out = Vec::new();
    while let Some(item) = it.next_back() {
        out.push(item);
    }
    out.reverse();
    out
}

#[test]
fn scenario_text() {
    let mut buf = String::new();
    assert_eq!(buf.to_std_string(), "");
    assert_eq!(buf.splice(.., "Good, "), 0..6);
    assert!(buf.eq_str("Good, "));
    assert_eq!(buf.splice(6.., "world!"), 6..12);
    assert!(buf.eq_str("Good, world!"));
    assert_eq!(buf.splice(4..4, "bye"), 4..7);
    assert!(buf.eq_str("Goodbye, world!"));
    assert_eq!(buf.splice(..7, "hello"), 0..5);
    assert!(buf.eq_str("hello, world!"));
    assert_eq!(buf.splice(..1, "H"), 0..1);
    assert!(buf.eq_str("Hello, world!"));
    assert_eq!(buf.to_std_string(), "Hello, world!");
    assert_eq!(buf.into_std(), "Hello, world!");
}

#[test]
fn from_std_round_trip() {
    let mut init = std::string::String::with_capacity(64);
    init.push_str("héllo wörld 😀");
    let buf = String::from_std(init.clone());
    assert_eq!(buf.len(), init.len());
    assert!(buf.eq_str(&init));
    assert_eq!(buf.into_std(), init);
}

#[test]
fn from_str_round_trip() {
    let init = "ünïcödé ✓";
    let buf = String::from_str(init);
    assert_eq!(buf.len(), init.len());
    assert_eq!(buf.into_std(), init);
}

#[test]
fn empty_string() {
    let buf = String::with_gap(8);
    assert_eq!(buf.len(), 0);
    assert!(buf.as_str().is_empty());
    assert_eq!(buf.into_std(), "");
    assert_eq!(String::default().len(), 0);
}

#[test]
fn multibyte_gap_between_chars() {
    let mut buf = String::from_str("aé€😀z");
    // Put the gap between multi-byte characters, then edit on both sides of it.
    buf.splice(3..3, "");
    assert!(matches!(buf.as_str(), Str::Fragmented(_, _)));
    assert!(buf.as_str().is_char_boundary(3));
    assert!(!buf.as_str().is_char_boundary(4));
    assert!(buf.as_str().is_char_boundary(6));
    assert!(!buf.as_str().is_char_boundary(8));
    assert!(buf.as_str().is_char_boundary(buf.len()));
    assert!(!buf.as_str().is_char_boundary(buf.len() + 1));
    buf.splice(1..3, "ß");
    buf.splice(6..10, "中");
    assert_eq!(buf.to_std_string(), "aß€中z");
}

#[test]
fn str_slice_and_bytes() {
    let mut buf = String::from_str("αβγδ");
    buf.splice(4..4, "");
    let all = buf.as_str();
    assert_eq!(all.len(), 8);
    assert!(!all.is_empty());
    assert!(all.as_bytes().eq_bytes("αβγδ".as_bytes()));
    assert!(buf.slice(2..6).eq_str("βγ"));
    assert!(matches!(buf.slice(2..6), Str::Fragmented(_, _)));
    assert!(buf.slice(0..4).eq_str("αβ"));
    assert!(buf.slice(4..8).eq_str("γδ"));
    assert!(buf.slice(2..6).slice(2..4).eq_str("γ"));
    assert!(buf.slice(4..4).is_empty());
    assert_eq!(buf.slice(2..8).to_std_string(), "βγδ");
}

#[test]
fn chars_across_gap() {
    let text = "añ€😀b";
    for gap_at in [0, 1, 3, 6, 10, 11] {
        let mut buf = String::from_str(text);
        buf.splice(gap_at..gap_at, "");
        let all = buf.as_str();
        let expected: Vec<char> = text.chars().collect();
        assert_eq!(collect_chars(all), expected);
        assert_eq!(collect_chars_back(all), expected);
        let expected_indices: Vec<(usize, char)> = text.char_indices().collect();
        assert_eq!(collect_indices(all), expected_indices);
        assert_eq!(collect_indices_back(all), expected_indices);
    }
}

#[test]
fn char_indices_offsets_back_segment() {
    let mut buf = String::from_str("ab€d");
    buf.splice(2..2, "");
    let mut it = buf.as_str().char_indices();
    assert_eq!(it.next_back(), Some((5, 'd')));
    assert_eq!(it.next_back(), Some((2, '€')));
    assert_eq!(it.next(), Some((0, 'a')));
    assert_eq!(it.next(), Some((1, 'b')));
    assert_eq!(it.next(), None);
    assert_eq!(it.next_back(), None);
}

#[test]
fn chars_from_both_ends() {
    let mut buf = String::from_str("xyz");
    buf.splice(1..1, "");
    let mut it = buf.as_str().chars();
    assert_eq!(it.next_back(), Some('z'));
    assert_eq!(it.next_back(), Some('y'));
    assert_eq!(it.next_back(), Some('x'));
    assert_eq!(it.next_back(), None);
    assert_eq!(it.next(), None);
}

#[test]
fn multi_splice_matches_std() {
    let mut rng = Lcg(3);
    for _ in 0..40 {
        let init = rng.text(12);
        let mut std_string = init.clone();
        let mut buf = String::from_std(init);
        for _ in 0..25 {
            let start = rng.boundary(&std_string, 0);
            let end = rng.boundary(&std_string, start);
            let src = rng.text(6);
            std_splice(&mut std_string, start, end, &src);
            let written = buf.splice(start..end, &src);
            assert_eq!(written, start..(start + src.len()));
            assert!(buf.eq_str(&std_string));
            let r0 = rng.boundary(&std_string, 0);
            let r1 = rng.boundary(&std_string, r0);
            let slice = buf.slice(r0..r1);
            assert!(slice.eq_str(&std_string[r0..r1]));
            let expected: Vec<char> = std_string[r0..r1].chars().collect();
            assert_eq!(collect_chars(slice), expected);
            assert_eq!(collect_chars_back(slice), expected);
        }
        // Every intermediate content was valid UTF-8, so the conversion back succeeds.
        assert_eq!(buf.into_std(), std_string);
    }
}
