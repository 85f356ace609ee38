use viola::gap::{Buffer, Slice};

// A small deterministic generator, so the edit sequences are the same on every run.
struct Lcg(u64);

impl Lcg {
    fn next(&mut self) -> u64 {
        self.0 = self.0.wrapping_mul(6364136223846793005).wrapping_add(1442695040888963407);
        self.0 >> 33
    }

    fn below(&mut self, n: usize) -> usize {
        (self.next() % (n as u64 + 1)) as usize
    }

    fn bytes(&mut self, max: usize) -> Vec<u8> {
        let n = self.below(max);
        (0..n).map(|_| self.next() as u8).collect()
    }
}

// Delete, then insert byte by byte at the start of the range.
fn vec_splice(vec: &mut Vec<u8>, start: usize, end: usize, src: &[u8]) {
    vec.drain(start..end);
    for &byte in src.iter().rev() {
        vec.insert(start, byte);
    }
}

fn collect_forward(slice: Slice) -> Vec<u8> {
    let mut it = slice.iter();
    let mut out = Vec::new();
    while let Some(b) = it.next() {
        out.push(b);
    }
    out
}

fn collect_backward(slice: Slice) -> Vec<u8> {
    let mut it = slice.iter();
    let mut out = Vec::new();
    while let Some(b) = it.next_back() {
        out.push(b);
    }
    out.reverse();
    out
}

#[test]
fn new_is_empty() {
    let buf = Buffer::new();
    assert_eq!(buf.len(), 0);
    assert!(buf.is_empty());
    assert!(buf.as_slice().eq_bytes(b""));
}

#[test]
fn with_gap_is_empty() {
    let mut buf = Buffer::with_gap(16);
    assert_eq!(buf.len(), 0);
    assert!(buf.is_empty());
    let written = buf.splice(.., b"abc");
    assert_eq!(written, 0..3);
    assert!(buf.eq_bytes(b"abc"));
}

#[test]
fn default_is_empty() {
    let buf = Buffer::default();
    assert!(buf.is_empty());
}

#[test]
fn scenario_bytes() {
    let mut buf = Buffer::new();
    assert_eq!(buf.splice(0..0, b"Good, "), 0..6);
    assert!(buf.eq_bytes(b"Good, "));
    assert_eq!(buf.splice(6..6, b"world!"), 6..12);
    assert!(buf.eq_bytes(b"Good, world!"));
    assert_eq!(buf.splice(4..4, b"bye"), 4..7);
    assert!(buf.eq_bytes(b"Goodbye, world!"));
    assert_eq!(buf.splice(0..7, b"hello"), 0..5);
    assert!(buf.eq_bytes(b"hello, world!"));
    assert_eq!(buf.splice(0..1, b"H"), 0..1);
    assert!(buf.eq_bytes(b"Hello, world!"));
    assert_eq!(buf.into_vec(), b"Hello, world!".to_vec());
}

#[test]
fn splice_open_ranges() {
    let mut buf = Buffer::from_slice(b"abcdef");
    buf.splice(4.., b"XY");
    assert!(buf.eq_bytes(b"abcdXY"));
    buf.splice(..2, b"");
    assert!(buf.eq_bytes(b"cdXY"));
    buf.splice(.., b"z");
    assert!(buf.eq_bytes(b"z"));
}

#[test]
fn from_vec_round_trip() {
    let mut init = Vec::with_capacity(32);
    init.extend_from_slice(b"round trip");
    let buf = Buffer::from_vec(init.clone());
    assert!(buf.eq_bytes(&init));
    assert_eq!(buf.len(), init.len());
    assert_eq!(buf.into_vec(), init);
}

#[test]
fn from_vec_empty_round_trip() {
    let buf = Buffer::from_vec(Vec::new());
    assert!(buf.is_empty());
    assert_eq!(buf.into_vec(), Vec::<u8>::new());
}

#[test]
fn from_slice_round_trip() {
    let init: Vec<u8> = (0..=255).collect();
    let buf = Buffer::from_slice(&init);
    assert_eq!(buf.len(), 256);
    assert_eq!(buf.into_vec(), init);
}

#[test]
fn into_vec_after_gap_moves() {
    let mut buf = Buffer::from_slice(b"0123456789");
    buf.splice(3..3, b"abc");
    buf.splice(1..2, b"");
    assert_eq!(buf.into_vec(), b"02abc3456789".to_vec());
}

#[test]
fn as_slice_shapes() {
    let mut buf = Buffer::from_slice(b"abcdef");
    assert!(matches!(buf.as_slice(), Slice::Contiguous(_)));
    buf.splice(2..2, b"");
    match buf.as_slice() {
        Slice::Fragmented(front, back) => {
            assert_eq!(front, b"ab");
            assert_eq!(back, b"cdef");
        },
        Slice::Contiguous(_) => panic!("expected a fragmented slice"),
    }
    buf.splice(0..0, b"");
    assert!(matches!(buf.as_slice(), Slice::Contiguous(_)));
}

#[test]
fn slice_fragmented_cases() {
    let mut buf = Buffer::from_slice(b"abcdef");
    buf.splice(3..3, b"");
    assert_eq!(buf.as_slice().len(), 6);
    assert!(buf.slice(0..2).eq_bytes(b"ab"));
    assert!(matches!(buf.slice(0..2), Slice::Contiguous(_)));
    assert!(buf.slice(4..6).eq_bytes(b"ef"));
    assert!(matches!(buf.slice(4..6), Slice::Contiguous(_)));
    assert!(buf.slice(1..5).eq_bytes(b"bcde"));
    assert!(matches!(buf.slice(1..5), Slice::Fragmented(_, _)));
    assert!(buf.slice(3..3).eq_bytes(b""));
    assert!(!buf.slice(1..5).eq_bytes(b"bcdf"));
    assert!(!buf.slice(1..5).eq_bytes(b"bcd"));
    assert!(buf.slice(..) == *b"abcdef".as_slice());
}

#[test]
fn slice_slice_composes() {
    let init: Vec<u8> = b"the quick brown fox".to_vec();
    let mut buf = Buffer::from_slice(&init);
    buf.splice(9..9, b"");
    for a_start in 0..init.len() {
        for a_end in a_start..=init.len() {
            let one = buf.slice(a_start..a_end);
            let vec_one = &init[a_start..a_end];
            for b_start in 0..=vec_one.len() {
                for b_end in b_start..=vec_one.len() {
                    let two = one.slice(b_start..b_end);
                    assert!(two.eq_bytes(&vec_one[b_start..b_end]));
                    let direct = buf.slice((a_start + b_start)..(a_start + b_end));
                    assert_eq!(two.to_vec(), direct.to_vec());
                }
            }
        }
    }
}

#[test]
fn slice_iter_both_ways() {
    let init: Vec<u8> = b"iterate me".to_vec();
    for gap_at in 0..=init.len() {
        let mut buf = Buffer::from_slice(&init);
        buf.splice(gap_at..gap_at, b"");
        for start in 0..=init.len() {
            for end in start..=init.len() {
                let slice = buf.slice(start..end);
                assert_eq!(collect_forward(slice), init[start..end].to_vec());
                assert_eq!(collect_backward(slice), init[start..end].to_vec());
                assert_eq!(slice.to_vec(), init[start..end].to_vec());
            }
        }
    }
}

#[test]
fn iter_from_both_ends_meets() {
    let mut buf = Buffer::from_slice(b"abcdef");
    buf.splice(2..2, b"");
    let mut it = buf.as_slice().iter();
    assert_eq!(it.next(), Some(b'a'));
    assert_eq!(it.next_back(), Some(b'f'));
    assert_eq!(it.next_back(), Some(b'e'));
    assert_eq!(it.next(), Some(b'b'));
    assert_eq!(it.next(), Some(b'c'));
    assert_eq!(it.next_back(), Some(b'd'));
    assert_eq!(it.next(), None);
    assert_eq!(it.next_back(), None);
}

#[test]
fn splice_matches_vec() {
    let mut rng = Lcg(7);
    for _ in 0..200 {
        let init = rng.bytes(40);
        let start = rng.below(init.len());
        let end = start + rng.below(init.len() - start);
        let src = rng.bytes(40);
        let mut vec = init.clone();
        let mut buf = Buffer::from_vec(init);
        vec_splice(&mut vec, start, end, &src);
        let written = buf.splice(start..end, &src);
        assert_eq!(written, start..(start + src.len()));
        assert!(buf.eq_bytes(&vec));
    }
}

#[test]
fn multi_splice_matches_vec() {
    let mut rng = Lcg(11);
    for _ in 0..50 {
        let init = rng.bytes(30);
        let mut vec = init.clone();
        let mut buf = Buffer::from_vec(init);
        for _ in 0..30 {
            let start = rng.below(vec.len());
            let end = start + rng.below(vec.len() - start);
            let src = rng.bytes(20);
            vec_splice(&mut vec, start, end, &src);
            buf.splice(start..end, &src);
            assert!(buf.eq_bytes(&vec));
            let r0 = rng.below(vec.len());
            let r1 = r0 + rng.below(vec.len() - r0);
            assert!(buf.slice(r0..r1).eq_bytes(&vec[r0..r1]));
            assert_eq!(collect_forward(buf.slice(r0..r1)), vec[r0..r1].to_vec());
            assert_eq!(collect_backward(buf.slice(r0..r1)), vec[r0..r1].to_vec());
        }
        assert_eq!(buf.len(), vec.len());
        assert_eq!(buf.into_vec(), vec);
    }
}

#[test]
fn large_insert_grows() {
    let mut buf = Buffer::with_gap(1);
    let big = vec![7u8; 10_000];
    buf.splice(0..0, &big);
    buf.splice(5_000..5_000, b"mid");
    assert_eq!(buf.len(), 10_003);
    assert!(buf.slice(4_999..5_004).eq_bytes(&[7, b'm', b'i', b'd', 7]));
}

#[test]
fn bytes_eq_compares() {
    assert!(viola::gap::bytes_eq(b"abc", b"abc"));
    assert!(!viola::gap::bytes_eq(b"abc", b"abd"));
    assert!(!viola::gap::bytes_eq(b"abc", b"ab"));
    assert!(viola::gap::bytes_eq(b"", b""));
}
