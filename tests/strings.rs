use bsk_keygen::strings::{ClearString, FheString, GenericPatternRef, ServerKey};

fn enc(s: &str) -> FheString {
    FheString { chars: s.as_bytes().to_vec(), padded: false }
}

fn padded(s: &str, nulls: usize) -> FheString {
    let mut chars = s.as_bytes().to_vec();
    chars.extend(std::iter::repeat(0u8).take(nulls));
    FheString { chars, padded: true }
}

fn clear(s: &str) -> ClearString {
    ClearString { chars: s.as_bytes().to_vec() }
}

fn text(s: &FheString) -> String {
    String::from_utf8(s.to_bytes()).unwrap()
}

#[test]
fn rsplit_once_at_last_space() {
    let sk = ServerKey::new();
    let pat = enc(" ");
    let (lhs, rhs, found) = sk.rsplit_once(&enc(" hello world"), GenericPatternRef::Enc(&pat));
    assert_eq!(text(&lhs), " hello");
    assert_eq!(text(&rhs), "world");
    assert!(found);
}

#[test]
fn split_once_at_first_space() {
    let sk = ServerKey::new();
    let pat = enc(" ");
    let (lhs, rhs, found) = sk.split_once(&enc(" hello world"), GenericPatternRef::Enc(&pat));
    assert_eq!(text(&lhs), "");
    assert_eq!(text(&rhs), "hello world");
    assert!(found);
}

#[test]
fn split_once_without_match() {
    let sk = ServerKey::new();
    let pat = clear("xyz");
    let (lhs, rhs, found) = sk.split_once(&enc("hello"), GenericPatternRef::Clear(&pat));
    assert_eq!(text(&lhs), "");
    assert_eq!(text(&rhs), "hello");
    assert!(!found);
    let (lhs, rhs, found) = sk.rsplit_once(&enc("hi"), GenericPatternRef::Clear(&pat));
    assert_eq!(text(&lhs), "");
    assert_eq!(text(&rhs), "hi");
    assert!(!found);
}

#[test]
fn empty_pattern_matches_at_the_ends() {
    let sk = ServerKey::new();
    let pat = clear("");
    let (lhs, rhs, found) = sk.split_once(&enc("abc"), GenericPatternRef::Clear(&pat));
    assert_eq!((text(&lhs), text(&rhs), found), (String::new(), "abc".to_string(), true));
    let (lhs, rhs, found) = sk.rsplit_once(&enc("abc"), GenericPatternRef::Clear(&pat));
    assert_eq!((text(&lhs), text(&rhs), found), ("abc".to_string(), String::new(), true));
}

#[test]
fn empty_string_splits_into_empty_parts() {
    let sk = ServerKey::new();
    let pat = clear("a");
    let (lhs, rhs, found) = sk.split_once(&enc(""), GenericPatternRef::Clear(&pat));
    assert_eq!((text(&lhs), text(&rhs), found), (String::new(), String::new(), false));
}

#[test]
fn padded_string_and_multi_byte_pattern() {
    let sk = ServerKey::new();
    let pat = padded("ab", 2);
    let s = padded("xxabyyabzz", 3);
    let (lhs, rhs, found) = sk.split_once(&s, GenericPatternRef::Enc(&pat));
    assert_eq!((text(&lhs), text(&rhs), found), ("xx".to_string(), "yyabzz".to_string(), true));
    assert!(lhs.padded && rhs.padded);
    let (lhs, rhs, found) = sk.rsplit_once(&s, GenericPatternRef::Enc(&pat));
    assert_eq!((text(&lhs), text(&rhs), found), ("xxabyy".to_string(), "zz".to_string(), true));
}

#[test]
fn whole_string_as_pattern() {
    let sk = ServerKey::new();
    let pat = clear("abc");
    let (lhs, rhs, found) = sk.rsplit_once(&enc("abc"), GenericPatternRef::Clear(&pat));
    assert_eq!((text(&lhs), text(&rhs), found), (String::new(), String::new(), true));
}

#[test]
fn duplicate_and_empty() {
    let s = padded("hey", 1);
    let d = s.duplicate();
    assert_eq!(d.chars, s.chars);
    assert!(d.padded);
    assert_eq!(text(&FheString::empty()), "");
}

use bsk_keygen::strings::SplitType;

fn pieces_of(mut next: impl FnMut() -> (FheString, bool)) -> Vec<String> {
    let mut out = Vec::new();
    for _ in 0..64 {
        let (piece, some) = next();
        if !some {
            break;
        }
        out.push(text(&piece));
    }
    out
}

fn split_all(s: &str, p: &str, t: SplitType) -> Vec<String> {
    let sk = ServerKey::new();
    let pat = clear(p);
    let mut it = sk.split_internal(&enc(s), GenericPatternRef::Clear(&pat), t);
    pieces_of(|| it.next(&sk))
}

fn std_pieces<'a>(it: impl Iterator<Item = &'a str>) -> Vec<String> {
    it.map(|x| x.to_string()).collect()
}

#[test]
fn split_iterator_follows_std_split() {
    for (s, p) in [("a,b", ","), ("a,b,", ","), (",a,,b", ","), ("ab", ""), ("", ""), ("", ","), ("abc", "bc"), ("xyz", "q")] {
        assert_eq!(split_all(s, p, SplitType::Split), std_pieces(s.split(p)), "split {:?} {:?}", s, p);
        assert_eq!(split_all(s, p, SplitType::RSplit), std_pieces(s.rsplit(p)), "rsplit {:?} {:?}", s, p);
    }
}

#[test]
fn split_inclusive_keeps_the_pattern() {
    assert_eq!(split_all("a,b,c", ",", SplitType::SplitInclusive), vec!["a,", "b,", "c"]);
    assert_eq!(split_all("a,b,", ",", SplitType::SplitInclusive), vec!["a,", "b,", ""]);
}

#[test]
fn splitn_hands_out_the_rest_last() {
    let sk = ServerKey::new();
    let pat = clear(",");
    for n in 0..5usize {
        let mut it = sk.splitn_internal(&enc("a,b,c"), GenericPatternRef::Clear(&pat), n, SplitType::Split);
        assert_eq!(pieces_of(|| it.next(&sk)), std_pieces("a,b,c".splitn(n, ',')), "n = {}", n);
        let mut it = sk.splitn_internal(&enc("a,b,c"), GenericPatternRef::Clear(&pat), n, SplitType::RSplit);
        assert_eq!(pieces_of(|| it.next(&sk)), std_pieces("a,b,c".rsplitn(n, ',')), "rn = {}", n);
    }
}

#[test]
fn split_no_trailing_drops_the_last_empty_piece() {
    let sk = ServerKey::new();
    let pat = clear(",");
    for s in ["a,b,", "a,b", ",", "", "a,,"] {
        let mut it = sk.split_no_trailing(&enc(s), GenericPatternRef::Clear(&pat), SplitType::Split);
        assert_eq!(pieces_of(|| it.next(&sk)), std_pieces(s.split_terminator(',')), "{:?}", s);
    }
}

#[test]
fn split_no_leading_drops_the_first_empty_reverse_piece() {
    let sk = ServerKey::new();
    let pat = clear(",");
    for s in ["a,b,", "a,b", ",a", "a,,"] {
        let mut it = sk.split_no_leading(&enc(s), GenericPatternRef::Clear(&pat));
        assert_eq!(pieces_of(|| it.next(&sk)), std_pieces(s.rsplit_terminator(',')), "{:?}", s);
    }
}

#[test]
fn is_empty_ignores_padding() {
    assert!(padded("", 3).is_empty());
    assert!(!padded("a", 3).is_empty());
}
