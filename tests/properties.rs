use dotted_version::text::parse_text;
use dotted_version::Version;
use std::cmp::Ordering;

fn v(text: &str) -> Version {
    Version::parse(text)
}

#[test]
fn parse_reads_each_segment() {
    assert_eq!(v("1.2.3.4").segments(), vec![1, 2, 3, 4]);
    assert_eq!(v("10.0.250").segments(), vec![10, 0, 250]);
    assert_eq!(v("007.1").segments(), vec![7, 1]);
    assert_eq!(v("1.2.3.4.5.6").len(), 6);
}

#[test]
fn parse_empty_text_is_one_zero() {
    assert_eq!(v("").segments(), vec![0]);
    assert!(v("") == v("0"));
}

#[test]
fn parse_unparsable_segments_are_zero() {
    assert_eq!(v("1.1-rc1").segments(), vec![1, 0]);
    assert_eq!(v("abc").segments(), vec![0]);
    assert_eq!(v("1..2").segments(), vec![1, 0, 2]);
    assert_eq!(v("1.2.").segments(), vec![1, 2, 0]);
    assert_eq!(v("+3.-4.5.6").segments(), vec![0, 0, 5, 6]);
    assert_eq!(v("1.2 .3").segments(), vec![1, 0, 3]);
    assert_eq!(v("1.٣").segments(), vec![1, 0]);
}

#[test]
fn parse_largest_and_overflowing_segments() {
    assert_eq!(v("18446744073709551615").segments(), vec![u64::MAX]);
    assert_eq!(v("18446744073709551616").segments(), vec![0]);
    assert_eq!(v("1.99999999999999999999999.3").segments(), vec![1, 0, 3]);
}

#[test]
fn parse_text_gives_segment_values() {
    assert_eq!(parse_text("4.x.16"), vec![4, 0, 16]);
    assert_eq!(parse_text("."), vec![0, 0]);
}

#[test]
fn from_str_never_fails() {
    let parsed: Result<Version, _> = "alpha.beta".parse::<Version>();
    assert!(parsed.is_ok());
    assert!(parsed.unwrap() == v("0"));
}

#[test]
fn from_segments_keeps_segments() {
    let version = Version::from_segments(vec![3, 1, 4, 1, 5, 9]);
    assert_eq!(version.segments(), vec![3, 1, 4, 1, 5, 9]);
    assert_eq!(version.len(), 6);
    assert!(version == v("3.1.4.1.5.9"));
    let empty = Version::from_segments(vec![]);
    assert_eq!(empty.len(), 0);
    assert!(empty == v("0.0"));
    assert!(empty < v("0.0.1"));
}

#[test]
fn reflexive_on_parsed_text() {
    for text in ["", "1", "1.2.3", "x.y", "2.0-beta.7"] {
        assert!(v(text) == v(text));
        assert_eq!(v(text).cmp(&v(text)), Ordering::Equal);
    }
}

#[test]
fn trailing_zeros_do_not_change_a_version() {
    let base = Version::from_segments(vec![1, 2]);
    for k in 0..6 {
        let mut segments = vec![1, 2];
        segments.extend(std::iter::repeat(0).take(k));
        let longer = Version::from_segments(segments);
        assert!(base == longer);
        assert!(longer == base);
        assert_eq!(base.cmp(&longer), Ordering::Equal);
    }
    assert!(base != Version::from_segments(vec![1, 2, 0, 1]));
}

#[test]
fn exactly_one_of_less_equal_greater() {
    let texts = ["1", "1.0", "1.0.1", "0.9.9", "2", "1.1-rc1", "1.1", "10.0"];
    for a in texts {
        for b in texts {
            let (x, y) = (v(a), v(b));
            let n = (x < y) as u8 + (x == y) as u8 + (x > y) as u8;
            assert_eq!(n, 1);
            assert_eq!(x.cmp(&y), y.cmp(&x).reverse());
            assert_eq!(x.partial_cmp(&y), Some(x.cmp(&y)));
        }
    }
}

#[test]
fn order_is_transitive() {
    let texts = ["0", "0.1", "0.1.0.1", "1", "1.0.0.0.1", "1.2", "1.10", "2.0", "2"];
    for a in texts {
        for b in texts {
            for c in texts {
                if v(a) <= v(b) && v(b) <= v(c) {
                    assert!(v(a) <= v(c));
                }
            }
        }
    }
    assert!(v("1.2") < v("1.10"));
    assert!(v("1.10") < v("2.0"));
    assert!(v("1.2") < v("2.0"));
}

#[test]
fn unparsable_segment_compares_as_zero() {
    assert!(v("1.beta.3") == v("1.0.3"));
    assert!(v("1.beta.3") < v("1.1.3"));
    assert!(v("1.beta.3") > v("1.0.2"));
    assert!(v("rc.5") == v("0.5"));
}

#[test]
fn scenario_equal_texts() {
    assert!(v("1.2.3.4") == v("1.2.3.4"));
}

#[test]
fn scenario_last_segment_decides() {
    assert!(v("1.2.3.3") < v("1.2.3.4"));
    assert!(v("2.1.1.9") > v("2.1.1.8"));
}

#[test]
fn scenario_middle_segment_decides() {
    assert!(v("1.2.0.4") < v("1.2.3.4"));
    assert!(v("1.0.0") < v("1.1.0.0"));
}

#[test]
fn scenario_shorter_is_padded() {
    assert!(v("1.1.1") < v("1.1.1.2"));
    assert!(v("1.1.0") == v("1.1.0.0"));
    assert!(v("1.1") == v("1.1.0"));
}

#[test]
fn scenario_release_candidates_are_equal() {
    assert!(v("1.1-rc1") == v("1.1-rc2"));
    assert!(v("1.1-rc1") == v("1.0"));
}

#[test]
fn comparison_does_not_change_operands() {
    let a = v("1.2");
    let b = v("1.2.0.0.7");
    assert!(a < b);
    assert_eq!(a.segments(), vec![1, 2]);
    assert_eq!(b.segments(), vec![1, 2, 0, 0, 7]);
}

#[test]
fn from_str_reads_like_parse() {
    let read = |text: &str| text.parse::<Version>().unwrap().segments();
    assert_eq!(read("1.2.3.4"), vec![1, 2, 3, 4]);
    assert_eq!(read(""), vec![0]);
    assert_eq!(read("abc"), read("0"));
    assert_eq!(read("18446744073709551616"), vec![0]);
    assert_eq!(read("18446744073709551615"), vec![u64::MAX]);
    assert_eq!(read("+1.-1. 1.1a"), vec![0, 0, 0, 0]);
    assert_eq!(read("1..2."), vec![1, 0, 2, 0]);
    assert_eq!(read("1.1-rc1"), vec![1, 0]);
    assert_eq!(read("1.1-rc2"), vec![1, 0]);
}
