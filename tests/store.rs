use viguno::store::{
    decode_record, distribution_key, encode_record, push_decimal, sorted_ascending, NullDistribution,
};
use viguno::Error;

#[test]
fn key_is_gene_colon_count() {
    assert_eq!(distribution_key(12345, 10), b"12345:10".to_vec());
    assert_eq!(distribution_key(0, 0), b"0:0".to_vec());
    assert_eq!(distribution_key(u32::MAX, 7), b"4294967295:7".to_vec());
}

#[test]
fn decimal_digits_are_appended() {
    let mut out = b"x".to_vec();
    push_decimal(&mut out, 907);
    assert_eq!(out, b"x907".to_vec());
}

#[test]
fn sortedness_is_detected() {
    assert!(sorted_ascending(&vec![]));
    assert!(sorted_ascending(&vec![1, 1, 2]));
    assert!(!sorted_ascending(&vec![2, 1]));
}

#[test]
fn distribution_needs_two_sorted_samples() {
    let d = NullDistribution::new(2348, String::from("FOLR1"), 3, vec![1, 2, 2]).unwrap();
    assert_eq!(d.samples, vec![1, 2, 2]);
    assert_eq!(d.gene_symbol, "FOLR1");
    assert!(matches!(
        NullDistribution::new(2348, String::from("FOLR1"), 3, vec![5]),
        Err(Error::SampleCountTooSmall)
    ));
    assert!(matches!(
        NullDistribution::new(2348, String::from("FOLR1"), 3, vec![5, 4]),
        Err(Error::MalformedRecord)
    ));
}

fn example() -> NullDistribution {
    NullDistribution::new(2200, String::from("FBN1"), 2, vec![0, 7, 300, 70_000, u32::MAX]).unwrap()
}

#[test]
fn record_layout() {
    let d = NullDistribution::new(1, String::from("é"), 2, vec![1, 258]).unwrap();
    assert_eq!(
        encode_record(&d),
        vec![1, 1, 0, 0, 0, 2, 0, 0, 0, 2, 0, 0, 0, 0xc3, 0xa9, 2, 0, 0, 0, 1, 0, 0, 0, 2, 1, 0, 0]
    );
}

#[test]
fn record_round_trip() {
    let d = example();
    let back = decode_record(&encode_record(&d)).unwrap();
    assert_eq!(back.gene_id, 2200);
    assert_eq!(back.gene_symbol, "FBN1");
    assert_eq!(back.term_count, 2);
    assert_eq!(back.samples, d.samples);
}

#[test]
fn malformed_records_are_refused() {
    let good = encode_record(&example());
    assert!(matches!(decode_record(&vec![]), Err(Error::MalformedRecord)));
    assert!(matches!(decode_record(&good[..good.len() - 1].to_vec()), Err(Error::MalformedRecord)));
    let mut longer = good.clone();
    longer.push(0);
    assert!(matches!(decode_record(&longer), Err(Error::MalformedRecord)));
    let mut version = good.clone();
    version[0] = 2;
    assert!(matches!(decode_record(&version), Err(Error::MalformedRecord)));
    let mut name = good.clone();
    name[13] = 0xff;
    assert!(matches!(decode_record(&name), Err(Error::MalformedRecord)));
    let mut unsorted = good.clone();
    let end = unsorted.len();
    for b in &mut unsorted[end - 4..] {
        *b = 0;
    }
    assert!(matches!(decode_record(&unsorted), Err(Error::MalformedRecord)));
}
