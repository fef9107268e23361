use epidemic::age_distribution::AgeDistribution;
use epidemic::age_pdf::{parse_u32, split_bytes, AgePDF};

fn table(line_end: &str) -> String {
    let mut s = String::from("Age,M,F");
    s.push_str(line_end);
    for g in 0..20 {
        s.push_str(&format!("{}-{},{},{}{}", g * 5, g * 5 + 4, 10 * g + 3, 2 * g + 2, line_end));
    }
    s.push_str("100+,7,4");
    s.push_str(line_end);
    s
}

#[test]
fn table_gives_weights_per_age() {
    let pdf = AgePDF::load(&table("\n")).unwrap();
    assert_eq!(pdf.age_chances.len(), 101);
    assert_eq!(pdf.age_chances[0], 1);
    assert_eq!(pdf.age_chances[4], 1);
    assert_eq!(pdf.age_chances[5], 3);
    assert_eq!(pdf.age_chances[99], (193 + 40) / 5);
    assert_eq!(pdf.age_chances[100], 11);
    let ages = AgeDistribution::from_weights(pdf.age_chances).unwrap();
    assert!(ages.total > 0);
}

#[test]
fn table_with_carriage_returns() {
    let a = AgePDF::load(&table("\n")).unwrap();
    let b = AgePDF::load(&table("\r\n")).unwrap();
    assert_eq!(a.age_chances, b.age_chances);
}

#[test]
fn table_rejects_missing_line() {
    let t = table("\n");
    let cut: Vec<&str> = t.lines().take(21).collect();
    assert!(AgePDF::load(&cut.join("\n")).is_none());
    assert!(AgePDF::load("").is_none());
}

#[test]
fn table_rejects_bad_count() {
    let t = table("\n").replacen("0-4,3,2", "0-4,x,2", 1);
    assert!(AgePDF::load(&t).is_none());
    let t = table("\n").replacen("0-4,3,2", "0-4,3", 1);
    assert!(AgePDF::load(&t).is_none());
    let t = table("\n").replacen("0-4,3,2", "0-4,4294967296,2", 1);
    assert!(AgePDF::load(&t).is_none());
    let t = table("\n").replacen("0-4,3,2", "0-4,4294967295,2", 1);
    assert_eq!(AgePDF::load(&t).unwrap().age_chances[0], 4294967297 / 5);
}

#[test]
fn numbers_and_fields() {
    assert_eq!(parse_u32(&b"0".to_vec()), Some(0));
    assert_eq!(parse_u32(&b"00123".to_vec()), Some(123));
    assert_eq!(parse_u32(&b"".to_vec()), None);
    assert_eq!(parse_u32(&b"12a".to_vec()), None);
    assert_eq!(parse_u32(&b"99999999999".to_vec()), None);
    assert_eq!(split_bytes(b"a,,b", b','), vec![b"a".to_vec(), vec![], b"b".to_vec()]);
    assert_eq!(split_bytes(b"", b','), vec![Vec::<u8>::new()]);
    assert_eq!(split_bytes(b"x\n", b'\n'), vec![b"x".to_vec(), vec![]]);
}
