use bigfilestat::{
    order_key, precedes, len, min_max, scan, split_fields, tails, tally, verdict, Bracket, Count, Extrema, MalformedToken,
    Progress, Verdict,
};

fn parse(source: &str) -> Vec<Option<u64>> {
    split_fields(source.as_bytes())
        .iter()
        .map(|f| std::str::from_utf8(f).ok().and_then(|s| s.parse::<f64>().ok()).map(f64::to_bits))
        .collect()
}

fn median_of(tokens: &[Option<u64>], tolerance: f64) -> Option<f64> {
    let mut x = Extrema::new();
    scan(&mut x, tokens).unwrap();
    let mut b = Bracket::new(&x)?;
    loop {
        let (l, r) = (f64::from_bits(b.left()), f64::from_bits(b.right()));
        if (r - l).abs() <= tolerance {
            return Some(l);
        }
        let mid = ((l + r) / 2.0).to_bits();
        let t = tally(tokens, mid).unwrap();
        match b.advance(mid, &t) {
            Progress::Found(m) => return Some(f64::from_bits(m)),
            Progress::Narrowed(n) => b = n,
        }
    }
}

fn sorted_median(tokens: &[Option<u64>]) -> f64 {
    let mut v: Vec<f64> = tokens.iter().map(|t| f64::from_bits(t.unwrap())).collect();
    v.sort_by(|a, b| a.total_cmp(b));
    v[(v.len() - 1) / 2]
}

#[test]
fn five_values_scenario() {
    let t = parse("1 2 3 4 5");
    assert_eq!(len(&t), Ok(5));
    assert_eq!(min_max(&t), Ok(Some((1.0f64.to_bits(), 5.0f64.to_bits()))));
    let m = median_of(&t, 1e-3).unwrap();
    assert!((m - 3.0).abs() <= 1e-3);
    let (prefix, suffix) = tails(&t, 2).unwrap();
    let prefix: Vec<f64> = prefix.iter().map(|b| f64::from_bits(*b)).collect();
    let newest_first: Vec<f64> = suffix.iter().rev().map(|b| f64::from_bits(*b)).collect();
    assert_eq!(prefix, vec![1.0, 2.0]);
    assert_eq!(newest_first, vec![5.0, 4.0]);
}

#[test]
fn empty_source_scenario() {
    let t = parse("");
    assert!(t.is_empty());
    assert_eq!(len(&t), Ok(0));
    assert_eq!(min_max(&t), Ok(None));
    assert!(Bracket::new(&Extrema::new()).is_none());
    assert!(median_of(&t, 1e-3).is_none());
}

#[test]
fn malformed_token_scenario() {
    let t = parse("1 2 x 4");
    assert_eq!(t.len(), 4);
    let bad = MalformedToken { index: 2 };
    assert_eq!(len(&t), Err(bad));
    assert_eq!(min_max(&t), Err(bad));
    assert!(matches!(tally(&t, 0), Err(e) if e == bad));
    assert!(matches!(tails(&t, 2), Err(e) if e == bad));
}

#[test]
fn count_is_field_count() {
    assert_eq!(len(&parse("1.5 -2e3 7")), Ok(3));
    assert_eq!(len(&parse("1 2 3 ")), Ok(3));
    // two delimiters in a row leave an empty field, which is no number
    assert_eq!(len(&parse("1  2")), Err(MalformedToken { index: 1 }));
    // a line break is part of a field
    assert_eq!(len(&parse("1 2\n")), Err(MalformedToken { index: 1 }));
}

#[test]
fn fields_follow_delimiters() {
    assert_eq!(split_fields(b"ab  c "), vec![b"ab".to_vec(), vec![], b"c".to_vec()]);
    assert_eq!(split_fields(b" "), vec![Vec::<u8>::new()]);
    assert_eq!(split_fields(b"7"), vec![b"7".to_vec()]);
    assert!(split_fields(b"").is_empty());
}

#[test]
fn splitter_across_chunks() {
    let mut sp = bigfilestat::Splitter::new();
    let mut out = sp.feed(b"12 3");
    assert_eq!(out, vec![b"12".to_vec()]);
    out.extend(sp.feed(b"4 5"));
    assert_eq!(out, vec![b"12".to_vec(), b"34".to_vec()]);
    assert_eq!(sp.finish(), Some(b"5".to_vec()));
}

#[test]
fn total_order_of_patterns() {
    assert!(precedes((-0.0f64).to_bits(), 0.0f64.to_bits()));
    assert!(precedes((-2.0f64).to_bits(), (-1.0f64).to_bits()));
    assert!(precedes(1.0f64.to_bits(), f64::INFINITY.to_bits()));
    assert!(!precedes(3.0f64.to_bits(), 3.0f64.to_bits()));
    assert_eq!(order_key(0.0f64.to_bits()), 0);
    assert_eq!(order_key((-0.0f64).to_bits()), -1);
    assert_eq!(order_key(u64::MAX), i64::MIN);
}

#[test]
fn min_max_uses_total_order() {
    let t = parse("3 -0 0 -7.5 12");
    assert_eq!(min_max(&t), Ok(Some(((-7.5f64).to_bits(), 12.0f64.to_bits()))));
    let t = parse("0 -0");
    assert_eq!(min_max(&t), Ok(Some(((-0.0f64).to_bits(), 0.0f64.to_bits()))));
}

#[test]
fn verdict_rule() {
    assert_eq!(verdict(2, 1, 2), Verdict::Median);
    assert_eq!(verdict(2, 0, 2), Verdict::Median);
    assert_eq!(verdict(1, 1, 2), Verdict::Median);
    assert_eq!(verdict(3, 0, 1), Verdict::Lower);
    assert_eq!(verdict(1, 0, 3), Verdict::Higher);
    assert_eq!(verdict(0, 0, 1), Verdict::Higher);
}

#[test]
fn tally_counts_sides() {
    let t = tally(&parse("1 2 2 3 4"), 2.0f64.to_bits()).unwrap();
    assert_eq!(t.counts(), (1, 2, 2));
}

#[test]
fn tails_lengths() {
    let t = parse("1 2 3");
    let (p, s) = tails(&t, 5).unwrap();
    assert_eq!((p.len(), s.len()), (3, 3));
    let (p, s) = tails(&t, 0).unwrap();
    assert!(p.is_empty() && s.is_empty());
    let (p, s) = tails(&t, 1).unwrap();
    assert_eq!(p, vec![1.0f64.to_bits()]);
    assert_eq!(s.into_iter().collect::<Vec<u64>>(), vec![3.0f64.to_bits()]);
}

#[test]
fn median_within_extrema() {
    for src in ["4 1 9 9 2", "-3 -1 -2", "7", "0.5 0.25 100 3"] {
        let t = parse(src);
        let (lo, hi) = min_max(&t).unwrap().unwrap();
        let m = median_of(&t, 1e-3).unwrap();
        assert!(f64::from_bits(lo) - 1e-3 <= m && m <= f64::from_bits(hi) + 1e-3);
    }
}

#[test]
fn median_approaches_sorted_median() {
    for src in ["4 1 9 9 2", "10 20 30 40 50 60 70", "0.001 0.9 0.3 0.7 0.5", "5 5 5 1"] {
        let t = parse(src);
        let truth = sorted_median(&t);
        let coarse = median_of(&t, 1.0).unwrap();
        let fine = median_of(&t, 1e-6).unwrap();
        assert!((fine - truth).abs() <= (coarse - truth).abs() + 1e-9);
        assert!((fine - truth).abs() <= 1e-3);
    }
}

#[test]
fn scan_in_batches_counts_all() {
    let mut c = Count::new();
    scan(&mut c, &parse("1 2")).unwrap();
    scan(&mut c, &parse("3 4 5")).unwrap();
    assert_eq!(c.count(), 5);
    let mut c = Count::new();
    assert_eq!(scan(&mut c, &[Some(1), None, Some(2)]), Err(MalformedToken { index: 1 }));
    assert_eq!(c.count(), 1);
}
