use arbi_scan::algo_bigdecimal_btm::{
    adjust_arbitrages_btm, best_pnl, build_graph_btm, calculate_arbitrage_btm,
    find_arbitrage_with_base_currency_btm, process_rates_btm, remove_consecutive_duplicates,
    run_with_default_rates_btm, split_pair,
};
use arbi_scan::dec::{dec_cmp, dec_from_str, dec_from_u64, dec_mul};
use arbi_scan::digits::u_is_zero;
use arbi_scan::error::ArbiError;
use arbi_scan::rates::{default_rates_bigdecimal, RateResponse, RateTable};
use arbi_scan::Cmp;

fn table_of(pairs: &[(&str, &str)]) -> RateTable {
    let owned: Vec<(String, String)> =
        pairs.iter().map(|(k, v)| (k.to_string(), v.to_string())).collect();
    RateResponse::parsed_as_bigdecimal(&owned).unwrap()
}

#[test]
fn split_pair_accepts_two_codes() {
    let (from, to) = split_pair("EUR-DAI").unwrap();
    assert_eq!(from, "EUR");
    assert_eq!(to, "DAI");
}

#[test]
fn split_pair_rejects_bad_keys() {
    assert!(split_pair("EURDAI").is_none());
    assert!(split_pair("-DAI").is_none());
    assert!(split_pair("EUR-").is_none());
    assert!(split_pair("A-B-C").is_none());
    assert!(split_pair("").is_none());
}

#[test]
fn parsed_rejects_non_decimal_rate() {
    let owned = vec![("EUR-DAI".to_string(), "not a number".to_string())];
    match RateResponse::parsed_as_bigdecimal(&owned) {
        Err(ArbiError::ParseBigDecimalError(s)) => assert_eq!(s, "not a number"),
        _ => panic!("expected ParseBigDecimalError"),
    }
}

#[test]
fn build_graph_rejects_malformed_key() {
    let t = table_of(&[("EURDAI", "1.5")]);
    match build_graph_btm(&t) {
        Err(ArbiError::MalformedPairKey(k)) => assert_eq!(k, "EURDAI"),
        _ => panic!("expected MalformedPairKey"),
    }
}

#[test]
fn build_graph_rejects_non_positive_rate() {
    let t = table_of(&[("EUR-DAI", "-1.5")]);
    match build_graph_btm(&t) {
        Err(ArbiError::InvalidRate(k)) => assert_eq!(k, "EUR-DAI"),
        _ => panic!("expected InvalidRate"),
    }
    let z = table_of(&[("EUR-DAI", "0.0")]);
    match build_graph_btm(&z) {
        Err(ArbiError::InvalidRate(k)) => assert_eq!(k, "EUR-DAI"),
        _ => panic!("expected InvalidRate"),
    }
}

#[test]
fn build_graph_rejects_unrepresentable_rate() {
    // Far beyond the 96-bit mantissa the logarithm backend can hold.
    let t = table_of(&[("EUR-DAI", "1000000000000000000000000000000000")]);
    match build_graph_btm(&t) {
        Err(ArbiError::ArithmeticConversionError(k)) => assert_eq!(k, "EUR-DAI"),
        _ => panic!("expected ArithmeticConversionError"),
    }
}

#[test]
fn unit_rate_has_zero_weight() {
    // ln(1) must be exactly zero, so the edge weight is zero; a backend
    // that handed its input through unchanged would yield weight -1.
    let t = table_of(&[("A-B", "1.0000000000")]);
    let g = build_graph_btm(&t).unwrap();
    assert_eq!(g.edges.len(), 1);
    assert!(u_is_zero(&g.edges[0].2.mag));
}

#[test]
fn arbitrage_free_cycle_finds_nothing() {
    // One directed cycle whose rate product is 0.5: no negative cycle.
    let t = table_of(&[("A-B", "0.5"), ("B-C", "0.5"), ("C-A", "2.0")]);
    let g = build_graph_btm(&t).unwrap();
    assert!(find_arbitrage_with_base_currency_btm("A".to_string(), &g).is_none());
}

#[test]
fn profitable_cycle_is_found_and_beats_investment() {
    // A->B->A compounds to 1.25: the finder must report a cycle and the
    // evaluated best must exceed the investment.
    let t = table_of(&[("A-B", "0.5"), ("B-A", "2.5")]);
    let g = build_graph_btm(&t).unwrap();
    let cycles = find_arbitrage_with_base_currency_btm("A".to_string(), &g).unwrap();
    assert!(!cycles.is_empty());
    let best = process_rates_btm(&"A".to_string(), &dec_from_u64(100), &t)
        .unwrap()
        .unwrap();
    let hundred = dec_from_u64(100);
    assert!(matches!(dec_cmp(&best.1, &hundred), Cmp::Gt));
}

#[test]
fn reciprocal_table_yields_no_arbitrage() {
    // Every pair is exactly the reciprocal of its reverse and self-rates
    // are one: no conversion loop can gain.  Unit rates have an exact
    // zero logarithm, so nothing is reported at all.
    let t = table_of(&[
        ("A-A", "1.0"),
        ("A-B", "1.0"),
        ("B-A", "1.0"),
        ("B-B", "1.0"),
    ]);
    let r = process_rates_btm(&"A".to_string(), &dec_from_u64(100), &t).unwrap();
    assert!(r.is_none());
}

#[test]
fn reciprocal_table_never_shows_a_gain() {
    // With rates 4 and 0.25 the logarithm backend's finite precision can
    // leave a residue, so a break-even loop may be reported; the exact
    // evaluation then shows no gain over the investment.
    let t = table_of(&[
        ("A-A", "1.0"),
        ("A-B", "4.0"),
        ("B-A", "0.25"),
        ("B-B", "1.0"),
    ]);
    let r = process_rates_btm(&"A".to_string(), &dec_from_u64(100), &t).unwrap();
    if let Some((_, value)) = r {
        let hundred = dec_from_u64(100);
        assert!(!matches!(dec_cmp(&value, &hundred), Cmp::Gt));
    }
}

#[test]
fn missing_hop_fails_with_rate_not_found() {
    let t = table_of(&[("EUR-DAI", "1.5")]);
    let cycle = vec!["EUR".to_string(), "XXX".to_string(), "EUR".to_string()];
    match calculate_arbitrage_btm(dec_from_u64(100), &cycle, &t) {
        Err(ArbiError::RateNotFoundError(k)) => assert_eq!(k, "EUR-XXX"),
        _ => panic!("expected RateNotFoundError"),
    }
}

#[test]
fn evaluator_replays_hops_exactly() {
    let t = table_of(&[("A-B", "1.5"), ("B-A", "0.5")]);
    let cycle = vec!["A".to_string(), "B".to_string(), "A".to_string()];
    let v = calculate_arbitrage_btm(dec_from_u64(100), &cycle, &t).unwrap();
    let expect = dec_from_str("75").unwrap();
    assert!(matches!(dec_cmp(&v, &expect), Cmp::Eq));
}

#[test]
fn evaluator_is_linear_in_investment() {
    let t = table_of(&[("A-B", "1.5"), ("B-A", "0.9")]);
    let cycle = vec!["A".to_string(), "B".to_string(), "A".to_string()];
    let v100 = calculate_arbitrage_btm(dec_from_u64(100), &cycle, &t).unwrap();
    let v300 = calculate_arbitrage_btm(dec_from_u64(300), &cycle, &t).unwrap();
    let three = dec_from_u64(3);
    let scaled = dec_mul(&v100, &three);
    assert!(matches!(dec_cmp(&v300, &scaled), Cmp::Eq));
}

#[test]
fn normalizer_pads_both_ends() {
    let cycle = vec!["DAI".to_string(), "BTC".to_string()];
    let adjusted = adjust_arbitrages_btm("EUR".to_string(), &cycle);
    assert_eq!(adjusted, vec!["EUR", "DAI", "BTC", "EUR"]);
}

#[test]
fn normalizer_collapses_repeats() {
    let cycle = vec![
        "EUR".to_string(),
        "DAI".to_string(),
        "DAI".to_string(),
        "EUR".to_string(),
    ];
    let adjusted = adjust_arbitrages_btm("EUR".to_string(), &cycle);
    assert_eq!(adjusted, vec!["EUR", "DAI", "EUR"]);
}

#[test]
fn normalizer_is_idempotent() {
    let cycle = vec!["BTC".to_string(), "BORG".to_string(), "DAI".to_string()];
    let once = adjust_arbitrages_btm("EUR".to_string(), &cycle);
    let twice = adjust_arbitrages_btm("EUR".to_string(), &once);
    assert_eq!(once, twice);
}

#[test]
fn remove_consecutive_duplicates_on_empty() {
    let out = remove_consecutive_duplicates(&Vec::new());
    assert!(out.is_empty());
}

#[test]
fn best_pnl_empty_is_none() {
    assert!(best_pnl(Vec::new()).is_none());
}

#[test]
fn best_pnl_takes_maximum_and_first_on_ties() {
    let a = (vec!["A".to_string()], dec_from_u64(5));
    let b = (vec!["B".to_string()], dec_from_u64(9));
    let c = (vec!["C".to_string()], dec_from_str("9.0").unwrap());
    let best = best_pnl(vec![a, b, c]).unwrap();
    assert_eq!(best.0, vec!["B"]);
}

#[test]
fn default_rates_build_a_well_formed_table() {
    let t = default_rates_bigdecimal().unwrap();
    assert_eq!(t.entries.len(), 16);
    let rate = t.lookup(&"EUR-DAI".to_string()).unwrap();
    let expect = dec_from_str("1.0211378960").unwrap();
    assert!(matches!(dec_cmp(rate, &expect), Cmp::Eq));
}

#[test]
fn default_rates_documented_path() {
    // The loop documented beside the sample rates: 100 EUR through BORG,
    // DAI and BTC back to EUR compounds to approximately 103.37.
    let t = default_rates_bigdecimal().unwrap();
    let path = vec![
        "EUR".to_string(),
        "BORG".to_string(),
        "DAI".to_string(),
        "BTC".to_string(),
        "EUR".to_string(),
    ];
    let v = calculate_arbitrage_btm(dec_from_u64(100), &path, &t).unwrap();
    let lo = dec_from_str("103.37").unwrap();
    let hi = dec_from_str("103.38").unwrap();
    assert!(matches!(dec_cmp(&v, &lo), Cmp::Gt));
    assert!(matches!(dec_cmp(&v, &hi), Cmp::Lt));
}

#[test]
fn default_rates_sample_scenario() {
    // The sample rates admit an arbitrage from EUR, so 100 EUR must
    // compound to more than 100.  The best reported loop revisits the
    // EUR-DAI pair, whose round trip alone gains, and so ends above the
    // documented three-hop example.
    let best = run_with_default_rates_btm(&"EUR".to_string(), &dec_from_u64(100))
        .unwrap()
        .unwrap();
    assert_eq!(best.0.first().unwrap(), "EUR");
    assert_eq!(best.0.last().unwrap(), "EUR");
    let hundred = dec_from_u64(100);
    assert!(matches!(dec_cmp(&best.1, &hundred), Cmp::Gt));
    let expect =
        dec_from_str("103.82273069729287774693795882025002750020182317200000").unwrap();
    assert!(matches!(dec_cmp(&best.1, &expect), Cmp::Eq));
}

#[test]
fn pipeline_is_deterministic() {
    let one = run_with_default_rates_btm(&"EUR".to_string(), &dec_from_u64(100))
        .unwrap()
        .unwrap();
    let two = run_with_default_rates_btm(&"EUR".to_string(), &dec_from_u64(100))
        .unwrap()
        .unwrap();
    assert_eq!(one.0, two.0);
    assert_eq!(one.1.neg, two.1.neg);
    assert_eq!(one.1.mag, two.1.mag);
    assert_eq!(one.1.scale, two.1.scale);
}

#[test]
fn empty_table_reports_no_arbitrage() {
    let t = table_of(&[]);
    let r = process_rates_btm(&"EUR".to_string(), &dec_from_u64(100), &t).unwrap();
    assert!(r.is_none());
}

#[test]
fn duplicate_keys_keep_the_first_rate() {
    let owned = vec![
        ("A-B".to_string(), "1.5".to_string()),
        ("A-B".to_string(), "9.9".to_string()),
    ];
    let t = RateResponse::parsed_as_bigdecimal(&owned).unwrap();
    assert_eq!(t.entries.len(), 1);
    let rate = t.lookup(&"A-B".to_string()).unwrap();
    let expect = dec_from_str("1.5").unwrap();
    assert!(matches!(dec_cmp(rate, &expect), Cmp::Eq));
}
