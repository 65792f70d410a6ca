use contest_trainer::cty::CtyDat;

const SAMPLE: &str = r#"
United States:            05:  08:  NA:   37.60:    91.87:     5.0:  K:
    K,W,N,AA,
    K0(4)[7],W0(4)[7],N0(4)[7],
    K6(3)[6],W6(3)[6],N6(3)[6],
    =W1AW(5)[8];
Germany:                  14:  28:  EU:   51.00:   -10.00:    -1.0:  DL:
    DA,DB,DC,DD,DE,DF,DG,DH,DI,DJ,DK,DL,DM,DN,DO,DP,DQ,DR;
"#;

#[test]
fn test_parse_header() {
    let line = "United States:            05:  08:  NA:   37.60:    91.87:     5.0:  K:";
    let entity = CtyDat::parse_header(line).unwrap();
    assert_eq!(entity.name, "United States");
    assert_eq!(entity.cq_zone, 5);
    assert_eq!(entity.itu_zone, 8);
    assert_eq!(entity.continent, "NA");
    assert_eq!(entity.primary_prefix, "K");
}

#[test]
fn test_parse_alias_simple() {
    let (prefix, cq, itu, exact) = CtyDat::parse_alias("W1");
    assert_eq!(prefix, "W1");
    assert_eq!(cq, None);
    assert_eq!(itu, None);
    assert!(!exact);
}

#[test]
fn test_parse_alias_with_cq_override() {
    let (prefix, cq, itu, exact) = CtyDat::parse_alias("K0(4)[7]");
    assert_eq!(prefix, "K0");
    assert_eq!(cq, Some(4));
    assert_eq!(itu, Some(7));
    assert!(!exact);
}

#[test]
fn test_parse_alias_exact() {
    let (prefix, cq, itu, exact) = CtyDat::parse_alias("=W1AW");
    assert_eq!(prefix, "W1AW");
    assert_eq!(cq, None);
    assert_eq!(itu, None);
    assert!(exact);
}

#[test]
fn test_parse_alias_exact_with_override() {
    let (prefix, cq, itu, exact) = CtyDat::parse_alias("=AL7BX(4)[7]");
    assert_eq!(prefix, "AL7BX");
    assert_eq!(cq, Some(4));
    assert_eq!(itu, Some(7));
    assert!(exact);
}

#[test]
fn test_lookup() {
    let cty = CtyDat::parse(SAMPLE);
    assert_eq!(cty.lookup_cq_zone("K1ABC"), Some(5));
    assert_eq!(cty.lookup_cq_zone("W2XYZ"), Some(5));
    assert_eq!(cty.lookup_cq_zone("K0ABC"), Some(4));
    assert_eq!(cty.lookup_cq_zone("W6ABC"), Some(3));
    assert_eq!(cty.lookup_cq_zone("W1AW"), Some(5));
    assert_eq!(cty.lookup_cq_zone("DL1ABC"), Some(14));
}

#[test]
fn test_same_country() {
    let cty = CtyDat::parse(SAMPLE);
    assert!(cty.same_country("K1ABC", "W2XYZ"));
    assert!(cty.same_country("W1AW", "K1ABC"));
    assert!(cty.same_country("K2XYZ", "W1AW"));
    assert!(!cty.same_country("K1ABC", "DL1ABC"));
    assert!(!cty.same_country("W1AW", "DL1ABC"));
    assert!(cty.same_country("DL1ABC", "DK2XYZ"));
}

#[test]
fn longest_prefix_wins_and_lowercase_is_looked_up() {
    let cty = CtyDat::parse(SAMPLE);
    // K0 (zone 4) is longer than K (zone 5)
    assert_eq!(cty.lookup_zones("k0xyz"), Some((4, 7)));
    assert_eq!(cty.lookup_zones("KH6ABC"), Some((5, 8)));
    assert_eq!(cty.lookup_prefix("DK2XYZ"), Some("DL".to_string()));
    assert_eq!(cty.lookup_cq_zone("ZZ9ZZ"), None);
}

/// Entries in the layout of the country file, with call-area zone overrides.
const COUNTRY_EXCERPT: &str = "United States:            05:  08:  NA:   37.53:    91.67:     5.0:  K:
    AA,AB,AC,AD,AE,AF,AG,AI,AJ,AK,K,N,W,
    AA0(4)[7],AB0(4)[7],K0(4)[7],N0(4)[7],W0(4)[7],
    K6(3)[6],N6(3)[6],W6(3)[6],K7(3)[6],N7(3)[6],W7(3)[6],
    K9(4)[8],N9(4)[8],W9(4)[8];
Fed. Rep. of Germany:     14:  28:  EU:   51.00:   -10.00:    -1.0:  DL:
    DA,DB,DC,DD,DE,DF,DG,DH,DI,DJ,DK,DL,DM,DN,DO,DP,DQ,DR;
Japan:                    25:  45:  AS:   36.40:  -138.38:    -9.0:  JA:
    7J,7K,7L,7M,7N,8J,8K,8L,8M,8N,JA,JB,JC,JD,JE,JF,JG,JH,JI,JJ,JK,JL,JM,JN,JO,JP,JQ,JR,JS;
Australia:                30:  59:  OC:  -23.70:  -132.33:   -10.0:  VK:
    AX,VH,VI,VJ,VK,VL,VM,VN,VZ;
";

#[test]
fn zones_of_a_country_file_excerpt() {
    let cty = CtyDat::parse(COUNTRY_EXCERPT);
    assert_eq!(cty.lookup_cq_zone("W1AW"), Some(5));
    assert_eq!(cty.lookup_cq_zone("K2ABC"), Some(5));
    assert_eq!(cty.lookup_cq_zone("N3XYZ"), Some(5));
    assert_eq!(cty.lookup_cq_zone("W0ABC"), Some(4));
    assert_eq!(cty.lookup_cq_zone("K9XYZ"), Some(4));
    assert_eq!(cty.lookup_cq_zone("W6ABC"), Some(3));
    assert_eq!(cty.lookup_cq_zone("K7XYZ"), Some(3));
    assert_eq!(cty.lookup_cq_zone("DL1ABC"), Some(14));
    assert_eq!(cty.lookup_cq_zone("JA1ABC"), Some(25));
    assert_eq!(cty.lookup_cq_zone("VK2ABC"), Some(30));
    assert_eq!(cty.lookup_zones("W6ABC"), Some((3, 6)));
    assert_eq!(cty.lookup_prefix("JA1ABC"), Some("JA".to_string()));
    assert!(cty.same_country("W1AW", "K7XYZ"));
    assert!(!cty.same_country("W1AW", "DL1ABC"));
    assert_eq!(cty.lookup_cq_zone("ZZ9ZZ"), None);
}

/// The entries of the country file that these lookups reach, as the file
/// writes them (the full file is not shipped with the sources).
const CTY_EXCERPT: &str = r#"
Fed. Rep. of Germany:     14:  28:  EU:   51.00:   -10.00:    -1.0:  DL:
    DA,DB,DC,DD,DE,DF,DG,DH,DI,DJ,DK,DL,DM,DN,DO,DP,DQ,DR,Y2,Y3,Y4,Y5,Y6,Y7,Y8,Y9;
Japan:                    25:  45:  AS:   36.40:  -138.38:    -9.0:  JA:
    7J,7K,7L,7M,7N,8J,8K,8L,8M,8N,JA,JB,JC,JD,JE,JF,JG,JH,JI,JJ,JK,JL,JM,JN,JO,JP,JQ,JR,JS;
Australia:                30:  59:  OC:  -23.70:  -132.33:   -10.0:  VK:
    AX,VH,VI,VJ,VK,VL,VM,VN,VZ,
    AX6(29)[58],VH6(29)[58],VI6(29)[58],VJ6(29)[58],VK6(29)[58],VL6(29)[58],VM6(29)[58],VN6(29)[58],VZ6(29)[58];
United States:            05:  08:  NA:   37.53:    91.67:     5.0:  K:
    AA,AB,AC,AD,AE,AF,AG,AI,AJ,AK,AL,K,N,W,
    AA0(4)[7],AB0(4)[7],K0(4)[7],N0(4)[7],W0(4)[7],
    AA6(3)[6],AB6(3)[6],K6(3)[6],N6(3)[6],W6(3)[6],
    AA7(3)[6],AB7(3)[6],K7(3)[6],N7(3)[6],W7(3)[6],
    AA9(4)[8],AB9(4)[8],K9(4)[8],N9(4)[8],W9(4)[8];
"#;

#[test]
fn test_real_cty_file() {
    let cty = CtyDat::parse(CTY_EXCERPT);

    assert_eq!(cty.lookup_cq_zone("W1AW"), Some(5));
    assert_eq!(cty.lookup_cq_zone("K2ABC"), Some(5));
    assert_eq!(cty.lookup_cq_zone("N3XYZ"), Some(5));

    assert_eq!(cty.lookup_cq_zone("W0ABC"), Some(4));
    assert_eq!(cty.lookup_cq_zone("K9XYZ"), Some(4));

    assert_eq!(cty.lookup_cq_zone("W6ABC"), Some(3));
    assert_eq!(cty.lookup_cq_zone("K7XYZ"), Some(3));

    assert_eq!(cty.lookup_cq_zone("DL1ABC"), Some(14));
    assert_eq!(cty.lookup_cq_zone("JA1ABC"), Some(25));
    assert_eq!(cty.lookup_cq_zone("VK2ABC"), Some(30));
}

#[test]
fn lookups_agree_and_ignore_case() {
    let cty = CtyDat::parse(CTY_EXCERPT);
    for call in ["W1AW", "k9xyz", "VK6ABC", "ZZ9ZZ"] {
        let zones = cty.lookup_zones(call);
        assert_eq!(zones.map(|z| z.0), cty.lookup_cq_zone(call));
        assert_eq!(zones.is_some(), cty.lookup_prefix(call).is_some());
    }
    assert_eq!(cty.lookup_zones("VK6ABC"), Some((29, 58)));
    assert_eq!(cty.lookup_cq_zone("k9xyz"), cty.lookup_cq_zone("K9XYZ"));
}

#[test]
fn parsing_ignores_blank_lines_and_spaces() {
    let tight = "Japan: 25: 45: AS: 36.40: -138.38: -9.0: JA:\nJA,JE;\n";
    let loose = "\n\n   Japan: 25: 45: AS: 36.40: -138.38: -9.0: JA:   \n\n      JA,JE;   \n\n";
    let a = CtyDat::parse(tight);
    let b = CtyDat::parse(loose);
    for call in ["JA1ABC", "JE2XYZ", "W1AW"] {
        assert_eq!(a.lookup_zones(call), b.lookup_zones(call));
        assert_eq!(a.lookup_prefix(call), b.lookup_prefix(call));
    }
    assert_eq!(a.lookup_cq_zone("JA1ABC"), Some(25));
    let headerless = CtyDat::parse("JA,JE;\nW,K;\n");
    assert_eq!(headerless.lookup_cq_zone("JA1ABC"), None);
}

#[test]
fn lookups_ignore_ascii_case() {
    let cty = CtyDat::parse(SAMPLE);
    assert_eq!(cty.lookup_zones("k0abc"), cty.lookup_zones("K0ABC"));
    assert_eq!(cty.lookup_zones("K0ABC"), Some((4, 7)));
    assert_eq!(cty.lookup_zones("w1aw"), Some((5, 8)));
    assert_eq!(cty.lookup_prefix("dl1abc"), cty.lookup_prefix("DL1ABC"));
}
