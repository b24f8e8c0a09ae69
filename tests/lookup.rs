use cty::{decode_alias, Annotation, Cty, CtyError, Entity, Field};

fn sample() -> Vec<String> {
    [
        "Fed. Rep. of Germany:     14:  28:  EU:   51.00:   -10.00:    -1.0:  DL:",
        "    DA,DB,DC,DD,DE,DF,DG,DH,DI,DJ,DK,DL,DM,DN,DO,DP,DQ,DR,Y2,Y3,Y4,Y5,Y6,Y7,Y8,Y9,",
        "    =DL50FRANCE,=DR1B;",
        "Singapore:                28:  54:  AS:    1.37:  -103.78:    -8.0:  9V:",
        "    9M6OO,9M6XX,9V,S6;",
        "China:                    24:  44:  AS:   36.00:  -102.00:    -8.0:  BY:",
        "    3H,3H0(23)[42],3H9(23)[43],BS,BY,BY1PK(24)[33]~8~;",
        "Scarborough Reef:         27:  50:  OC:   15.08:  -117.72:    -8.0:  BS7:",
        "    =BS7H;",
        "European Russia:          16:  29:  EU:   53.65:   -41.37:    -4.0:  *UA:",
        "    R,U,=R1ANZ<-70.0/20.5>{AN}~3~,=UA1ABC(17)[30];",
    ]
    .iter()
    .map(|s| s.to_string())
    .collect()
}

fn load_sample() -> Cty {
    Cty::load(&sample()).unwrap()
}

#[test]
fn it_works() {
    let cty = Cty::load(&sample());
    assert!(cty.is_ok());
}

#[test]
fn null_lookup() {
    let cty = load_sample();
    let entity = cty.lookup("012");
    assert!(entity.is_none());
}

#[test]
fn prefix_lookup() {
    let cty = load_sample();
    let entity = cty.lookup("DL1ABC").unwrap();
    assert_eq!(entity.name, "Fed. Rep. of Germany");
}

#[test]
fn alias_lookup() {
    let cty = load_sample();
    let entity = cty.lookup("S6ABC").unwrap();
    assert_eq!(entity.name, "Singapore");
}

#[test]
fn exact_lookup() {
    let cty = load_sample();
    let entity = cty.lookup("BS7H").unwrap();
    assert_eq!(entity.name, "Scarborough Reef");
}

#[test]
fn loaded_table_is_not_empty() {
    let cty = load_sample();
    assert!(cty.len() > 0);
    assert_eq!(cty.len(), 45);
}

#[test]
fn every_key_finds_its_entry() {
    let cty = load_sample();
    for key in ["DL", "DA", "Y9", "DL50FRANCE", "9V", "S6", "3H0", "BS", "BS7H", "UA", "R", "R1ANZ"] {
        let e = cty.lookup(key).unwrap();
        assert!(e.name.len() > 0, "{}", key);
    }
    let e = cty.lookup("3H0").unwrap();
    assert_eq!((e.cq, e.itu), (23, 42));
    let e = cty.lookup("BY1PK").unwrap();
    assert_eq!((e.cq, e.itu, e.timezone), (24, 33, 28800));
}

#[test]
fn longest_prefix_wins() {
    let lines: Vec<String> = vec![
        "Germany:  14:  28:  EU:  51.00:  -10.00:  -1.0:  DL:".to_string(),
        "    DL,DL1(15)[29];".to_string(),
    ];
    let cty = Cty::load(&lines).unwrap();
    let e = cty.lookup("DL1ABC").unwrap();
    assert_eq!(e.cq, 15);
    assert_eq!(e.itu, 29);
    let e = cty.lookup("DL2ABC").unwrap();
    assert_eq!(e.cq, 14);
}

#[test]
fn exact_alias_wins_over_prefix() {
    let cty = load_sample();
    let e = cty.lookup("BS7H").unwrap();
    assert!(e.is_exact);
    assert_eq!(e.prefix, "BS7");
    let e = cty.lookup("BS1A").unwrap();
    assert_eq!(e.name, "China");
}

#[test]
fn exact_entry_still_counts_as_prefix() {
    let cty = load_sample();
    let e = cty.lookup("DR1BX").unwrap();
    assert_eq!(e.name, "Fed. Rep. of Germany");
    assert!(e.is_exact);
    let e = cty.lookup("BS7HX").unwrap();
    assert_eq!(e.name, "Scarborough Reef");
    let e = cty.lookup("BS8X").unwrap();
    assert_eq!(e.name, "China");
}

#[test]
fn non_exact_key_matches_as_longest() {
    let cty = load_sample();
    let e = cty.lookup("S6").unwrap();
    assert_eq!(e.name, "Singapore");
    assert!(!e.is_exact);
}

#[test]
fn no_prefix_no_match() {
    let cty = load_sample();
    assert!(cty.lookup("0").is_none());
    assert!(cty.lookup("").is_none());
    assert!(cty.lookup("XYZ").is_none());
}

fn base() -> Entity {
    Entity {
        name: "Base".to_string(),
        cq: 1,
        itu: 2,
        continent: "EU".to_string(),
        lat: "3.5".to_string(),
        lon: "-4.25".to_string(),
        timezone: -3600,
        prefix: "BB".to_string(),
        waedc: true,
        is_exact: false,
    }
}

#[test]
fn override_all_fields() {
    let (key, e) = decode_alias(&base(), "XY9(5)[10]{AS}<1.0/2.0>~8~", 0, 1).unwrap();
    assert_eq!(key, "XY9");
    assert_eq!(e.cq, 5);
    assert_eq!(e.itu, 10);
    assert_eq!(e.continent, "AS");
    assert_eq!(e.lat, "1.0");
    assert_eq!(e.lon, "2.0");
    assert_eq!(e.timezone, 28800);
    assert_eq!(e.name, "Base");
    assert_eq!(e.prefix, "BB");
    assert!(e.waedc);
    assert!(!e.is_exact);
    assert_eq!(e.lat.parse::<f32>().unwrap(), 1.0f32);
}

#[test]
fn omitted_overrides_keep_base() {
    let (key, e) = decode_alias(&base(), "=K1ABC[7]", 3, 1).unwrap();
    assert_eq!(key, "K1ABC");
    assert!(e.is_exact);
    assert_eq!((e.cq, e.itu, e.timezone), (1, 7, -3600));
    assert_eq!(e.continent, "EU");
    assert_eq!((e.lat.as_str(), e.lon.as_str()), ("3.5", "-4.25"));
}

#[test]
fn negative_offset_override() {
    let (key, e) = decode_alias(&base(), "W6~-8~", 0, 1).unwrap();
    assert_eq!(key, "W6");
    assert_eq!(e.timezone, -28800);
}

#[test]
fn bad_zone_fails_load() {
    let lines: Vec<String> = vec![
        "Germany:  14:  28:  EU:  51.00:  -10.00:  -1.0:  DL:".to_string(),
        "    DL;".to_string(),
        "Nowhere:  xx:  28:  EU:  51.00:  -10.00:  -1.0:  NW:".to_string(),
    ];
    assert_eq!(
        Cty::load(&lines).err(),
        Some(CtyError::FieldFormat { field: Field::Cq, line: 2 })
    );
}

#[test]
fn record_errors() {
    let short = vec!["Nowhere:  1:  2:  EU".to_string()];
    assert_eq!(Cty::load(&short).err(), Some(CtyError::MalformedRecord { line: 0 }));
    let itu = vec!["Nowhere:  1:  -2:  EU:  1:  2:  0:  NW:".to_string()];
    assert_eq!(
        Cty::load(&itu).err(),
        Some(CtyError::FieldFormat { field: Field::Itu, line: 0 })
    );
    let lat = vec!["Nowhere:  1:  2:  EU:  north:  2:  0:  NW:".to_string()];
    assert_eq!(
        Cty::load(&lat).err(),
        Some(CtyError::FieldFormat { field: Field::Latitude, line: 0 })
    );
    let lon = vec!["Nowhere:  1:  2:  EU:  1:  2.0.0:  0:  NW:".to_string()];
    assert_eq!(
        Cty::load(&lon).err(),
        Some(CtyError::FieldFormat { field: Field::Longitude, line: 0 })
    );
}

#[test]
fn override_errors() {
    let b = base();
    assert_eq!(
        decode_alias(&b, "K(99999999999)", 4, 1).err(),
        Some(CtyError::OverrideFormat { annotation: Annotation::Cq, line: 4, token: 1 })
    );
    assert_eq!(
        decode_alias(&b, "K[4294967296]", 4, 1).err(),
        Some(CtyError::OverrideFormat { annotation: Annotation::Itu, line: 4, token: 1 })
    );
    assert_eq!(
        decode_alias(&b, "K<x/2>", 4, 1).err(),
        Some(CtyError::OverrideFormat { annotation: Annotation::Latitude, line: 4, token: 1 })
    );
    assert_eq!(
        decode_alias(&b, "K<1/>", 4, 1).err(),
        Some(CtyError::OverrideFormat { annotation: Annotation::Longitude, line: 4, token: 1 })
    );
    assert_eq!(
        decode_alias(&b, "K~x~", 4, 1).err(),
        Some(CtyError::OverrideFormat { annotation: Annotation::Timezone, line: 4, token: 1 })
    );
    assert_eq!(decode_alias(&b, "K~24~", 4, 1).err(), Some(CtyError::InvalidTimezone { line: 4, token: 1 }));
    assert_eq!(
        decode_alias(&b, "K~1000000~", 4, 1).err(),
        Some(CtyError::InvalidTimezone { line: 4, token: 1 })
    );
    assert_eq!(decode_alias(&b, "K~23~", 4, 1).unwrap().1.timezone, 82800);
}

#[test]
fn waedc_marker_is_stripped() {
    let cty = load_sample();
    let e = cty.lookup("UA9XYZ").unwrap();
    assert_eq!(e.prefix, "UA");
    assert!(e.waedc);
    let e = cty.lookup("DL1ABC").unwrap();
    assert!(!e.waedc);
    assert_eq!(e.timezone, 0);
}

#[test]
fn exact_alias_with_overrides() {
    let cty = load_sample();
    let e = cty.lookup("R1ANZ").unwrap();
    assert_eq!(e.continent, "AN");
    assert_eq!((e.lat.as_str(), e.lon.as_str()), ("-70.0", "20.5"));
    assert_eq!(e.timezone, 10800);
    let e = cty.lookup("UA1ABC").unwrap();
    assert_eq!((e.cq, e.itu), (17, 30));
    let e = cty.lookup("UA1ABD").unwrap();
    assert_eq!((e.cq, e.itu), (16, 29));
}

#[test]
fn later_entry_replaces_earlier() {
    let lines: Vec<String> = vec![
        "First:  1:  2:  EU:  1:  2:  0:  AA:".to_string(),
        "    AB(3),,  ,AB(4);".to_string(),
    ];
    let cty = Cty::load(&lines).unwrap();
    assert_eq!(cty.len(), 2);
    assert_eq!(cty.lookup("AB1").unwrap().cq, 4);
}

#[test]
fn alias_before_any_record_uses_blank_entity() {
    let lines: Vec<String> = vec!["    QQ(5);".to_string()];
    let cty = Cty::load(&lines).unwrap();
    let e = cty.lookup("QQ").unwrap();
    assert_eq!(e.cq, 5);
    assert_eq!(e.name, "");
}

#[test]
fn empty_file_gives_empty_table() {
    let cty = Cty::load(&Vec::new()).unwrap();
    assert_eq!(cty.len(), 0);
    assert!(cty.lookup("DL").is_none());
}

#[test]
fn coordinates_take_every_float_form() {
    let lines: Vec<String> = vec![
        "A:1:2:E:1e1:2:0:P".to_string(),
        "Exp:  1:  2:  EU:  2.5E-3:  -7.e+2:  0:  EX:".to_string(),
        "Inf:  1:  2:  EU:  -Infinity:  inf:  0:  IN:".to_string(),
        "Nan:  1:  2:  EU:  NaN:  +nan:  0:  NA:".to_string(),
        "    NB<1E5/-INF>;".to_string(),
    ];
    let cty = Cty::load(&lines).unwrap();
    assert_eq!(cty.get("P").unwrap().lat, "1e1");
    let e = cty.get("EX").unwrap();
    assert_eq!((e.lat.as_str(), e.lon.as_str()), ("2.5E-3", "-7.e+2"));
    for e in [cty.get("EX").unwrap(), cty.get("IN").unwrap(), cty.get("NA").unwrap()] {
        assert!(e.lat.parse::<f32>().is_ok());
        assert!(e.lon.parse::<f32>().is_ok());
    }
    let e = cty.get("NB").unwrap();
    assert_eq!((e.lat.as_str(), e.lon.as_str()), ("1E5", "-INF"));
    assert_eq!(e.lat.parse::<f32>().unwrap(), 100000.0f32);
}

#[test]
fn coordinates_reject_what_floats_reject() {
    for bad in ["1e", "e5", "1e+", ".", "in", "infin", "nan1", "1.2.3", "1e5.0", "--1", ""] {
        assert!(bad.parse::<f32>().is_err(), "{}", bad);
        let line = format!("X:  1:  2:  EU:  {}:  2:  0:  XX:", bad);
        assert_eq!(
            Cty::load(&vec![line]).err(),
            Some(CtyError::FieldFormat { field: Field::Latitude, line: 0 }),
            "{}",
            bad
        );
    }
}

#[test]
fn default_entity_is_blank() {
    let e = Entity::default();
    assert_eq!((e.cq, e.itu, e.timezone), (0, 0, 0));
    assert_eq!(e.name, "");
    assert_eq!(e.prefix, "");
    assert_eq!(e.lat.parse::<f32>().unwrap(), 0.0f32);
    assert!(!e.waedc && !e.is_exact);
}

#[test]
fn get_reads_exact_keys_only() {
    let cty = load_sample();
    assert_eq!(cty.get("DL").unwrap().name, "Fed. Rep. of Germany");
    assert!(cty.get("DL1ABC").is_none());
    assert!(cty.get("BS7H").unwrap().is_exact);
}

#[test]
fn last_record_wins_under_its_key() {
    let lines: Vec<String> = vec![
        "First:  1:  2:  EU:  1:  2:  0:  AA:".to_string(),
        "Second:  3:  4:  EU:  1:  2:  0:  *AA:".to_string(),
    ];
    let cty = Cty::load(&lines).unwrap();
    assert_eq!(cty.len(), 1);
    let e = cty.get("AA").unwrap();
    assert_eq!((e.name.as_str(), e.cq, e.waedc), ("Second", 3, true));
}

#[test]
fn record_errors_follow_field_order() {
    let cases = [
        ("X: bad: 1", CtyError::FieldFormat { field: Field::Cq, line: 0 }),
        ("X: 1: bad", CtyError::FieldFormat { field: Field::Itu, line: 0 }),
        ("X: 1: 2: EU", CtyError::MalformedRecord { line: 0 }),
        ("X: 1: 2: EU: north", CtyError::FieldFormat { field: Field::Latitude, line: 0 }),
        ("X: 1: 2: EU: 1.0", CtyError::MalformedRecord { line: 0 }),
        ("X: 1: 2: EU: 1.0: west", CtyError::FieldFormat { field: Field::Longitude, line: 0 }),
        ("X: 1: 2: EU: 1.0: 2.0: 0", CtyError::MalformedRecord { line: 0 }),
    ];
    for (line, err) in cases {
        assert_eq!(Cty::load(&vec![line.to_string()]).err(), Some(err), "{}", line);
    }
}

#[test]
fn override_error_names_its_token() {
    let lines: Vec<String> = vec![
        "First:  1:  2:  EU:  1:  2:  0:  AA:".to_string(),
        "    AB,AC,".to_string(),
        "    AD, AE<abc/2.0>, AF;".to_string(),
    ];
    assert_eq!(
        Cty::load(&lines).err(),
        Some(CtyError::OverrideFormat { annotation: Annotation::Latitude, line: 2, token: 1 })
    );
    let lines: Vec<String> = vec![
        "First:  1:  2:  EU:  1:  2:  0:  AA:".to_string(),
        "    AB,,AC~-30~;".to_string(),
    ];
    assert_eq!(Cty::load(&lines).err(), Some(CtyError::InvalidTimezone { line: 1, token: 2 }));
}

#[test]
fn last_alias_wins_under_its_key() {
    let lines: Vec<String> = vec![
        "First:  1:  2:  EU:  1:  2:  0:  AA:".to_string(),
        "    AB(3),AB[9];".to_string(),
        "Second:  5:  6:  AS:  1:  2:  0:  CC:".to_string(),
        "    AD,".to_string(),
        "    AD{OC};".to_string(),
    ];
    let cty = Cty::load(&lines).unwrap();
    let e = cty.get("AB").unwrap();
    assert_eq!((e.name.as_str(), e.cq, e.itu), ("First", 1, 9));
    let e = cty.get("AD").unwrap();
    assert_eq!((e.name.as_str(), e.continent.as_str(), e.cq), ("Second", "OC", 5));
}
