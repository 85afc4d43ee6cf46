use cellauto3d::rules::{parse_condis, Neighbourhood, Rules};

#[test]
fn parse_standard_rule() {
    let r = Rules::parse_from_str("6-8/7/4/M").expect("rule must parse");
    // survive = [(6,8)]
    assert!(!r.check_despawn(6));
    assert!(!r.check_despawn(7));
    assert!(!r.check_despawn(8));
    assert!(r.check_despawn(5));
    assert!(r.check_despawn(9));
    assert!(r.check_despawn(0));
    // spawn = [(7,7)]
    assert!(r.check_spawn(7));
    assert!(!r.check_spawn(6));
    assert!(!r.check_spawn(8));
    // extra life = 4 - 2
    assert_eq!(r.life(), 2);
    assert!(matches!(r.neighbourhood(), Neighbourhood::Moore));
}

#[test]
fn parse_von_neumann_rule() {
    let r = Rules::parse_from_str("5-6/5-6/5/VN").expect("rule must parse");
    assert_eq!(r.life(), 3);
    assert!(matches!(r.neighbourhood(), Neighbourhood::VonNeumann));
    assert!(!r.check_despawn(5));
    assert!(!r.check_despawn(6));
    assert!(r.check_despawn(4));
    assert!(r.check_spawn(5));
    assert!(!r.check_spawn(7));
}

#[test]
fn parse_too_few_states_fails() {
    assert!(Rules::parse_from_str("1/1/1/M").is_none());
    assert!(Rules::parse_from_str("1/1/2/M").is_some());
}

#[test]
fn parse_missing_fields_fails() {
    assert!(Rules::parse_from_str("1/1").is_none());
    assert!(Rules::parse_from_str("").is_none());
    assert!(Rules::parse_from_str("6-8/7/4").is_none());
}

#[test]
fn parse_unparsable_states_fails() {
    assert!(Rules::parse_from_str("6-8/7/x/M").is_none());
    assert!(Rules::parse_from_str("6-8/7//M").is_none());
    assert!(Rules::parse_from_str("6-8/7/-5/M").is_none());
}

#[test]
fn parse_condis_single_and_range() {
    assert_eq!(parse_condis("6-8"), vec![(6, 8)]);
    assert_eq!(parse_condis("7"), vec![(7, 7)]);
    assert_eq!(parse_condis("5,6-7"), vec![(5, 5), (6, 7)]);
}

#[test]
fn parse_condis_drops_malformed_tokens() {
    assert_eq!(parse_condis("5,x,6-7,8-"), vec![(5, 5), (6, 7)]);
    assert_eq!(parse_condis(""), Vec::<(usize, usize)>::new());
    assert_eq!(parse_condis("-5"), Vec::<(usize, usize)>::new());
}

#[test]
fn parse_condis_extra_dashes_take_first_two() {
    assert_eq!(parse_condis("1-2-3"), vec![(1, 2)]);
}

#[test]
fn parse_condis_accepts_leading_plus() {
    assert_eq!(parse_condis("+3"), vec![(3, 3)]);
}

#[test]
fn parse_condis_rejects_overflowing_token() {
    assert_eq!(
        parse_condis("99999999999999999999999999"),
        Vec::<(usize, usize)>::new()
    );
}

#[test]
fn despawn_spawn_duality_on_examples() {
    // survive ranges {(5,6)}: inside => no despawn, outside => despawn
    let r = Rules::parse_from_str("5-6/7,9/4/M").expect("rule must parse");
    assert!(!r.check_despawn(5));
    assert!(r.check_despawn(7));
    // spawn ranges {(7,7),(9,9)}
    assert!(r.check_spawn(7));
    assert!(!r.check_spawn(8));
    assert!(r.check_spawn(9));
}

#[test]
fn neighbourhood_parsing() {
    assert!(matches!(
        Neighbourhood::parse_from_str("VN"),
        Neighbourhood::VonNeumann
    ));
    assert!(matches!(
        Neighbourhood::parse_from_str("vn"),
        Neighbourhood::VonNeumann
    ));
    assert!(matches!(
        Neighbourhood::parse_from_str("M"),
        Neighbourhood::Moore
    ));
    assert!(matches!(
        Neighbourhood::parse_from_str(""),
        Neighbourhood::Moore
    ));
    assert!(matches!(
        Neighbourhood::parse_from_str("Vn"),
        Neighbourhood::Moore
    ));
}

#[test]
fn default_rules_values() {
    let r = Rules::default();
    assert_eq!(r.life(), 5);
    assert!(matches!(r.neighbourhood(), Neighbourhood::Moore));
    assert!(!r.check_despawn(5));
    assert!(!r.check_despawn(10));
    assert!(r.check_despawn(4));
    assert!(r.check_despawn(11));
    assert!(r.check_spawn(8));
    assert!(!r.check_spawn(7));
}
