use parque_concurrente::amount::parse_amount;
use parque_concurrente::config::{read_configuration, ConfigError, ParkConfig};

const PARK_YAML: &str = "park:\n  people: 5\n  capacity: 10\n  games-cost:\n    - 1.0\n    - 2.0\n    - 3.0\n";

#[test]
fn read_config() {
    let expected = ParkConfig::new(5, 10, vec![100, 200, 300]);

    let result = read_configuration(PARK_YAML).unwrap();

    assert_eq!(result, expected);
    assert_eq!(result.number_of_games(), 3);
    assert_eq!(result.people(), 5);
    assert_eq!(result.park_capacity(), 10);
    assert_eq!(result.game_cost(2), 300);
}

#[test]
fn read_config_flow_style() {
    let result = read_configuration("park: {people: 7, capacity: 2, games-cost: [2.5, 0.05]}");
    assert_eq!(result, Ok(ParkConfig::new(7, 2, vec![250, 5])));
}

#[test]
fn read_config_ignores_other_keys() {
    let text = "other: 1\npark:\n  games-cost: []\n  people: 0\n  capacity: -1\n  extra: x\n";
    assert_eq!(read_configuration(text), Ok(ParkConfig::new(0, -1, vec![])));
}

#[test]
fn invalid_yaml_is_refused() {
    assert_eq!(read_configuration("park: [1, 2"), Err(ConfigError::InvalidYaml));
}

#[test]
fn empty_text_has_no_document() {
    assert_eq!(read_configuration(""), Err(ConfigError::NoDocument));
}

#[test]
fn missing_games_cost_is_refused() {
    let text = "park:\n  people: 5\n  capacity: 10\n";
    assert_eq!(read_configuration(text), Err(ConfigError::GamesCostNotList));
}

#[test]
fn integer_game_cost_is_refused() {
    let text = "park:\n  people: 5\n  capacity: 10\n  games-cost: [1, 2.0]\n";
    assert_eq!(read_configuration(text), Err(ConfigError::GameCostNotAmount));
}

#[test]
fn exponent_game_costs_are_read() {
    let text = "park:\n  people: 5\n  capacity: 10\n  games-cost: [1e3, 2.5E-1, 1.000]\n";
    assert_eq!(read_configuration(text), Ok(ParkConfig::new(5, 10, vec![100000, 25, 100])));
}

#[test]
fn infinite_game_cost_is_refused() {
    let text = "park:\n  people: 5\n  capacity: 10\n  games-cost: [.inf]\n";
    assert_eq!(read_configuration(text), Err(ConfigError::GameCostNotAmount));
}

#[test]
fn fraction_of_a_cent_is_refused() {
    let text = "park:\n  people: 5\n  capacity: 10\n  games-cost: [1.005]\n";
    assert_eq!(read_configuration(text), Err(ConfigError::GameCostNotAmount));
}

#[test]
fn missing_people_is_refused() {
    let text = "park:\n  capacity: 10\n  games-cost: [1.0]\n";
    assert_eq!(read_configuration(text), Err(ConfigError::PeopleNotInteger));
}

#[test]
fn missing_capacity_is_refused() {
    let text = "park:\n  people: 3\n  games-cost: [1.0]\n";
    assert_eq!(read_configuration(text), Err(ConfigError::CapacityNotInteger));
}

#[test]
fn games_cost_is_checked_before_people() {
    let text = "park:\n  games-cost: 4\n";
    assert_eq!(read_configuration(text), Err(ConfigError::GamesCostNotList));
}

#[test]
fn amounts_are_read_in_cents() {
    assert_eq!(parse_amount("1.0"), Some(100));
    assert_eq!(parse_amount("12.5"), Some(1250));
    assert_eq!(parse_amount("0.07"), Some(7));
    assert_eq!(parse_amount("3"), Some(300));
    assert_eq!(parse_amount("-2.25"), Some(-225));
    assert_eq!(parse_amount("+4.10"), Some(410));
    assert_eq!(parse_amount(".5"), Some(50));
    assert_eq!(parse_amount("5."), Some(500));
    assert_eq!(parse_amount("1.2500"), Some(125));
}

#[test]
fn malformed_amounts_are_refused() {
    assert_eq!(parse_amount(""), None);
    assert_eq!(parse_amount("-"), None);
    assert_eq!(parse_amount("."), None);
    assert_eq!(parse_amount("1.2.3"), None);
    assert_eq!(parse_amount(".inf"), None);
    assert_eq!(parse_amount("1.001"), None);
    assert_eq!(parse_amount("12a"), None);
}

#[test]
fn amounts_with_an_exponent() {
    assert_eq!(parse_amount("1e3"), Some(100000));
    assert_eq!(parse_amount("2.5E-1"), Some(25));
    assert_eq!(parse_amount("1e-2"), Some(1));
    assert_eq!(parse_amount("1e+2"), Some(10000));
    assert_eq!(parse_amount("-1e0"), Some(-100));
    assert_eq!(parse_amount("5.e1"), Some(5000));
    assert_eq!(parse_amount("1200e-4"), Some(12));
    assert_eq!(parse_amount("100000000000000000000000000000e-27"), Some(10000));
    assert_eq!(parse_amount("0e99999999999999999999999999999999999999999"), Some(0));
    assert_eq!(parse_amount("0.000e-5"), Some(0));
    assert_eq!(parse_amount("9.2233720368547758e16"), Some(9223372036854775800));
}

#[test]
fn malformed_or_fractional_exponents_are_refused() {
    assert_eq!(parse_amount("1e-3"), None);
    assert_eq!(parse_amount("1e"), None);
    assert_eq!(parse_amount("1e+"), None);
    assert_eq!(parse_amount("e3"), None);
    assert_eq!(parse_amount(".e3"), None);
    assert_eq!(parse_amount("1e3e1"), None);
    assert_eq!(parse_amount("1e1.5"), None);
    assert_eq!(parse_amount("1e17"), None);
    assert_eq!(parse_amount("1e99999999999999999999999999999999999999999"), None);
    assert_eq!(parse_amount("1e-99999999999999999999999999999999999999999"), None);
    assert_eq!(parse_amount(".nan"), None);
}

#[test]
fn amounts_at_the_edge_of_i64() {
    assert_eq!(parse_amount("92233720368547758.07"), Some(i64::MAX));
    assert_eq!(parse_amount("92233720368547758.08"), None);
    assert_eq!(parse_amount("-92233720368547758.08"), Some(i64::MIN));
    assert_eq!(parse_amount("-92233720368547758.09"), None);
    assert_eq!(parse_amount("99999999999999999999999.0"), None);
}
