use frozenbbs::ping::pong_with_case;
use frozenbbs::weather::describe_weather_code;

#[test]
fn preserves_common_case_patterns() {
    assert_eq!(pong_with_case("ping"), "pong");
    assert_eq!(pong_with_case("Ping"), "Pong");
    assert_eq!(pong_with_case("PING"), "PONG");
    assert_eq!(pong_with_case("pInG"), "pOnG");
}

#[test]
fn short_or_odd_input_falls_back_to_lowercase() {
    assert_eq!(pong_with_case("P"), "Pong");
    assert_eq!(pong_with_case(""), "pong");
    assert_eq!(pong_with_case("1N?G"), "pOnG");
}

#[test]
fn weather_codes_have_descriptions() {
    assert_eq!(describe_weather_code(0), "Clear sky");
    assert_eq!(describe_weather_code(2), "Partly cloudy");
    assert_eq!(describe_weather_code(99), "Thunderstorm with heavy hail");
    assert_eq!(describe_weather_code(4), "Unknown conditions");
}
