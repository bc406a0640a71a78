use striker::constants::constants::{
    BILLION, MAXIMUM_BET, MILLION, MINIMUM_BET, NUMBER_OF_CARDS_IN_DECK, NUMBER_OF_CORES_DEFAULT,
    NUMBER_OF_CORES_LOGICAL, NUMBER_OF_CORES_PHYSICAL, NUMBER_OF_HANDS_DATABASE,
    NUMBER_OF_HANDS_DEFAULT, NUMBER_OF_HANDS_MAXIMUM, NUMBER_OF_HANDS_MINIMUM, STATUS_ROUNDS,
    STRIKER_VERSION, STRIKER_WHO_AM_I, TIME_LAYOUT, TRUE_COUNT_BET, TRUE_COUNT_MULTIPLIER,
};

#[test]
fn test_constants_values() {
    assert_eq!(STRIKER_WHO_AM_I, "striker-rust");
    assert_eq!(STRIKER_VERSION, "v3.00.00");
    assert_eq!(TIME_LAYOUT, "%Y-%m-%d %H:%M:%S %z");
    assert_eq!(STATUS_ROUNDS, 1000000);

    assert_eq!(MILLION, 1000000);
    assert_eq!(BILLION, 1000000000);
    assert_eq!(NUMBER_OF_HANDS_MAXIMUM, 10 * BILLION as u64);
    assert_eq!(NUMBER_OF_HANDS_MINIMUM, 100);
    assert_eq!(NUMBER_OF_HANDS_DEFAULT, 500 * MILLION);
    assert_eq!(NUMBER_OF_HANDS_DATABASE, 10 * MILLION);
    assert_eq!(NUMBER_OF_CARDS_IN_DECK, 52);
    assert_eq!(NUMBER_OF_CORES_PHYSICAL, 24);
    assert_eq!(NUMBER_OF_CORES_LOGICAL, 32);
    assert_eq!(NUMBER_OF_CORES_DEFAULT, 24);

    assert_eq!(MINIMUM_BET, 2);
    assert_eq!(MAXIMUM_BET, 20);
    assert_eq!(TRUE_COUNT_BET, 2);
    assert_eq!(TRUE_COUNT_MULTIPLIER, 26);
}
