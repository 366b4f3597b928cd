use gpio_api::registry::PinRegistry;

fn sample(debug: bool) -> PinRegistry {
    let pins: Vec<u32> = vec![4, 17, 27];
    let names: Vec<String> = vec![
        String::from("relay"),
        String::from("led"),
        String::from("relay"),
    ];
    PinRegistry::simulated(&pins, &names, debug)
}

#[test]
fn get_valid_index_reports_level_text() {
    let reg = sample(false);
    for i in 0..3 {
        let r = reg.get_response(i);
        assert!(r == "0" || r == "1" || r == "err");
    }
}

#[test]
fn fresh_registry_reads_low() {
    let reg = sample(false);
    assert_eq!(reg.get_response(0), "0");
    assert_eq!(reg.get_response(1), "0");
    assert_eq!(reg.get_response(2), "0");
}

#[test]
fn get_out_of_range_index() {
    let reg = sample(false);
    assert_eq!(reg.get_response(3), "invalid GPIO");
    assert_eq!(reg.get_response(usize::MAX), "invalid GPIO");
}

#[test]
fn get_by_bad_segment() {
    let reg = sample(false);
    assert_eq!(reg.get_response_for_segment(""), "invalid GPIO");
    assert_eq!(reg.get_response_for_segment("abc"), "invalid GPIO");
    assert_eq!(reg.get_response_for_segment("-1"), "invalid GPIO");
    assert_eq!(reg.get_response_for_segment("1x"), "invalid GPIO");
    assert_eq!(
        reg.get_response_for_segment("99999999999999999999999999"),
        "invalid GPIO"
    );
    assert_eq!(reg.get_response_for_segment("3"), "invalid GPIO");
}

#[test]
fn get_by_good_segment() {
    let mut reg = sample(false);
    let (ok, _) = reg.set_response(1, 1);
    assert_eq!(ok, "OK");
    assert_eq!(reg.get_response_for_segment("1"), "1");
    assert_eq!(reg.get_response_for_segment("0"), "0");
}

#[test]
fn set_then_get_high() {
    let mut reg = sample(false);
    let (r, _) = reg.set_response(1, 1);
    assert_eq!(r, "OK");
    assert_eq!(reg.get_response(1), "1");
}

#[test]
fn set_then_get_low() {
    let mut reg = sample(false);
    let (r, _) = reg.set_response(1, 1);
    assert_eq!(r, "OK");
    let (r, _) = reg.set_response(1, 0);
    assert_eq!(r, "OK");
    assert_eq!(reg.get_response(1), "0");
}

#[test]
fn set_out_of_range_index() {
    let mut reg = sample(false);
    let (r, log) = reg.set_response(7, 1);
    assert_eq!(r, "invalid GPIO pin");
    assert!(log.is_empty());
    assert_eq!(reg.get_response(0), "0");
    assert_eq!(reg.get_response(1), "0");
    assert_eq!(reg.get_response(2), "0");
}

#[test]
fn set_unusual_state_reads_err() {
    let mut reg = sample(false);
    let (r, _) = reg.set_response(0, 7);
    assert_eq!(r, "OK");
    assert_eq!(reg.get_response(0), "err");
}

#[test]
fn name_set_drives_every_alias() {
    let mut reg = sample(false);
    let (r, _) = reg.name_set_response(&String::from("relay"), 1);
    assert_eq!(r, "OK");
    assert_eq!(reg.get_response(0), "1");
    assert_eq!(reg.get_response(2), "1");
    assert_eq!(reg.get_response(1), "0");
}

#[test]
fn name_get_reports_last_alias() {
    let mut reg = sample(false);
    let (r, _) = reg.set_response(2, 1);
    assert_eq!(r, "OK");
    assert_eq!(reg.name_get_response(&String::from("relay")), "1");
    let (r, _) = reg.set_response(2, 0);
    assert_eq!(r, "OK");
    let (r, _) = reg.set_response(0, 1);
    assert_eq!(r, "OK");
    assert_eq!(reg.name_get_response(&String::from("relay")), "0");
}

#[test]
fn name_set_then_name_get_round_trip() {
    let mut reg = sample(false);
    let (r, _) = reg.name_set_response(&String::from("relay"), 1);
    assert_eq!(r, "OK");
    assert_eq!(reg.name_get_response(&String::from("relay")), "1");
    let (r, _) = reg.name_set_response(&String::from("led"), 1);
    assert_eq!(r, "OK");
    assert_eq!(reg.name_get_response(&String::from("led")), "1");
}

#[test]
fn unknown_name_on_get_and_set() {
    let mut reg = sample(false);
    assert_eq!(reg.name_get_response(&String::from("pump")), "invalid GPIO name");
    let (r, log) = reg.name_set_response(&String::from("pump"), 1);
    assert_eq!(r, "invalid GPIO name");
    assert!(log.is_empty());
}

#[test]
fn distinct_writes_are_all_applied() {
    let mut reg = sample(false);
    let (a, _) = reg.set_response(0, 1);
    let (b, _) = reg.set_response(1, 1);
    let (c, _) = reg.set_response(2, 0);
    assert_eq!(a, "OK");
    assert_eq!(b, "OK");
    assert_eq!(c, "OK");
    assert_eq!(reg.get_response(0), "1");
    assert_eq!(reg.get_response(1), "1");
    assert_eq!(reg.get_response(2), "0");
}

#[test]
fn report_one_line_per_pin_in_order() {
    let mut reg = sample(false);
    let (r, _) = reg.set_response(1, 1);
    assert_eq!(r, "OK");
    assert_eq!(
        reg.gpio_report(),
        "pin: 4 | name: relay | state: 0\npin: 17 | name: led | state: 1\npin: 27 | name: relay | state: 0\n"
    );
}

#[test]
fn report_of_empty_registry_is_empty() {
    let pins: Vec<u32> = vec![];
    let names: Vec<String> = vec![];
    let reg = PinRegistry::simulated(&pins, &names, false);
    assert_eq!(reg.gpio_report(), "");
    assert_eq!(reg.len(), 0);
    assert_eq!(reg.get_response(0), "invalid GPIO");
}

#[test]
fn bind_fails_fast_without_a_chip() {
    let pins: Vec<u32> = vec![4];
    let names: Vec<String> = vec![String::from("relay")];
    let bound = PinRegistry::bind("/dev/nonexistent-gpiochip", &pins, &names, false);
    assert!(bound.is_err());
    let e = bound.err().unwrap();
    assert!(!e.text().is_empty());
}

#[test]
fn debug_log_on_write() {
    let mut reg = sample(true);
    let (r, log) = reg.set_response(0, 1);
    assert_eq!(r, "OK");
    assert_eq!(log, vec![String::from("pin 4 set to 1")]);
}

#[test]
fn debug_log_per_matching_alias() {
    let mut reg = sample(true);
    let (r, log) = reg.name_set_response(&String::from("relay"), 0);
    assert_eq!(r, "OK");
    assert_eq!(log.len(), 2);
    assert_eq!(log[0], "pin 4 set to 0");
    assert_eq!(log[1], "pin 27 set to 0");
}

#[test]
fn no_debug_log_when_debug_off() {
    let mut reg = sample(false);
    let (_, log) = reg.set_response(0, 1);
    assert!(log.is_empty());
    let (_, log) = reg.name_set_response(&String::from("relay"), 1);
    assert!(log.is_empty());
}
