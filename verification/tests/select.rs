use xscreen::device::{Device, Service};
use xscreen::select::{
    choose_by_keys, choose_device, default_choice, find_hits, read_answer, select_device,
    select_index, AnswerError, DefaultChoice, Hits, SearchKeys, SelectError,
};
use xscreen::weburl::WebUrl;

fn device(name: &str, address: &str) -> Device {
    Device {
        friendly_name: name.to_owned(),
        manufacturer: "Example".to_owned(),
        model_name: "TV".to_owned(),
        location: WebUrl::parse(&format!("http://{address}/device.xml")).unwrap(),
        av_transport: Service {
            service_type: "urn:schemas-upnp-org:service:AVTransport:1".to_owned(),
            control_url: WebUrl::parse(&format!("http://{address}/control")).unwrap().text,
        },
        rendering_control: None,
    }
}

#[test]
fn selects_device_by_number_name_or_ip() {
    let devices = vec![
        device("Bedroom", "192.168.1.10"),
        device("Living Room", "192.168.1.20"),
    ];
    assert_eq!(
        select_device(&devices, "2").unwrap().friendly_name,
        "Living Room"
    );
    assert_eq!(
        select_device(&devices, "bed").unwrap().friendly_name,
        "Bedroom"
    );
    assert_eq!(
        select_device(&devices, "192.168.1.20")
            .unwrap()
            .friendly_name,
        "Living Room"
    );
}

#[test]
fn selections_that_fail() {
    let devices = vec![device("Bedroom", "192.168.1.10"), device("Living Room", "192.168.1.20")];
    let error = select_device(&[], "1").unwrap_err();
    assert_eq!(error, SelectError::NoDevices);
    assert_eq!(error.message(), "no DLNA media renderer found");
    let error = select_device(&devices, "kit\"chen").unwrap_err();
    assert_eq!(error, SelectError::NoMatch("kit\"chen".to_owned()));
    assert_eq!(error.message(), "no discovered device matches \"kit\\\"chen\"");
    assert_eq!(error.command_message(), error.message());
    let error = select_device(&devices, "room").unwrap_err();
    assert_eq!(error, SelectError::Ambiguous("room".to_owned()));
    assert_eq!(error.message(), "more than one device matches \"room\"");
    assert_eq!(
        error.command_message(),
        "more than one device matches \"room\"; use a more specific value"
    );
    assert_eq!(select_index(&devices, ""), Err(SelectError::Ambiguous(String::new())));
    assert_eq!(select_index(&devices, "0").unwrap_err().message(), "more than one device matches \"0\"");
    assert_eq!(select_index(&devices, "3").unwrap_err().message(), "no discovered device matches \"3\"");
}

#[test]
fn a_single_device_needs_no_selector() {
    let devices = vec![device("Bedroom", "192.168.1.10")];
    assert_eq!(select_index(&devices, ""), Ok(0));
    assert_eq!(choose_device(&devices, ""), Ok(0));
    assert_eq!(select_index(&devices, "BEDROOM"), Ok(0));
    assert_eq!(select_index(&devices, "example"), Ok(0));
    assert_eq!(select_index(&devices, "tv"), Ok(0));
    assert_eq!(select_index(&devices, "10"), Ok(0));
    assert!(choose_device(&[], "1").is_err());
}

#[test]
fn names_are_compared_in_lower_case() {
    let devices = vec![device("ÜBER", "10.0.0.1"), device("unter", "10.0.0.2")];
    assert_eq!(select_index(&devices, "über"), Ok(0));
    assert_eq!(select_index(&devices, "UNTER"), Ok(1));
}

#[test]
fn numbers_come_before_names() {
    let devices = vec![device("2", "10.0.0.1"), device("x", "10.0.0.3")];
    assert_eq!(select_index(&devices, "2"), Ok(1));
    assert_eq!(select_index(&devices, "+1"), Ok(0));
}

#[test]
fn hits_in_any_key_count_once() {
    let keys = |name: &str, model: &str| SearchKeys {
        friendly_name: name.to_owned(),
        model_name: model.to_owned(),
        manufacturer: "m".to_owned(),
        location: "http://h/".to_owned(),
    };
    let list = vec![keys("a", "a"), keys("b", "c")];
    assert_eq!(find_hits(&list, "a"), Hits::One(0));
    assert_eq!(find_hits(&list, "c"), Hits::One(1));
    assert_eq!(find_hits(&list, "h"), Hits::Many);
    assert_eq!(find_hits(&list, "z"), Hits::Nothing);
    assert_eq!(choose_by_keys(&list, "B", "b"), Ok(1));
    assert_eq!(choose_by_keys(&list, "1", "1"), Ok(0));
    assert_eq!(choose_by_keys(&list, "Z", "z"), Err(SelectError::NoMatch("Z".to_owned())));
}

#[test]
fn without_a_selector_somebody_is_asked() {
    assert_eq!(default_choice(1, false), DefaultChoice::Only);
    assert_eq!(default_choice(2, true), DefaultChoice::Ask);
    assert_eq!(default_choice(2, false), DefaultChoice::Refuse);
}

#[test]
fn answers_are_numbers_of_the_list() {
    assert_eq!(read_answer(" 2\n", 2), Ok(1));
    let message = |answer: &str| read_answer(answer, 2).unwrap_err().message();
    assert_eq!(message("x"), "invalid device number: invalid digit found in string");
    assert_eq!(message(""), "invalid device number: cannot parse integer from empty string");
    assert_eq!(read_answer("0", 2), Err(AnswerError::Zero));
    assert_eq!(message("0"), "device number must be at least 1");
    assert_eq!(read_answer("3", 2), Err(AnswerError::OutOfRange));
    assert_eq!(message("3"), "device number is out of range");
}
