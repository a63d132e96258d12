use xscreen::device::{Device, Service};
use xscreen::listing::{arrange_devices, device_host, device_line, text_not_after, using_line};
use xscreen::weburl::WebUrl;

fn device(name: &str, location: &str) -> Device {
    Device {
        friendly_name: name.to_owned(),
        manufacturer: "Maker".to_owned(),
        model_name: "Model".to_owned(),
        location: WebUrl::parse(location).unwrap(),
        av_transport: Service {
            service_type: "urn:av:1".to_owned(),
            control_url: "http://h/av".to_owned(),
        },
        rendering_control: None,
    }
}

fn names(devices: &[Device]) -> Vec<&str> {
    devices.iter().map(|d| d.friendly_name.as_str()).collect()
}

#[test]
fn devices_are_sorted_by_name_without_case() {
    let list = arrange_devices(vec![
        device("beta", "http://b/"),
        device("Gamma", "http://c/"),
        device("ALPHA", "http://a/"),
        device("al", "http://d/"),
    ]);
    assert_eq!(names(&list), vec!["al", "ALPHA", "beta", "Gamma"]);
    assert!(arrange_devices(Vec::new()).is_empty());
}

#[test]
fn equal_names_keep_their_order() {
    let list = arrange_devices(vec![
        device("b", "http://1/"),
        device("A", "http://2/"),
        device("a", "http://3/"),
        device("B", "http://4/"),
    ]);
    assert_eq!(names(&list), vec!["A", "a", "b", "B"]);
}

#[test]
fn neighbours_at_one_location_are_listed_once() {
    let list = arrange_devices(vec![
        device("a", "http://1/"),
        device("b", "http://1/"),
        device("c", "http://2/"),
        device("d", "http://1/"),
    ]);
    assert_eq!(names(&list), vec!["a", "c", "d"]);
}

#[test]
fn locations_that_differ_stay_apart() {
    let list = arrange_devices(vec![
        device("b", "http://z/"),
        device("a", "http://x/"),
        device("a", "http://y/"),
    ]);
    let locations: Vec<&str> = list.iter().map(|d| d.location.as_str()).collect();
    assert_eq!(locations, vec!["http://x/", "http://y/", "http://z/"]);
}

#[test]
fn texts_are_ordered_as_std_orders_them() {
    let list = ["", "a", "ab", "b", "B", "ä", "𝄞", "\u{ffff}", "a\0"];
    for a in list {
        for b in list {
            assert_eq!(text_not_after(a, b), a <= b, "{a} {b}");
        }
    }
}

#[test]
fn lines_of_the_list() {
    let mut tv = device("TV", "http://10.0.0.2:80/d.xml");
    assert_eq!(device_line(1, &tv), "1. TV — Maker Model (10.0.0.2)");
    tv.manufacturer = String::new();
    assert_eq!(device_line(12, &tv), "12. TV — Model (10.0.0.2)");
    tv.model_name = String::new();
    assert_eq!(device_line(3, &tv), "3. TV (10.0.0.2)");
    tv.manufacturer = "Maker".to_owned();
    assert_eq!(device_line(3, &tv), "3. TV — Maker (10.0.0.2)");
    assert_eq!(using_line(&tv), "Using TV (10.0.0.2)");
    let odd = device("odd", "data:x");
    assert_eq!(device_line(1, &odd), "1. odd — Maker Model (unknown address)");
    assert_eq!(using_line(&odd), "Using odd (?)");
    assert_eq!(device_host(&odd, "none"), "none");
}
