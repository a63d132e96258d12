use serde::de::{Deserialize, Deserializer, IgnoredAny, MapAccess, Visitor};
use std::fmt;
use xscreen::device::{
    collect_services, describe_device, find_service, parse_device_description, resolve_service,
    DeviceDescription, DeviceError, DeviceList, RootDescription, ServiceDescription, ServiceList,
};
use xscreen::weburl::WebUrl;

struct XmlRoot(RootDescription);
struct XmlDevice(DeviceDescription);
struct XmlServices(Vec<ServiceDescription>);
struct XmlDevices(Vec<DeviceDescription>);
struct XmlService(ServiceDescription);

struct RootVisitor;
struct DeviceVisitor;
struct ServicesVisitor;
struct DevicesVisitor;
struct ServiceVisitor;

impl<'de> Visitor<'de> for RootVisitor {
    type Value = XmlRoot;

    fn expecting(&self, f: &mut fmt::Formatter) -> fmt::Result {
        f.write_str("a device description")
    }

    fn visit_map<A: MapAccess<'de>>(self, mut map: A) -> Result<XmlRoot, A::Error> {
        let mut url_base = None;
        let mut device = None;
        while let Some(key) = map.next_key::<String>()? {
            match key.as_str() {
                "URLBase" => url_base = Some(map.next_value::<String>()?),
                "device" => device = Some(map.next_value::<XmlDevice>()?.0),
                _ => {
                    map.next_value::<IgnoredAny>()?;
                }
            }
        }
        let device = device.expect("a device");
        Ok(XmlRoot(RootDescription { url_base, device }))
    }
}

impl<'de> Deserialize<'de> for XmlRoot {
    fn deserialize<D: Deserializer<'de>>(deserializer: D) -> Result<Self, D::Error> {
        deserializer.deserialize_struct("RootDescription", &["URLBase", "device"], RootVisitor)
    }
}

impl<'de> Visitor<'de> for DeviceVisitor {
    type Value = XmlDevice;

    fn expecting(&self, f: &mut fmt::Formatter) -> fmt::Result {
        f.write_str("a device")
    }

    fn visit_map<A: MapAccess<'de>>(self, mut map: A) -> Result<XmlDevice, A::Error> {
        let mut device = empty_device("");
        while let Some(key) = map.next_key::<String>()? {
            match key.as_str() {
                "friendlyName" => device.friendly_name = map.next_value()?,
                "manufacturer" => device.manufacturer = map.next_value()?,
                "modelName" => device.model_name = map.next_value()?,
                "serviceList" => {
                    device.service_list.services = map.next_value::<XmlServices>()?.0;
                }
                "deviceList" => device.device_list.devices = map.next_value::<XmlDevices>()?.0,
                _ => {
                    map.next_value::<IgnoredAny>()?;
                }
            }
        }
        Ok(XmlDevice(device))
    }
}

impl<'de> Deserialize<'de> for XmlDevice {
    fn deserialize<D: Deserializer<'de>>(deserializer: D) -> Result<Self, D::Error> {
        deserializer.deserialize_struct(
            "DeviceDescription",
            &["friendlyName", "manufacturer", "modelName", "serviceList", "deviceList"],
            DeviceVisitor,
        )
    }
}

impl<'de> Visitor<'de> for ServicesVisitor {
    type Value = XmlServices;

    fn expecting(&self, f: &mut fmt::Formatter) -> fmt::Result {
        f.write_str("a list of services")
    }

    fn visit_map<A: MapAccess<'de>>(self, mut map: A) -> Result<XmlServices, A::Error> {
        let mut services = Vec::new();
        while let Some(key) = map.next_key::<String>()? {
            if key == "service" {
                let list: Vec<XmlService> = map.next_value()?;
                services = list.into_iter().map(|service| service.0).collect();
            } else {
                map.next_value::<IgnoredAny>()?;
            }
        }
        Ok(XmlServices(services))
    }
}

impl<'de> Deserialize<'de> for XmlServices {
    fn deserialize<D: Deserializer<'de>>(deserializer: D) -> Result<Self, D::Error> {
        deserializer.deserialize_struct("ServiceList", &["service"], ServicesVisitor)
    }
}

impl<'de> Visitor<'de> for DevicesVisitor {
    type Value = XmlDevices;

    fn expecting(&self, f: &mut fmt::Formatter) -> fmt::Result {
        f.write_str("a list of devices")
    }

    fn visit_map<A: MapAccess<'de>>(self, mut map: A) -> Result<XmlDevices, A::Error> {
        let mut devices = Vec::new();
        while let Some(key) = map.next_key::<String>()? {
            if key == "device" {
                let list: Vec<XmlDevice> = map.next_value()?;
                devices = list.into_iter().map(|device| device.0).collect();
            } else {
                map.next_value::<IgnoredAny>()?;
            }
        }
        Ok(XmlDevices(devices))
    }
}

impl<'de> Deserialize<'de> for XmlDevices {
    fn deserialize<D: Deserializer<'de>>(deserializer: D) -> Result<Self, D::Error> {
        deserializer.deserialize_struct("DeviceList", &["device"], DevicesVisitor)
    }
}

impl<'de> Visitor<'de> for ServiceVisitor {
    type Value = XmlService;

    fn expecting(&self, f: &mut fmt::Formatter) -> fmt::Result {
        f.write_str("a service")
    }

    fn visit_map<A: MapAccess<'de>>(self, mut map: A) -> Result<XmlService, A::Error> {
        let mut service_type = String::new();
        let mut control_url = String::new();
        while let Some(key) = map.next_key::<String>()? {
            match key.as_str() {
                "serviceType" => service_type = map.next_value()?,
                "controlURL" => control_url = map.next_value()?,
                _ => {
                    map.next_value::<IgnoredAny>()?;
                }
            }
        }
        Ok(XmlService(ServiceDescription { service_type, control_url }))
    }
}

impl<'de> Deserialize<'de> for XmlService {
    fn deserialize<D: Deserializer<'de>>(deserializer: D) -> Result<Self, D::Error> {
        deserializer.deserialize_struct(
            "ServiceDescription",
            &["serviceType", "controlURL"],
            ServiceVisitor,
        )
    }
}

fn read_xml(xml: &str) -> RootDescription {
    quick_xml::de::from_str::<XmlRoot>(xml).unwrap().0
}

fn empty_device(name: &str) -> DeviceDescription {
    DeviceDescription {
        friendly_name: name.to_owned(),
        manufacturer: String::new(),
        model_name: String::new(),
        service_list: ServiceList { services: Vec::new() },
        device_list: DeviceList { devices: Vec::new() },
    }
}

fn service(service_type: &str, control_url: &str) -> ServiceDescription {
    ServiceDescription {
        service_type: service_type.to_owned(),
        control_url: control_url.to_owned(),
    }
}

const AV: &str = "urn:schemas-upnp-org:service:AVTransport:1";
const RENDERING: &str = "urn:schemas-upnp-org:service:RenderingControl:1";

#[test]
fn parses_and_resolves_device_services() {
    let xml = r#"<?xml version="1.0"?>
<root xmlns="urn:schemas-upnp-org:device-1-0">
  <URLBase>http://192.168.1.8:8080/base/</URLBase>
  <device>
    <friendlyName>Living Room TV</friendlyName>
    <manufacturer>Example</manufacturer>
    <modelName>TV 1</modelName>
    <serviceList>
      <service><serviceType>urn:schemas-upnp-org:service:AVTransport:1</serviceType><controlURL>/upnp/control/av</controlURL></service>
      <service><serviceType>urn:schemas-upnp-org:service:RenderingControl:1</serviceType><controlURL>volume</controlURL></service>
    </serviceList>
  </device>
</root>"#;
    let device = parse_device_description(
        &read_xml(xml),
        WebUrl::parse("http://192.168.1.8/device.xml").unwrap(),
    )
    .unwrap();
    assert_eq!(device.friendly_name, "Living Room TV");
    assert_eq!(
        device.av_transport.control_url.as_str(),
        "http://192.168.1.8:8080/upnp/control/av"
    );
    assert_eq!(
        device.rendering_control.unwrap().control_url.as_str(),
        "http://192.168.1.8:8080/base/volume"
    );
}

#[test]
fn finds_services_on_embedded_devices() {
    let xml = r#"<root><device><friendlyName>TV</friendlyName><deviceList><device><serviceList><service><serviceType>urn:schemas-upnp-org:service:AVTransport:2</serviceType><controlURL>/av</controlURL></service></serviceList></device></deviceList></device></root>"#;
    let device = parse_device_description(
        &read_xml(xml),
        WebUrl::parse("http://10.0.0.2/description.xml").unwrap(),
    )
    .unwrap();
    assert!(device.av_transport.service_type.ends_with(":2"));
}

#[test]
fn services_of_a_device_come_before_embedded_ones() {
    let mut inner = empty_device("inner");
    inner.service_list.services.push(service("c", "3"));
    let mut second = empty_device("second");
    second.service_list.services.push(service("d", "4"));
    let mut outer = empty_device("outer");
    outer.service_list.services.push(service("a", "1"));
    outer.service_list.services.push(service("b", "2"));
    outer.device_list.devices.push(inner);
    outer.device_list.devices.push(second);
    let mut found = Vec::new();
    collect_services(&outer, &mut found);
    let types: Vec<&str> = found.iter().map(|s| s.service_type.as_str()).collect();
    assert_eq!(types, vec!["a", "b", "c", "d"]);
    assert_eq!(find_service(&found, "b").unwrap().control_url, "2");
    assert!(find_service(&found, "e").is_none());
}

#[test]
fn without_a_base_the_location_resolves() {
    let mut device = empty_device("  TV \n");
    device.manufacturer = " Maker ".to_owned();
    device.model_name = "\tModel".to_owned();
    device.service_list.services.push(service(AV, " control "));
    let root = RootDescription { url_base: Some("  ".to_owned()), device };
    let location = WebUrl::parse("http://10.0.0.2:49152/dmr/description.xml").unwrap();
    let device = parse_device_description(&root, location).unwrap();
    assert_eq!(device.friendly_name, "TV");
    assert_eq!(device.manufacturer, "Maker");
    assert_eq!(device.model_name, "Model");
    assert_eq!(device.av_transport.control_url, "http://10.0.0.2:49152/dmr/control");
    assert!(device.rendering_control.is_none());
    assert_eq!(device.clone(), device);
}

#[test]
fn descriptions_that_describe_no_renderer() {
    let location = WebUrl::parse("http://10.0.0.2/d.xml").unwrap();
    let mut device = empty_device("TV");
    let root = RootDescription { url_base: None, device };
    let error = parse_device_description(&root, location.clone()).unwrap_err();
    assert_eq!(error, DeviceError::NoAvTransport);
    assert_eq!(error.message(), "device does not advertise an AVTransport service");

    device = empty_device(" ");
    device.service_list.services.push(service(AV, "/av"));
    let root = RootDescription { url_base: None, device };
    let error = parse_device_description(&root, location.clone()).unwrap_err();
    assert_eq!(error, DeviceError::NoFriendlyName);
    assert_eq!(error.message(), "device description has no friendlyName");

    device = empty_device("TV");
    device.service_list.services.push(service(AV, "/av"));
    let root = RootDescription { url_base: Some("no url".to_owned()), device };
    let error = parse_device_description(&root, location.clone()).unwrap_err();
    assert_eq!(error, DeviceError::InvalidUrlBase);
    assert_eq!(error.message(), "invalid URLBase in device description");

    device = empty_device("TV");
    device.service_list.services.push(service(AV, "/av"));
    device.service_list.services.push(service(RENDERING, "http://[bad/"));
    let root = RootDescription { url_base: None, device };
    let error = parse_device_description(&root, location).unwrap_err();
    assert_eq!(error, DeviceError::InvalidControlUrl("http://[bad/".to_owned()));
    assert_eq!(error.message(), "invalid control URL: http://[bad/");
}

#[test]
fn describes_from_resolved_urls() {
    let location = WebUrl::parse("http://10.0.0.2/d.xml").unwrap();
    let root = RootDescription { url_base: None, device: empty_device("TV") };
    let av = service(AV, "a");
    let rendering = service(RENDERING, "r");
    let device = describe_device(
        &root,
        location.clone(),
        (&av, Some("http://x/a".to_owned())),
        Some((&rendering, Some("http://x/r".to_owned()))),
    )
    .unwrap();
    assert_eq!(device.av_transport.control_url, "http://x/a");
    assert_eq!(device.rendering_control.unwrap().service_type, RENDERING);
    let error = describe_device(&root, location, (&av, None), None).unwrap_err();
    assert_eq!(error, DeviceError::InvalidControlUrl("a".to_owned()));
    assert!(resolve_service(&av, None).is_err());
    assert_eq!(resolve_service(&av, Some("u".to_owned())).unwrap().control_url, "u");
}

#[test]
fn urls_are_taken_apart() {
    let url = WebUrl::parse("HTTPS://Example.com/a%20b/c.mp4?x=1#y").unwrap();
    assert_eq!(url.as_str(), "https://example.com/a%20b/c.mp4?x=1#y");
    assert_eq!(url.scheme, "https");
    assert_eq!(url.host_str(), Some("example.com"));
    assert_eq!(url.port, Some(443));
    assert_eq!(url.endpoint(), Some(("example.com", 443)));
    assert_eq!(WebUrl::parse("x://h/").unwrap().endpoint(), Some(("h", 80)));
    assert_eq!(url.path, "/a%20b/c.mp4");
    assert_eq!(url.name.as_deref(), Some("c.mp4"));
    assert!(url.is_http());
    assert!(!WebUrl::parse("ftp://example.com/").unwrap().is_http());
    let mail = WebUrl::parse("mailto:a@b").unwrap();
    assert_eq!(mail.host_str(), None);
    assert_eq!(mail.endpoint(), None);
    assert_eq!(mail.name, None);
    assert_eq!(WebUrl::parse("a.mp4").unwrap_err(), "relative URL without a base");
    assert_eq!(url.join("../d").as_deref(), Some("https://example.com/d"));
    assert_eq!(url.join("http://[bad/"), None);
}
