//! Renderers: what a device description says of one.

use vstd::prelude::*;

use crate::text::{has_part, lemma_part, text_contains, trim_text, trimmed};
use crate::weburl::{joined_url, opt_text, parsed_url, UrlParts, WebUrl};

verus! {

/// A service of a device.
#[derive(Debug, PartialEq, Eq)]
pub struct Service {
    /// The kind of the service, a URN.
    pub service_type: String,
    /// The URL that takes its actions.
    pub control_url: String,
}

/// A renderer that media can be cast to.
#[derive(Debug, PartialEq, Eq)]
pub struct Device {
    pub friendly_name: String,
    pub manufacturer: String,
    pub model_name: String,
    /// Where its description was fetched.
    pub location: WebUrl,
    pub av_transport: Service,
    pub rendering_control: Option<Service>,
}

/// What a `Service` holds.
pub struct ServiceModel {
    pub service_type: Seq<char>,
    pub control_url: Seq<char>,
}

/// What a `Device` holds.
pub struct DeviceModel {
    pub friendly_name: Seq<char>,
    pub manufacturer: Seq<char>,
    pub model_name: Seq<char>,
    pub location: UrlParts,
    pub av_transport: ServiceModel,
    pub rendering_control: Option<ServiceModel>,
}

impl View for Service {
    type V = ServiceModel;

    open spec fn view(&self) -> ServiceModel {
        ServiceModel { service_type: self.service_type@, control_url: self.control_url@ }
    }
}

impl View for Device {
    type V = DeviceModel;

    open spec fn view(&self) -> DeviceModel {
        DeviceModel {
            friendly_name: self.friendly_name@,
            manufacturer: self.manufacturer@,
            model_name: self.model_name@,
            location: self.location@,
            av_transport: self.av_transport@,
            rendering_control: opt_service(self.rendering_control),
        }
    }
}

/// The view of an optional service.
pub open spec fn opt_service(s: Option<Service>) -> Option<ServiceModel> {
    match s {
        Some(s) => Some(s@),
        None => None,
    }
}

impl Clone for Service {
    fn clone(&self) -> (out: Self)
        ensures
            out == *self,
    {
        Service { service_type: self.service_type.clone(), control_url: self.control_url.clone() }
    }
}

impl Clone for Device {
    fn clone(&self) -> (out: Self)
        ensures
            out == *self,
    {
        Device {
            friendly_name: self.friendly_name.clone(),
            manufacturer: self.manufacturer.clone(),
            model_name: self.model_name.clone(),
            location: self.location.clone(),
            av_transport: self.av_transport.clone(),
            rendering_control: match &self.rendering_control {
                Some(service) => Some(service.clone()),
                None => None,
            },
        }
    }
}

/// The root of a device description.
#[derive(Debug)]
pub struct RootDescription {
    pub url_base: Option<String>,
    pub device: DeviceDescription,
}

/// A device in a description, with the devices embedded in it.
#[derive(Debug)]
pub struct DeviceDescription {
    pub friendly_name: String,
    pub manufacturer: String,
    pub model_name: String,
    pub service_list: ServiceList,
    pub device_list: DeviceList,
}

/// The services of a device in a description.
#[derive(Debug)]
pub struct ServiceList {
    pub services: Vec<ServiceDescription>,
}

/// The devices embedded in a device in a description.
#[derive(Debug)]
pub struct DeviceList {
    pub devices: Vec<DeviceDescription>,
}

/// A service in a description.
#[derive(Debug)]
pub struct ServiceDescription {
    pub service_type: String,
    pub control_url: String,
}

/// The services of `device` and of the devices embedded in it: those of a device come before
/// those of the devices in it.
pub open spec fn services_of(device: DeviceDescription) -> Seq<ServiceDescription>
    decreases device,
{
    device.service_list.services@ + services_of_all(device.device_list.devices@)
}

/// The services of `devices`, one device after the other.
pub open spec fn services_of_all(devices: Seq<DeviceDescription>) -> Seq<ServiceDescription>
    decreases devices,
{
    if devices.len() == 0 {
        seq![]
    } else {
        services_of_all(devices.drop_last()) + services_of(devices.last())
    }
}

/// What the references in `list` refer to.
pub open spec fn referred(list: Seq<&ServiceDescription>) -> Seq<ServiceDescription> {
    Seq::new(list.len(), |i: int| *list[i])
}

/// Appends the services of `device` and of the devices embedded in it.
pub fn collect_services<'a>(
    device: &'a DeviceDescription,
    output: &mut Vec<&'a ServiceDescription>,
)
    ensures
        referred(final(output)@) == referred(old(output)@) + services_of(*device),
    decreases device,
{
    let services: &Vec<ServiceDescription> = &device.service_list.services;
    let mut i: usize = 0;
    while i < services.len()
        invariant
            services == &device.service_list.services,
            i <= services@.len(),
            referred(output@) == referred(old(output)@) + services@.take(i as int),
        decreases services@.len() - i,
    {
        let ghost before = output@;
        output.push(&services[i]);
        assert(referred(output@) == referred(before).push(services@[i as int]));
        assert(services@.take(i + 1) == services@.take(i as int).push(services@[i as int]));
        i += 1;
    }
    assert(services@.take(i as int) == services@);
    let children: &Vec<DeviceDescription> = &device.device_list.devices;
    let ghost own = referred(output@);
    let mut k: usize = 0;
    assert(children@.take(0) == Seq::<DeviceDescription>::empty());
    while k < children.len()
        invariant
            children == &device.device_list.devices,
            k <= children@.len(),
            referred(output@) == own + services_of_all(children@.take(k as int)),
        decreases children@.len() - k,
    {
        let ghost before = referred(output@);
        assert(children@.take(k + 1).drop_last() == children@.take(k as int));
        assert(children@.take(k + 1).last() == children@[k as int]);
        collect_services(&children[k], output);
        assert(own + services_of_all(children@.take(k as int)) + services_of(children@[k as int])
            == own + (services_of_all(children@.take(k as int)) + services_of(
            children@[k as int],
        )));
        k += 1;
    }
    assert(children@.take(k as int) == children@);
    assert(referred(output@) == referred(old(output)@) + services_of(*device));
}

/// Why a description does not describe a renderer.
#[derive(Debug, PartialEq, Eq)]
pub enum DeviceError {
    /// The base of its URLs is no URL.
    InvalidUrlBase,
    /// No service of it transports media.
    NoAvTransport,
    /// It has no name.
    NoFriendlyName,
    /// The control URL of a service, as it is given, names no URL.
    InvalidControlUrl(String),
}

/// What a `DeviceError` holds.
pub enum DeviceFault {
    InvalidUrlBase,
    NoAvTransport,
    NoFriendlyName,
    InvalidControlUrl(Seq<char>),
}

impl View for DeviceError {
    type V = DeviceFault;

    open spec fn view(&self) -> DeviceFault {
        match self {
            DeviceError::InvalidUrlBase => DeviceFault::InvalidUrlBase,
            DeviceError::NoAvTransport => DeviceFault::NoAvTransport,
            DeviceError::NoFriendlyName => DeviceFault::NoFriendlyName,
            DeviceError::InvalidControlUrl(given) => DeviceFault::InvalidControlUrl(given@),
        }
    }
}

impl DeviceFault {
    /// What the error is called in messages.
    pub open spec fn text(self) -> Seq<char> {
        match self {
            DeviceFault::InvalidUrlBase => "invalid URLBase in device description"@,
            DeviceFault::NoAvTransport => "device does not advertise an AVTransport service"@,
            DeviceFault::NoFriendlyName => "device description has no friendlyName"@,
            DeviceFault::InvalidControlUrl(given) => "invalid control URL: "@ + given,
        }
    }
}

impl DeviceError {
    /// The message of the error.
    pub fn message(&self) -> (out: String)
        ensures
            out@ == self@.text(),
    {
        match self {
            DeviceError::InvalidUrlBase => "invalid URLBase in device description".to_owned(),
            DeviceError::NoAvTransport =>
                "device does not advertise an AVTransport service".to_owned(),
            DeviceError::NoFriendlyName => "device description has no friendlyName".to_owned(),
            DeviceError::InvalidControlUrl(given) => {
                let mut out = "invalid control URL: ".to_owned();
                out.append(given.as_str());
                out
            },
        }
    }
}

/// What the type of a service that transports media holds.
pub open spec fn av_transport_mark() -> Seq<char> {
    ":service:AVTransport:"@
}

/// What the type of a service that controls rendering holds.
pub open spec fn rendering_control_mark() -> Seq<char> {
    ":service:RenderingControl:"@
}

/// The first of `services` whose type holds `mark`.
pub open spec fn first_service(
    services: Seq<ServiceDescription>,
    mark: Seq<char>,
) -> Option<ServiceDescription>
    decreases services.len(),
{
    if services.len() == 0 {
        None
    } else if has_part(services.first().service_type@, mark) {
        Some(services.first())
    } else {
        first_service(services.drop_first(), mark)
    }
}

/// The base of the URLs in a description: the one that it gives, unless that is empty, or the
/// place where it was fetched.
pub open spec fn base_url(root: RootDescription, location: UrlParts) -> Option<Seq<char>> {
    match root.url_base {
        Some(base) => if trimmed(base@).len() > 0 {
            match parsed_url(trimmed(base@)) {
                Ok(u) => Some(u.text),
                Err(_) => None,
            }
        } else {
            Some(location.text)
        },
        None => Some(location.text),
    }
}

/// The control URL of `service`, in a description whose URLs have the base `base`.
pub open spec fn control_url(service: ServiceDescription, base: Seq<char>) -> Option<Seq<char>> {
    joined_url(base, trimmed(service.control_url@))
}

/// A service of a description with the URL that its control URL names, if it names one.
pub open spec fn resolved(service: ServiceDescription, url: Option<Seq<char>>) -> Result<
    ServiceModel,
    DeviceFault,
> {
    match url {
        Some(url) => Ok(ServiceModel { service_type: service.service_type@, control_url: url }),
        None => Err(DeviceFault::InvalidControlUrl(service.control_url@)),
    }
}

/// The renderer that a description describes, given the services of it that count and the URLs
/// that their control URLs name.
pub open spec fn described(
    root: RootDescription,
    location: UrlParts,
    av: (ServiceDescription, Option<Seq<char>>),
    rendering: Option<(ServiceDescription, Option<Seq<char>>)>,
) -> Result<DeviceModel, DeviceFault> {
    let name = trimmed(root.device.friendly_name@);
    if name.len() == 0 {
        Err(DeviceFault::NoFriendlyName)
    } else {
        match resolved(av.0, av.1) {
            Err(e) => Err(e),
            Ok(transport) => {
                let device = DeviceModel {
                    friendly_name: name,
                    manufacturer: trimmed(root.device.manufacturer@),
                    model_name: trimmed(root.device.model_name@),
                    location,
                    av_transport: transport,
                    rendering_control: None,
                };
                match rendering {
                    None => Ok(device),
                    Some(service) => match resolved(service.0, service.1) {
                        Err(e) => Err(e),
                        Ok(control) => Ok(
                            DeviceModel { rendering_control: Some(control), ..device },
                        ),
                    },
                }
            },
        }
    }
}

/// The renderer that a description fetched from `location` describes.
pub open spec fn device_of(root: RootDescription, location: UrlParts) -> Result<
    DeviceModel,
    DeviceFault,
> {
    let services = services_of(root.device);
    match base_url(root, location) {
        None => Err(DeviceFault::InvalidUrlBase),
        Some(base) => match first_service(services, av_transport_mark()) {
            None => Err(DeviceFault::NoAvTransport),
            Some(av) => described(
                root,
                location,
                (av, control_url(av, base)),
                match first_service(services, rendering_control_mark()) {
                    Some(service) => Some((service, control_url(service, base))),
                    None => None,
                },
            ),
        },
    }
}

/// Finds the first of `services` whose type holds `mark`.
pub fn find_service<'a>(services: &Vec<&'a ServiceDescription>, mark: &str) -> (out: Option<
    &'a ServiceDescription,
>)
    ensures
        match out {
            Some(service) => first_service(referred(services@), mark@) == Some(*service),
            None => first_service(referred(services@), mark@) is None,
        },
{
    let ghost all = referred(services@);
    let mut i: usize = 0;
    assert(all.skip(0) == all);
    while i < services.len()
        invariant
            all == referred(services@),
            i <= services@.len(),
            first_service(all, mark@) == first_service(all.skip(i as int), mark@),
        decreases services@.len() - i,
    {
        assert(all.skip(i as int).first() == *services@[i as int]);
        assert(all.skip(i as int).drop_first() == all.skip(i + 1));
        if text_contains(services[i].service_type.as_str(), mark) {
            return Some(services[i]);
        }
        i += 1;
    }
    None
}

/// The service that counts is the first whose type holds the mark; there is none exactly if no
/// type holds it.
pub proof fn lemma_first_service(services: Seq<ServiceDescription>, mark: Seq<char>)
    ensures
        match first_service(services, mark) {
            Some(service) => exists|i: int|
                {
                    &&& 0 <= i < services.len()
                    &&& service == #[trigger] services[i]
                    &&& has_part(service.service_type@, mark)
                    &&& forall|k: int|
                        0 <= k < i ==> !has_part((#[trigger] services[k]).service_type@, mark)
                },
            None => forall|k: int|
                0 <= k < services.len() ==> !has_part(
                    (#[trigger] services[k]).service_type@,
                    mark,
                ),
        },
    decreases services.len(),
{
    if services.len() > 0 && !has_part(services.first().service_type@, mark) {
        let rest = services.drop_first();
        lemma_first_service(rest, mark);
        match first_service(services, mark) {
            Some(service) => {
                let j = choose|j: int|
                    {
                        &&& 0 <= j < rest.len()
                        &&& service == #[trigger] rest[j]
                        &&& has_part(service.service_type@, mark)
                        &&& forall|k: int|
                            0 <= k < j ==> !has_part((#[trigger] rest[k]).service_type@, mark)
                    };
                assert(service == services[j + 1]);
                assert forall|k: int| 0 <= k < j + 1 implies !has_part(
                    (#[trigger] services[k]).service_type@,
                    mark,
                ) by {
                    if k > 0 {
                        assert(services[k] == rest[k - 1]);
                    }
                }
            },
            None => {
                assert forall|k: int| 0 <= k < services.len() implies !has_part(
                    (#[trigger] services[k]).service_type@,
                    mark,
                ) by {
                    if k > 0 {
                        assert(services[k] == rest[k - 1]);
                    }
                }
            },
        }
    } else if services.len() > 0 {
        assert(services[0] == services.first());
    }
}

/// The services of each of `devices` are among those of all of them.
proof fn lemma_all_services(devices: Seq<DeviceDescription>, i: int, service: ServiceDescription)
    requires
        0 <= i < devices.len(),
        services_of(devices[i]).contains(service),
    ensures
        services_of_all(devices).contains(service),
    decreases devices.len(),
{
    let before = services_of_all(devices.drop_last());
    let last = services_of(devices.last());
    if i < devices.len() - 1 {
        lemma_all_services(devices.drop_last(), i, service);
        let k = choose|k: int| 0 <= k < before.len() && before[k] == service;
        assert((before + last)[k] == service);
    } else {
        let k = choose|k: int| 0 <= k < last.len() && last[k] == service;
        assert((before + last)[before.len() + k] == service);
    }
}

/// A service of an embedded device is a service of the device that it is embedded in.
pub proof fn lemma_embedded_services_count(
    device: DeviceDescription,
    i: int,
    service: ServiceDescription,
)
    requires
        0 <= i < device.device_list.devices@.len(),
        services_of(device.device_list.devices@[i]).contains(service),
    ensures
        services_of(device).contains(service),
{
    let own = device.service_list.services@;
    let inner = services_of_all(device.device_list.devices@);
    lemma_all_services(device.device_list.devices@, i, service);
    let k = choose|k: int| 0 <= k < inner.len() && inner[k] == service;
    assert((own + inner)[own.len() + k] == service);
}

/// The device that one comes to from `device` by going into the embedded devices with the numbers
/// in `path`, one after the other.
pub open spec fn device_at(device: DeviceDescription, path: Seq<int>) -> Option<DeviceDescription>
    decreases path.len(),
{
    if path.len() == 0 {
        Some(device)
    } else if 0 <= path[0] < device.device_list.devices@.len() {
        device_at(device.device_list.devices@[path[0]], path.drop_first())
    } else {
        None
    }
}

/// The service with the number `k` of the device at `path`, if there is one.
pub open spec fn service_at(device: DeviceDescription, path: Seq<int>, k: int) -> Option<
    ServiceDescription,
> {
    match device_at(device, path) {
        Some(inner) => if 0 <= k < inner.service_list.services@.len() {
            Some(inner.service_list.services@[k])
        } else {
            None
        },
        None => None,
    }
}

/// Whether the service `k` of the device at `path` has a type that holds `mark`.
pub open spec fn marked_at(
    device: DeviceDescription,
    path: Seq<int>,
    k: int,
    mark: Seq<char>,
) -> bool {
    match service_at(device, path, k) {
        Some(service) => has_part(service.service_type@, mark),
        None => false,
    }
}

/// Whether the service `k` of the device at `path` stands before the service `j` of the device at
/// `other`: a device lists its own services before the devices embedded in it.
pub open spec fn stands_before(path: Seq<int>, k: int, other: Seq<int>, j: int) -> bool
    decreases path.len(),
{
    if path.len() == 0 {
        other.len() > 0 || k < j
    } else {
        other.len() > 0 && (path[0] < other[0] || (path[0] == other[0] && stands_before(
            path.drop_first(),
            k,
            other.drop_first(),
            j,
        )))
    }
}

/// The number of the service `k` of the device at `path` among all services of `device`.
spec fn place(device: DeviceDescription, path: Seq<int>, k: int) -> int
    decreases path.len(),
{
    if path.len() == 0 {
        k
    } else {
        device.service_list.services@.len() + services_of_all(
            device.device_list.devices@.take(path[0]),
        ).len() + place(device.device_list.devices@[path[0]], path.drop_first(), k)
    }
}

/// The services of the devices up to the one with the number `i`, among those of `devices`.
proof fn lemma_services_up_to(devices: Seq<DeviceDescription>, i: int)
    requires
        0 <= i < devices.len(),
    ensures
        services_of_all(devices.take(i + 1)) == services_of_all(devices.take(i)) + services_of(
            devices[i],
        ),
        services_of_all(devices.take(i + 1)).is_prefix_of(services_of_all(devices)),
    decreases devices.len() - i,
{
    assert(devices.take(i + 1).drop_last() == devices.take(i));
    assert(devices.take(i + 1).last() == devices[i]);
    if i + 1 < devices.len() {
        lemma_services_up_to(devices, i + 1);
        assert(devices.take(i + 2).drop_last() == devices.take(i + 1));
    } else {
        assert(devices.take(i + 1) == devices);
    }
}

/// A device that comes earlier has its services earlier.
proof fn lemma_services_grow(devices: Seq<DeviceDescription>, i: int, j: int)
    requires
        0 <= i <= j <= devices.len(),
    ensures
        services_of_all(devices.take(i)).len() <= services_of_all(devices.take(j)).len(),
    decreases j - i,
{
    if i < j {
        lemma_services_up_to(devices, i);
        lemma_services_grow(devices, i + 1, j);
    }
}

/// A service stands among all services at its place.
proof fn lemma_place(device: DeviceDescription, path: Seq<int>, k: int)
    requires
        service_at(device, path, k) is Some,
    ensures
        0 <= place(device, path, k) < services_of(device).len(),
        services_of(device)[place(device, path, k)] == service_at(device, path, k)->0,
    decreases path.len(),
{
    let own = device.service_list.services@;
    let inner = device.device_list.devices@;
    if path.len() > 0 {
        let child = inner[path[0]];
        assert(service_at(device, path, k) == service_at(child, path.drop_first(), k));
        lemma_place(child, path.drop_first(), k);
        lemma_services_up_to(inner, path[0]);
        let before = services_of_all(inner.take(path[0]));
        let at = place(child, path.drop_first(), k);
        assert(services_of_all(inner.take(path[0] + 1))[before.len() + at] == services_of(
            child,
        )[at]);
        assert(services_of_all(inner)[before.len() + at] == services_of_all(
            inner.take(path[0] + 1),
        )[before.len() + at]);
    }
}

/// A service that stands before another has the smaller place.
proof fn lemma_places_in_order(
    device: DeviceDescription,
    path: Seq<int>,
    k: int,
    other: Seq<int>,
    j: int,
)
    requires
        service_at(device, path, k) is Some,
        service_at(device, other, j) is Some,
    ensures
        stands_before(path, k, other, j) <==> place(device, path, k) < place(device, other, j),
        place(device, path, k) == place(device, other, j) ==> path == other && k == j,
    decreases path.len() + other.len(),
{
    let own = device.service_list.services@;
    let inner = device.device_list.devices@;
    if path.len() > 0 {
        assert(service_at(device, path, k) == service_at(inner[path[0]], path.drop_first(), k));
        lemma_place(inner[path[0]], path.drop_first(), k);
        lemma_services_up_to(inner, path[0]);
    }
    if other.len() > 0 {
        assert(service_at(device, other, j) == service_at(inner[other[0]], other.drop_first(), j));
        lemma_place(inner[other[0]], other.drop_first(), j);
        lemma_services_up_to(inner, other[0]);
    }
    if path.len() > 0 && other.len() > 0 {
        if path[0] == other[0] {
            lemma_places_in_order(inner[path[0]], path.drop_first(), k, other.drop_first(), j);
            if path.drop_first() == other.drop_first() {
                assert(path =~= seq![path[0]] + path.drop_first());
                assert(other =~= seq![other[0]] + other.drop_first());
            }
        } else if path[0] < other[0] {
            lemma_services_grow(inner, path[0] + 1, other[0]);
        } else {
            lemma_services_grow(inner, other[0] + 1, path[0]);
        }
    } else if path.len() == 0 && other.len() == 0 {
        assert(path =~= other);
    }
}

/// Each of all services is a service of the device at some path.
proof fn lemma_has_a_place(device: DeviceDescription, n: int) -> (at: (Seq<int>, int))
    requires
        0 <= n < services_of(device).len(),
    ensures
        service_at(device, at.0, at.1) is Some,
        place(device, at.0, at.1) == n,
    decreases device,
{
    let own = device.service_list.services@;
    let inner = device.device_list.devices@;
    if n < own.len() {
        (Seq::empty(), n)
    } else {
        let (i, m) = lemma_has_a_device(inner, n - own.len());
        let (path, k) = lemma_has_a_place(inner[i], m);
        let whole = seq![i] + path;
        assert(whole.drop_first() == path);
        (whole, k)
    }
}

/// Each of the services of `devices` is one of one of them.
proof fn lemma_has_a_device(devices: Seq<DeviceDescription>, n: int) -> (at: (int, int))
    requires
        0 <= n < services_of_all(devices).len(),
    ensures
        0 <= at.0 < devices.len(),
        0 <= at.1 < services_of(devices[at.0]).len(),
        n == services_of_all(devices.take(at.0)).len() + at.1,
    decreases devices.len(),
{
    let before = devices.drop_last();
    let count = services_of_all(before).len();
    if n < count {
        let at = lemma_has_a_device(before, n);
        assert(before.take(at.0) == devices.take(at.0));
        at
    } else {
        assert(devices.take(devices.len() - 1) == before);
        (devices.len() - 1, n - count)
    }
}

/// The services that are collected are those of the root device and of the devices embedded in
/// it, however deep, and no others.
pub proof fn lemma_services_at_any_depth(device: DeviceDescription, service: ServiceDescription)
    ensures
        services_of(device).contains(service) <==> exists|path: Seq<int>, k: int|
            #[trigger] service_at(device, path, k) == Some(service),
{
    if services_of(device).contains(service) {
        let n = choose|n: int| 0 <= n < services_of(device).len() && services_of(device)[n]
            == service;
        let (path, k) = lemma_has_a_place(device, n);
        lemma_place(device, path, k);
        assert(service_at(device, path, k) == Some(service));
    }
    if exists|path: Seq<int>, k: int| #[trigger] service_at(device, path, k) == Some(service) {
        let (path, k) = choose|path: Seq<int>, k: int|
            #[trigger] service_at(device, path, k) == Some(service);
        lemma_place(device, path, k);
    }
}

/// Of two services of a description, the one that stands before the other is collected before it.
pub proof fn lemma_services_in_document_order(
    device: DeviceDescription,
    path: Seq<int>,
    k: int,
    other: Seq<int>,
    j: int,
)
    requires
        service_at(device, path, k) is Some,
        service_at(device, other, j) is Some,
        stands_before(path, k, other, j),
    ensures
        exists|m: int, n: int|
            {
                &&& 0 <= m < n < services_of(device).len()
                &&& #[trigger] services_of(device)[m] == service_at(device, path, k)->0
                &&& #[trigger] services_of(device)[n] == service_at(device, other, j)->0
            },
{
    lemma_place(device, path, k);
    lemma_place(device, other, j);
    lemma_places_in_order(device, path, k, other, j);
    let (m, n) = (place(device, path, k), place(device, other, j));
    assert(services_of(device)[m] == service_at(device, path, k)->0);
    assert(services_of(device)[n] == service_at(device, other, j)->0);
}

/// Whether the service `k` of the device at `path` is the first in the description whose type
/// holds `mark`.
pub open spec fn first_marked(
    device: DeviceDescription,
    path: Seq<int>,
    k: int,
    mark: Seq<char>,
) -> bool {
    &&& marked_at(device, path, k, mark)
    &&& forall|other: Seq<int>, j: int| #[trigger]
        marked_at(device, other, j, mark) ==> (other == path && j == k) || stands_before(
            path,
            k,
            other,
            j,
        )
}

/// The service that is found for a mark is the first in the description whose type holds it; none
/// is found exactly if no type holds it.
proof fn lemma_found_is_first(device: DeviceDescription, mark: Seq<char>)
    ensures
        first_service(services_of(device), mark) is Some <==> exists|path: Seq<int>, k: int|
            #[trigger] marked_at(device, path, k, mark),
        first_service(services_of(device), mark) is Some ==> exists|path: Seq<int>, k: int|
            #[trigger] first_marked(device, path, k, mark) && service_at(device, path, k)
                == first_service(services_of(device), mark),
{
    let services = services_of(device);
    lemma_first_service(services, mark);
    match first_service(services, mark) {
        Some(service) => {
            let n = choose|n: int|
                {
                    &&& 0 <= n < services.len()
                    &&& service == #[trigger] services[n]
                    &&& has_part(service.service_type@, mark)
                    &&& forall|m: int|
                        0 <= m < n ==> !has_part((#[trigger] services[m]).service_type@, mark)
                };
            let (path, k) = lemma_has_a_place(device, n);
            lemma_place(device, path, k);
            assert(marked_at(device, path, k, mark));
            assert forall|other: Seq<int>, j: int| #[trigger]
                marked_at(device, other, j, mark) implies (other == path && j == k)
                || stands_before(path, k, other, j) by {
                lemma_place(device, other, j);
                lemma_places_in_order(device, path, k, other, j);
                let m = place(device, other, j);
                assert(has_part(services[m].service_type@, mark));
            }
            assert(first_marked(device, path, k, mark));
            assert(service_at(device, path, k) == first_service(services, mark));
        },
        None => {
            assert forall|path: Seq<int>, k: int| !#[trigger] marked_at(device, path, k, mark) by {
                if marked_at(device, path, k, mark) {
                    lemma_place(device, path, k);
                    assert(has_part(services[place(device, path, k)].service_type@, mark));
                }
            }
        },
    }
}

/// A renderer can be told its volume exactly if some service of the root device or of a device
/// embedded in it, however deep, has a type that holds `:service:RenderingControl:`. It is told
/// through the first such service in the order of the description.
pub proof fn lemma_rendering_control_is_the_first(root: RootDescription, location: UrlParts)
    requires
        device_of(root, location) is Ok,
    ensures
        ({
            let found = device_of(root, location)->Ok_0.rendering_control;
            let mark = ":service:RenderingControl:"@;
            &&& found is Some <==> exists|path: Seq<int>, k: int|
                #[trigger] marked_at(root.device, path, k, mark)
            &&& found is Some ==> exists|path: Seq<int>, k: int|
                {
                    &&& #[trigger] first_marked(root.device, path, k, mark)
                    &&& service_at(root.device, path, k)->0.service_type@
                        == found->0.service_type
                    &&& joined_url(
                        base_url(root, location)->0,
                        trimmed(service_at(root.device, path, k)->0.control_url@),
                    ) == Some(found->0.control_url)
                }
        }),
{
    let mark = ":service:RenderingControl:"@;
    lemma_found_is_first(root.device, mark);
    if first_service(services_of(root.device), mark) is Some {
        let (path, k) = choose|path: Seq<int>, k: int|
            #[trigger] first_marked(root.device, path, k, mark) && service_at(root.device, path, k)
                == first_service(services_of(root.device), mark);
        assert(first_marked(root.device, path, k, mark));
    }
}

/// A renderer is told what to play through the first service in the order of the description, of
/// the root device or of a device embedded in it, whose type holds `:service:AVTransport:`.
pub proof fn lemma_transport_is_the_first(root: RootDescription, location: UrlParts)
    requires
        device_of(root, location) is Ok,
    ensures
        ({
            let found = device_of(root, location)->Ok_0.av_transport;
            exists|path: Seq<int>, k: int|
                {
                    &&& #[trigger] first_marked(root.device, path, k, ":service:AVTransport:"@)
                    &&& service_at(root.device, path, k)->0.service_type@ == found.service_type
                    &&& joined_url(
                        base_url(root, location)->0,
                        trimmed(service_at(root.device, path, k)->0.control_url@),
                    ) == Some(found.control_url)
                }
        }),
{
    let mark = ":service:AVTransport:"@;
    lemma_found_is_first(root.device, mark);
    let (path, k) = choose|path: Seq<int>, k: int|
        #[trigger] first_marked(root.device, path, k, mark) && service_at(root.device, path, k)
            == first_service(services_of(root.device), mark);
    assert(first_marked(root.device, path, k, mark));
}

/// A renderer has the names that its description gives, without the space around them, and the
/// place where it was fetched.
pub proof fn lemma_names_of_a_renderer(root: RootDescription, location: UrlParts)
    requires
        device_of(root, location) is Ok,
    ensures
        ({
            let device = device_of(root, location)->Ok_0;
            &&& device.friendly_name == trimmed(root.device.friendly_name@)
            &&& device.friendly_name.len() > 0
            &&& device.manufacturer == trimmed(root.device.manufacturer@)
            &&& device.model_name == trimmed(root.device.model_name@)
            &&& device.location == location
        }),
{
}

/// The URLs of a description are relative to the base that it gives, without the space around it;
/// to the place where it was fetched, if it gives none or a blank one.
pub proof fn lemma_base_of_a_description(root: RootDescription, location: UrlParts)
    ensures
        root.url_base is None ==> base_url(root, location) == Some(location.text),
        root.url_base is Some && trimmed(root.url_base->0@).len() == 0 ==> base_url(root, location)
            == Some(location.text),
        root.url_base is Some && trimmed(root.url_base->0@).len() > 0 && parsed_url(
            trimmed(root.url_base->0@),
        ) is Ok ==> base_url(root, location) == Some(
            parsed_url(trimmed(root.url_base->0@))->Ok_0.text,
        ),
        root.url_base is Some && trimmed(root.url_base->0@).len() > 0 && parsed_url(
            trimmed(root.url_base->0@),
        ) is Err ==> device_of(root, location) == Err::<DeviceModel, DeviceFault>(
            DeviceFault::InvalidUrlBase,
        ),
{
}

/// A description whose URLs have a base is refused for one of three reasons: no service in it
/// transports media; it has no name; or the first service that transports media, or the first
/// that controls rendering, has a control URL that names none.
pub proof fn lemma_why_there_is_no_renderer(root: RootDescription, location: UrlParts)
    requires
        base_url(root, location) is Some,
        device_of(root, location) is Err,
    ensures
        match device_of(root, location)->Err_0 {
            DeviceFault::InvalidUrlBase => false,
            DeviceFault::NoAvTransport => forall|path: Seq<int>, k: int|
                !#[trigger] marked_at(root.device, path, k, ":service:AVTransport:"@),
            DeviceFault::NoFriendlyName => trimmed(root.device.friendly_name@).len() == 0,
            DeviceFault::InvalidControlUrl(given) => exists|path: Seq<int>, k: int|
                {
                    let service = service_at(root.device, path, k)->0;
                    &&& #[trigger] service_at(root.device, path, k) is Some
                    &&& {
                        ||| first_marked(root.device, path, k, ":service:AVTransport:"@)
                        ||| first_marked(root.device, path, k, ":service:RenderingControl:"@)
                    }
                    &&& service.control_url@ == given
                    &&& joined_url(
                        base_url(root, location)->0,
                        trimmed(service.control_url@),
                    ) is None
                },
        },
{
    let services = services_of(root.device);
    let base = base_url(root, location)->0;
    let (m, n) = (":service:AVTransport:"@, ":service:RenderingControl:"@);
    lemma_found_is_first(root.device, m);
    lemma_found_is_first(root.device, n);
    if device_of(root, location)->Err_0 is InvalidControlUrl {
        let av = first_service(services, m)->0;
        let mark = if control_url(av, base) is None {
            m
        } else {
            n
        };
        let (path, k) = choose|path: Seq<int>, k: int|
            #[trigger] first_marked(root.device, path, k, mark) && service_at(root.device, path, k)
                == first_service(services, mark);
        assert(service_at(root.device, path, k) is Some);
    }
}

/// A description with a name whose URLs can all be resolved describes a renderer exactly if some
/// device in it has a service that transports media.
pub proof fn lemma_transport_makes_a_renderer(root: RootDescription, location: UrlParts)
    requires
        trimmed(root.device.friendly_name@).len() > 0,
        base_url(root, location) is Some,
        forall|service: ServiceDescription|
            services_of(root.device).contains(service) ==> #[trigger] control_url(
                service,
                base_url(root, location)->0,
            ) is Some,
    ensures
        device_of(root, location) is Ok <==> exists|service: ServiceDescription|
            #[trigger] services_of(root.device).contains(service) && has_part(
                service.service_type@,
                av_transport_mark(),
            ),
{
    let services = services_of(root.device);
    let base = base_url(root, location)->0;
    lemma_first_service(services, av_transport_mark());
    lemma_first_service(services, rendering_control_mark());
    match first_service(services, av_transport_mark()) {
        Some(av) => {
            assert(services.contains(av));
            assert(control_url(av, base) is Some);
            match first_service(services, rendering_control_mark()) {
                Some(service) => {
                    assert(services.contains(service));
                    assert(control_url(service, base) is Some);
                },
                None => {},
            }
        },
        None => {},
    }
}

/// A service of a description with the URL that its control URL names, if it names one.
pub fn resolve_service(service: &ServiceDescription, url: Option<String>) -> (out: Result<
    Service,
    DeviceError,
>)
    ensures
        match out {
            Ok(s) => resolved(*service, opt_text(url)) == Ok::<ServiceModel, DeviceFault>(s@),
            Err(e) => resolved(*service, opt_text(url)) == Err::<ServiceModel, DeviceFault>(e@),
        },
{
    match url {
        Some(control_url) => Ok(
            Service { service_type: service.service_type.clone(), control_url },
        ),
        None => Err(DeviceError::InvalidControlUrl(service.control_url.clone())),
    }
}

/// The view of an optional service of a description and the URL that goes with it.
pub open spec fn rendering_view(
    rendering: Option<(&ServiceDescription, Option<String>)>,
) -> Option<(ServiceDescription, Option<Seq<char>>)> {
    match rendering {
        Some((service, url)) => Some((*service, opt_text(url))),
        None => None,
    }
}

/// The renderer that a description describes, given the services of it that count and the URLs
/// that their control URLs name.
pub fn describe_device(
    root: &RootDescription,
    location: WebUrl,
    av: (&ServiceDescription, Option<String>),
    rendering: Option<(&ServiceDescription, Option<String>)>,
) -> (out: Result<Device, DeviceError>)
    ensures
        match out {
            Ok(d) => described(
                *root,
                location@,
                (*av.0, opt_text(av.1)),
                rendering_view(rendering),
            ) == Ok::<DeviceModel, DeviceFault>(d@),
            Err(e) => described(
                *root,
                location@,
                (*av.0, opt_text(av.1)),
                rendering_view(rendering),
            ) == Err::<DeviceModel, DeviceFault>(e@),
        },
{
    let friendly_name = trim_text(root.device.friendly_name.as_str());
    if friendly_name.as_str().is_empty() {
        return Err(DeviceError::NoFriendlyName);
    }
    let av_transport = match resolve_service(av.0, av.1) {
        Ok(service) => service,
        Err(e) => return Err(e),
    };
    let rendering_control = match rendering {
        Some((service, url)) => match resolve_service(service, url) {
            Ok(service) => Some(service),
            Err(e) => return Err(e),
        },
        None => None,
    };
    Ok(
        Device {
            friendly_name,
            manufacturer: trim_text(root.device.manufacturer.as_str()),
            model_name: trim_text(root.device.model_name.as_str()),
            location,
            av_transport,
            rendering_control,
        },
    )
}

/// The base of the URLs in a description fetched from `location`.
fn find_base(root: &RootDescription, location: &WebUrl) -> (out: Option<WebUrl>)
    ensures
        match out {
            Some(base) => base_url(*root, location@) == Some(base@.text),
            None => base_url(*root, location@) is None,
        },
{
    match &root.url_base {
        Some(base) => {
            let base = trim_text(base.as_str());
            if base.as_str().is_empty() {
                Some(location.clone())
            } else {
                match WebUrl::parse(base.as_str()) {
                    Ok(url) => Some(url),
                    Err(_) => None,
                }
            }
        },
        None => Some(location.clone()),
    }
}

/// Reads the description of a renderer, fetched from `location`.
pub fn parse_device_description(root: &RootDescription, location: WebUrl) -> (out: Result<
    Device,
    DeviceError,
>)
    ensures
        match out {
            Ok(d) => device_of(*root, location@) == Ok::<DeviceModel, DeviceFault>(d@),
            Err(e) => device_of(*root, location@) == Err::<DeviceModel, DeviceFault>(e@),
        },
{
    let base = match find_base(root, &location) {
        Some(base) => base,
        None => return Err(DeviceError::InvalidUrlBase),
    };
    let mut services: Vec<&ServiceDescription> = Vec::new();
    collect_services(&root.device, &mut services);
    assert(referred(services@) == services_of(root.device));
    let av = match find_service(&services, ":service:AVTransport:") {
        Some(service) => service,
        None => return Err(DeviceError::NoAvTransport),
    };
    let av_url = base.join(trim_text(av.control_url.as_str()).as_str());
    let rendering = match find_service(&services, ":service:RenderingControl:") {
        Some(service) => Some(
            (service, base.join(trim_text(service.control_url.as_str()).as_str())),
        ),
        None => None,
    };
    describe_device(root, location, (av, av_url), rendering)
}

/// The message for a control URL that names none gives that URL as it stands in the description.
pub proof fn lemma_device_messages(given: Seq<char>, other: Seq<char>)
    ensures
        has_part(DeviceFault::InvalidControlUrl(given).text(), given),
        given != other ==> DeviceFault::InvalidControlUrl(given).text()
            != DeviceFault::InvalidControlUrl(other).text(),
{
    let none = Seq::<char>::empty();
    let head = "invalid control URL: "@;
    lemma_part(head, given, none);
    assert(head + given + none =~= head + given);
    assert((head + given).skip(head.len() as int) =~= given);
    assert((head + other).skip(head.len() as int) =~= other);
}

} // verus!
