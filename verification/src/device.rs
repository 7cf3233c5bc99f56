//! The hidraw devices of the system: which there are, and which of them is supported.
use vstd::prelude::*;
use vstd::string::{StrSliceExecFns, StringExecFns};

use crate::devnum::{device_number, make_number};
use crate::error::{outcome, Error, ErrorView, OsError, OsErrorKind};
use crate::text::{
    begins, characters, excerpt, hex, hex_text, lines, lines_text, parse_number, parsed, same,
    split, split_once, split_once_text, split_text, starts_with, trim_text, trimmed, views,
};

verus! {

/// The bus, vendor and product of the supported model.
pub const I2C_BUS: u32 = 0x18;

pub const ELAN_VENDOR: u32 = 0x04f3;

pub const HAPTIC_PRODUCT: u32 = 0x323b;

/// A hidraw device.
#[derive(Debug, Clone)]
pub struct Device {
    pub path: String,
    pub selector: String,
    pub name: String,
    pub bus: u32,
    pub vendor_id: String,
    pub product_id: String,
    pub physical_path: String,
    pub support: &'static str,
    pub sys_device: String,
    pub devnum: u64,
}

/// What a [`Device`] says.
#[verifier::ext_equal]
pub struct DeviceView {
    pub path: Seq<char>,
    pub selector: Seq<char>,
    pub name: Seq<char>,
    pub bus: u32,
    pub vendor_id: Seq<char>,
    pub product_id: Seq<char>,
    pub physical_path: Seq<char>,
    pub support: Seq<char>,
    pub sys_device: Seq<char>,
    pub devnum: u64,
}

impl View for Device {
    type V = DeviceView;

    open spec fn view(&self) -> DeviceView {
        DeviceView {
            path: self.path@,
            selector: self.selector@,
            name: self.name@,
            bus: self.bus,
            vendor_id: self.vendor_id@,
            product_id: self.product_id@,
            physical_path: self.physical_path@,
            support: self.support@,
            sys_device: self.sys_device@,
            devnum: self.devnum,
        }
    }
}

pub open spec fn device_views(devices: Seq<Device>) -> Seq<DeviceView> {
    devices.map_values(|device: Device| device@)
}

/// The device behind a hidraw node: its path in sysfs with all links resolved, and its `uevent`.
#[derive(Debug)]
pub struct SysDevice {
    pub path: String,
    pub uevent: Result<String, OsError>,
}

/// What sysfs says of a hidraw node.
#[derive(Debug)]
pub struct HidrawEntry {
    pub file_name: String,
    pub device: Result<SysDevice, OsError>,
    pub dev: Result<String, OsError>,
}

/// The contents of the directory in which sysfs lists hidraw nodes.
pub type Listing = Result<Vec<Result<HidrawEntry, OsError>>, OsError>;

/// The value of the first line from `from` on that gives the key one.
pub open spec fn attribute_from(rows: Seq<Seq<char>>, key: Seq<char>, from: int) -> Option<Seq<char>>
    decreases rows.len() - from,
{
    if from < 0 || from >= rows.len() {
        None
    } else {
        match split_once(rows[from], '=') {
            Some((found, value)) if found == key => Some(value),
            _ => attribute_from(rows, key, from + 1),
        }
    }
}

/// The value that a text of lines `key=value` gives a key.
pub open spec fn attribute_of(text: Seq<char>, key: Seq<char>) -> Option<Seq<char>> {
    attribute_from(lines(text), key, 0)
}

/// An optional text, as it reads.
pub open spec fn text_view(text: Option<String>) -> Option<Seq<char>> {
    match text {
        Some(text) => Some(text@),
        None => None,
    }
}

/// Finds the value of a key.
pub fn attribute(text: &str, key: &str) -> (value: Option<String>)
    ensures
        text_view(value) == attribute_of(text@, key@),
{
    let rows = lines_text(text);
    let mut i: usize = 0;
    while i < rows.len()
        invariant
            i <= rows@.len(),
            views(rows@) == lines(text@),
            attribute_of(text@, key@) == attribute_from(views(rows@), key@, i as int),
        decreases rows@.len() - i,
    {
        assert(views(rows@)[i as int] == rows@[i as int]@);
        if let Some((found, value)) = split_once_text(rows[i].as_str(), '=') {
            if same(found.as_str(), key) {
                return Some(value);
            }
        }
        i = i + 1;
    }
    None
}

/// Whether every field is a hexadecimal number.
pub open spec fn all_hex(fields: Seq<Seq<char>>) -> bool {
    forall|i: int| 0 <= i < fields.len() ==> parsed(#[trigger] fields[i], 16) is Some
}

/// The bus, vendor and product that a `uevent` names: three hexadecimal numbers with colons
/// between them.
pub open spec fn identity_of(uevent: Seq<char>) -> Result<(u32, u32, u32), ErrorView> {
    match attribute_of(uevent, "HID_ID"@) {
        None => Err(ErrorView::protocol("missing HID_ID in sysfs"@)),
        Some(value) => {
            let fields = split(value, ':');
            if fields.len() == 3 && all_hex(fields) {
                Ok((parsed(fields[0], 16)->0, parsed(fields[1], 16)->0, parsed(fields[2], 16)->0))
            } else {
                Err(ErrorView::protocol("invalid HID_ID in sysfs"@))
            }
        },
    }
}

/// Reads bus, vendor and product out of a `uevent`.
pub fn hid_id(text: &str) -> (identity: Result<(u32, u32, u32), Error>)
    ensures
        outcome(identity) == identity_of(text@),
{
    let value = match attribute(text, "HID_ID") {
        Some(value) => value,
        None => {
            return Err(Error::protocol("missing HID_ID in sysfs"));
        },
    };
    let fields = split_text(value.as_str(), ':');
    let ghost shown = views(fields@);
    if fields.len() != 3 {
        return Err(Error::protocol("invalid HID_ID in sysfs"));
    }
    assert(shown[0] == fields@[0]@ && shown[1] == fields@[1]@ && shown[2] == fields@[2]@);
    let bus = parse_number(fields[0].as_str(), 16);
    let vendor = parse_number(fields[1].as_str(), 16);
    let product = parse_number(fields[2].as_str(), 16);
    match (bus, vendor, product) {
        (Some(bus), Some(vendor), Some(product)) => {
            assert(all_hex(shown));
            Ok((bus, vendor, product))
        },
        _ => {
            assert(!all_hex(shown)) by {
                if all_hex(shown) {
                    assert(parsed(shown[0], 16) is Some);
                    assert(parsed(shown[1], 16) is Some);
                    assert(parsed(shown[2], 16) is Some);
                }
            }
            Err(Error::protocol("invalid HID_ID in sysfs"))
        },
    }
}

/// Whether a device is of the one model that is known: bus, vendor, product and name must agree.
pub open spec fn is_known_model(bus: u32, vendor: u32, product: u32, name: Seq<char>) -> bool {
    &&& bus == I2C_BUS
    &&& vendor == ELAN_VENDOR
    &&& product == HAPTIC_PRODUCT
    &&& begins(name, "ELAN2703:"@)
}

pub fn known_model(bus: u32, vendor: u32, product: u32, name: &str) -> (known: bool)
    ensures
        known == is_known_model(bus, vendor, product, name@),
{
    bus == I2C_BUS && vendor == ELAN_VENDOR && product == HAPTIC_PRODUCT && starts_with(
        name,
        "ELAN2703:",
    )
}

/// The last place of a slash before `end`, or -1.
pub open spec fn last_slash(path: Seq<char>, end: int) -> int
    decreases end,
{
    if end <= 0 || end > path.len() {
        -1
    } else if path[end - 1] == '/' {
        end - 1
    } else {
        last_slash(path, end - 1)
    }
}

/// The directory that holds what a resolved path leads to. The root and the empty path have none.
pub open spec fn parent_of(path: Seq<char>) -> Option<Seq<char>> {
    let slash = last_slash(path, path.len() as int);
    if path.len() == 0 || path == "/"@ {
        None
    } else if slash == -1 {
        Some(seq![])
    } else if slash == 0 {
        Some("/"@)
    } else {
        Some(path.take(slash))
    }
}

/// Finds the directory that holds what a resolved path leads to.
pub fn parent(path: &str) -> (directory: Option<String>)
    ensures
        text_view(directory) == parent_of(path@),
{
    let chars = characters(path);
    if chars.len() == 0 || same(path, "/") {
        return None;
    }
    let mut end: usize = chars.len();
    while end > 0 && chars[end - 1] != '/'
        invariant
            end <= chars@.len(),
            chars@ == path@,
            last_slash(path@, end as int) == last_slash(path@, path@.len() as int),
        decreases end,
    {
        end = end - 1;
    }
    if end == 0 {
        let empty = String::new();
        return Some(empty);
    }
    if end == 1 {
        return Some(String::from_str("/"));
    }
    let directory = excerpt(&chars, 0, end - 1);
    assert(directory@ =~= path@.take(end - 1));
    Some(directory)
}

/// A path as seen from the root of sysfs.
pub open spec fn below_sysfs(path: Seq<char>) -> Seq<char> {
    if path == "/sys"@ {
        "/"@
    } else if begins(path, "/sys/"@) {
        path.skip(4)
    } else if begins(path, "/"@) {
        path
    } else {
        "/"@ + path
    }
}

/// The name of a physical device that outlasts the numbering of its nodes.
pub open spec fn selector_of(physical_path: Seq<char>) -> Seq<char> {
    "sysfs:"@ + below_sysfs(physical_path)
}

fn selector_text(physical_path: &str) -> (selector: String)
    ensures
        selector@ == selector_of(physical_path@),
{
    let mut selector = String::from_str("sysfs:");
    if same(physical_path, "/sys") {
        selector.append("/");
    } else if starts_with(physical_path, "/sys/") {
        proof {
            reveal_strlit("/sys/");
        }
        let len = physical_path.unicode_len();
        let below = physical_path.substring_char(4, len);
        assert(below@ =~= physical_path@.skip(4));
        selector.append(below);
    } else if starts_with(physical_path, "/") {
        selector.append(physical_path);
    } else {
        selector.append("/");
        selector.append(physical_path);
        assert(selector@ =~= selector_of(physical_path@));
    }
    selector
}

/// The device number that sysfs shows as two decimal numbers with a colon between them.
pub open spec fn number_of(dev: Seq<char>) -> Result<u64, ErrorView> {
    match split_once(trimmed(dev), ':') {
        None => Err(ErrorView::protocol("invalid sysfs device number"@)),
        Some((major, minor)) => match parsed(major, 10) {
            None => Err(ErrorView::protocol("invalid device major"@)),
            Some(major) => match parsed(minor, 10) {
                None => Err(ErrorView::protocol("invalid device minor"@)),
                Some(minor) => Ok(device_number(major, minor)),
            },
        },
    }
}

fn read_number(dev: &str) -> (number: Result<u64, Error>)
    ensures
        outcome(number) == number_of(dev@),
{
    let inner = trim_text(dev);
    let (major, minor) = match split_once_text(inner.as_str(), ':') {
        Some(parts) => parts,
        None => {
            return Err(Error::protocol("invalid sysfs device number"));
        },
    };
    let major = match parse_number(major.as_str(), 10) {
        Some(major) => major,
        None => {
            return Err(Error::protocol("invalid device major"));
        },
    };
    let minor = match parse_number(minor.as_str(), 10) {
        Some(minor) => minor,
        None => {
            return Err(Error::protocol("invalid device minor"));
        },
    };
    Ok(make_number(major, minor))
}

/// The device that a resolved sysfs path, a `uevent` and a device number describe.
pub open spec fn device_of(
    file_name: Seq<char>,
    sys_device: Seq<char>,
    uevent: Seq<char>,
    identity: (u32, u32, u32),
    physical_path: Seq<char>,
    devnum: u64,
) -> DeviceView {
    let name = match attribute_of(uevent, "HID_NAME"@) {
        Some(name) => name,
        None => seq![],
    };
    DeviceView {
        path: "/dev/"@ + file_name,
        selector: selector_of(physical_path),
        name,
        bus: identity.0,
        vendor_id: hex(identity.1 as nat, 4),
        product_id: hex(identity.2 as nat, 4),
        physical_path,
        support: if is_known_model(identity.0, identity.1, identity.2, name) {
            "identity_check_required"@
        } else {
            "unsupported"@
        },
        sys_device,
        devnum,
    }
}

/// The device behind a node, or the first thing that keeps it from being described.
pub open spec fn described(entry: HidrawEntry) -> Result<DeviceView, ErrorView> {
    match entry.device {
        Err(error) => Err(
            ErrorView::io("resolve HID sysfs device"@, error.kind, error.detail@),
        ),
        Ok(device) => match device.uevent {
            Err(error) => Err(ErrorView::io("read HID identity"@, error.kind, error.detail@)),
            Ok(uevent) => match identity_of(uevent@) {
                Err(error) => Err(error),
                Ok(identity) => match parent_of(device.path@) {
                    None => Err(ErrorView::protocol("HID device has no physical parent"@)),
                    Some(physical_path) => match entry.dev {
                        Err(error) => Err(
                            ErrorView::io(
                                "read hidraw device number"@,
                                error.kind,
                                error.detail@,
                            ),
                        ),
                        Ok(dev) => match number_of(dev@) {
                            Err(error) => Err(error),
                            Ok(devnum) => Ok(
                                device_of(
                                    entry.file_name@,
                                    device.path@,
                                    uevent@,
                                    identity,
                                    physical_path,
                                    devnum,
                                ),
                            ),
                        },
                    },
                },
            },
        },
    }
}

/// A device that was described, or the failure to do so.
pub open spec fn device_outcome(device: Result<Device, Error>) -> Result<DeviceView, ErrorView> {
    match device {
        Ok(device) => Ok(device@),
        Err(error) => Err(error@),
    }
}

/// Describes the device behind a node.
pub fn describe(entry: &HidrawEntry) -> (device: Result<Device, Error>)
    ensures
        device_outcome(device) == described(*entry),
{
    let device = match &entry.device {
        Ok(device) => device,
        Err(error) => {
            return Err(Error::io("resolve HID sysfs device", error));
        },
    };
    let uevent = match &device.uevent {
        Ok(uevent) => uevent,
        Err(error) => {
            return Err(Error::io("read HID identity", error));
        },
    };
    let (bus, vendor, product) = match hid_id(uevent.as_str()) {
        Ok(identity) => identity,
        Err(error) => {
            return Err(error);
        },
    };
    let name = match attribute(uevent.as_str(), "HID_NAME") {
        Some(name) => name,
        None => String::new(),
    };
    let physical_path = match parent(device.path.as_str()) {
        Some(physical_path) => physical_path,
        None => {
            return Err(Error::protocol("HID device has no physical parent"));
        },
    };
    let dev = match &entry.dev {
        Ok(dev) => dev,
        Err(error) => {
            return Err(Error::io("read hidraw device number", error));
        },
    };
    let devnum = match read_number(dev.as_str()) {
        Ok(devnum) => devnum,
        Err(error) => {
            return Err(error);
        },
    };
    let known = known_model(bus, vendor, product, name.as_str());
    let selector = selector_text(physical_path.as_str());
    Ok(
        Device {
            path: String::from_str("/dev/").concat(entry.file_name.as_str()),
            selector,
            name,
            bus,
            vendor_id: hex_text(vendor, 4),
            product_id: hex_text(product, 4),
            physical_path,
            support: if known {
                "identity_check_required"
            } else {
                "unsupported"
            },
            sys_device: String::from_str(device.path.as_str()),
            devnum,
        },
    )
}

/// Whether one text comes strictly before another, going by their characters from `from` on.
pub open spec fn precedes_from(a: Seq<char>, b: Seq<char>, from: int) -> bool
    decreases a.len() - from,
{
    if from >= b.len() {
        false
    } else if from < 0 || from >= a.len() {
        true
    } else if a[from] == b[from] {
        precedes_from(a, b, from + 1)
    } else {
        a[from] < b[from]
    }
}

pub open spec fn precedes(a: Seq<char>, b: Seq<char>) -> bool {
    precedes_from(a, b, 0)
}

fn text_precedes(a: &str, b: &str) -> (yes: bool)
    ensures
        yes == precedes(a@, b@),
{
    let x = characters(a);
    let y = characters(b);
    let mut i: usize = 0;
    while i < x.len() && i < y.len() && x[i] == y[i]
        invariant
            x@ == a@,
            y@ == b@,
            i <= x@.len(),
            i <= y@.len(),
            precedes(a@, b@) == precedes_from(a@, b@, i as int),
        decreases x@.len() - i,
    {
        i = i + 1;
    }
    if i >= y.len() {
        false
    } else if i >= x.len() {
        true
    } else {
        x[i] < y[i]
    }
}

/// The first place from `from` on whose device comes after the given path.
pub open spec fn place_for(devices: Seq<DeviceView>, path: Seq<char>, from: int) -> int
    decreases devices.len() - from,
{
    if from < 0 || from >= devices.len() || precedes(path, devices[from].path) {
        from
    } else {
        place_for(devices, path, from + 1)
    }
}

/// Devices in the order of their paths. Those with the same path stay in the order they came in.
pub open spec fn by_path(devices: Seq<DeviceView>) -> Seq<DeviceView>
    decreases devices.len(),
{
    if devices.len() == 0 {
        seq![]
    } else {
        let earlier = by_path(devices.drop_last());
        earlier.insert(place_for(earlier, devices.last().path, 0), devices.last())
    }
}

/// The devices behind the nodes of a listing, in its order, or the first failure.
pub open spec fn all_described(entries: Seq<Result<HidrawEntry, OsError>>) -> Result<
    Seq<DeviceView>,
    ErrorView,
>
    decreases entries.len(),
{
    if entries.len() == 0 {
        Ok(seq![])
    } else {
        match all_described(entries.drop_last()) {
            Err(error) => Err(error),
            Ok(devices) => match entries.last() {
                Err(error) => Err(ErrorView::io("enumerate hidraw"@, error.kind, error.detail@)),
                Ok(entry) => match described(entry) {
                    Err(error) => Err(error),
                    Ok(device) => Ok(devices.push(device)),
                },
            },
        }
    }
}

/// The devices that a listing shows. Where there is no listing at all, there are none.
pub open spec fn discovered(listing: Listing) -> Result<Seq<DeviceView>, ErrorView> {
    match listing {
        Err(error) => if error.kind is NotFound {
            Ok(seq![])
        } else {
            Err(ErrorView::io("/sys/class/hidraw"@, error.kind, error.detail@))
        },
        Ok(entries) => match all_described(entries@) {
            Err(error) => Err(error),
            Ok(devices) => Ok(by_path(devices)),
        },
    }
}

/// Devices that were found, or the failure to find them.
pub open spec fn devices_outcome(devices: Result<Vec<Device>, Error>) -> Result<
    Seq<DeviceView>,
    ErrorView,
> {
    match devices {
        Ok(devices) => Ok(device_views(devices@)),
        Err(error) => Err(error@),
    }
}

fn place_among(devices: &Vec<Device>, path: &str) -> (place: usize)
    ensures
        place == place_for(device_views(devices@), path@, 0),
        place <= devices@.len(),
{
    let mut place: usize = 0;
    while place < devices.len() && !text_precedes(path, devices[place].path.as_str())
        invariant
            place <= devices@.len(),
            place_for(device_views(devices@), path@, 0) == place_for(
                device_views(devices@),
                path@,
                place as int,
            ),
        decreases devices@.len() - place,
    {
        assert(device_views(devices@)[place as int] == devices@[place as int]@);
        place = place + 1;
    }
    assert(place < devices@.len() ==> device_views(devices@)[place as int]
        == devices@[place as int]@);
    place
}

proof fn failure_stays(entries: Seq<Result<HidrawEntry, OsError>>, count: int)
    requires
        0 <= count <= entries.len(),
        all_described(entries.take(count)) is Err,
    ensures
        all_described(entries) == all_described(entries.take(count)),
    decreases entries.len() - count,
{
    if count < entries.len() {
        assert(entries.take(count + 1).drop_last() =~= entries.take(count));
        failure_stays(entries, count + 1);
    } else {
        assert(entries.take(count) =~= entries);
    }
}

/// Finds the devices that a listing shows, in the order of their paths. Only what sysfs says is
/// gone by: no device is opened.
pub fn discover(listing: &Listing) -> (devices: Result<Vec<Device>, Error>)
    ensures
        devices_outcome(devices) == discovered(*listing),
{
    let entries = match listing {
        Ok(entries) => entries,
        Err(error) => {
            if error.kind == OsErrorKind::NotFound {
                let none: Vec<Device> = Vec::new();
                assert(device_views(none@) =~= seq![]);
                return Ok(none);
            }
            return Err(Error::io("/sys/class/hidraw", error));
        },
    };
    let mut devices: Vec<Device> = Vec::new();
    let ghost mut found: Seq<DeviceView> = seq![];
    let mut i: usize = 0;
    assert(entries@.take(0) =~= seq![]);
    assert(device_views(devices@) =~= by_path(found));
    while i < entries.len()
        invariant
            i <= entries@.len(),
            *listing == Ok::<Vec<Result<HidrawEntry, OsError>>, OsError>(*entries),
            all_described(entries@.take(i as int)) == Ok::<Seq<DeviceView>, ErrorView>(found),
            device_views(devices@) == by_path(found),
        decreases entries@.len() - i,
    {
        let ghost next = entries@.take(i + 1);
        assert(next.drop_last() =~= entries@.take(i as int));
        let entry = match &entries[i] {
            Ok(entry) => entry,
            Err(error) => {
                proof {
                    failure_stays(entries@, i + 1);
                }
                return Err(Error::io("enumerate hidraw", error));
            },
        };
        let device = match describe(entry) {
            Ok(device) => device,
            Err(error) => {
                proof {
                    failure_stays(entries@, i + 1);
                }
                return Err(error);
            },
        };
        let place = place_among(&devices, device.path.as_str());
        let ghost earlier = devices@;
        let ghost view = device@;
        devices.insert(place, device);
        proof {
            let more = found.push(view);
            assert(more.drop_last() =~= found);
            assert(device_views(devices@) =~= device_views(earlier).insert(place as int, view));
            found = more;
        }
        i = i + 1;
    }
    assert(entries@.take(i as int) =~= entries@);
    Ok(devices)
}

/// Whether devices stand in the order of their paths.
pub open spec fn is_by_path(devices: Seq<DeviceView>) -> bool {
    forall|i: int, j: int|
        0 <= i < j < devices.len() ==> !precedes(
            (#[trigger] devices[j]).path,
            (#[trigger] devices[i]).path,
        )
}

proof fn precedes_goes_on(a: Seq<char>, b: Seq<char>, c: Seq<char>, from: int)
    requires
        0 <= from,
        precedes_from(a, b, from),
        precedes_from(b, c, from),
    ensures
        precedes_from(a, c, from),
    decreases b.len() - from,
{
    if from < a.len() && from < b.len() && from < c.len() && a[from] == b[from] && b[from]
        == c[from] {
        precedes_goes_on(a, b, c, from + 1);
    }
}

proof fn place_is_right(devices: Seq<DeviceView>, path: Seq<char>, from: int)
    requires
        0 <= from <= devices.len(),
    ensures
        from <= place_for(devices, path, from) <= devices.len(),
        forall|i: int|
            from <= i < place_for(devices, path, from) ==> !precedes(
                path,
                (#[trigger] devices[i]).path,
            ),
        place_for(devices, path, from) < devices.len() ==> precedes(
            path,
            devices[place_for(devices, path, from)].path,
        ),
    decreases devices.len() - from,
{
    if from < devices.len() && !precedes(path, devices[from].path) {
        place_is_right(devices, path, from + 1);
    }
}

/// Putting devices in the order of their paths neither adds nor loses one, and leaves none before
/// another that comes before it.
pub proof fn order_keeps_every_device(devices: Seq<DeviceView>)
    ensures
        is_by_path(by_path(devices)),
        by_path(devices).to_multiset() == devices.to_multiset(),
    decreases devices.len(),
{
    if devices.len() > 0 {
        let fewer = devices.drop_last();
        let last = devices.last();
        let earlier = by_path(fewer);
        let place = place_for(earlier, last.path, 0);
        let all = by_path(devices);
        order_keeps_every_device(fewer);
        place_is_right(earlier, last.path, 0);
        assert forall|i: int, j: int| 0 <= i < j < all.len() implies !precedes(
            (#[trigger] all[j]).path,
            (#[trigger] all[i]).path,
        ) by {
            if i == place {
                let next = earlier[place];
                assert(all[j] == earlier[j - 1]);
                if precedes(all[j].path, last.path) {
                    precedes_goes_on(all[j].path, last.path, next.path, 0);
                    if j - 1 == place {
                        precedes_not_itself(next.path, 0);
                    }
                }
            }
        }
        vstd::seq_lib::to_multiset_insert(earlier, place, last);
        vstd::seq_lib::to_multiset_build(fewer, last);
        assert(fewer.push(last) =~= devices);
    } else {
        assert(devices =~= seq![]);
    }
}

proof fn precedes_not_itself(path: Seq<char>, from: int)
    requires
        0 <= from,
    ensures
        !precedes_from(path, path, from),
    decreases path.len() - from,
{
    if from < path.len() {
        precedes_not_itself(path, from + 1);
    }
}

proof fn each_is_described(entries: Seq<Result<HidrawEntry, OsError>>)
    requires
        all_described(entries) is Ok,
    ensures
        all_described(entries)->Ok_0.len() == entries.len(),
        forall|i: int|
            0 <= i < entries.len() ==> ((#[trigger] entries[i]) matches Ok(entry) && described(
                entry,
            ) == Ok::<DeviceView, ErrorView>(all_described(entries)->Ok_0[i])),
    decreases entries.len(),
{
    if entries.len() > 0 {
        let fewer = entries.drop_last();
        each_is_described(fewer);
        assert forall|i: int| 0 <= i < entries.len() implies ((#[trigger] entries[i]) matches Ok(
            entry,
        ) && described(entry) == Ok::<DeviceView, ErrorView>(all_described(entries)->Ok_0[i])) by {
            if i < fewer.len() {
                assert(fewer[i] == entries[i]);
            }
        }
    }
}

proof fn failure_is_of_a_node(entries: Seq<Result<HidrawEntry, OsError>>)
    requires
        forall|i: int|
            0 <= i < entries.len() ==> ((#[trigger] entries[i]) matches Ok(entry) && described(
                entry,
            ) is Ok),
    ensures
        all_described(entries) is Ok,
    decreases entries.len(),
{
    if entries.len() > 0 {
        let fewer = entries.drop_last();
        assert forall|i: int| 0 <= i < fewer.len() implies ((#[trigger] fewer[i]) matches Ok(entry)
            && described(entry) is Ok) by {
            assert(fewer[i] == entries[i]);
        }
        failure_is_of_a_node(fewer);
        assert(entries[entries.len() - 1] is Ok);
    }
}

/// No node is passed over: devices are listed exactly where the device behind every node can be
/// described.
pub proof fn no_node_is_passed_over(entries: Vec<Result<HidrawEntry, OsError>>)
    ensures
        discovered(Ok(entries)) is Ok <==> forall|i: int|
            0 <= i < entries@.len() ==> ((#[trigger] entries@[i]) matches Ok(entry) && described(
                entry,
            ) is Ok),
{
    if all_described(entries@) is Ok {
        each_is_described(entries@);
    }
    if forall|i: int|
        0 <= i < entries@.len() ==> ((#[trigger] entries@[i]) matches Ok(entry) && described(
            entry,
        ) is Ok) {
        failure_is_of_a_node(entries@);
    }
}

/// A listing shows the device behind every node, each as often as it has nodes, in the order of
/// their paths.
pub proof fn every_node_is_shown(entries: Vec<Result<HidrawEntry, OsError>>, found: Seq<DeviceView>)
    requires
        discovered(Ok(entries)) == Ok::<Seq<DeviceView>, ErrorView>(found),
    ensures
        is_by_path(found),
        exists|behind: Seq<DeviceView>|
            {
                &&& behind.len() == entries@.len()
                &&& forall|i: int|
                    0 <= i < entries@.len() ==> ((#[trigger] entries@[i]) matches Ok(entry)
                        && described(entry) == Ok::<DeviceView, ErrorView>(behind[i]))
                &&& #[trigger] behind.to_multiset() == found.to_multiset()
            },
{
    let behind = all_described(entries@)->Ok_0;
    each_is_described(entries@);
    order_keeps_every_device(behind);
}

/// The selector of a device depends on nothing but the place of the physical device: neither the
/// number of its node nor that of the HID instance changes it.
pub proof fn selector_outlasts_renumbering(
    first: HidrawEntry,
    second: HidrawEntry,
    a: DeviceView,
    b: DeviceView,
)
    requires
        described(first) == Ok::<DeviceView, ErrorView>(a),
        described(second) == Ok::<DeviceView, ErrorView>(b),
        parent_of(first.device->Ok_0.path@) == parent_of(second.device->Ok_0.path@),
    ensures
        a.selector == b.selector,
        a.physical_path == b.physical_path,
{
}

} // verus!
