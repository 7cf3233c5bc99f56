//! What holds of devices as sysfs shows them, and of opening them.
use vstd::prelude::*;

use crate::device::{
    attribute_from, attribute_of, described, discovered, identity_of, is_known_model, last_slash,
    number_of, parent_of, precedes, precedes_from, selector_of, DeviceView, HidrawEntry,
};
use crate::devnum::{major_number, minor_number, number_gives_back_both};
use crate::error::{ErrorView, OsError};
use crate::opening::{first_action, next_action, ActionView, Event};
use crate::text::{begins, decimal, digit_value, hex, lines, parsed, split, split_once, trimmed};
use crate::text_laws::{
    fields_stand_between_separators, hex_stands_for_its_number, lines_end_in_line_feeds,
    numbers_are_read_back, split_once_is_at_the_first, trimming_takes_white_space,
};

verus! {

proof fn attribute_shifts(rows: Seq<Seq<char>>, key: Seq<char>, from: int, skipped: int)
    requires
        0 <= skipped <= from,
    ensures
        attribute_from(rows, key, from) == attribute_from(
            if skipped <= rows.len() {
                rows.skip(skipped)
            } else {
                seq![]
            },
            key,
            from - skipped,
        ),
    decreases rows.len() - from,
{
    if from < rows.len() {
        assert(rows.skip(skipped)[from - skipped] == rows[from]);
        attribute_shifts(rows, key, from + 1, skipped);
    }
}

/// The first line decides where it gives the key a value; otherwise the lines after it do. A text
/// without lines gives no key a value.
pub proof fn the_first_line_with_a_key_gives_its_value(
    line: Seq<char>,
    rest: Seq<char>,
    key: Seq<char>,
)
    requires
        !line.contains('\n'),
        line.len() > 0 ==> line.last() != '\r',
    ensures
        attribute_of(Seq::<char>::empty(), key) is None,
        attribute_of(line.push('\n') + rest, key) == (match split_once(line, '=') {
            Some((found, value)) if found == key => Some(value),
            _ => attribute_of(rest, key),
        }),
{
    lines_end_in_line_feeds(line, rest);
    let rows = lines(line.push('\n') + rest);
    assert(rows[0] == line);
    attribute_shifts(rows, key, 1, 1);
    assert(rows.skip(1) =~= lines(rest));
}

/// A line of a key, an equals sign and a value gives the key that value, and no other key one.
pub proof fn a_line_gives_its_key_its_value(
    key: Seq<char>,
    value: Seq<char>,
    other: Seq<char>,
    rest: Seq<char>,
)
    requires
        !key.contains('='),
        !key.contains('\n'),
        !value.contains('\n'),
        value.len() > 0 ==> value.last() != '\r',
    ensures
        attribute_of((key.push('=') + value).push('\n') + rest, key) == Some(value),
        other != key ==> attribute_of((key.push('=') + value).push('\n') + rest, other)
            == attribute_of(rest, other),
{
    let line = key.push('=') + value;
    assert(!line.contains('\n')) by {
        if line.contains('\n') {
            let k = choose|k: int| 0 <= k < line.len() && line[k] == '\n';
            if k < key.len() {
                assert(key[k] == '\n');
            } else if k > key.len() {
                assert(value[k - key.len() - 1] == '\n');
            }
        }
    }
    if value.len() > 0 {
        assert(line.last() == value.last());
    }
    split_once_is_at_the_first(line, '=', key, value);
    the_first_line_with_a_key_gives_its_value(line, rest, key);
    the_first_line_with_a_key_gives_its_value(line, rest, other);
}

proof fn a_number_has_no(s: Seq<char>, base: int, c: char)
    requires
        2 <= base <= 16,
        parsed(s, base) is Some,
        digit_value(c) == 16,
        c != '+',
    ensures
        !s.contains(c),
{
    if s.contains(c) {
        let k = choose|k: int| 0 <= k < s.len() && s[k] == c;
        let shown = crate::text::unsigned(s);
        if s[0] == '+' {
            assert(shown[k - 1] == c);
        } else {
            assert(shown[k] == c);
        }
    }
}

/// Three numbers with colons between them, read in hexadecimal, are bus, vendor and product. They
/// are taken from the line that names `HID_ID`.
pub proof fn three_numbers_are_an_identity(
    first: Seq<char>,
    second: Seq<char>,
    third: Seq<char>,
    rest: Seq<char>,
)
    requires
        parsed(first, 16) is Some,
        parsed(second, 16) is Some,
        parsed(third, 16) is Some,
    ensures
        identity_of(
            ("HID_ID"@.push('=') + (first.push(':') + (second.push(':') + third))).push('\n') + rest,
        ) == Ok::<(u32, u32, u32), ErrorView>(
            (parsed(first, 16)->0, parsed(second, 16)->0, parsed(third, 16)->0),
        ),
{
    let value = first.push(':') + (second.push(':') + third);
    a_number_has_no(first, 16, ':');
    a_number_has_no(second, 16, ':');
    a_number_has_no(third, 16, ':');
    a_number_has_no(first, 16, '\n');
    a_number_has_no(second, 16, '\n');
    a_number_has_no(third, 16, '\n');
    a_number_has_no(third, 16, '\r');
    assert(third.len() > 0) by {
        assert(crate::text::unsigned(third).len() > 0);
    }
    assert(value.last() == third.last());
    assert(third.contains(third[third.len() - 1]));
    assert(!value.contains('\n')) by {
        if value.contains('\n') {
            let k = choose|k: int| 0 <= k < value.len() && value[k] == '\n';
            if k < first.len() {
                assert(first[k] == '\n');
            } else if first.len() < k <= first.len() + second.len() {
                assert(second[k - first.len() - 1] == '\n');
            } else if k > first.len() + second.len() + 1 {
                assert(third[k - first.len() - second.len() - 2] == '\n');
            }
        }
    }
    reveal_strlit("HID_ID");
    let key = "HID_ID"@;
    assert(!key.contains('=') && !key.contains('\n')) by {
        if key.contains('=') || key.contains('\n') {
            let k = choose|k: int| 0 <= k < key.len() && (key[k] == '=' || key[k] == '\n');
            assert(key[0] == 'H' && key[1] == 'I' && key[2] == 'D' && key[3] == '_' && key[4] == 'I'
                && key[5] == 'D');
            assert(key.len() == 6);
        }
    }
    a_line_gives_its_key_its_value(key, value, key, rest);
    fields_stand_between_separators(first, ':', second.push(':') + third);
    fields_stand_between_separators(second, ':', third);
    fields_stand_between_separators(third, ':', seq![]);
    let fields = split(value, ':');
    assert(fields =~= seq![first, second, third]);
    assert(crate::device::all_hex(fields));
}

/// An identity is three hexadecimal numbers in the value of `HID_ID`, or there is none, which is a
/// failure of the protocol.
pub proof fn an_identity_is_three_numbers(uevent: Seq<char>)
    ensures
        match identity_of(uevent) {
            Ok((bus, vendor, product)) => attribute_of(uevent, "HID_ID"@) matches Some(value) && {
                let fields = split(value, ':');
                &&& fields.len() == 3
                &&& parsed(fields[0], 16) == Some(bus)
                &&& parsed(fields[1], 16) == Some(vendor)
                &&& parsed(fields[2], 16) == Some(product)
            },
            Err(error) => {
                &&& error.kind == "protocol"@
                &&& error.exit_code == 1
                &&& attribute_of(uevent, "HID_ID"@) matches Some(value) ==> {
                    let fields = split(value, ':');
                    ||| fields.len() != 3
                    ||| parsed(fields[0], 16) is None
                    ||| parsed(fields[1], 16) is None
                    ||| parsed(fields[2], 16) is None
                }
            },
        },
{
    if let Some(value) = attribute_of(uevent, "HID_ID"@) {
        let fields = split(value, ':');
        if crate::device::all_hex(fields) && fields.len() == 3 {
            assert(parsed(fields[0], 16) is Some);
            assert(parsed(fields[1], 16) is Some);
            assert(parsed(fields[2], 16) is Some);
        }
    }
}

/// The one model that is known is on bus 24, has vendor 0x04f3 and product 0x323b, and a name that
/// begins with `ELAN2703:`. Where one of these differs, the device is not known.
pub proof fn one_model_is_known(bus: u32, vendor: u32, product: u32, name: Seq<char>)
    ensures
        is_known_model(bus, vendor, product, name) <==> bus == 24 && vendor == 0x04f3 && product
            == 0x323b && exists|rest: Seq<char>| name == #[trigger] ("ELAN2703:"@ + rest),
{
    crate::text_laws::beginning_is_a_prefix(name, "ELAN2703:"@);
}

proof fn slash_is_last(dir: Seq<char>, name: Seq<char>, end: int)
    requires
        !name.contains('/'),
        dir.len() + 1 <= end <= dir.len() + 1 + name.len(),
    ensures
        last_slash(dir.push('/') + name, end) == dir.len(),
    decreases end,
{
    let path = dir.push('/') + name;
    if end == dir.len() + 1 {
        assert(path[end - 1] == '/');
    } else {
        assert(path[end - 1] == name[end - dir.len() - 2]);
        assert(name.contains(name[end - dir.len() - 2]));
        slash_is_last(dir, name, end - 1);
    }
}

/// The parent of what a directory holds is the directory; the root holds what has no other
/// directory in front. The root itself and the empty path have no parent.
pub proof fn a_parent_holds_its_children(dir: Seq<char>, name: Seq<char>)
    requires
        !name.contains('/'),
    ensures
        dir.len() > 0 ==> parent_of(dir.push('/') + name) == Some(dir),
        name.len() > 0 ==> parent_of(seq!['/'] + name) == Some("/"@),
        parent_of("/"@) is None,
        parent_of(Seq::<char>::empty()) is None,
{
    reveal_strlit("/");
    let path = dir.push('/') + name;
    slash_is_last(dir, name, path.len() as int);
    if dir.len() > 0 {
        assert(path.take(dir.len() as int) =~= dir);
        assert(path.len() > 1);
        assert("/"@.len() == 1);
    }
    let none = Seq::<char>::empty();
    slash_is_last(none, name, 1 + name.len() as int);
    assert(none.push('/') + name =~= seq!['/'] + name);
    if name.len() > 0 {
        assert((seq!['/'] + name).len() > 1);
    }
}

/// The selector of a physical device is its path below `/sys`. A path that does not lead there is
/// taken from the root.
pub proof fn a_selector_is_the_path_below_sysfs(below: Seq<char>, relative: Seq<char>)
    requires
        below.len() > 0,
        below[0] == '/',
        relative.len() > 0 ==> relative[0] != '/',
    ensures
        selector_of("/sys"@ + below) == "sysfs:"@ + below,
        selector_of("/sys"@) == "sysfs:"@ + "/"@,
        selector_of(relative) == "sysfs:"@ + ("/"@ + relative),
        !begins(below, "/sys/"@) && below != "/sys"@ ==> selector_of(below) == "sysfs:"@ + below,
{
    reveal_strlit("/sys");
    reveal_strlit("/sys/");
    reveal_strlit("/");
    let path = "/sys"@ + below;
    assert(path != "/sys"@) by {
        assert(path.len() > 4);
    }
    assert(path.take(5) =~= "/sys/"@);
    assert(path.skip(4) =~= below);
    assert(below.take(1) =~= "/"@);
    assert(!begins(relative, "/sys/"@) && !begins(relative, "/"@) && relative != "/sys"@) by {
        if begins(relative, "/sys/"@) {
            assert(relative.take(5)[0] == '/');
        }
        if begins(relative, "/"@) {
            assert(relative.take(1)[0] == '/');
        }
        assert("/sys"@[0] == '/');
    }
}

/// Physical devices of sysfs with the same selector are the same.
pub proof fn selectors_tell_physical_devices_apart(first: Seq<char>, second: Seq<char>)
    requires
        first.len() > 0 && first[0] == '/',
        second.len() > 0 && second[0] == '/',
        selector_of("/sys"@ + first) == selector_of("/sys"@ + second),
    ensures
        first == second,
{
    a_selector_is_the_path_below_sysfs(first, seq![]);
    a_selector_is_the_path_below_sysfs(second, seq![]);
    let prefix = "sysfs:"@;
    assert((prefix + first).skip(prefix.len() as int) =~= first);
    assert((prefix + second).skip(prefix.len() as int) =~= second);
}

/// A major and a minor number in decimal with a colon between them, and a line feed behind, are the
/// device number that gives both back.
pub proof fn two_numbers_are_a_device_number(major: u32, minor: u32)
    ensures
        number_of((decimal(major as nat).push(':') + decimal(minor as nat)).push('\n')) matches Ok(
            number,
        ) && major_number(number) == major && minor_number(number) == minor,
{
    let first = decimal(major as nat);
    let second = decimal(minor as nat);
    let inner = first.push(':') + second;
    numbers_are_read_back(major, 0);
    numbers_are_read_back(minor, 0);
    a_number_has_no(first, 10, ':');
    decimal_has_no_space(major as nat);
    decimal_has_no_space(minor as nat);
    assert(inner[0] == first[0]);
    assert(inner.last() == second.last());
    trimming_takes_white_space(seq![], inner, seq!['\n']);
    assert(Seq::<char>::empty() + inner + seq!['\n'] =~= inner.push('\n'));
    split_once_is_at_the_first(inner, ':', first, second);
    number_gives_back_both(major, minor);
}

proof fn decimal_has_no_space(n: nat)
    ensures
        decimal(n).len() > 0,
        !crate::text::is_space(decimal(n)[0]),
        !crate::text::is_space(decimal(n).last()),
    decreases n,
{
    if n < 10 {
        crate::text_laws::decimal_is_positional(0, n);
    } else {
        decimal_has_no_space(n / 10);
        crate::text_laws::decimal_is_positional(n / 10, n % 10);
        assert(n == 10 * (n / 10) + n % 10);
        assert(decimal(n)[0] == decimal(n / 10)[0]);
    }
}

/// A device number is two decimal numbers with a colon between them, apart from white space around
/// them; anything else is a failure of the protocol.
pub proof fn a_device_number_is_two_numbers(dev: Seq<char>)
    ensures
        match number_of(dev) {
            Ok(number) => split_once(trimmed(dev), ':') matches Some((major, minor)) && parsed(
                major,
                10,
            ) == Some(major_number(number)) && parsed(minor, 10) == Some(minor_number(number)),
            Err(error) => error.kind == "protocol"@ && error.exit_code == 1 && (split_once(
                trimmed(dev),
                ':',
            ) matches Some((major, minor)) ==> parsed(major, 10) is None || parsed(minor, 10) is None),
        },
{
    if let Some((major, minor)) = split_once(trimmed(dev), ':') {
        if let (Some(a), Some(b)) = (parsed(major, 10), parsed(minor, 10)) {
            number_gives_back_both(a, b);
        }
    }
}

/// A node is described exactly where its device is resolved and has a parent, its `uevent` and its
/// number can be read, and both make sense. The description says what they say: the node below
/// `/dev`, the name or none, the bus, vendor and product in hexadecimal of at least four digits,
/// and that the identity has yet to be checked exactly where the model is the one that is known.
pub proof fn a_description_says_what_sysfs_says(entry: HidrawEntry)
    ensures
        described(entry) is Ok <==> (entry.device matches Ok(sys) && (sys.uevent matches Ok(uevent)
            && identity_of(uevent@) is Ok) && parent_of(sys.path@) is Some && (entry.dev matches Ok(
            dev,
        ) && number_of(dev@) is Ok)),
        described(entry) matches Err(error) ==> error.exit_code == 1,
        described(entry) matches Ok(device) ==> {
            let sys = entry.device->Ok_0;
            let uevent = sys.uevent->Ok_0@;
            let (bus, vendor, product) = identity_of(uevent)->Ok_0;
            let known = device.bus == 24 && vendor == 0x04f3 && product == 0x323b && exists|
                rest: Seq<char>,
            |
                device.name == #[trigger] ("ELAN2703:"@ + rest);
            &&& device.path == "/dev/"@ + entry.file_name@
            &&& device.sys_device == sys.path@
            &&& parent_of(sys.path@) == Some(device.physical_path)
            &&& device.selector == selector_of(device.physical_path)
            &&& device.name == (match attribute_of(uevent, "HID_NAME"@) {
                Some(name) => name,
                None => Seq::<char>::empty(),
            })
            &&& device.bus == bus
            &&& parsed(device.vendor_id, 16) == Some(vendor) && device.vendor_id.len() >= 4
            &&& parsed(device.product_id, 16) == Some(product) && device.product_id.len() >= 4
            &&& device.vendor_id == hex(vendor as nat, 4)
            &&& device.product_id == hex(product as nat, 4)
            &&& number_of(entry.dev->Ok_0@) == Ok::<u64, ErrorView>(device.devnum)
            &&& device.support == if known {
                "identity_check_required"@
            } else {
                "unsupported"@
            }
        },
{
    if let Ok(device) = described(entry) {
        let uevent = entry.device->Ok_0.uevent->Ok_0@;
        let (bus, vendor, product) = identity_of(uevent)->Ok_0;
        one_model_is_known(bus, vendor, product, device.name);
        numbers_are_read_back(vendor, 4);
        numbers_are_read_back(product, 4);
        hex_stands_for_its_number(vendor as nat, 4);
        hex_stands_for_its_number(product as nat, 4);
    }
    if let Ok(sys) = entry.device {
        if let Ok(uevent) = sys.uevent {
            an_identity_is_three_numbers(uevent@);
        }
    }
    if let Ok(dev) = entry.dev {
        a_device_number_is_two_numbers(dev@);
    }
}

/// Where sysfs lists no nodes at all there are no devices; any other failure to list them is a
/// failure of the system.
pub proof fn a_missing_listing_is_empty(error: OsError)
    ensures
        discovered(Err(error)) == (if error.kind is NotFound {
            Ok::<Seq<DeviceView>, ErrorView>(Seq::<DeviceView>::empty())
        } else {
            Err::<Seq<DeviceView>, ErrorView>(
                ErrorView::io("/sys/class/hidraw"@, error.kind, error.detail@),
            )
        }),
{
}

/// Whether two texts agree up to a place, and there the first ends or has the lesser character.
pub open spec fn falls_behind_at(a: Seq<char>, b: Seq<char>, k: int) -> bool {
    &&& 0 <= k <= a.len()
    &&& k < b.len()
    &&& forall|i: int| 0 <= i < k ==> a[i] == b[i]
    &&& k == a.len() || a[k] < b[k]
}

/// One text comes before another exactly where they agree up to some place, and there the first
/// ends or has the lesser character.
pub proof fn order_is_that_of_characters(a: Seq<char>, b: Seq<char>)
    ensures
        precedes(a, b) <==> exists|k: int| falls_behind_at(a, b, k),
{
    order_from(a, b, 0);
}

proof fn order_from(a: Seq<char>, b: Seq<char>, from: int)
    requires
        0 <= from <= a.len(),
        from <= b.len(),
        forall|i: int| 0 <= i < from ==> a[i] == b[i],
    ensures
        precedes_from(a, b, from) <==> exists|k: int|
            from <= k && #[trigger] falls_behind_at(a, b, k),
    decreases a.len() - from,
{
    if from < a.len() && from < b.len() && a[from] == b[from] {
        order_from(a, b, from + 1);
        if exists|k: int| from <= k && #[trigger] falls_behind_at(a, b, k) {
            let k = choose|k: int| from <= k && #[trigger] falls_behind_at(a, b, k);
            assert(k != from);
        }
    } else if precedes_from(a, b, from) {
        assert(falls_behind_at(a, b, from));
    } else if exists|k: int| from <= k && #[trigger] falls_behind_at(a, b, k) {
        let k = choose|k: int| from <= k && #[trigger] falls_behind_at(a, b, k);
        assert(k > from ==> a[from] == b[from]);
    }
}

/// Opening goes on only as long as all is well: the directory of the physical device is opened and
/// locked, then the node is opened, found to be the character device with the number that was
/// selected, its link in sysfs found to lead to the device that was selected, and it is used where
/// it names bus 24, vendor 0x04f3 and product 0x323b.
pub proof fn a_device_that_is_as_selected_is_opened(
    device: DeviceView,
    info: crate::opening::NodeInfo,
    path: String,
    raw: crate::opening::RawInfo,
)
    ensures
        device.support != "unsupported"@ <==> first_action(device) == Ok::<ActionView, ErrorView>(
            ActionView::OpenDirectory(device.physical_path),
        ),
        device.support == "unsupported"@ ==> (first_action(device) matches Err(error)
            && error.exit_code == 5),
        next_action(device, Event::DirectoryOpened(Ok(()))) == Ok::<ActionView, ErrorView>(
            ActionView::Lock,
        ),
        next_action(device, Event::Locked(Ok(()))) == Ok::<ActionView, ErrorView>(
            ActionView::OpenNode(device.path),
        ),
        next_action(device, Event::NodeOpened(Ok(()))) == Ok::<ActionView, ErrorView>(
            ActionView::Inspect,
        ),
        next_action(device, Event::Inspected(Ok(info))) == (if info.is_char_device && info.rdev
            == device.devnum {
            Ok::<ActionView, ErrorView>(
                ActionView::Resolve(
                    "/sys/dev/char/"@ + decimal(major_number(device.devnum) as nat) + ":"@
                        + decimal(minor_number(device.devnum) as nat) + "/device"@,
                ),
            )
        } else {
            Err::<ActionView, ErrorView>(
                ErrorView::unsupported("device node changed during selection"@),
            )
        }),
        next_action(device, Event::Resolved(Ok(path))) == (if path@ == device.sys_device {
            Ok::<ActionView, ErrorView>(ActionView::Identify)
        } else {
            Err::<ActionView, ErrorView>(
                ErrorView::unsupported("HID device changed during selection"@),
            )
        }),
        next_action(device, Event::Identified(Ok(raw))) == (if raw.bus == 24 && raw.vendor == 0x04f3
            && raw.product == 0x323b {
            Ok::<ActionView, ErrorView>(ActionView::Use)
        } else {
            Err::<ActionView, ErrorView>(
                ErrorView::unsupported("opened device has an unexpected bus/VID/PID"@),
            )
        }),
{
}

/// A failure of the system ends the opening with exit code one. A lock that would have to be waited
/// for is held by another process, which is reported as busy.
pub proof fn opening_stops_at_a_failure(device: DeviceView, error: OsError)
    ensures
        next_action(device, Event::DirectoryOpened(Err(error))) matches Err(told) && told.exit_code
            == 1,
        next_action(device, Event::NodeOpened(Err(error))) == Err::<ActionView, ErrorView>(
            ErrorView::io(device.path, error.kind, error.detail@),
        ),
        next_action(device, Event::Inspected(Err(error))) matches Err(told) && told.exit_code == 1,
        next_action(device, Event::Resolved(Err(error))) matches Err(told) && told.exit_code == 1,
        next_action(device, Event::Identified(Err(error))) matches Err(told) && told.exit_code == 1,
        next_action(device, Event::Locked(Err(error))) matches Err(told) && told.exit_code == 1 && (
        told.kind == "busy"@ <==> error.kind is WouldBlock),
{
    reveal_strlit("busy");
    reveal_strlit("io");
    reveal_strlit("permission");
    assert("busy"@.len() == 4 && "io"@.len() == 2 && "permission"@.len() == 10);
}

} // verus!
