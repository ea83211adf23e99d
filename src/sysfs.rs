use crate::block::dev_prefix;
use crate::error::DeviceError;
use crate::generic::GenericConfig;
use crate::text::{decimal_of, push_char, push_decimal, string_of};
use vstd::prelude::*;

verus! {

/// The value of `key` in the section-less part of an INI text, when the text
/// parses and has that key.
pub uninterp spec fn ini_general_value(text: Seq<char>, key: Seq<char>) -> Option<Seq<char>>;

/// Relies on `ini::Ini::load_from_str`, which parses the text with the
/// default options, and `ini::Ini::get_from` with no section, which looks the
/// key up among the entries before any section header. A parse error gives no
/// value.
#[verifier::external_body]
fn ini_value(text: &str, key: &str) -> (r: Option<String>)
    ensures
        r.deep_view() == ini_general_value(text@, key@),
{
    match ini::Ini::load_from_str(text) {
        Ok(conf) => conf.get_from(None::<String>, key).map(|v| v.to_string()),
        Err(_) => None,
    }
}

/// The key of a uevent file that names the device node: `DEVNAME`.
pub open spec fn devname_key() -> Seq<char> {
    seq!['D', 'E', 'V', 'N', 'A', 'M', 'E']
}

/// What reading a device's uevent file gave.
#[derive(Debug)]
pub enum UeventRead {
    /// The file does not exist.
    NotFound,
    /// The file could not be read, for this reason.
    Failed(String),
    /// The text of the file.
    Contents(String),
}

/// The sysfs directory of a device type: `char` for `c` and `u`, `block` for
/// `b`, none for any other.
pub open spec fn sysfs_component(t: Seq<char>) -> Option<Seq<char>> {
    if t == seq!['c'] || t == seq!['u'] {
        Some(seq!['c', 'h', 'a', 'r'])
    } else if t == seq!['b'] {
        Some(seq!['b', 'l', 'o', 'c', 'k'])
    } else {
        None
    }
}

/// `/sys/dev/<component>/<major>:<minor>/uevent`
pub open spec fn uevent_path(component: Seq<char>, major: i64, minor: i64) -> Seq<char> {
    seq!['/', 's', 'y', 's', '/', 'd', 'e', 'v', '/'] + component + seq!['/'] + decimal_of(
        major as int,
    ) + seq![':'] + decimal_of(minor as int) + seq!['/', 'u', 'e', 'v', 'e', 'n', 't']
}

/// Whether the host path of a device is looked up in sysfs: one of its device
/// numbers is set.
pub open spec fn looks_up_host_path(major: i64, minor: i64) -> bool {
    major != 0 || minor != 0
}

/// The uevent file whose text decides the host path of the device, if one does.
pub fn sysfs_uevent_path(dev_info: &GenericConfig) -> (r: Option<String>)
    ensures
        (looks_up_host_path(dev_info.major, dev_info.minor) && dev_info@.container_path.len() > 0
            && sysfs_component(dev_info@.dev_type) is Some) ==> r is Some && r->Some_0@
            == uevent_path(
            sysfs_component(dev_info@.dev_type)->Some_0,
            dev_info.major,
            dev_info.minor,
        ),
        !(looks_up_host_path(dev_info.major, dev_info.minor) && dev_info@.container_path.len() > 0
            && sysfs_component(dev_info@.dev_type) is Some) ==> r is None,
{
    if !(dev_info.major != 0 || dev_info.minor != 0) || dev_info.container_path.as_str().unicode_len()
        == 0 {
        return None;
    }
    let component = match sysfs_component_of(dev_info.dev_type.as_str()) {
        Some(c) => c,
        None => return None,
    };
    proof {
        reveal_strlit("/sys/dev/");
        reveal_strlit("/uevent");
    }
    let mut path = string_of("/sys/dev/");
    path.append(component);
    push_char(&mut path, '/');
    push_decimal(&mut path, dev_info.major);
    push_char(&mut path, ':');
    push_decimal(&mut path, dev_info.minor);
    path.append("/uevent");
    assert(path@ =~= uevent_path(component@, dev_info.major, dev_info.minor));
    Some(path)
}

fn sysfs_component_of(t: &str) -> (r: Option<&'static str>)
    ensures
        match sysfs_component(t@) {
            Some(c) => r is Some && r->Some_0@ == c,
            None => r is None,
        },
{
    proof {
        reveal_strlit("c");
        reveal_strlit("u");
        reveal_strlit("b");
        reveal_strlit("char");
        reveal_strlit("block");
    }
    assert("c"@ =~= seq!['c']);
    assert("u"@ =~= seq!['u']);
    assert("b"@ =~= seq!['b']);
    assert("char"@ =~= seq!['c', 'h', 'a', 'r']);
    assert("block"@ =~= seq!['b', 'l', 'o', 'c', 'k']);
    if crate::text::str_eq(t, "c") || crate::text::str_eq(t, "u") {
        Some("char")
    } else if crate::text::str_eq(t, "b") {
        Some("block")
    } else {
        None
    }
}

/// The host path named by a uevent file's device name: `/dev/<name>`; no name
/// means a malformed file.
pub fn host_path_from_devname(devname: Option<String>) -> (r: Result<String, DeviceError>)
    ensures
        match devname.deep_view() {
            Some(n) => r is Ok && r->Ok_0@ == dev_prefix() + n,
            None => r == Err::<String, DeviceError>(DeviceError::SysfsMalformed),
        },
{
    match devname {
        Some(name) => {
            proof {
                reveal_strlit("/dev/");
            }
            let mut path = string_of("/dev/");
            path.append(name.as_str());
            assert(path@ =~= dev_prefix() + name@);
            Ok(path)
        },
        None => Err(DeviceError::SysfsMalformed),
    }
}

/// The host path of a device whose container path is `container_path` and
/// whose type is `dev_type`, given what reading its uevent file gave.
pub open spec fn host_path_outcome(
    container_path: Seq<char>,
    dev_type: Seq<char>,
    read: UeventRead,
) -> Result<Seq<char>, DeviceError> {
    if container_path.len() == 0 {
        Err(DeviceError::EmptyPath)
    } else if sysfs_component(dev_type) is None {
        Ok(Seq::empty())
    } else {
        match read {
            UeventRead::NotFound => Ok(container_path),
            UeventRead::Failed(e) => Err(DeviceError::SysfsError(e)),
            UeventRead::Contents(text) => match ini_general_value(text@, devname_key()) {
                Some(n) => Ok(dev_prefix() + n),
                None => Err(DeviceError::SysfsMalformed),
            },
        }
    }
}

/// The host path of the device: none needed for a type with no sysfs
/// directory, the container path when the uevent file is missing (as for
/// `/dev/fuse`), else `/dev/` and the device name the file gives.
pub fn get_host_path(dev_info: &GenericConfig, uevent: UeventRead) -> (r: Result<String, DeviceError>)
    ensures
        match host_path_outcome(dev_info@.container_path, dev_info@.dev_type, uevent) {
            Ok(p) => r is Ok && r->Ok_0@ == p,
            Err(e) => r == Err::<String, DeviceError>(e),
        },
{
    if dev_info.container_path.as_str().unicode_len() == 0 {
        return Err(DeviceError::EmptyPath);
    }
    if sysfs_component_of(dev_info.dev_type.as_str()).is_none() {
        return Ok(String::new());
    }
    match uevent {
        UeventRead::NotFound => Ok(dev_info.container_path.clone()),
        UeventRead::Failed(e) => Err(DeviceError::SysfsError(e)),
        UeventRead::Contents(text) => {
            proof {
                reveal_strlit("DEVNAME");
            }
            assert("DEVNAME"@ =~= devname_key());
            host_path_from_devname(ini_value(text.as_str(), "DEVNAME"))
        },
    }
}

/// Settles the host path of a device whose device numbers are set, from what
/// reading its uevent file gave; a device with neither number set keeps its
/// host path. On an error the descriptor is left as it was.
pub fn resolve_host_path(dev_info: &mut GenericConfig, uevent: UeventRead) -> (r: Result<(), DeviceError>)
    ensures
        !looks_up_host_path(old(dev_info).major, old(dev_info).minor) ==> r is Ok && final(dev_info)@
            == old(dev_info)@,
        looks_up_host_path(old(dev_info).major, old(dev_info).minor) ==> match host_path_outcome(
            old(dev_info)@.container_path,
            old(dev_info)@.dev_type,
            uevent,
        ) {
            Ok(p) => r is Ok && final(dev_info)@ == (crate::generic::GenericConfigView {
                host_path: p,
                ..old(dev_info)@
            }),
            Err(e) => r == Err::<(), DeviceError>(e) && final(dev_info)@ == old(dev_info)@,
        },
{
    if dev_info.major != 0 || dev_info.minor != 0 {
        match get_host_path(dev_info, uevent) {
            Ok(p) => {
                dev_info.host_path = p;
                Ok(())
            },
            Err(e) => Err(e),
        }
    } else {
        Ok(())
    }
}

} // verus!
