//! Android system properties.
//!
//! A platform without system properties is told apart from one that has them:
//! there each call is answered as unsupported.

use vstd::prelude::*;

use crate::fs::names_no_file;
use crate::reactor::Delay;
use crate::text;
use crate::text::from_utf8_lossy;

verus! {

/// The number that stands for a failure in place of a serial.
pub const ANDROID_PROP_SERIAL_ERROR: u32 = u32::MAX;

/// What a property handle points to.
#[derive(Debug, Clone, Copy)]
pub struct AndroidPropertyInfoOpaque {}

/// A handle of a property: an address, zero for none.
#[derive(Debug, Clone, Copy, PartialEq, Eq, Structural)]
pub struct AndroidPropertyInfo {
    pub raw: usize,
}

impl AndroidPropertyInfo {
    /// The address.
    pub fn as_ptr(self) -> (r: usize)
        ensures
            r == self.raw,
    {
        self.raw
    }
}

/// A property as it was read.
#[derive(Debug, Clone, PartialEq, Eq)]
pub struct AndroidPropertyValue {
    pub name: String,
    pub value: String,
    pub serial: u32,
}

/// Why an operation on a property failed.
#[derive(Debug, Clone, Copy, PartialEq, Eq)]
pub enum PropertyError {
    /// An argument cannot be used.
    InvalidInput(&'static str),
    /// The platform has no system properties.
    Unsupported(&'static str),
    /// The platform failed with a code.
    Os(i32),
    /// Something else went wrong.
    Other(&'static str),
}

/// A store of properties.
pub trait AndroidPropertyStore {
    /// The value of a property.
    fn get(&self, key: &str) -> Option<String>;

    /// Set a property.
    fn set(&self, key: &str, value: &str) -> Result<(), PropertyError>;
}

pub open spec fn unsupported() -> PropertyError {
    PropertyError::Unsupported("android system properties unavailable on this platform")
}

fn android_properties_unsupported() -> (r: PropertyError)
    ensures
        r == unsupported(),
{
    PropertyError::Unsupported("android system properties unavailable on this platform")
}

/// Refuse a text that a NUL would cut off.
pub fn validate_property_c_string(value: &str) -> (r: Result<(), PropertyError>)
    ensures
        r == (if value@.contains('\0') {
            Err(PropertyError::InvalidInput("embedded NUL"))
        } else {
            Ok(())
        }),
{
    if names_no_file(value) {
        Err(PropertyError::InvalidInput("embedded NUL"))
    } else {
        Ok(())
    }
}

/// What the platform replied to a request for a value: its length, and its
/// bytes.
#[derive(Debug, Clone, Copy)]
pub struct PropertyGet<'a> {
    pub len: i32,
    pub value: &'a [u8],
}

/// The value of the property `key`, if it has one. `got` is `None` where the
/// platform has no system properties.
pub open spec fn property_value(key: Seq<char>, got: Option<PropertyGet<'_>>) -> Option<Seq<char>> {
    match got {
        Some(g) => if key.contains('\0') || g.len <= 0 {
            None
        } else {
            Some(text::lossy(g.value@))
        },
        None => None,
    }
}

/// The outcome of setting `key` to `value`. `status` is what the platform
/// replied; `None` where it has no system properties.
pub open spec fn property_set(key: Seq<char>, value: Seq<char>, status: Option<i32>) -> Result<
    (),
    PropertyError,
> {
    if key.contains('\0') || value.contains('\0') {
        Err(PropertyError::InvalidInput("embedded NUL"))
    } else {
        match status {
            None => Err(unsupported()),
            Some(s) => if s == 0 {
                Ok(())
            } else {
                Err(PropertyError::Os(s))
            },
        }
    }
}

/// The store of the platform.
#[derive(Debug, Clone, Copy)]
pub struct SystemAndroidPropertyStore;

impl SystemAndroidPropertyStore {
    /// The value of a property.
    pub fn get(&self, key: &str, got: Option<PropertyGet<'_>>) -> (r: Option<String>)
        ensures
            text::opt_text(r) == property_value(key@, got),
    {
        match got {
            Some(g) => {
                if names_no_file(key) || g.len <= 0 {
                    None
                } else {
                    Some(from_utf8_lossy(g.value))
                }
            },
            None => None,
        }
    }

    /// Set a property.
    pub fn set(&self, key: &str, value: &str, status: Option<i32>) -> (r: Result<
        (),
        PropertyError,
    >)
        ensures
            r == property_set(key@, value@, status),
    {
        validate_property_c_string(key)?;
        validate_property_c_string(value)?;
        match status {
            None => Err(android_properties_unsupported()),
            Some(s) => if s == 0 {
                Ok(())
            } else {
                Err(PropertyError::Os(s))
            },
        }
    }
}

/// The value of a property.
pub fn android_property_get(key: &str, got: Option<PropertyGet<'_>>) -> (r: Option<String>)
    ensures
        text::opt_text(r) == property_value(key@, got),
{
    SystemAndroidPropertyStore.get(key, got)
}

/// Set a property.
pub fn android_property_set(key: &str, value: &str, status: Option<i32>) -> (r: Result<
    (),
    PropertyError,
>)
    ensures
        r == property_set(key@, value@, status),
{
    SystemAndroidPropertyStore.set(key, value, status)
}

/// The handle of a property, from the address that the platform replied.
pub fn android_property_find(key: &str, raw: usize) -> (r: Option<AndroidPropertyInfo>)
    ensures
        r == (if key@.contains('\0') || raw == 0 {
            None
        } else {
            Some(AndroidPropertyInfo { raw })
        }),
{
    if names_no_file(key) || raw == 0 {
        None
    } else {
        Some(AndroidPropertyInfo { raw })
    }
}

/// A property as it was read. `got` is `None` where the platform has no system
/// properties, and holds nothing where it did not call back.
pub fn android_property_read(
    property: AndroidPropertyInfo,
    got: Option<Option<AndroidPropertyValue>>,
) -> (r: Result<AndroidPropertyValue, PropertyError>)
    ensures
        r == (match got {
            None => Err(unsupported()),
            Some(value) => if property.raw == 0 {
                Err(PropertyError::InvalidInput("invalid android property info"))
            } else {
                match value {
                    Some(v) => Ok(v),
                    None => Err(
                        PropertyError::Other("android property read callback did not run"),
                    ),
                }
            },
        }),
{
    match got {
        None => Err(android_properties_unsupported()),
        Some(value) => {
            if property.raw == 0 {
                return Err(PropertyError::InvalidInput("invalid android property info"));
            }
            match value {
                Some(v) => Ok(v),
                None => Err(PropertyError::Other("android property read callback did not run")),
            }
        },
    }
}

/// A serial, unless it stands for a failure, of which `errno` is the code.
pub fn serial_result(serial: u32, errno: i32) -> (r: Result<u32, PropertyError>)
    ensures
        r == (if serial == ANDROID_PROP_SERIAL_ERROR {
            Err(PropertyError::Os(errno))
        } else {
            Ok(serial)
        }),
{
    if serial == ANDROID_PROP_SERIAL_ERROR {
        Err(PropertyError::Os(errno))
    } else {
        Ok(serial)
    }
}

/// The serial of a property, from what the platform replied and the code it
/// left; `None` where it has no system properties.
pub fn android_property_serial(property: AndroidPropertyInfo, got: Option<(u32, i32)>) -> (r:
    Result<u32, PropertyError>)
    ensures
        r == (match got {
            None => Err(unsupported()),
            Some((serial, errno)) => if property.raw == 0 {
                Err(PropertyError::InvalidInput("invalid android property info"))
            } else if serial == ANDROID_PROP_SERIAL_ERROR {
                Err(PropertyError::Os(errno))
            } else {
                Ok(serial)
            },
        }),
{
    match got {
        None => Err(android_properties_unsupported()),
        Some((serial, errno)) => {
            if property.raw == 0 {
                return Err(PropertyError::InvalidInput("invalid android property info"));
            }
            serial_result(serial, errno)
        },
    }
}

/// A timeout as seconds and nanoseconds. One that does not fit is refused.
pub fn duration_to_timespec(timeout: Delay) -> (r: Result<(i64, i64), PropertyError>)
    ensures
        r == (if timeout.secs > i64::MAX {
            Err(PropertyError::InvalidInput("timeout too large"))
        } else {
            Ok((timeout.secs as i64, timeout.nanos as i64))
        }),
{
    if timeout.secs > i64::MAX as u64 {
        Err(PropertyError::InvalidInput("timeout too large"))
    } else {
        Ok((timeout.secs as i64, timeout.nanos as i64))
    }
}

/// What came of a wait for a change of a property: its new serial, or nothing
/// where the time ran out. `got` is `None` where the platform has no system
/// properties. A wait that cannot be made is refused before the platform is
/// asked.
pub fn android_property_wait(
    property: AndroidPropertyInfo,
    timeout: Option<Delay>,
    got: Option<Option<u32>>,
) -> (r: Result<Option<u32>, PropertyError>)
    ensures
        r == (if got is Some && property.raw == 0 {
            Err(PropertyError::InvalidInput("invalid android property info"))
        } else if timeout is Some && timeout->0.secs > i64::MAX {
            Err(PropertyError::InvalidInput("timeout too large"))
        } else {
            match got {
                None => Err(unsupported()),
                Some(serial) => Ok(serial),
            }
        }),
{
    if got.is_some() && property.raw == 0 {
        return Err(PropertyError::InvalidInput("invalid android property info"));
    }
    if let Some(t) = timeout {
        match duration_to_timespec(t) {
            Ok(_) => {},
            Err(e) => return Err(e),
        }
    }
    match got {
        None => Err(android_properties_unsupported()),
        Some(serial) => Ok(serial),
    }
}

// ---------------------------------------------------------------------------
// Laws
// ---------------------------------------------------------------------------

/// A property has a value exactly if its key can be asked for and something came
/// back; the value is all of that.
pub proof fn law_values(key: Seq<char>, got: PropertyGet<'_>)
    ensures
        property_value(key, None) is None,
        property_value(key, Some(got)) is Some <==> !key.contains('\0') && got.len > 0,
        !key.contains('\0') && got.len > 0 ==> property_value(key, Some(got)) == Some(
            text::lossy(got.value@),
        ),
{
}

/// A property is set exactly if the platform says so; a NUL in the key or the
/// value is refused, and any other status is told.
pub proof fn law_settings(key: Seq<char>, value: Seq<char>, status: Option<i32>)
    ensures
        property_set(key, value, status) is Ok <==> !key.contains('\0') && !value.contains('\0')
            && status == Some(0i32),
        key.contains('\0') || value.contains('\0') ==> property_set(
            key,
            value,
            status,
        )->Err_0 is InvalidInput,
        !key.contains('\0') && !value.contains('\0') && status is None ==> property_set(
            key,
            value,
            status,
        )->Err_0 is Unsupported,
        !key.contains('\0') && !value.contains('\0') && status is Some && status != Some(0i32)
            ==> property_set(key, value, status) == Err::<(), PropertyError>(
            PropertyError::Os(status->0),
        ),
{
}

} // verus!
