//! Dynamic host/session/operator values layered over reviewed handset facts.

use vstd::prelude::*;
use crate::device::{blank, lookup_text, SystemFragment};
use crate::platform::PlatformError;
use crate::table::{entry_value, find_key, key_index, names_ascending, put_entry};
use crate::text::{str_chars, trim};

verus! {

fn is_blank(s: &str) -> (r: bool)
    ensures
        r == blank(s@),
{
    let chars = str_chars(s);
    let (a, b) = trim(&chars, 0, chars.len());
    a == b
}

/// Host values over the device's system defaults. A property set to `None`
/// is an explicit removal: it makes a device-default property absent. Kept
/// apart from [`SystemFragment`] so that a test harness or host configuration
/// cannot silently become handset evidence. Properties are kept in ascending
/// name order.
#[derive(Debug, PartialEq, Eq)]
pub struct SystemOverrides {
    default_charset: Option<String>,
    properties: Vec<(String, Option<String>)>,
}

impl Default for SystemOverrides {
    fn default() -> (r: SystemOverrides)
        ensures
            r.charset() is None,
            r.property_entries().len() == 0,
    {
        SystemOverrides { default_charset: None, properties: Vec::new() }
    }
}

/// The overrides' value for `name`: `Some(None)` for a removal.
pub open spec fn override_of(entries: Seq<(String, Option<String>)>, name: Seq<char>) -> Option<Option<Seq<char>>> {
    match key_index(entries, name, 0) {
        Some(k) => Some(
            match entries[k].1 {
                Some(v) => Some(v@),
                None => None,
            },
        ),
        None => None,
    }
}

impl SystemOverrides {
    pub closed spec fn charset(&self) -> Option<String> {
        self.default_charset
    }

    pub closed spec fn property_entries(&self) -> Seq<(String, Option<String>)> {
        self.properties@
    }

    /// The invariant: property names ascend.
    pub open spec fn wf(&self) -> bool {
        names_ascending(self.property_entries())
    }

    /// Override the platform default charset; a blank name is refused.
    pub fn set_default_charset(&mut self, charset: &str) -> (r: Result<(), PlatformError>)
        ensures
            final(self).property_entries() == old(self).property_entries(),
            blank(charset@) ==> (r matches Err(PlatformError::Config(m)) && m@
                == "system default-charset override must not be empty"@) && final(self).charset() == old(
                self,
            ).charset(),
            !blank(charset@) ==> r is Ok && (final(self).charset() matches Some(c) && c@ == charset@),
    {
        if is_blank(charset) {
            return Err(PlatformError::Config(String::from_str("system default-charset override must not be empty")));
        }
        self.default_charset = Some(String::from_str(charset));
        Ok(())
    }

    pub fn clear_default_charset(&mut self)
        ensures
            final(self).charset() is None,
            final(self).property_entries() == old(self).property_entries(),
    {
        self.default_charset = None;
    }

    fn put(&mut self, name: &str, value: Option<String>)
        requires
            old(self).wf(),
        ensures
            final(self).wf(),
            final(self).charset() == old(self).charset(),
            forall|n: Seq<char>| #[trigger] override_of(final(self).property_entries(), n) == if n == name@ {
                Some(
                    match value {
                        Some(v) => Some(v@),
                        None => None,
                    },
                )
            } else {
                override_of(old(self).property_entries(), n)
            },
    {
        let ghost before = self.properties@;
        let ghost v = value;
        put_entry(&mut self.properties, name, value);
        proof {
            let after = self.properties@;
            assert forall|n: Seq<char>| #[trigger] override_of(after, n) == if n == name@ {
                Some(
                    match v {
                        Some(x) => Some(x@),
                        None => None,
                    },
                )
            } else {
                override_of(before, n)
            } by {
                assert(entry_value(after, n) == if n == name@ {
                    Some(v)
                } else {
                    entry_value(before, n)
                });
            }
        }
    }

    /// Set a property; a blank name is refused.
    pub fn set_property(&mut self, name: &str, value: &str) -> (r: Result<(), PlatformError>)
        requires
            old(self).wf(),
        ensures
            final(self).wf(),
            final(self).charset() == old(self).charset(),
            blank(name@) ==> (r matches Err(PlatformError::Config(m)) && m@
                == "system-property override name must not be empty"@) && final(self).property_entries() == old(
                self,
            ).property_entries(),
            !blank(name@) ==> r is Ok && forall|n: Seq<char>| #[trigger] override_of(final(self).property_entries(), n)
                == if n == name@ {
                Some(Some(value@))
            } else {
                override_of(old(self).property_entries(), n)
            },
    {
        if is_blank(name) {
            return Err(PlatformError::Config(String::from_str("system-property override name must not be empty")));
        }
        self.put(name, Some(String::from_str(value)));
        Ok(())
    }

    /// Remove a device-default property for this session; a blank name is
    /// refused.
    pub fn remove_property(&mut self, name: &str) -> (r: Result<(), PlatformError>)
        requires
            old(self).wf(),
        ensures
            final(self).wf(),
            final(self).charset() == old(self).charset(),
            blank(name@) ==> (r matches Err(PlatformError::Config(m)) && m@
                == "system-property override name must not be empty"@) && final(self).property_entries() == old(
                self,
            ).property_entries(),
            !blank(name@) ==> r is Ok && forall|n: Seq<char>| #[trigger] override_of(final(self).property_entries(), n)
                == if n == name@ {
                Some(None::<Seq<char>>)
            } else {
                override_of(old(self).property_entries(), n)
            },
    {
        if is_blank(name) {
            return Err(PlatformError::Config(String::from_str("system-property override name must not be empty")));
        }
        self.put(name, None);
        Ok(())
    }

    pub fn default_charset(&self) -> (r: Option<&str>)
        ensures
            match self.charset() {
                Some(c) => r matches Some(x) && x@ == c@,
                None => r is None,
            },
    {
        match &self.default_charset {
            Some(c) => Some(c.as_str()),
            None => None,
        }
    }

    /// The override for `name`: `Some(None)` for a removal, `None` when the
    /// overrides say nothing of it.
    pub fn property(&self, name: &str) -> (r: Option<Option<&str>>)
        ensures
            match override_of(self.property_entries(), name@) {
                Some(Some(v)) => r matches Some(Some(x)) && x@ == v,
                Some(None) => r == Some(None::<&str>),
                None => r is None,
            },
    {
        match find_key(&self.properties, name) {
            Some(k) => match &self.properties[k].1 {
                Some(v) => Some(Some(v.as_str())),
                None => Some(None),
            },
            None => None,
        }
    }
}

/// The resolved Java ME system environment for one emulated handset session.
#[derive(Debug)]
pub struct SystemEnvironment {
    device_defaults: SystemFragment,
    overrides: SystemOverrides,
}

impl SystemEnvironment {
    pub closed spec fn defaults(&self) -> SystemFragment {
        self.device_defaults
    }

    pub closed spec fn layered(&self) -> SystemOverrides {
        self.overrides
    }

    /// The device's defaults, with no overrides.
    pub fn from_device(device_defaults: &SystemFragment) -> (r: Self)
        ensures
            r.defaults().default_charset == device_defaults.default_charset,
            r.defaults().properties@ == device_defaults.properties@,
            r.layered().charset() is None,
            r.layered().property_entries().len() == 0,
    {
        SystemEnvironment { device_defaults: device_defaults.clone(), overrides: SystemOverrides::default() }
    }

    /// The device's defaults under the session's overrides.
    pub fn with_overrides(device_defaults: &SystemFragment, overrides: SystemOverrides) -> (r: Self)
        ensures
            r.defaults().default_charset == device_defaults.default_charset,
            r.defaults().properties@ == device_defaults.properties@,
            r.layered() == overrides,
    {
        SystemEnvironment { device_defaults: device_defaults.clone(), overrides }
    }

    /// The charset an override names, else the device's.
    pub fn default_charset(&self) -> (r: &str)
        ensures
            r@ == match self.layered().charset() {
                Some(c) => c@,
                None => self.defaults().default_charset@,
            },
    {
        match self.overrides.default_charset() {
            Some(c) => c,
            None => self.device_defaults.default_charset.as_str(),
        }
    }

    /// The resolved `System.getProperty` value: an override wins, and an
    /// explicit removal is absent; otherwise the device default.
    pub fn property(&self, name: &str) -> (r: Option<&str>)
        ensures
            match override_of(self.layered().property_entries(), name@) {
                Some(Some(v)) => r matches Some(x) && x@ == v,
                Some(None) => r is None,
                None => match lookup_text(self.defaults().properties@, name@) {
                    Some(v) => r matches Some(x) && x@ == v@,
                    None => r is None,
                },
            },
    {
        match self.overrides.property(name) {
            Some(value) => value,
            None => self.device_defaults.property(name),
        }
    }

    pub fn device_defaults(&self) -> (r: &SystemFragment)
        ensures
            *r == self.defaults(),
    {
        &self.device_defaults
    }

    pub fn overrides(&self) -> (r: &SystemOverrides)
        ensures
            *r == self.layered(),
    {
        &self.overrides
    }
}

} // verus!
