//! The view types handed across language boundaries: plain wrappers over
//! metadata, preferences and watcher options, with optional contents so a
//! binding can construct them before a registry exists.

use vstd::prelude::*;

use crate::json_text::to_json_string;
use crate::metadata::{clone_string_vec, OptionsMetadata};
use crate::preferences::GetOptionsPreferences;
use crate::serde_support::parsed_json;
use crate::watcher::WatcherOptions;

verus! {

/// Information about a group of options, as a binding sees it.
pub struct JsOptionsMetadata {
    inner: Option<OptionsMetadata>,
}

impl JsOptionsMetadata {
    pub closed spec fn spec_inner(self) -> Option<OptionsMetadata> {
        self.inner
    }

    pub fn new() -> (r: Self)
        ensures
            r.spec_inner() is None,
    {
        Self { inner: None }
    }

    pub fn aliases(&self) -> (r: Option<Vec<String>>)
        ensures
            match r {
                Some(a) => self.spec_inner() matches Some(m) && m.aliases matches Some(b) && a@
                    == b@,
                None => match self.spec_inner() {
                    Some(m) => m.aliases is None,
                    None => true,
                },
            },
    {
        match &self.inner {
            Some(m) => match &m.aliases {
                Some(a) => Some(clone_string_vec(a)),
                None => None,
            },
            None => None,
        }
    }

    /// The canonical names of features that import this one.
    pub fn dependents(&self) -> (r: Option<Vec<String>>)
        ensures
            match r {
                Some(a) => self.spec_inner() matches Some(m) && m.dependents matches Some(b) && a@
                    == b@,
                None => match self.spec_inner() {
                    Some(m) => m.dependents is None,
                    None => true,
                },
            },
    {
        match &self.inner {
            Some(m) => match &m.dependents {
                Some(a) => Some(clone_string_vec(a)),
                None => None,
            },
            None => None,
        }
    }

    pub fn name(&self) -> (r: Option<String>)
        ensures
            match r {
                Some(n) => self.spec_inner() matches Some(m) && m.name matches Some(b) && n == b,
                None => match self.spec_inner() {
                    Some(m) => m.name is None,
                    None => true,
                },
            },
    {
        match &self.inner {
            Some(m) => match &m.name {
                Some(n) => Some(n.clone()),
                None => None,
            },
            None => None,
        }
    }

    pub fn owners(&self) -> (r: Option<String>)
        ensures
            match r {
                Some(n) => self.spec_inner() matches Some(m) && m.owners matches Some(b) && n
                    == b,
                None => match self.spec_inner() {
                    Some(m) => m.owners is None,
                    None => true,
                },
            },
    {
        match &self.inner {
            Some(m) => match &m.owners {
                Some(n) => Some(n.clone()),
                None => None,
            },
            None => None,
        }
    }

    pub fn path(&self) -> (r: Option<String>)
        ensures
            match r {
                Some(n) => self.spec_inner() matches Some(m) && m.path matches Some(b) && n == b,
                None => match self.spec_inner() {
                    Some(m) => m.path is None,
                    None => true,
                },
            },
    {
        match &self.inner {
            Some(m) => match &m.path {
                Some(n) => Some(n.clone()),
                None => None,
            },
            None => None,
        }
    }
}

/// Wraps metadata for a binding.
pub fn to_js_options_metadata(metadata: OptionsMetadata) -> (r: JsOptionsMetadata)
    ensures
        r.spec_inner() == Some(metadata),
{
    JsOptionsMetadata { inner: Some(metadata) }
}

/// Preferences when getting options, as a binding sees them.
pub struct JsGetOptionsPreferences {
    pub inner: GetOptionsPreferences,
}

impl JsGetOptionsPreferences {
    pub fn new() -> (r: Self)
        ensures
            !r.inner.are_configurable_strings_enabled,
            r.inner.constraints is None,
            r.inner.overrides is None,
            !r.inner.skip_feature_name_conversion,
    {
        Self { inner: GetOptionsPreferences::new() }
    }

    /// Indicates if configurable strings are enabled.
    pub fn are_configurable_strings_enabled(&self) -> (r: bool)
        ensures
            r == self.inner.are_configurable_strings_enabled,
    {
        self.inner.are_configurable_strings_enabled
    }

    /// Enables configurable strings, which are off by default.
    pub fn enable_configurable_strings(&mut self)
        ensures
            final(self).inner.are_configurable_strings_enabled,
            final(self).inner.constraints == old(self).inner.constraints,
            final(self).inner.overrides == old(self).inner.overrides,
            final(self).inner.skip_feature_name_conversion == old(
                self,
            ).inner.skip_feature_name_conversion,
    {
        self.inner.are_configurable_strings_enabled = true;
    }

    /// Disables configurable strings.
    pub fn disable_configurable_strings(&mut self)
        ensures
            !final(self).inner.are_configurable_strings_enabled,
            final(self).inner.constraints == old(self).inner.constraints,
            final(self).inner.overrides == old(self).inner.overrides,
            final(self).inner.skip_feature_name_conversion == old(
                self,
            ).inner.skip_feature_name_conversion,
    {
        self.inner.are_configurable_strings_enabled = false;
    }

    /// Parses and installs constraints from JSON text.
    pub fn set_constraints_json(&mut self, constraints_json: Option<&str>) -> (r: Result<
        (),
        String,
    >)
        ensures
            match constraints_json {
                Some(s) => {
                    &&& (r is Ok <==> parsed_json(s@) is Some)
                    &&& r is Ok ==> (final(self).inner.constraints matches Some(c) && Some(
                        c.constraints@,
                    ) == parsed_json(s@) && c.constraints@.wf())
                    &&& r is Err ==> *final(self) == *old(self)
                },
                None => r is Ok && final(self).inner.constraints is None,
            },
            final(self).inner.are_configurable_strings_enabled == old(
                self,
            ).inner.are_configurable_strings_enabled,
            final(self).inner.overrides == old(self).inner.overrides,
            final(self).inner.skip_feature_name_conversion == old(
                self,
            ).inner.skip_feature_name_conversion,
    {
        self.inner.set_constraints_json(constraints_json)
    }

    /// Parses and installs overrides from JSON text.
    pub fn set_overrides_json(&mut self, overrides_json: Option<&str>) -> (r: Result<(), String>)
        ensures
            match overrides_json {
                Some(s) => {
                    &&& (r is Ok <==> parsed_json(s@) is Some)
                    &&& r is Ok ==> (final(self).inner.overrides matches Some(o) && Some(o@)
                        == parsed_json(s@) && o@.wf())
                    &&& r is Err ==> *final(self) == *old(self)
                },
                None => r is Ok && final(self).inner.overrides is None,
            },
            final(self).inner.are_configurable_strings_enabled == old(
                self,
            ).inner.are_configurable_strings_enabled,
            final(self).inner.constraints == old(self).inner.constraints,
            final(self).inner.skip_feature_name_conversion == old(
                self,
            ).inner.skip_feature_name_conversion,
    {
        self.inner.set_overrides_json(overrides_json)
    }

    pub fn set_skip_feature_name_conversion(&mut self, skip_feature_name_conversion: bool)
        ensures
            final(self).inner.skip_feature_name_conversion == skip_feature_name_conversion,
            final(self).inner.constraints == old(self).inner.constraints,
            final(self).inner.overrides == old(self).inner.overrides,
            final(self).inner.are_configurable_strings_enabled == old(
                self,
            ).inner.are_configurable_strings_enabled,
    {
        self.inner.set_skip_feature_name_conversion(skip_feature_name_conversion);
    }
}

/// Options for configuring a watcher, as a binding sees them.
pub struct JsWatcherOptions {
    pub inner: WatcherOptions,
}

impl JsWatcherOptions {
    pub fn new() -> (r: Self)
        ensures
            r.inner.debounce_duration_ms == 1000,
    {
        Self { inner: WatcherOptions::default() }
    }

    /// Sets the debounce window in milliseconds.
    pub fn set_debounce_duration_ms(&mut self, debounce_duration_ms: u64)
        ensures
            final(self).inner.debounce_duration_ms == debounce_duration_ms,
    {
        self.inner.debounce_duration_ms = debounce_duration_ms;
    }

    /// The debounce window in milliseconds.
    pub fn get_debounce_duration_ms(&self) -> (r: u64)
        ensures
            r == self.inner.debounce_duration_ms,
    {
        self.inner.debounce_duration_ms
    }
}

/// Input to a watcher listener: the set of paths that changed.
pub struct JsOptionsWatcherListenerEvent {
    pub changed_paths: Vec<String>,
}

} // verus!
