//! Per-request preferences: constraints, overrides, name-conversion and
//! configurable-string switches.

use vstd::prelude::*;

use crate::constraints::Constraints;
use crate::json::JsonValue;
use crate::serde_support::{parse_json, parsed_json};

verus! {

/// Asks a request to read and fill the provider's cache.
pub struct CacheOptions {}

/// Preferences when getting options.
pub struct GetOptionsPreferences {
    /// Allows resolving configurable strings. Off by default.
    pub are_configurable_strings_enabled: bool,
    /// The constraints document that feature conditions are read against.
    pub constraints: Option<Constraints>,
    /// Overrides to layer on top of the composed configuration.
    pub overrides: Option<JsonValue>,
    /// Keeps the given feature names as they are instead of mapping them to
    /// canonical feature names. Off by default.
    pub skip_feature_name_conversion: bool,
}

impl GetOptionsPreferences {
    /// Everything off: no constraints, no overrides, canonical name
    /// conversion on, configurable strings off.
    pub fn new() -> (r: Self)
        ensures
            !r.are_configurable_strings_enabled,
            r.constraints is None,
            r.overrides is None,
            !r.skip_feature_name_conversion,
    {
        Self {
            are_configurable_strings_enabled: false,
            constraints: None,
            overrides: None,
            skip_feature_name_conversion: false,
        }
    }

    /// Well-formed: every held document is in canonical form.
    pub open spec fn wf(self) -> bool {
        &&& match self.constraints {
            Some(c) => c.constraints@.wf(),
            None => true,
        }
        &&& match self.overrides {
            Some(o) => o@.wf(),
            None => true,
        }
    }

    /// The constraints document, or the given default when absent.
    pub open spec fn spec_constraints_or(self, default: crate::json::Json) -> crate::json::Json {
        match self.constraints {
            Some(c) => c.constraints@,
            None => default,
        }
    }

    pub fn set_constraints(&mut self, constraints: Option<JsonValue>)
        ensures
            final(self).constraints matches Some(c) <==> constraints matches Some(v),
            final(self).constraints matches Some(c) ==> constraints matches Some(v) && c.constraints
                == v,
            final(self).are_configurable_strings_enabled == old(
                self,
            ).are_configurable_strings_enabled,
            final(self).overrides == old(self).overrides,
            final(self).skip_feature_name_conversion == old(self).skip_feature_name_conversion,
    {
        self.constraints = match constraints {
            Some(c) => Some(Constraints { constraints: c }),
            None => None,
        };
    }

    /// Parses and installs a constraints document from JSON text; text that
    /// does not parse is rejected and changes nothing.
    pub fn set_constraints_json(&mut self, constraints: Option<&str>) -> (r: Result<(), String>)
        ensures
            match constraints {
                Some(s) => {
                    &&& (r is Ok <==> parsed_json(s@) is Some)
                    &&& r is Ok ==> (final(self).constraints matches Some(c) && Some(
                        c.constraints@,
                    ) == parsed_json(s@) && c.constraints@.wf())
                    &&& r is Err ==> *final(self) == *old(self)
                },
                None => r is Ok && final(self).constraints is None,
            },
            final(self).are_configurable_strings_enabled == old(
                self,
            ).are_configurable_strings_enabled,
            final(self).overrides == old(self).overrides,
            final(self).skip_feature_name_conversion == old(self).skip_feature_name_conversion,
    {
        match constraints {
            Some(s) => match parse_json(s) {
                Ok(v) => {
                    self.constraints = Some(Constraints { constraints: v });
                    Ok(())
                },
                Err(e) => Err(e),
            },
            None => {
                self.constraints = None;
                Ok(())
            },
        }
    }

    /// Parses and installs an overrides document from JSON text; text that
    /// does not parse is rejected and changes nothing.
    pub fn set_overrides_json(&mut self, overrides: Option<&str>) -> (r: Result<(), String>)
        ensures
            match overrides {
                Some(s) => {
                    &&& (r is Ok <==> parsed_json(s@) is Some)
                    &&& r is Ok ==> (final(self).overrides matches Some(o) && Some(o@)
                        == parsed_json(s@) && o@.wf())
                    &&& r is Err ==> *final(self) == *old(self)
                },
                None => r is Ok && final(self).overrides is None,
            },
            final(self).are_configurable_strings_enabled == old(
                self,
            ).are_configurable_strings_enabled,
            final(self).constraints == old(self).constraints,
            final(self).skip_feature_name_conversion == old(self).skip_feature_name_conversion,
    {
        match overrides {
            Some(s) => match parse_json(s) {
                Ok(v) => {
                    self.overrides = Some(v);
                    Ok(())
                },
                Err(e) => Err(e),
            },
            None => {
                self.overrides = None;
                Ok(())
            },
        }
    }

    pub fn set_skip_feature_name_conversion(&mut self, skip: bool)
        ensures
            final(self).skip_feature_name_conversion == skip,
            final(self).are_configurable_strings_enabled == old(
                self,
            ).are_configurable_strings_enabled,
            final(self).constraints == old(self).constraints,
            final(self).overrides == old(self).overrides,
    {
        self.skip_feature_name_conversion = skip;
    }
}

impl Default for GetOptionsPreferences {
    fn default() -> (r: Self)
        ensures
            !r.are_configurable_strings_enabled,
            r.constraints is None,
            r.overrides is None,
            !r.skip_feature_name_conversion,
    {
        Self::new()
    }
}

impl Clone for GetOptionsPreferences {
    fn clone(&self) -> (r: Self)
        ensures
            r.are_configurable_strings_enabled == self.are_configurable_strings_enabled,
            r.skip_feature_name_conversion == self.skip_feature_name_conversion,
            (r.constraints matches Some(c) <==> self.constraints matches Some(d)),
            r.constraints matches Some(c) ==> self.constraints matches Some(d) && c.constraints@
                == d.constraints@,
            (r.overrides matches Some(o) <==> self.overrides matches Some(p)),
            r.overrides matches Some(o) ==> self.overrides matches Some(p) && o@ == p@,
    {
        Self {
            are_configurable_strings_enabled: self.are_configurable_strings_enabled,
            constraints: match &self.constraints {
                Some(c) => Some(c.clone()),
                None => None,
            },
            overrides: match &self.overrides {
                Some(o) => Some(o.clone()),
                None => None,
            },
            skip_feature_name_conversion: self.skip_feature_name_conversion,
        }
    }
}

} // verus!
