//! The configuration record: the single mutable settings value of the
//! service, together with its mathematical view and its documented defaults.

use vstd::prelude::*;

verus! {

/// Mathematical value of a configuration record: the two strings as
/// character sequences and the idle timeout in seconds.
pub ghost struct ConfigView {
    pub home_assistant_url: Seq<char>,
    pub photos_folder: Seq<char>,
    pub idle_timeout_seconds: u32,
}

/// The runtime configuration of the dashboard service.
///
/// `home_assistant_url` is an opaque URL handed to the browser client;
/// `photos_folder` is the directory whose image files are served as the
/// photo gallery; `idle_timeout_seconds` is displayed by the client and not
/// enforced server-side. Every field is replaced as a whole on update; no
/// partial patching exists.
pub struct Config {
    pub home_assistant_url: String,
    pub photos_folder: String,
    pub idle_timeout_seconds: u32,
}

impl View for Config {
    type V = ConfigView;

    open spec fn view(&self) -> ConfigView {
        ConfigView {
            home_assistant_url: self.home_assistant_url@,
            photos_folder: self.photos_folder@,
            idle_timeout_seconds: self.idle_timeout_seconds,
        }
    }
}

impl Clone for Config {
    /// A clone is a deep copy: it denotes the same configuration value.
    fn clone(&self) -> (r: Self)
        ensures
            r@ == self@,
    {
        Config {
            home_assistant_url: self.home_assistant_url.clone(),
            photos_folder: self.photos_folder.clone(),
            idle_timeout_seconds: self.idle_timeout_seconds,
        }
    }
}

/// The documented default configuration, used whenever no persisted
/// configuration can be loaded: a placeholder automation endpoint, the
/// default photo directory, and a 60 second idle timeout.
pub open spec fn spec_default_config() -> ConfigView {
    ConfigView {
        home_assistant_url: "http://homeassistant.local:8123"@,
        photos_folder: "./photos"@,
        idle_timeout_seconds: 60,
    }
}

/// Builds the documented default configuration.
pub fn default_config() -> (r: Config)
    ensures
        r@ == spec_default_config(),
{
    Config {
        home_assistant_url: String::from_str("http://homeassistant.local:8123"),
        photos_folder: String::from_str("./photos"),
        idle_timeout_seconds: 60,
    }
}

} // verus!
