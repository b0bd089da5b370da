//! The configuration of the runtime.

use vstd::prelude::*;
use vstd::string::*;

use crate::collections::{held, texts};
use crate::error::{outcome, Error};

verus! {

// ---- settings of the configuration file ----

#[verifier::external_type_specification]
#[verifier::external_body]
pub struct ExMapping(serde_yaml::Mapping);

/// What a value of the configuration gives, read in each way that it is read.
pub struct SettingView {
    /// As a text that a field of type `String` or `PathBuf` takes.
    pub text: Option<Seq<char>>,
    /// As a list of texts.
    pub list: Option<Seq<Seq<char>>>,
    /// As a plain string.
    pub string: Option<Seq<char>>,
    /// As a number that is not negative.
    pub number: Option<u64>,
}

/// The values of a `serde_yaml::Mapping` that stand under texts.
pub uninterp spec fn settings(mapping: serde_yaml::Mapping) -> Map<Seq<char>, SettingView>;

/// What a string gives.
pub open spec fn string_setting(text: Seq<char>) -> SettingView {
    SettingView { text: Some(text), list: None, string: Some(text), number: None }
}

/// `serde_yaml::Mapping::get` and `serde_yaml::from_value` into a `String`: no
/// value under the key, or the value as a text, or an error.
#[verifier::external_body]
fn read_text(mapping: &serde_yaml::Mapping, key: &str) -> (r: Result<Option<String>, ()>)
    ensures
        match r {
            Ok(None) => !settings(*mapping).contains_key(key@),
            Ok(Some(text)) => settings(*mapping).contains_key(key@) && settings(*mapping)[key@].text
                == Some(text@),
            Err(_) => settings(*mapping).contains_key(key@) && settings(*mapping)[key@].text is None,
        },
{
    mapping.get(key).cloned().map(serde_yaml::from_value).transpose().map_err(|_| ())
}

/// `serde_yaml::Mapping::get` and `serde_yaml::from_value` into a
/// `Vec<String>`: no value under the key, or the value as a list, or an error.
#[verifier::external_body]
fn read_list(mapping: &serde_yaml::Mapping, key: &str) -> (r: Result<Option<Vec<String>>, ()>)
    ensures
        match r {
            Ok(None) => !settings(*mapping).contains_key(key@),
            Ok(Some(list)) => settings(*mapping).contains_key(key@) && settings(*mapping)[key@].list
                == Some(texts(list@)),
            Err(_) => settings(*mapping).contains_key(key@) && settings(*mapping)[key@].list is None,
        },
{
    mapping.get(key).cloned().map(serde_yaml::from_value).transpose().map_err(|_| ())
}

/// `serde_yaml::Mapping::get` and `serde_yaml::Value::as_str`: the value under
/// the key, if it is a string.
#[verifier::external_body]
pub(crate) fn read_string(mapping: &serde_yaml::Mapping, key: &str) -> (r: Option<String>)
    ensures
        held(r) == (if settings(*mapping).contains_key(key@) {
            settings(*mapping)[key@].string
        } else {
            None
        }),
{
    mapping.get(key).and_then(serde_yaml::Value::as_str).map(str::to_string)
}

/// `serde_yaml::Mapping::get` and `serde_yaml::Value::as_u64`: the value under
/// the key, if it is a number that fits.
#[verifier::external_body]
pub(crate) fn read_number(mapping: &serde_yaml::Mapping, key: &str) -> (r: Option<u64>)
    ensures
        r == (if settings(*mapping).contains_key(key@) {
            settings(*mapping)[key@].number
        } else {
            None
        }),
{
    mapping.get(key).and_then(serde_yaml::Value::as_u64)
}

/// `serde_yaml::Mapping::insert` of a string: it stands under the key, and
/// nothing else changes.
#[verifier::external_body]
pub(crate) fn write_string(mapping: &mut serde_yaml::Mapping, key: &str, text: &str)
    ensures
        settings(*final(mapping)) == settings(*old(mapping)).insert(
            key@,
            string_setting(text@),
        ),
{
    let _ = mapping.insert(
        serde_yaml::Value::String(key.to_string()),
        serde_yaml::Value::String(text.to_string()),
    );
}

// ---- the runtime's configuration ----

/// What the shared configuration file says: its common settings, and those that
/// each runtime has of its own.
pub struct CoreSettings {
    pub slug: String,
    pub kubo_rpc_url: String,
    pub extra: serde_yaml::Mapping,
}

/// The configuration of this runtime.
#[derive(Debug)]
pub struct RuntimeConfig {
    pub slug: String,
    pub status_bind: String,
    pub owners: Vec<String>,
    pub acl_file: Option<String>,
    pub kubo_rpc_url: String,
}

/// What a `RuntimeConfig` holds.
#[verifier::ext_equal]
pub struct ConfigView {
    pub slug: Seq<char>,
    pub status_bind: Seq<char>,
    pub owners: Seq<Seq<char>>,
    pub acl_file: Option<Seq<char>>,
    pub kubo_rpc_url: Seq<char>,
}

impl View for RuntimeConfig {
    type V = ConfigView;

    open spec fn view(&self) -> ConfigView {
        ConfigView {
            slug: self.slug@,
            status_bind: self.status_bind@,
            owners: texts(self.owners@),
            acl_file: held(self.acl_file),
            kubo_rpc_url: self.kubo_rpc_url@,
        }
    }
}

pub open spec fn default_status_address() -> Seq<char> {
    "127.0.0.1:5667"@
}

fn default_status_bind() -> (r: String)
    ensures
        r@ == default_status_address(),
{
    "127.0.0.1:5667".to_owned()
}

impl Default for RuntimeConfig {
    fn default() -> (r: RuntimeConfig)
        ensures
            r@ == (ConfigView {
                slug: "irc"@,
                status_bind: default_status_address(),
                owners: Seq::empty(),
                acl_file: None,
                kubo_rpc_url: "http://127.0.0.1:5001"@,
            }),
    {
        let r = RuntimeConfig {
            slug: "irc".to_owned(),
            status_bind: default_status_bind(),
            owners: Vec::new(),
            acl_file: None,
            kubo_rpc_url: "http://127.0.0.1:5001".to_owned(),
        };
        assert(r@.owners =~= Seq::<Seq<char>>::empty());
        r
    }
}

/// Whether a setting is there but cannot be read.
pub open spec fn unreadable(
    extra: Map<Seq<char>, SettingView>,
    key: Seq<char>,
    list: bool,
) -> bool {
    extra.contains_key(key) && if list {
        extra[key].list is None
    } else {
        extra[key].text is None
    }
}

pub open spec fn parse_error(key: Seq<char>) -> Seq<char> {
    "parsing config key '"@ + key + "'"@
}

/// The configuration of this runtime, or the first setting that cannot be read.
pub open spec fn config_of(
    slug: Seq<char>,
    kubo_rpc_url: Seq<char>,
    extra: Map<Seq<char>, SettingView>,
) -> Result<ConfigView, Seq<char>> {
    if unreadable(extra, "status_bind"@, false) {
        Err(parse_error("status_bind"@))
    } else if unreadable(extra, "owners"@, true) {
        Err(parse_error("owners"@))
    } else if unreadable(extra, "acl_file"@, false) {
        Err(parse_error("acl_file"@))
    } else {
        Ok(
            ConfigView {
                slug,
                status_bind: if extra.contains_key("status_bind"@) {
                    extra["status_bind"@].text->0
                } else {
                    default_status_address()
                },
                owners: if extra.contains_key("owners"@) {
                    extra["owners"@].list->0
                } else {
                    Seq::empty()
                },
                acl_file: if extra.contains_key("acl_file"@) {
                    extra["acl_file"@].text
                } else {
                    None
                },
                kubo_rpc_url,
            },
        )
    }
}

fn unreadable_key(key: &str) -> (r: Error)
    ensures
        r@ == parse_error(key@),
{
    Error::new("parsing config key '".to_owned().concat(key).concat("'"))
}

impl RuntimeConfig {
    pub fn from_core(config: &CoreSettings) -> (r: Result<RuntimeConfig, Error>)
        ensures
            outcome(r) == config_of(config.slug@, config.kubo_rpc_url@, settings(config.extra)),
    {
        let status_bind = match read_text(&config.extra, "status_bind") {
            Ok(Some(text)) => text,
            Ok(None) => default_status_bind(),
            Err(_) => {
                return Err(unreadable_key("status_bind"));
            },
        };
        let owners = match read_list(&config.extra, "owners") {
            Ok(Some(list)) => list,
            Ok(None) => Vec::new(),
            Err(_) => {
                return Err(unreadable_key("owners"));
            },
        };
        let acl_file = match read_text(&config.extra, "acl_file") {
            Ok(text) => text,
            Err(_) => {
                return Err(unreadable_key("acl_file"));
            },
        };
        proof {
            if !settings(config.extra).contains_key("owners"@) {
                assert(texts(owners@) =~= Seq::<Seq<char>>::empty());
            }
        }
        Ok(
            RuntimeConfig {
                slug: config.slug.clone(),
                status_bind,
                owners,
                acl_file,
                kubo_rpc_url: config.kubo_rpc_url.clone(),
            },
        )
    }
}

/// The configuration takes each setting from its own key, and a default where the
/// key is missing; the common settings are taken as they are.
pub proof fn settings_are_taken_from_their_keys(
    slug: Seq<char>,
    kubo_rpc_url: Seq<char>,
    extra: Map<Seq<char>, SettingView>,
)
    requires
        extra.contains_key("status_bind"@) ==> extra["status_bind"@].text is Some,
        extra.contains_key("owners"@) ==> extra["owners"@].list is Some,
        extra.contains_key("acl_file"@) ==> extra["acl_file"@].text is Some,
    ensures
        ({
            let read = config_of(slug, kubo_rpc_url, extra);
            &&& read is Ok
            &&& read->Ok_0.slug == slug
            &&& read->Ok_0.kubo_rpc_url == kubo_rpc_url
            &&& extra.contains_key("status_bind"@) ==> Some(read->Ok_0.status_bind)
                == extra["status_bind"@].text
            &&& !extra.contains_key("status_bind"@) ==> read->Ok_0.status_bind
                == "127.0.0.1:5667"@
            &&& extra.contains_key("owners"@) ==> Some(read->Ok_0.owners) == extra["owners"@].list
            &&& !extra.contains_key("owners"@) ==> read->Ok_0.owners.len() == 0
            &&& extra.contains_key("acl_file"@) ==> read->Ok_0.acl_file == extra["acl_file"@].text
            &&& !extra.contains_key("acl_file"@) ==> read->Ok_0.acl_file is None
        }),
{
}

/// A setting that is there but cannot be read is an error that names its key; the
/// keys are read in order.
pub proof fn unreadable_setting_is_named(
    slug: Seq<char>,
    kubo_rpc_url: Seq<char>,
    extra: Map<Seq<char>, SettingView>,
)
    ensures
        ({
            let bind = extra.contains_key("status_bind"@) && extra["status_bind"@].text is None;
            let owners = extra.contains_key("owners"@) && extra["owners"@].list is None;
            let acl = extra.contains_key("acl_file"@) && extra["acl_file"@].text is None;
            let read = config_of(slug, kubo_rpc_url, extra);
            &&& bind ==> read == Err::<ConfigView, Seq<char>>(
                "parsing config key '"@ + "status_bind"@ + "'"@,
            )
            &&& !bind && owners ==> read == Err::<ConfigView, Seq<char>>(
                "parsing config key '"@ + "owners"@ + "'"@,
            )
            &&& !bind && !owners && acl ==> read == Err::<ConfigView, Seq<char>>(
                "parsing config key '"@ + "acl_file"@ + "'"@,
            )
        }),
{
}

} // verus!
