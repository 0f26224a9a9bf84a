//! Settings of an editing session, read once at startup.
use vstd::prelude::*;

verus! {

/// Byte order used to read numbers in the info view.
#[derive(Clone, Copy, Debug, PartialEq, Eq, Structural)]
pub enum Endian {
    Little,
    Big,
}

/// How highlights follow a mutation of the buffer: moved along with the bytes,
/// or discarded and computed again by the highlight callback.
#[derive(Clone, Copy, Debug, PartialEq, Eq, Structural)]
pub enum HighlightUpdate {
    Update,
    Reload,
}

#[derive(Clone, Copy, Debug, PartialEq, Eq, Structural)]
pub struct Config {
    /// Distance of a page movement.
    pub page: i32,
    pub endian: Endian,
    /// Value of newly inserted bytes.
    pub empty_value: u8,
    pub on_delete: HighlightUpdate,
}

/// A setting that names none of its allowed values.
#[derive(Clone, Debug, PartialEq, Eq)]
pub enum ConfigError {
    Endian(String),
    OnDelete(String),
}

pub open spec fn default_config() -> Config {
    Config { page: 256, endian: Endian::Big, empty_value: 0, on_delete: HighlightUpdate::Reload }
}

/// The byte order a setting names: `little` or `l`, `big` or `b`.
pub open spec fn endian_named(s: Seq<char>) -> Option<Endian> {
    if s == seq!['l', 'i', 't', 't', 'l', 'e'] || s == seq!['l'] {
        Some(Endian::Little)
    } else if s == seq!['b', 'i', 'g'] || s == seq!['b'] {
        Some(Endian::Big)
    } else {
        None
    }
}

/// The highlight policy a setting names: `update` or `reload`.
pub open spec fn policy_named(s: Seq<char>) -> Option<HighlightUpdate> {
    if s == seq!['u', 'p', 'd', 'a', 't', 'e'] {
        Some(HighlightUpdate::Update)
    } else if s == seq!['r', 'e', 'l', 'o', 'a', 'd'] {
        Some(HighlightUpdate::Reload)
    } else {
        None
    }
}

fn same_text(s: &String, lit: &str) -> (r: bool)
    ensures
        r == (s@ == lit@),
{
    let owned = lit.to_owned();
    *s == owned
}

/// Reads a byte order setting.
pub fn parse_endian(s: &String) -> (r: Option<Endian>)
    ensures
        r == endian_named(s@),
{
    proof {
        reveal_strlit("little");
        reveal_strlit("l");
        reveal_strlit("big");
        reveal_strlit("b");
        assert("little"@ =~= seq!['l', 'i', 't', 't', 'l', 'e']);
        assert("l"@ =~= seq!['l']);
        assert("big"@ =~= seq!['b', 'i', 'g']);
        assert("b"@ =~= seq!['b']);
    }
    if same_text(s, "little") || same_text(s, "l") {
        Some(Endian::Little)
    } else if same_text(s, "big") || same_text(s, "b") {
        Some(Endian::Big)
    } else {
        None
    }
}

/// Reads a highlight policy setting.
pub fn parse_on_delete(s: &String) -> (r: Option<HighlightUpdate>)
    ensures
        r == policy_named(s@),
{
    proof {
        reveal_strlit("update");
        reveal_strlit("reload");
        assert("update"@ =~= seq!['u', 'p', 'd', 'a', 't', 'e']);
        assert("reload"@ =~= seq!['r', 'e', 'l', 'o', 'a', 'd']);
    }
    if same_text(s, "update") {
        Some(HighlightUpdate::Update)
    } else if same_text(s, "reload") {
        Some(HighlightUpdate::Reload)
    } else {
        None
    }
}

impl Default for Config {
    fn default() -> (r: Config)
        ensures
            r == default_config(),
    {
        Config { page: 256, endian: Endian::Big, empty_value: 0, on_delete: HighlightUpdate::Reload }
    }
}

impl Config {
    /// The settings given, each absent one at its default; a byte order or a
    /// policy that names none of the allowed values is an error.
    pub fn from_values(
        page: Option<i32>,
        endian: Option<String>,
        empty_value: Option<u8>,
        on_delete: Option<String>,
    ) -> (r: Result<Config, ConfigError>)
        ensures
            match (endian, on_delete) {
                (Some(e), _) if endian_named(e@).is_none() => r == Err::<Config, ConfigError>(
                    ConfigError::Endian(e),
                ),
                (_, Some(d)) if policy_named(d@).is_none() => r == Err::<Config, ConfigError>(
                    ConfigError::OnDelete(d),
                ),
                _ => r == Ok::<Config, ConfigError>(
                    Config {
                        page: match page {
                            Some(p) => p,
                            None => 256,
                        },
                        endian: match endian {
                            Some(e) => endian_named(e@).unwrap(),
                            None => Endian::Big,
                        },
                        empty_value: match empty_value {
                            Some(v) => v,
                            None => 0,
                        },
                        on_delete: match on_delete {
                            Some(d) => policy_named(d@).unwrap(),
                            None => HighlightUpdate::Reload,
                        },
                    },
                ),
            },
    {
        let defaults = Config::default();
        let endian = match endian {
            None => defaults.endian,
            Some(e) => match parse_endian(&e) {
                Some(v) => v,
                None => return Err(ConfigError::Endian(e)),
            },
        };
        let on_delete = match on_delete {
            None => defaults.on_delete,
            Some(d) => match parse_on_delete(&d) {
                Some(v) => v,
                None => return Err(ConfigError::OnDelete(d)),
            },
        };
        let page = match page {
            Some(p) => p,
            None => defaults.page,
        };
        let empty_value = match empty_value {
            Some(v) => v,
            None => defaults.empty_value,
        };
        Ok(Config { page, endian, empty_value, on_delete })
    }

    /// Switches the byte order of the info view.
    pub fn toggle_endian(&mut self)
        ensures
            final(self).endian == (if old(self).endian == Endian::Little { Endian::Big } else { Endian::Little }),
            final(self).page == old(self).page,
            final(self).empty_value == old(self).empty_value,
            final(self).on_delete == old(self).on_delete,
    {
        self.endian = match self.endian {
            Endian::Little => Endian::Big,
            Endian::Big => Endian::Little,
        };
    }
}

} // verus!
