//! How a server settles what it was started with: arguments first, then the environment, then
//! the settings file, then a default.

use crate::lexicon::{opt_chars, opt_str};
use crate::text::{cat, cat3, chars_of, natural_number, parse_natural, str_eq};
use vstd::prelude::*;
use vstd::string::*;

verus! {

/// The port where nothing names one.
pub const DEFAULT_PORT: u16 = 3003;

/// The port that a text writes.
pub open spec fn port_of(s: Option<Seq<char>>) -> Option<u16> {
    match s {
        Some(t) => match natural_number(t) {
            Some(n) => if n <= u16::MAX {
                Some(n as u16)
            } else {
                None
            },
            None => None,
        },
        None => None,
    }
}

/// The port that a server takes of those that it is given.
pub open spec fn chosen_port(arg: Option<u16>, env: Option<Seq<char>>, config: Option<u16>) -> u16 {
    if arg is Some {
        arg.unwrap()
    } else if port_of(env) is Some {
        port_of(env).unwrap()
    } else if config is Some {
        config.unwrap()
    } else {
        DEFAULT_PORT
    }
}

/// The port of a server: that of the argument, of the environment, of the settings file, or
/// the default. A variable that is no port counts as absent.
pub fn choose_port(arg: Option<u16>, env: Option<&str>, config: Option<u16>) -> (r: u16)
    ensures
        r == chosen_port(arg, opt_str(env), config),
{
    if let Some(p) = arg {
        return p;
    }
    if let Some(text) = env {
        if let Some(n) = parse_natural(&chars_of(text)) {
            if n <= u16::MAX as u64 {
                return n as u16;
            }
        }
    }
    match config {
        Some(p) => p,
        None => DEFAULT_PORT,
    }
}

/// The limit that a server takes of those that it is given.
pub open spec fn chosen_limit(arg: Option<usize>, config: Option<usize>, default: usize) -> usize {
    if arg is Some {
        arg.unwrap()
    } else if config is Some {
        config.unwrap()
    } else {
        default
    }
}

/// A limit of a server: that of the argument, of the settings file, or the default.
pub fn choose_limit(arg: Option<usize>, config: Option<usize>, default: usize) -> (r: usize)
    ensures
        r == chosen_limit(arg, config, default),
{
    match arg {
        Some(n) => n,
        None => match config {
            Some(n) => n,
            None => default,
        },
    }
}

/// The voice asset that a server starts with.
pub enum StartVoice {
    /// The one that was named.
    Named(String),
    /// The one that comes with the engine.
    Shipped,
    /// None: the voices of the engine are inside its model.
    BuiltIn,
}

/// Which voice asset a server starts with. An engine that cannot clone refuses a named one.
pub fn start_voice(named: Option<String>, clones: bool, engine: &str) -> (r: Result<
    StartVoice,
    String,
>)
    ensures
        match r {
            Ok(StartVoice::Named(v)) => clones && opt_chars(named) == Some(v@),
            Ok(StartVoice::Shipped) => clones && named is None,
            Ok(StartVoice::BuiltIn) => !clones && named is None,
            Err(e) => !clones && named is Some && e@ == "engine `"@ + engine@
                + "` cannot clone, so --voice "@ + named.unwrap()@
                + " has nothing to load. Its own voices are selected with --set voice=<name>"@,
        },
{
    match named {
        Some(v) => if clones {
            Ok(StartVoice::Named(v))
        } else {
            let mut detail = cat3("engine `", engine, "` cannot clone, so --voice ");
            detail.append(v.as_str());
            detail.append(" has nothing to load. Its own voices are selected with --set voice=<name>");
            Err(detail)
        },
        None => if clones {
            Ok(StartVoice::Shipped)
        } else {
            Ok(StartVoice::BuiltIn)
        },
    }
}

/// The value of the first setting of a key, from number `i` on.
pub open spec fn setting_from(v: Seq<(String, String)>, key: Seq<char>, i: int) -> Option<Seq<char>>
    decreases v.len() - i,
{
    if i < 0 || i >= v.len() {
        None
    } else if v[i].0@ == key {
        Some(v[i].1@)
    } else {
        setting_from(v, key, i + 1)
    }
}

/// What a server calls its voice: the path of its asset, or the built-in voice that it was
/// started with.
pub fn voice_name(path: &Option<String>, overrides: &Vec<(String, String)>) -> (r: String)
    ensures
        r@ == (match opt_chars(*path) {
            Some(p) => p,
            None => match setting_from(overrides@, "voice"@, 0) {
                Some(name) => name + " (built-in)"@,
                None => "engine default"@ + " (built-in)"@,
            },
        }),
{
    if let Some(p) = path {
        return p.clone();
    }
    let mut i: usize = 0;
    while i < overrides.len()
        invariant
            i <= overrides@.len(),
            setting_from(overrides@, "voice"@, 0) == setting_from(overrides@, "voice"@, i as int),
            *path is None,
        decreases overrides.len() - i,
    {
        if str_eq(overrides[i].0.as_str(), "voice") {
            return cat(overrides[i].1.as_str(), " (built-in)");
        }
        i = i + 1;
    }
    cat("engine default", " (built-in)")
}

/// The names of the tensors that a weight is made of: one plain tensor, or a gain and a
/// direction that are still to be folded.
pub enum WeightNames {
    Plain(String),
    Normed(String, String),
}

/// Where the weight of a layer is found, given whether its plain name is there.
pub fn weight_names(prefix: &str, has_plain: bool) -> (r: WeightNames)
    ensures
        match r {
            WeightNames::Plain(n) => has_plain && n@ == prefix@ + ".weight"@,
            WeightNames::Normed(g, v) => !has_plain && g@ == prefix@
                + ".parametrizations.weight.original0"@ && v@ == prefix@
                + ".parametrizations.weight.original1"@,
        },
{
    if has_plain {
        WeightNames::Plain(cat(prefix, ".weight"))
    } else {
        WeightNames::Normed(
            cat(prefix, ".parametrizations.weight.original0"),
            cat(prefix, ".parametrizations.weight.original1"),
        )
    }
}

} // verus!
