//! The one piece of persisted state: a per-user preference file holding a
//! single optional flag, whether the shell-integration tip was shown. The
//! caller reads and writes the file; this module decides its path and the
//! flag's meaning.

use vstd::prelude::*;
use crate::bytes::lit_bytes;
use crate::bytes::{lit, push_all, subvec};

verus! {

/// The persisted preferences.
pub struct GroveConfig {
    pub shell_tip_shown: Option<bool>,
}

impl Default for GroveConfig {
    fn default() -> (r: Self)
        ensures
            r.shell_tip_shown is None,
    {
        GroveConfig { shell_tip_shown: None }
    }
}

/// The configuration directory: `.config/grove` under the home directory,
/// or bare `.config/grove` when no home directory is known.
pub open spec fn config_dir_spec(home: Option<Seq<u8>>) -> Seq<u8> {
    match home {
        Some(h) => h + seq![47u8] + lit_bytes(".config/grove"),
        None => lit_bytes(".config/grove"),
    }
}

pub fn get_config_dir(home: Option<&Vec<u8>>) -> (r: Vec<u8>)
    ensures
        r@ == config_dir_spec(
            match home {
                Some(h) => Some(h@),
                None => None,
            },
        ),
{
    proof {
        reveal_strlit(".config/grove");
    }
    let tail = lit(".config/grove");
    match home {
        Some(h) => {
            let mut r = subvec(h.as_slice(), 0, h.len());
            r.push(47);
            push_all(&mut r, tail.as_slice());
            proof {
                assert(r@ =~= h@ + seq![47u8] + lit_bytes(".config/grove"));
            }
            r
        },
        None => tail,
    }
}

/// The configuration file path: `config.json` inside the configuration
/// directory.
pub open spec fn config_path_spec(home: Option<Seq<u8>>) -> Seq<u8> {
    config_dir_spec(home) + seq![47u8] + lit_bytes("config.json")
}

pub fn get_config_path(home: Option<&Vec<u8>>) -> (r: Vec<u8>)
    ensures
        r@ == config_path_spec(
            match home {
                Some(h) => Some(h@),
                None => None,
            },
        ),
{
    proof {
        reveal_strlit("config.json");
    }
    let mut r = get_config_dir(home);
    r.push(47);
    let file = lit("config.json");
    push_all(&mut r, file.as_slice());
    proof {
        assert(r@ =~= config_path_spec(
            match home {
                Some(h) => Some(h@),
                None => None,
            },
        ));
    }
    r
}

/// A path shown with the home directory abbreviated to `~`: the
/// replacement happens only when the path is the home directory itself or
/// continues below it with a separator.
pub open spec fn tilde_path_spec(path: Seq<u8>, home: Option<Seq<u8>>) -> Seq<u8> {
    match home {
        Some(h) => if path == h {
            lit_bytes("~")
        } else if crate::bytes::starts_with_spec(path, h) && path.len() > h.len() && path[h.len() as int]
            == 47 {
            lit_bytes("~") + path.skip(h.len() as int)
        } else {
            path
        },
        None => path,
    }
}

pub fn format_path_with_tilde(file_path: &[u8], home: Option<&Vec<u8>>) -> (r: Vec<u8>)
    ensures
        r@ == tilde_path_spec(
            file_path@,
            match home {
                Some(h) => Some(h@),
                None => None,
            },
        ),
{
    proof {
        reveal_strlit("~");
    }
    match home {
        Some(h) => {
            if crate::bytes::eq_bytes(file_path, h.as_slice()) {
                return lit("~");
            }
            let hn = h.len();
            if crate::bytes::starts_with(file_path, h.as_slice()) && file_path.len() > hn
                && file_path[hn] == 47 {
                let mut r = lit("~");
                let tail = subvec(file_path, hn, file_path.len());
                push_all(&mut r, tail.as_slice());
                proof {
                    assert(tail@ =~= file_path@.skip(h@.len() as int));
                    assert(r@ =~= lit_bytes("~") + file_path@.skip(h@.len() as int));
                }
                r
            } else {
                let r = subvec(file_path, 0, file_path.len());
                proof {
                    assert(r@ =~= file_path@);
                }
                r
            }
        },
        None => {
            let r = subvec(file_path, 0, file_path.len());
            proof {
                assert(r@ =~= file_path@);
            }
            r
        },
    }
}

/// Update notification hook; release checking is carried out by the
/// self-update flow itself, so nothing is probed here.
pub fn check_for_updates(_current_version: &[u8]) {
}

/// The tip is shown until the flag records that it was.
pub fn should_show_shell_tip(config: &GroveConfig) -> (r: bool)
    ensures
        r == (config.shell_tip_shown != Some(true)),
{
    match config.shell_tip_shown {
        Some(true) => false,
        _ => true,
    }
}

/// The configuration after the tip was shown: the flag set, permanently.
pub fn mark_shell_tip_shown(config: &GroveConfig) -> (r: GroveConfig)
    ensures
        r.shell_tip_shown == Some(true),
{
    GroveConfig { shell_tip_shown: Some(true) }
}

} // verus!
