//! Environment detection: whether the fallback resolver should be installed.

use vstd::prelude::*;

use crate::text::chars_of;
use crate::text::contains_chars;
use crate::text::contains_sub;

verus! {

/// The path fragment that marks a Termux installation prefix.
pub open spec fn termux_path_fragment() -> Seq<char> {
    seq!['/', 'c', 'o', 'm', '.', 't', 'e', 'r', 'm', 'u', 'x', '/']
}

/// Whether the fallback resolver should be installed, from the three
/// environment signals: the platform is the embedded one, the version
/// environment variable is present (any value), or the installation-prefix
/// environment variable is present and contains the Termux path fragment.
pub open spec fn spec_should_install(
    is_android: bool,
    termux_version: Option<Seq<char>>,
    prefix: Option<Seq<char>>,
) -> bool {
    is_android || termux_version is Some || (prefix matches Some(p) && contains_sub(
        p,
        termux_path_fragment(),
    ))
}

/// Decide the three environment signals.  True iff the platform is embedded,
/// or the version variable is present, or the prefix variable contains
/// `/com.termux/`.
pub fn should_install_termux_resolver_with(
    is_android: bool,
    termux_version: Option<String>,
    prefix: Option<String>,
) -> (r: bool)
    ensures
        r == spec_should_install(
            is_android,
            match termux_version {
                Some(v) => Some(v@),
                None => None,
            },
            match prefix {
                Some(p) => Some(p@),
                None => None,
            },
        ),
{
    if is_android || termux_version.is_some() {
        return true;
    }
    match prefix {
        None => false,
        Some(p) => {
            let hay = chars_of(p.as_str());
            let needle: Vec<char> = vec![
                '/',
                'c',
                'o',
                'm',
                '.',
                't',
                'e',
                'r',
                'm',
                'u',
                'x',
                '/',
            ];
            proof {
                assert(needle@ =~= termux_path_fragment());
            }
            contains_chars(&hay, &needle)
        },
    }
}

} // verus!
