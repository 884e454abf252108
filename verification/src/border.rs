//! Window border decorations: which border effects animate, and the palette
//! size of the wallpaper (`bg`) effect.
use vstd::prelude::*;

use crate::text::{chars_of, chars_skip, chars_starts_with, parse_unsigned, parse_unsigned_spec, str_eq};

verus! {

/// Palette size for the wallpaper `bg` border effect: `bg` means 4 colors,
/// `bg-N` means N clamped to 2..=8; any other name has none.
pub open spec fn bg_effect_count_spec(effect: Seq<char>) -> Option<usize> {
    if effect == "bg"@ {
        Some(4)
    } else if effect.len() >= 3 && effect.take(3) == "bg-"@ {
        match parse_unsigned_spec(effect.skip(3), usize::MAX as nat) {
            Some(n) => Some(
                if n < 2 {
                    2usize
                } else if n > 8 {
                    8usize
                } else {
                    n as usize
                },
            ),
            None => None,
        }
    } else {
        None
    }
}

/// The animated effect names other than the wallpaper ones.
pub open spec fn is_named_animation(effect: Seq<char>) -> bool {
    ||| effect == "breathing"@
    ||| effect == "rainbow"@
    ||| effect == "rainbow_solid"@
    ||| effect == "gradient"@
    ||| effect == "flow"@
    ||| effect == "glow"@
    ||| effect == "pulse"@
    ||| effect == "ember"@
    ||| effect == "chase"@
}

/// Whether a border effect name animates: the named effects, and the
/// wallpaper effects `bg` / `bg-N` when `N` parses.
pub open spec fn is_animated_spec(effect: Seq<char>) -> bool {
    if effect == "bg"@ || (effect.len() >= 3 && effect.take(3) == "bg-"@) {
        bg_effect_count_spec(effect) is Some
    } else {
        is_named_animation(effect)
    }
}

/// Palette size for the wallpaper `bg` border effect: `bg` means 4 colors,
/// `bg-N` means N (clamped to 2..=8). `None` for anything else, so a typo
/// never selects the effect.
pub fn bg_effect_count(effect: &str) -> (count: Option<usize>)
    ensures
        count == bg_effect_count_spec(effect@),
{
    if str_eq(effect, "bg") {
        return Some(4);
    }
    let chars = chars_of(effect);
    let prefix = chars_of("bg-");
    proof {
        reveal_strlit("bg-");
    }
    if !chars_starts_with(chars.as_slice(), prefix.as_slice()) {
        return None;
    }
    let rest = chars_skip(chars.as_slice(), 3);
    match parse_unsigned(rest.as_slice(), usize::MAX as u64) {
        Some(n) => {
            let n = n as usize;
            Some(
                if n < 2 {
                    2
                } else if n > 8 {
                    8
                } else {
                    n
                },
            )
        },
        None => None,
    }
}

/// Animated border effect names (`decorations { border_effect ... }`):
/// `breathing`, `rainbow`, `rainbow_solid`, `gradient`, `flow`, `glow`,
/// `pulse`, `ember`, `chase`, and the wallpaper effects `bg` / `bg-N`.
pub fn is_animated_border_effect(effect: &str) -> (b: bool)
    ensures
        b == is_animated_spec(effect@),
{
    let chars = chars_of(effect);
    let prefix = chars_of("bg-");
    proof {
        reveal_strlit("bg-");
    }
    if str_eq(effect, "bg") || chars_starts_with(chars.as_slice(), prefix.as_slice()) {
        return bg_effect_count(effect).is_some();
    }
    str_eq(effect, "breathing") || str_eq(effect, "rainbow") || str_eq(effect, "rainbow_solid")
        || str_eq(effect, "gradient") || str_eq(effect, "flow") || str_eq(effect, "glow")
        || str_eq(effect, "pulse") || str_eq(effect, "ember") || str_eq(effect, "chase")
}

} // verus!
