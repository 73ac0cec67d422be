//! Names of colour maps.
//!
//! A colour map is called by the name of a gradient, with `_r` behind it
//! where the colours run the other way round.

use vstd::prelude::*;
use vstd::string::StrSliceExecFns;
use crate::scene::same_text;

verus! {

/// The gradients that a colour map can be taken from.
#[derive(Debug, Clone, Copy, PartialEq, Eq, Structural)]
pub enum Preset {
    Blues,
    BrBg,
    BuGn,
    BuPu,
    Cividis,
    Cool,
    CubehelixDefault,
    GnBu,
    Greens,
    Greys,
    Inferno,
    Magma,
    OrRd,
    Oranges,
    PiYg,
    Plasma,
    PrGn,
    PuBu,
    PuBuGn,
    PuOr,
    PuRd,
    Purples,
    Rainbow,
    RdBu,
    RdGy,
    RdPu,
    RdYlBu,
    RdYlGn,
    Reds,
    Sinebow,
    Spectral,
    Turbo,
    Viridis,
    Warm,
    YlGn,
    YlGnBu,
    YlOrBr,
    YlOrRd,
}

/// A colour map as a scene asks for it: a gradient and the direction in
/// which its colours run.
#[derive(Debug, Clone, Copy, PartialEq, Eq, Structural)]
pub struct Colormap {
    /// The gradient.
    pub preset: Preset,
    /// Whether the colours run from the end of the gradient to its start.
    pub reversed: bool,
}

/// The gradient called `name`.
pub open spec fn preset_of(name: Seq<char>) -> Option<Preset> {
    if name == "blues"@ {
        Some(Preset::Blues)
    } else if name == "br_bg"@ {
        Some(Preset::BrBg)
    } else if name == "bu_gn"@ {
        Some(Preset::BuGn)
    } else if name == "bu_pu"@ {
        Some(Preset::BuPu)
    } else if name == "cividis"@ {
        Some(Preset::Cividis)
    } else if name == "cool"@ {
        Some(Preset::Cool)
    } else if name == "cubehelix_default"@ {
        Some(Preset::CubehelixDefault)
    } else if name == "gn_bu"@ {
        Some(Preset::GnBu)
    } else if name == "greens"@ {
        Some(Preset::Greens)
    } else if name == "greys"@ {
        Some(Preset::Greys)
    } else if name == "inferno"@ {
        Some(Preset::Inferno)
    } else if name == "magma"@ {
        Some(Preset::Magma)
    } else if name == "or_rd"@ {
        Some(Preset::OrRd)
    } else if name == "oranges"@ {
        Some(Preset::Oranges)
    } else if name == "pi_yg"@ {
        Some(Preset::PiYg)
    } else if name == "plasma"@ {
        Some(Preset::Plasma)
    } else if name == "pr_gn"@ {
        Some(Preset::PrGn)
    } else if name == "pu_bu"@ {
        Some(Preset::PuBu)
    } else if name == "pu_bu_gn"@ {
        Some(Preset::PuBuGn)
    } else if name == "pu_or"@ {
        Some(Preset::PuOr)
    } else if name == "pu_rd"@ {
        Some(Preset::PuRd)
    } else if name == "purples"@ {
        Some(Preset::Purples)
    } else if name == "rainbow"@ {
        Some(Preset::Rainbow)
    } else if name == "rd_bu"@ {
        Some(Preset::RdBu)
    } else if name == "rd_gy"@ {
        Some(Preset::RdGy)
    } else if name == "rd_pu"@ {
        Some(Preset::RdPu)
    } else if name == "rd_yl_bu"@ {
        Some(Preset::RdYlBu)
    } else if name == "rd_yl_gn"@ {
        Some(Preset::RdYlGn)
    } else if name == "reds"@ {
        Some(Preset::Reds)
    } else if name == "sinebow"@ {
        Some(Preset::Sinebow)
    } else if name == "spectral"@ {
        Some(Preset::Spectral)
    } else if name == "turbo"@ {
        Some(Preset::Turbo)
    } else if name == "viridis"@ {
        Some(Preset::Viridis)
    } else if name == "warm"@ {
        Some(Preset::Warm)
    } else if name == "yl_gn"@ {
        Some(Preset::YlGn)
    } else if name == "yl_gn_bu"@ {
        Some(Preset::YlGnBu)
    } else if name == "yl_or_br"@ {
        Some(Preset::YlOrBr)
    } else if name == "yl_or_rd"@ {
        Some(Preset::YlOrRd)
    } else {
        None
    }
}

/// Whether `name` asks for reversed colours: it ends in `_r`.
pub open spec fn asks_reversed(name: Seq<char>) -> bool {
    name.len() >= 2 && name[name.len() - 2] == '_' && name[name.len() - 1] == 'r'
}

/// The colour map called `name`: the gradient named by what stands before
/// a final `_r`, reversed, or else the gradient named by all of `name`.
pub open spec fn colormap_of(name: Seq<char>) -> Option<Colormap> {
    if asks_reversed(name) {
        match preset_of(name.subrange(0, name.len() - 2)) {
            Some(preset) => Some(Colormap { preset, reversed: true }),
            None => None,
        }
    } else {
        match preset_of(name) {
            Some(preset) => Some(Colormap { preset, reversed: false }),
            None => None,
        }
    }
}

/// Reads the name of a gradient; `None` for a name that no gradient has.
pub fn preset(name: &str) -> (r: Option<Preset>)
    ensures
        r == preset_of(name@),
{
    if same_text(name, "blues") {
        Some(Preset::Blues)
    } else if same_text(name, "br_bg") {
        Some(Preset::BrBg)
    } else if same_text(name, "bu_gn") {
        Some(Preset::BuGn)
    } else if same_text(name, "bu_pu") {
        Some(Preset::BuPu)
    } else if same_text(name, "cividis") {
        Some(Preset::Cividis)
    } else if same_text(name, "cool") {
        Some(Preset::Cool)
    } else if same_text(name, "cubehelix_default") {
        Some(Preset::CubehelixDefault)
    } else if same_text(name, "gn_bu") {
        Some(Preset::GnBu)
    } else if same_text(name, "greens") {
        Some(Preset::Greens)
    } else if same_text(name, "greys") {
        Some(Preset::Greys)
    } else if same_text(name, "inferno") {
        Some(Preset::Inferno)
    } else if same_text(name, "magma") {
        Some(Preset::Magma)
    } else if same_text(name, "or_rd") {
        Some(Preset::OrRd)
    } else if same_text(name, "oranges") {
        Some(Preset::Oranges)
    } else if same_text(name, "pi_yg") {
        Some(Preset::PiYg)
    } else if same_text(name, "plasma") {
        Some(Preset::Plasma)
    } else if same_text(name, "pr_gn") {
        Some(Preset::PrGn)
    } else if same_text(name, "pu_bu") {
        Some(Preset::PuBu)
    } else if same_text(name, "pu_bu_gn") {
        Some(Preset::PuBuGn)
    } else if same_text(name, "pu_or") {
        Some(Preset::PuOr)
    } else if same_text(name, "pu_rd") {
        Some(Preset::PuRd)
    } else if same_text(name, "purples") {
        Some(Preset::Purples)
    } else if same_text(name, "rainbow") {
        Some(Preset::Rainbow)
    } else if same_text(name, "rd_bu") {
        Some(Preset::RdBu)
    } else if same_text(name, "rd_gy") {
        Some(Preset::RdGy)
    } else if same_text(name, "rd_pu") {
        Some(Preset::RdPu)
    } else if same_text(name, "rd_yl_bu") {
        Some(Preset::RdYlBu)
    } else if same_text(name, "rd_yl_gn") {
        Some(Preset::RdYlGn)
    } else if same_text(name, "reds") {
        Some(Preset::Reds)
    } else if same_text(name, "sinebow") {
        Some(Preset::Sinebow)
    } else if same_text(name, "spectral") {
        Some(Preset::Spectral)
    } else if same_text(name, "turbo") {
        Some(Preset::Turbo)
    } else if same_text(name, "viridis") {
        Some(Preset::Viridis)
    } else if same_text(name, "warm") {
        Some(Preset::Warm)
    } else if same_text(name, "yl_gn") {
        Some(Preset::YlGn)
    } else if same_text(name, "yl_gn_bu") {
        Some(Preset::YlGnBu)
    } else if same_text(name, "yl_or_br") {
        Some(Preset::YlOrBr)
    } else if same_text(name, "yl_or_rd") {
        Some(Preset::YlOrRd)
    } else {
        None
    }
}

/// Reads the name of a colour map; `None` where no gradient has the name.
pub fn colormap(name: &str) -> (r: Option<Colormap>)
    ensures
        r == colormap_of(name@),
{
    let n = name.unicode_len();
    if n >= 2 && name.get_char(n - 2) == '_' && name.get_char(n - 1) == 'r' {
        match preset(name.substring_char(0, n - 2)) {
            Some(preset) => Some(Colormap { preset, reversed: true }),
            None => None,
        }
    } else {
        match preset(name) {
            Some(preset) => Some(Colormap { preset, reversed: false }),
            None => None,
        }
    }
}

/// Puts the colours of a gradient in the order that the colour map asks
/// for.
pub fn arrange(colours: Vec<[u8; 3]>, reversed: bool) -> (r: Vec<[u8; 3]>)
    ensures
        r@ == if reversed {
            colours@.reverse()
        } else {
            colours@
        },
{
    if !reversed {
        return colours;
    }
    let mut turned: Vec<[u8; 3]> = Vec::new();
    let mut k: usize = colours.len();
    while k > 0
        invariant
            k <= colours.len(),
            turned.len() == colours.len() - k,
            forall|i: int| 0 <= i < turned.len() ==> turned[i] == colours[colours.len() - 1 - i],
        decreases k,
    {
        k -= 1;
        turned.push(colours[k]);
    }
    assert(turned@ =~= colours@.reverse());
    turned
}

/// Loads the colour map called `name` with `num_colors` colours.
///
/// `gradient` hands out the colours of a gradient, evenly spaced from its
/// start to its end. The colour map holds them in that order, or in the
/// opposite order where the name ends in `_r`. `None` where no gradient
/// has the name; `gradient` is not asked then.
pub fn load_colormap<G: Fn(Preset, usize) -> Vec<[u8; 3]>>(
    name: &str,
    num_colors: usize,
    gradient: G,
) -> (r: Option<Vec<[u8; 3]>>)
    requires
        forall|preset: Preset, n: usize| call_requires(gradient, (preset, n)),
    ensures
        r is Some <==> colormap_of(name@) is Some,
        r matches Some(colours) ==> exists|plain: Vec<[u8; 3]>|
            #![trigger plain@]
            call_ensures(gradient, (colormap_of(name@).unwrap().preset, num_colors), plain)
                && colours@ == if colormap_of(name@).unwrap().reversed {
                plain@.reverse()
            } else {
                plain@
            },
{
    match colormap(name) {
        Some(map) => {
            let plain = gradient(map.preset, num_colors);
            let ghost witness = plain;
            let colours = arrange(plain, map.reversed);
            assert(colours@ == if map.reversed {
                witness@.reverse()
            } else {
                witness@
            });
            Some(colours)
        },
        None => None,
    }
}

} // verus!
