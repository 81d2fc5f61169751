//! The channel model: per-cell foreground and background color state.
//!
//! A channel half is one of three mutually exclusive colorings — the
//! terminal's default color, a direct 24-bit RGB color, or a palette
//! index — plus a 2-bit alpha. Setting RGB or a palette index clears the
//! default flag; the RGB and palette markings exclude one another.
//! Every operation is total: there is no failure path.

use vstd::prelude::*;

use crate::{NcAlpha, NcComponent, NcPaletteIndex, NcRgb, NCALPHA_OPAQUE};

verus! {

/// One half (foreground or background) of a cell's color state.
#[derive(Clone, Copy, Debug, PartialEq, Eq, Structural)]
pub struct NcChannel {
    /// The direct color, `0x00RRGGBB`; meaningful when neither
    /// `default_color` nor `palindexed` is set.
    pub rgb: NcRgb,
    /// The palette index; meaningful when `palindexed` is set.
    pub palindex: NcPaletteIndex,
    /// The 2-bit alpha this half composites with.
    pub alpha: NcAlpha,
    /// True when the half names a palette entry rather than an RGB color.
    pub palindexed: bool,
    /// True when the half uses the terminal's default color.
    pub default_color: bool,
}

/// A foreground/background pair of [`NcChannel`] halves: the full color
/// state of one cell.
#[derive(Clone, Copy, Debug, PartialEq, Eq, Structural)]
pub struct NcChannels {
    /// The foreground (glyph) half.
    pub fg: NcChannel,
    /// The background half.
    pub bg: NcChannel,
}

/// A well-formed channel half: the color fits in 24 bits, the alpha in 2,
/// and the default and palette markings exclude one another.
pub open spec fn channel_wf(c: NcChannel) -> bool {
    &&& c.rgb <= 0xFF_FFFF
    &&& c.alpha <= 3
    &&& !(c.default_color && c.palindexed)
}

/// Both halves of a channel pair are well formed.
pub open spec fn channels_wf(c: NcChannels) -> bool {
    channel_wf(c.fg) && channel_wf(c.bg)
}

/// The channel half every cell starts from: the terminal's default color,
/// opaque.
pub open spec fn default_channel() -> NcChannel {
    NcChannel { rgb: 0, palindex: 0, alpha: NCALPHA_OPAQUE, palindexed: false, default_color: true }
}

/// The channel pair every cell starts from.
pub open spec fn default_channels() -> NcChannels {
    NcChannels { fg: default_channel(), bg: default_channel() }
}

/// The half that results from setting a direct RGB color: the low 24 bits
/// of `rgb` are kept, the default and palette markings are cleared.
pub open spec fn channel_with_rgb(c: NcChannel, rgb: NcRgb) -> NcChannel {
    NcChannel { rgb: rgb & 0xFF_FFFF, default_color: false, palindexed: false, ..c }
}

/// The half that results from setting RGB components.
pub open spec fn channel_with_rgb8(
    c: NcChannel,
    r: NcComponent,
    g: NcComponent,
    b: NcComponent,
) -> NcChannel {
    channel_with_rgb(c, ((r as NcRgb) << 16) | ((g as NcRgb) << 8) | (b as NcRgb))
}

/// The half that results from setting a palette index: the palette marking
/// is set, the default flag cleared, and the alpha forced opaque.
pub open spec fn channel_with_palindex(c: NcChannel, idx: NcPaletteIndex) -> NcChannel {
    NcChannel {
        palindex: idx,
        palindexed: true,
        default_color: false,
        alpha: NCALPHA_OPAQUE,
        ..c
    }
}

/// The half that results from reverting to the terminal's default color.
pub open spec fn channel_with_default(c: NcChannel) -> NcChannel {
    NcChannel { default_color: true, palindexed: false, ..c }
}

/// The half that results from setting the alpha: only its low 2 bits are
/// kept.
pub open spec fn channel_with_alpha(c: NcChannel, alpha: NcAlpha) -> NcChannel {
    NcChannel { alpha: alpha & 3, ..c }
}

impl NcChannel {
    /// A new half using the terminal's default color, opaque.
    pub fn new() -> (r: NcChannel)
        ensures
            r == default_channel(),
            channel_wf(r),
    {
        NcChannel { rgb: 0, palindex: 0, alpha: NCALPHA_OPAQUE, palindexed: false, default_color: true }
    }

    /// Sets a direct RGB color, marking the half as neither default nor
    /// palette indexed.
    pub fn set_rgb(&mut self, rgb: NcRgb)
        ensures
            *final(self) == channel_with_rgb(*old(self), rgb),
            channel_wf(*old(self)) ==> channel_wf(*final(self)),
    {
        self.rgb = rgb & 0xFF_FFFF;
        self.default_color = false;
        self.palindexed = false;
        proof {
            assert(rgb & 0xFF_FFFF <= 0xFF_FFFF) by (bit_vector);
        }
    }

    /// Sets a direct color from its three components.
    pub fn set_rgb8(&mut self, r: NcComponent, g: NcComponent, b: NcComponent)
        ensures
            *final(self) == channel_with_rgb8(*old(self), r, g, b),
            channel_wf(*old(self)) ==> channel_wf(*final(self)),
    {
        let rgb: NcRgb = ((r as NcRgb) << 16) | ((g as NcRgb) << 8) | (b as NcRgb);
        self.set_rgb(rgb);
        proof {
            assert(rgb & 0xFF_FFFF == rgb && rgb <= 0xFF_FFFF) by (bit_vector)
                requires rgb == ((r as NcRgb) << 16) | ((g as NcRgb) << 8) | (b as NcRgb),
            ;
        }
    }

    /// The direct color, shifted to the low 24 bits.
    pub fn rgb(&self) -> (r: NcRgb)
        ensures
            r == self.rgb,
    {
        self.rgb
    }

    /// The three components of the direct color.
    pub fn rgb8(&self) -> (r: (NcComponent, NcComponent, NcComponent))
        requires
            channel_wf(*self),
        ensures
            r.0 == (self.rgb >> 16) & 0xFF,
            r.1 == (self.rgb >> 8) & 0xFF,
            r.2 == self.rgb & 0xFF,
    {
        let c = self.rgb;
        proof {
            assert((c >> 16) & 0xFF < 256 && (c >> 8) & 0xFF < 256 && (c & 0xFF) < 256)
                by (bit_vector);
        }
        ((((c >> 16) & 0xFF) as NcComponent), (((c >> 8) & 0xFF) as NcComponent), ((c & 0xFF) as NcComponent))
    }

    /// Sets a palette index; implies an opaque alpha and a non-default
    /// color.
    pub fn set_palindex(&mut self, idx: NcPaletteIndex)
        ensures
            *final(self) == channel_with_palindex(*old(self), idx),
            channel_wf(*old(self)) ==> channel_wf(*final(self)),
    {
        self.palindex = idx;
        self.palindexed = true;
        self.default_color = false;
        self.alpha = NCALPHA_OPAQUE;
    }

    /// The palette index last set on this half.
    pub fn palindex(&self) -> (r: NcPaletteIndex)
        ensures
            r == self.palindex,
    {
        self.palindex
    }

    /// Is the half palette indexed?
    pub fn palindex_p(&self) -> (r: bool)
        ensures
            r == self.palindexed,
    {
        self.palindexed
    }

    /// Reverts the half to the terminal's default color.
    pub fn set_default(&mut self)
        ensures
            *final(self) == channel_with_default(*old(self)),
            channel_wf(*old(self)) ==> channel_wf(*final(self)),
    {
        self.default_color = true;
        self.palindexed = false;
    }

    /// Does the half use the terminal's default color?
    pub fn default_p(&self) -> (r: bool)
        ensures
            r == self.default_color,
    {
        self.default_color
    }

    /// Sets the 2-bit alpha.
    pub fn set_alpha(&mut self, alpha: NcAlpha)
        ensures
            *final(self) == channel_with_alpha(*old(self), alpha),
            channel_wf(*old(self)) ==> channel_wf(*final(self)),
    {
        self.alpha = alpha & 3;
        proof {
            assert(alpha & 3 <= 3) by (bit_vector);
        }
    }

    /// The 2-bit alpha.
    pub fn alpha(&self) -> (r: NcAlpha)
        ensures
            r == self.alpha,
    {
        self.alpha
    }
}

impl NcChannels {
    /// A new pair with both halves on the terminal's default color.
    pub fn new() -> (r: NcChannels)
        ensures
            r == default_channels(),
            channels_wf(r),
    {
        NcChannels { fg: NcChannel::new(), bg: NcChannel::new() }
    }
}

/// Setting a direct RGB color and reading it back yields the value that
/// was set, and leaves the half marked as not using the default color:
/// direct colors survive the round trip exactly.
pub proof fn lemma_rgb_round_trip(c: NcChannel, rgb: NcRgb)
    requires
        rgb <= 0xFF_FFFF,
    ensures
        channel_with_rgb(c, rgb).rgb == rgb,
        !channel_with_rgb(c, rgb).default_color,
{
    assert(rgb & 0xFF_FFFF == rgb) by (bit_vector)
        requires rgb <= 0xFF_FFFF,
    ;
}

} // verus!
