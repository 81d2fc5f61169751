//! The terminal context: one explicit object holding the scene graph,
//! the terminal's capabilities, the input decoder and the last rendered
//! frame.
//!
//! Nothing here touches a real terminal: the embedding application
//! queries the host for dimensions and capabilities when it creates the
//! context, feeds raw input bytes in, and carries rendered frames out.

use vstd::prelude::*;

use crate::cell::NcCell;
use crate::channel::{channels_wf, default_channels, NcChannel, NcChannels};
use crate::input::{decoder_wf, NcInput, NcInputDecoder};
use crate::plane::{plane_wf, NcPlane, DIM_MAX};
use crate::unicode::char_of;
use crate::{NcDim, NcError, NcResult, NcStyle, NCSTYLE_MASK};

verus! {

/// A log verbosity, highest meaning loudest.
pub type NcLogLevel = i32;

/// The plain integer result of the lowest-level calls: negative on
/// error.
pub type NcIntResult = i32;

/// The successful [`NcIntResult`].
pub const NCRESULT_OK: NcIntResult = 0;

/// The generic failed [`NcIntResult`].
pub const NCRESULT_ERR: NcIntResult = -1;

/// The largest [`NcIntResult`].
pub const NCRESULT_MAX: NcIntResult = 0x7FFF_FFFF;

/// An alignment within a span of columns.
pub type NcAlign = u32;

/// No alignment: an invalid request.
pub const NCALIGN_UNALIGNED: NcAlign = 0;

/// Alignment to the left edge.
pub const NCALIGN_LEFT: NcAlign = 1;

/// Alignment to the center.
pub const NCALIGN_CENTER: NcAlign = 2;

/// Alignment to the right edge.
pub const NCALIGN_RIGHT: NcAlign = 3;

/// A blitter: the glyph geometry used to render image data.
pub type NcBlitter = u32;

/// Let the implementation pick a blitter.
pub const NCBLIT_DEFAULT: NcBlitter = 0;

/// One cell per pixel.
pub const NCBLIT_1X1: NcBlitter = 1;

/// Two vertical pixels per cell.
pub const NCBLIT_2X1: NcBlitter = 2;

/// Four quadrant pixels per cell.
pub const NCBLIT_2X2: NcBlitter = 3;

/// Six sextant pixels per cell.
pub const NCBLIT_3X2: NcBlitter = 4;

/// Four horizontal pixels per cell.
pub const NCBLIT_4X1: NcBlitter = 5;

/// Eight horizontal pixels per cell.
pub const NCBLIT_8X1: NcBlitter = 6;

/// Braille dot patterns.
pub const NCBLIT_BRAILLE: NcBlitter = 7;

/// True pixel graphics.
pub const NCBLIT_PIXEL: NcBlitter = 8;

/// A scaling mode for rendered visual data.
pub type NcScale = u32;

/// No scaling.
pub const NCSCALE_NONE: NcScale = 0;

/// Scale preserving the aspect ratio.
pub const NCSCALE_SCALE: NcScale = 1;

/// Stretch to fill.
pub const NCSCALE_STRETCH: NcScale = 2;

/// No scaling, with high-resolution blitters allowed.
pub const NCSCALE_NONE_HIRES: NcScale = 3;

/// Aspect-preserving scaling with high-resolution blitters allowed.
pub const NCSCALE_SCALE_HIRES: NcScale = 4;

/// A pixel-graphics mechanism, or zero for none.
pub type NcPixelImpl = u32;

/// A point in time, seconds and nanoseconds, for bounded input waits.
#[derive(Clone, Copy, Debug, PartialEq, Eq, Structural)]
pub struct NcTime {
    /// Whole seconds.
    pub tv_sec: i64,
    /// Nanoseconds past the second.
    pub tv_nsec: i64,
}

/// Options the context is created with.
#[derive(Clone, Copy, Debug, PartialEq, Eq, Structural)]
pub struct NcOptions {
    /// How loudly to log.
    pub loglevel: NcLogLevel,
    /// The top margin kept free.
    pub margin_t: i32,
    /// The right margin kept free.
    pub margin_r: i32,
    /// The bottom margin kept free.
    pub margin_b: i32,
    /// The left margin kept free.
    pub margin_l: i32,
    /// A bitfield of the `NcOptions::*` flags.
    pub flags: u64,
}

impl NcOptions {
    /// Input may be freely dropped.
    pub const DRAIN_INPUT: u64 = 0x0100;

    /// Do not inspect or change the locale.
    pub const INHIBIT_SETLOCALE: u64 = 0x0001;

    /// Do not enter the alternate screen.
    pub const NO_ALTERNATE_SCREEN: u64 = 0x0040;

    /// Do not try to clear preexisting bitmaps.
    pub const NO_CLEAR_BITMAPS: u64 = 0x0002;

    /// Do not modify the font.
    pub const NO_FONT_CHANGES: u64 = 0x0080;

    /// Do not install handlers for quit signals.
    pub const NO_QUIT_SIGHANDLERS: u64 = 0x0008;

    /// Do not install a handler for the resize signal.
    pub const NO_WINCH_SIGHANDLER: u64 = 0x0004;

    /// Start the virtual cursor where the physical one stands.
    pub const PRESERVE_CURSOR: u64 = 0x0010;

    /// Do not print startup or shutdown banners.
    pub const SUPPRESS_BANNERS: u64 = 0x0020;

    /// New options, all zero.
    pub fn new() -> (r: NcOptions)
        ensures
            r == NcOptions::with_all_options_spec(0, 0, 0, 0, 0, 0),
    {
        Self::with_all_options(0, 0, 0, 0, 0, 0)
    }

    /// New options with margins.
    pub fn with_margins(top: NcDim, right: NcDim, bottom: NcDim, left: NcDim) -> (r: NcOptions)
        ensures
            r == NcOptions::with_all_options_spec(
                0,
                top as int,
                right as int,
                bottom as int,
                left as int,
                0,
            ),
    {
        Self::with_all_options(0, top, right, bottom, left, 0)
    }

    /// New options with flags.
    pub fn with_flags(flags: u64) -> (r: NcOptions)
        ensures
            r == NcOptions::with_all_options_spec(0, 0, 0, 0, 0, flags),
    {
        Self::with_all_options(0, 0, 0, 0, 0, flags)
    }

    /// The options [`NcOptions::with_all_options`] builds: margins are
    /// clamped into the signed range.
    pub open spec fn with_all_options_spec(
        loglevel: NcLogLevel,
        margin_t: int,
        margin_r: int,
        margin_b: int,
        margin_l: int,
        flags: u64,
    ) -> NcOptions {
        NcOptions {
            loglevel,
            margin_t: crate::context::clamp_i32(margin_t),
            margin_r: crate::context::clamp_i32(margin_r),
            margin_b: crate::context::clamp_i32(margin_b),
            margin_l: crate::context::clamp_i32(margin_l),
            flags,
        }
    }

    /// New options from every part.
    pub fn with_all_options(
        loglevel: NcLogLevel,
        margin_t: NcDim,
        margin_r: NcDim,
        margin_b: NcDim,
        margin_l: NcDim,
        flags: u64,
    ) -> (r: NcOptions)
        ensures
            r == NcOptions::with_all_options_spec(
                loglevel,
                margin_t as int,
                margin_r as int,
                margin_b as int,
                margin_l as int,
                flags,
            ),
    {
        NcOptions {
            loglevel,
            margin_t: clamp_i32_exec(margin_t),
            margin_r: clamp_i32_exec(margin_r),
            margin_b: clamp_i32_exec(margin_b),
            margin_l: clamp_i32_exec(margin_l),
            flags,
        }
    }
}

/// A nonnegative count clamped into the nonnegative `i32` range.
pub open spec fn clamp_i32(v: int) -> i32 {
    if v > 0x7FFF_FFFF {
        0x7FFF_FFFFi32
    } else if v < 0 {
        0i32
    } else {
        v as i32
    }
}

/// A nonnegative count clamped into the nonnegative `i32` range.
fn clamp_i32_exec(v: NcDim) -> (r: i32)
    ensures
        r == clamp_i32(v as int),
{
    if v > 0x7FFF_FFFF {
        0x7FFF_FFFF
    } else {
        v as i32
    }
}

/// What the terminal reports it can do, queried once by the embedding
/// application and handed in at context creation.
#[derive(Clone, Debug)]
pub struct NcCapabilities {
    /// UTF-8 output is reliable.
    pub utf8: bool,
    /// Direct 24-bit color per cell.
    pub truecolor: bool,
    /// Fading is possible.
    pub fade: bool,
    /// The palette itself can be redefined.
    pub changecolor: bool,
    /// Images can be decoded.
    pub images: bool,
    /// Videos can be decoded.
    pub videos: bool,
    /// Sextant glyphs are reliable.
    pub sextant: bool,
    /// Quadrant glyphs are reliable.
    pub quadrant: bool,
    /// Half-block glyphs are reliable.
    pub halfblock: bool,
    /// Braille glyphs are reliable.
    pub braille: bool,
    /// The pixel-graphics mechanism, zero for none.
    pub pixel: NcPixelImpl,
    /// Colors the palette claims to hold.
    pub colors: u32,
    /// The name of the detected terminal.
    pub term_name: String,
}

impl NcCapabilities {
    /// Capabilities of a fully featured modern terminal: the default
    /// assumed when the embedding application supplies nothing better.
    pub fn new() -> (r: NcCapabilities)
        ensures
            r.utf8 && r.truecolor && r.colors == 256,
    {
        NcCapabilities {
            utf8: true,
            truecolor: true,
            fade: true,
            changecolor: false,
            images: false,
            videos: false,
            sextant: true,
            quadrant: true,
            halfblock: true,
            braille: true,
            pixel: 0,
            colors: 256,
            term_name: String::new(),
        }
    }
}

/// One cell of a rendered frame: a durable grapheme plus resolved
/// styling.
#[derive(Clone, Debug)]
pub struct NcRenderedCell {
    /// The visible grapheme cluster; empty where nothing shows.
    pub egc: String,
    /// The visible style bits.
    pub stylemask: NcStyle,
    /// The resolved channel pair.
    pub channels: NcChannels,
}

/// The full context.
pub struct Nc {
    /// The arena of planes; entry 0 is the standard plane.
    pub planes: Vec<NcPlane>,
    /// Which arena entries are live.
    pub alive: Vec<bool>,
    /// The parent of each plane; the standard plane is its own parent.
    pub parent: Vec<usize>,
    /// Live planes in compositing order, topmost first.
    pub zorder: Vec<usize>,
    /// What the terminal can do.
    pub caps: NcCapabilities,
    /// The options the context was created with.
    pub opts: NcOptions,
    /// The input byte decoder and its event queue.
    pub decoder: NcInputDecoder,
    /// The last rendered frame, row-major.
    pub frame: Vec<NcRenderedCell>,
    /// Rows of the last rendered frame.
    pub frame_rows: NcDim,
    /// Columns of the last rendered frame.
    pub frame_cols: NcDim,
}

/// The context's invariant: the arena vectors agree in length, the
/// standard plane is alive and its own parent, every live plane is well
/// formed, parents are in range and live (destruction cascades), the
/// z-order lists distinct live planes, and the queued input is well
/// formed.
pub open spec fn nc_wf(nc: Nc) -> bool {
    &&& nc.planes@.len() >= 1
    &&& nc.alive@.len() == nc.planes@.len()
    &&& nc.parent@.len() == nc.planes@.len()
    &&& nc.alive@[0]
    &&& nc.parent@[0] == 0
    &&& forall|i: int|
        0 <= i < nc.planes@.len() && nc.alive@[i] ==> plane_wf(#[trigger] nc.planes@[i])
    &&& forall|i: int| 0 <= i < nc.planes@.len() ==> #[trigger] nc.parent@[i] < nc.planes@.len()
    &&& forall|i: int|
        0 <= i < nc.planes@.len() && nc.alive@[i] ==> nc.alive@[#[trigger] nc.parent@[i] as int]
    &&& forall|k: int|
        0 <= k < nc.zorder@.len() ==> #[trigger] nc.zorder@[k] < nc.planes@.len()
            && nc.alive@[nc.zorder@[k] as int]
    &&& forall|k1: int, k2: int|
        0 <= k1 < nc.zorder@.len() && 0 <= k2 < nc.zorder@.len() && k1 != k2
            ==> #[trigger] nc.zorder@[k1] != #[trigger] nc.zorder@[k2]
    &&& decoder_wf(nc.decoder)
}

/// The default dimensions a context assumes when the application hands
/// in none.
pub const DEFAULT_ROWS: NcDim = 24;

/// The default width a context assumes when the application hands in
/// none.
pub const DEFAULT_COLS: NcDim = 80;

impl Nc {
    /// A new context with the given geometry, capabilities and options:
    /// this is the constructor the embedding application calls with what
    /// it learned from the host terminal.
    pub fn with_term(rows: NcDim, cols: NcDim, caps: NcCapabilities, options: NcOptions) -> (r:
        NcResult<Nc>)
        ensures
            (1 <= rows <= DIM_MAX && 1 <= cols <= DIM_MAX) <==> r is Ok,
            r matches Err(e) ==> e == NcError::Geometry,
            r matches Ok(nc) ==> {
                &&& nc_wf(nc)
                &&& nc.planes@.len() == 1
                &&& nc.planes@[0].rows == rows
                &&& nc.planes@[0].cols == cols
                &&& nc.zorder@ == seq![0usize]
                &&& nc.opts == options
                &&& nc.decoder.queue@.len() == 0
            },
    {
        let std_plane = match NcPlane::new(rows, cols) {
            Ok(p) => p,
            Err(e) => {
                return Err(e);
            },
        };
        let mut planes: Vec<NcPlane> = Vec::new();
        planes.push(std_plane);
        let mut alive: Vec<bool> = Vec::new();
        alive.push(true);
        let mut parent: Vec<usize> = Vec::new();
        parent.push(0);
        let mut zorder: Vec<usize> = Vec::new();
        zorder.push(0);
        proof {
            assert(zorder@ =~= seq![0usize]);
        }
        Ok(
            Nc {
                planes,
                alive,
                parent,
                zorder,
                caps,
                opts: options,
                decoder: NcInputDecoder::new(),
                frame: Vec::new(),
                frame_rows: 0,
                frame_cols: 0,
            },
        )
    }

    /// A new context from options alone, on the default geometry and
    /// capabilities.
    pub fn with_options(options: NcOptions) -> (r: NcResult<Nc>)
        ensures
            r matches Ok(nc) ==> nc_wf(nc) && nc.opts == options,
            r is Ok,
    {
        Nc::with_term(DEFAULT_ROWS, DEFAULT_COLS, NcCapabilities::new(), options)
    }

    /// A new context without banners.
    pub fn new() -> (r: NcResult<Nc>)
        ensures
            r matches Ok(nc) ==> nc_wf(nc) && nc.opts.flags == NcOptions::SUPPRESS_BANNERS,
            r is Ok,
    {
        Self::with_flags(NcOptions::SUPPRESS_BANNERS)
    }

    /// A new context in command-line mode: no alternate screen, no
    /// banners, bitmaps and the cursor left alone.
    pub fn new_cli() -> (r: NcResult<Nc>)
        ensures
            r matches Ok(nc) ==> nc_wf(nc) && nc.opts.flags == (NcOptions::SUPPRESS_BANNERS
                | NcOptions::NO_ALTERNATE_SCREEN | NcOptions::NO_CLEAR_BITMAPS
                | NcOptions::PRESERVE_CURSOR),
            r is Ok,
    {
        Self::with_flags(
            NcOptions::SUPPRESS_BANNERS | NcOptions::NO_ALTERNATE_SCREEN
                | NcOptions::NO_CLEAR_BITMAPS | NcOptions::PRESERVE_CURSOR,
        )
    }

    /// A new context with banners.
    pub fn with_banners() -> (r: NcResult<Nc>)
        ensures
            r matches Ok(nc) ==> nc_wf(nc) && nc.opts.flags == 0,
            r is Ok,
    {
        Self::with_flags(0)
    }

    /// A new context without an alternate screen nor banners.
    pub fn without_altscreen() -> (r: NcResult<Nc>)
        ensures
            r matches Ok(nc) ==> nc_wf(nc) && nc.opts.flags == (NcOptions::NO_ALTERNATE_SCREEN
                | NcOptions::SUPPRESS_BANNERS),
            r is Ok,
    {
        Self::with_flags(NcOptions::NO_ALTERNATE_SCREEN | NcOptions::SUPPRESS_BANNERS)
    }

    /// A new context from flags alone.
    pub fn with_flags(flags: u64) -> (r: NcResult<Nc>)
        ensures
            r matches Ok(nc) ==> nc_wf(nc) && nc.opts.flags == flags,
            r is Ok,
    {
        Self::with_options(NcOptions::with_flags(flags))
    }

    /// A new context from a log level and flags.
    pub fn with_debug(loglevel: NcLogLevel, flags: u64) -> (r: NcResult<Nc>)
        ensures
            r matches Ok(nc) ==> nc_wf(nc) && nc.opts.flags == flags && nc.opts.loglevel
                == loglevel,
            r is Ok,
    {
        Self::with_options(NcOptions::with_all_options(loglevel, 0, 0, 0, 0, flags))
    }

    /// Tears the context down. Every plane handle into it is dead
    /// afterwards.
    pub fn stop(&mut self) -> (r: NcResult<()>)
        ensures
            r is Ok,
            final(self).planes@.len() == 1,
            forall|j: int|
                0 <= j < final(self).alive@.len() ==> !(#[trigger] final(self).alive@[j]),
            final(self).zorder@.len() == 0,
    {
        let std_plane = match NcPlane::new(1, 1) {
            Ok(p) => p,
            Err(_) => {
                return Err(NcError::Invalid);
            },
        };
        self.planes = Vec::new();
        self.planes.push(std_plane);
        self.alive = Vec::new();
        self.alive.push(false);
        self.parent = Vec::new();
        self.parent.push(0);
        self.zorder = Vec::new();
        self.frame = Vec::new();
        self.frame_rows = 0;
        self.frame_cols = 0;
        Ok(())
    }
}

/// # Capability queries
impl Nc {
    /// Can Unicode Braille be used reliably?
    pub fn canbraille(&self) -> (r: bool)
        ensures
            r == self.caps.braille,
    {
        self.caps.braille
    }

    /// Can the palette itself be redefined?
    pub fn canchangecolor(&self) -> (r: bool)
        ensures
            r == self.caps.changecolor,
    {
        self.caps.changecolor
    }

    /// Is fading possible?
    pub fn canfade(&self) -> (r: bool)
        ensures
            r == self.caps.fade,
    {
        self.caps.fade
    }

    /// Can Unicode half blocks be used reliably?
    pub fn canhalfblock(&self) -> (r: bool)
        ensures
            r == self.caps.halfblock,
    {
        self.caps.halfblock
    }

    /// Can images be decoded?
    pub fn canopen_images(&self) -> (r: bool)
        ensures
            r == self.caps.images,
    {
        self.caps.images
    }

    /// Can videos be decoded?
    pub fn canopen_videos(&self) -> (r: bool)
        ensures
            r == self.caps.videos,
    {
        self.caps.videos
    }

    /// Can Unicode quadrants be used reliably?
    pub fn canquadrant(&self) -> (r: bool)
        ensures
            r == self.caps.quadrant,
    {
        self.caps.quadrant
    }

    /// Can Unicode sextants be used reliably?
    pub fn cansextant(&self) -> (r: bool)
        ensures
            r == self.caps.sextant,
    {
        self.caps.sextant
    }

    /// Can RGB colors be specified directly per cell?
    pub fn cantruecolor(&self) -> (r: bool)
        ensures
            r == self.caps.truecolor,
    {
        self.caps.truecolor
    }

    /// Is the encoding UTF-8?
    pub fn canutf8(&self) -> (r: bool)
        ensures
            r == self.caps.utf8,
    {
        self.caps.utf8
    }

    /// The pixel-graphics mechanism detected, or zero for none.
    pub fn check_pixel_support(&self) -> (r: NcPixelImpl)
        ensures
            r == self.caps.pixel,
    {
        self.caps.pixel
    }

    /// The number of simultaneous colors claimed, or an unsupported
    /// error where there is no color support at all.
    pub fn palette_size(&self) -> (r: NcResult<u32>)
        ensures
            self.caps.colors > 1 <==> r is Ok,
            r matches Ok(n) ==> n == self.caps.colors,
            r matches Err(e) ==> e == NcError::Unsupported,
    {
        if self.caps.colors <= 1 {
            return Err(NcError::Unsupported);
        }
        Ok(self.caps.colors)
    }

    /// The style bits the terminal supports together with color.
    pub fn supported_styles(&self) -> (r: NcStyle)
        ensures
            r == NCSTYLE_MASK,
    {
        NCSTYLE_MASK
    }

    /// The name of the detected terminal.
    pub fn detected_terminal(&self) -> (r: String)
        ensures
            r@ == self.caps.term_name@,
    {
        self.caps.term_name.clone()
    }

    /// A read-only view of the standard plane, which always exists.
    pub fn stdplane_const(&self) -> (r: &NcPlane)
        requires
            nc_wf(*self),
        ensures
            *r == self.planes@[0],
    {
        &self.planes[0]
    }

    /// The handle of the topmost plane of the pile, of which there is
    /// always at least one while the context lives; handles stand in for
    /// the plane references of a pointer-based interface.
    pub fn top(&self) -> (r: NcResult<usize>)
        requires
            nc_wf(*self),
        ensures
            r is Ok <==> self.zorder@.len() > 0,
            r matches Ok(id) ==> id == self.zorder@[0] && self.alive@[id as int],
            r matches Err(e) ==> e == NcError::Invalid,
    {
        if self.zorder.len() == 0 {
            return Err(NcError::Invalid);
        }
        Ok(self.zorder[0])
    }

    /// The handle of the bottommost plane of the pile.
    pub fn bottom(&self) -> (r: NcResult<usize>)
        requires
            nc_wf(*self),
        ensures
            r is Ok <==> self.zorder@.len() > 0,
            r matches Ok(id) ==> id == self.zorder@[self.zorder@.len() - 1] && self.alive@[id as int],
            r matches Err(e) ==> e == NcError::Invalid,
    {
        let n = self.zorder.len();
        if n == 0 {
            return Err(NcError::Invalid);
        }
        Ok(self.zorder[n - 1])
    }

    /// The dimensions of the standard plane, rows then columns.
    pub fn term_dim_yx(&self) -> (r: (NcDim, NcDim))
        requires
            nc_wf(*self),
        ensures
            r.0 == self.planes@[0].rows,
            r.1 == self.planes@[0].cols,
    {
        let p = &self.planes[0];
        (p.rows, p.cols)
    }
}

/// # Input
impl Nc {
    /// Feeds raw terminal bytes into the decoder; decoded events queue
    /// up for the `getc` family.
    pub fn feed_input(&mut self, bytes: &[u8])
        requires
            nc_wf(*old(self)),
        ensures
            nc_wf(*final(self)),
            *final(self) == (Nc { decoder: final(self).decoder, ..*old(self) }),
            final(self).decoder.queue@.take(old(self).decoder.queue@.len() as int) == old(self).decoder.queue@,
            (old(self).decoder.phase == crate::input::DecoderPhase::Ground && (forall|k: int|
                0 <= k < bytes@.len() ==> bytes@[k] < 0x80 && bytes@[k] != 0x1B)) ==> final(self).decoder.queue@ == old(self).decoder.queue@ + bytes@.map_values(
                |b: u8| crate::input::byte_event(b),
            ),
    {
        self.decoder.feed_bytes(bytes);
    }

    /// Queues a synthesized resize notification, as the embedding
    /// application does when the host signals one.
    pub fn feed_resize(&mut self)
        requires
            nc_wf(*old(self)),
        ensures
            nc_wf(*final(self)),
            *final(self) == (Nc { decoder: final(self).decoder, ..*old(self) }),
    {
        self.decoder.push_resize();
    }

    /// Takes the oldest queued event: its id as a `char`, with the full
    /// record written through `input` when asked for. The `time` bound
    /// is meaningless here, where nothing can block: with no event
    /// queued the call reports that none is ready.
    pub fn get(&mut self, time: Option<NcTime>, input: Option<&mut NcInput>) -> (r: NcResult<
        char,
    >)
        requires
            nc_wf(*old(self)),
        ensures
            nc_wf(*final(self)),
            *final(self) == (Nc { decoder: final(self).decoder, ..*old(self) }),
            old(self).decoder.queue@.len() == 0 <==> r is Err,
            r matches Err(e) ==> e == NcError::NoEvent,
            r matches Ok(c) ==> c as u32 == old(self).decoder.queue@[0].id && final(self).decoder.queue@ == old(self).decoder.queue@.drop_first(),
            (match input {
                Some(slot) => r is Ok ==> *final(slot) == old(self).decoder.queue@[0],
                None => true,
            }),
    {
        let _ = time;
        match self.decoder.poll_event() {
            Some(ev) => {
                let c = char_of(ev.id);
                match input {
                    Some(slot) => {
                        *slot = ev;
                    },
                    None => {},
                }
                Ok(c)
            },
            None => Err(NcError::NoEvent),
        }
    }

    /// Takes the oldest queued event, like [`Nc::get`].
    pub fn getc(&mut self, time: Option<NcTime>, input: Option<&mut NcInput>) -> (r: NcResult<
        char,
    >)
        requires
            nc_wf(*old(self)),
        ensures
            nc_wf(*final(self)),
            *final(self) == (Nc { decoder: final(self).decoder, ..*old(self) }),
            old(self).decoder.queue@.len() == 0 <==> r is Err,
            r matches Err(e) ==> e == NcError::NoEvent,
            r matches Ok(c) ==> c as u32 == old(self).decoder.queue@[0].id,
            (match input {
                Some(slot) => r is Ok ==> *final(slot) == old(self).decoder.queue@[0],
                None => true,
            }),
    {
        self.get(time, input)
    }

    /// Drains up to `vcount` queued events into `ni`, oldest first,
    /// without waiting for more, and says how many were taken.
    pub fn getvec(&mut self, time: Option<NcTime>, ni: &mut Vec<NcInput>, vcount: u32) -> (r:
        NcResult<u32>)
        requires
            nc_wf(*old(self)),
        ensures
            nc_wf(*final(self)),
            *final(self) == (Nc { decoder: final(self).decoder, ..*old(self) }),
            r matches Ok(k) ==> {
                &&& k == (if old(self).decoder.queue@.len() < vcount {
                    old(self).decoder.queue@.len() as u32
                } else {
                    vcount
                })
                &&& final(ni)@ == old(ni)@ + old(self).decoder.queue@.take(k as int)
                &&& final(self).decoder.queue@ == old(self).decoder.queue@.skip(k as int)
            },
            r is Ok,
    {
        let _ = time;
        let mut k: u32 = 0;
        while k < vcount
            invariant
                nc_wf(*self),
                *self == (Nc { decoder: self.decoder, ..*old(self) }),
                self.decoder == (NcInputDecoder { queue: self.decoder.queue, ..old(self).decoder }),
                k <= vcount,
                k <= old(self).decoder.queue@.len(),
                ni@ == old(ni)@ + old(self).decoder.queue@.take(k as int),
                self.decoder.queue@ == old(self).decoder.queue@.skip(k as int),
            decreases vcount - k,
        {
            match self.decoder.poll_event() {
                Some(ev) => {
                    ni.push(ev);
                    proof {
                        assert(ni@ =~= old(ni)@ + old(self).decoder.queue@.take(k as int + 1));
                        assert(self.decoder.queue@ =~= old(self).decoder.queue@.skip(
                            k as int + 1,
                        ));
                    }
                    k = k + 1;
                },
                None => {
                    proof {
                        assert(old(self).decoder.queue@.len() == k);
                    }
                    return Ok(k);
                },
            }
        }
        Ok(k)
    }

    /// Takes the oldest queued event, reporting an error when none is
    /// ready: the embedding application blocks on its raw source and
    /// feeds bytes until one is.
    pub fn getc_blocking(&mut self, input: Option<&mut NcInput>) -> (r: NcResult<char>)
        requires
            nc_wf(*old(self)),
        ensures
            nc_wf(*final(self)),
            *final(self) == (Nc { decoder: final(self).decoder, ..*old(self) }),
            old(self).decoder.queue@.len() == 0 <==> r is Err,
            r matches Err(e) ==> e == NcError::NoEvent,
            r matches Ok(c) ==> c as u32 == old(self).decoder.queue@[0].id,
            (match input {
                Some(slot) => r is Ok ==> *final(slot) == old(self).decoder.queue@[0],
                None => true,
            }),
    {
        self.get(None, input)
    }

    /// Takes the oldest queued event without blocking: with none ready
    /// it hands back the NUL character.
    pub fn getc_nblock(&mut self, input: Option<&mut NcInput>) -> (r: NcResult<char>)
        requires
            nc_wf(*old(self)),
        ensures
            nc_wf(*final(self)),
            *final(self) == (Nc { decoder: final(self).decoder, ..*old(self) }),
            old(self).decoder.queue@.len() == 0 ==> (r matches Ok(c) && c == '\0'),
            old(self).decoder.queue@.len() > 0 ==> (r matches Ok(c) && c as u32 == old(self).decoder.queue@[0].id),
            (match input {
                Some(slot) => old(self).decoder.queue@.len() > 0 ==> *final(slot) == old(self).decoder.queue@[0],
                None => true,
            }),
    {
        match self.get(None, input) {
            Ok(c) => Ok(c),
            Err(_) => Ok('\0'),
        }
    }
}

/// # The compositor
///
/// Rendering walks the z-ordered planes top to bottom at every
/// coordinate of the standard plane's geometry: the first plane whose
/// cell there is not fully transparent supplies the glyph and style,
/// and its channels composite with what lies beneath according to their
/// alpha.
/// Does `p` cover the absolute coordinate `(y, x)`?
pub open spec fn plane_covers(p: NcPlane, y: int, x: int) -> bool {
    &&& p.abs_y <= y < p.abs_y + p.rows
    &&& p.abs_x <= x < p.abs_x + p.cols
}

/// The cell `p` shows at absolute `(y, x)`: the written cell, or the
/// base cell where none was written.
pub open spec fn visible_cell(p: NcPlane, y: int, x: int) -> NcCell {
    let c = crate::plane::cell_at(p, y - p.abs_y, x - p.abs_x);
    if c.gcluster == 0 {
        p.base
    } else {
        c
    }
}

/// A cell both of whose halves are fully transparent contributes
/// nothing: the walk passes through it.
pub open spec fn cell_hidden(c: crate::cell::NcCell) -> bool {
    c.channels.fg.alpha == crate::NCALPHA_TRANSPARENT && c.channels.bg.alpha
        == crate::NCALPHA_TRANSPARENT
}

/// The componentwise average of two 24-bit colors.
pub open spec fn blend_rgb(a: u32, b: u32) -> u32 {
    let r = (((a >> 16) & 0xFF) + ((b >> 16) & 0xFF)) / 2;
    let g = (((a >> 8) & 0xFF) + ((b >> 8) & 0xFF)) / 2;
    let l = ((a & 0xFF) + (b & 0xFF)) / 2;
    (r * 0x10000 + g * 0x100 + l) as u32
}

/// One channel half resolved against the half beneath it: opaque and
/// high-contrast halves stand, transparent ones yield, and a blending
/// RGB half averages with an RGB half beneath (anything non-RGB cannot
/// blend and stands as it is).
pub open spec fn resolve_half(top: NcChannel, below: NcChannel) -> NcChannel {
    if top.alpha == crate::NCALPHA_TRANSPARENT {
        below
    } else if top.alpha == crate::NCALPHA_BLEND {
        if top.default_color || top.palindexed || below.default_color || below.palindexed {
            top
        } else {
            NcChannel {
                rgb: blend_rgb(top.rgb, below.rgb),
                palindex: 0,
                alpha: crate::NCALPHA_OPAQUE,
                palindexed: false,
                default_color: false,
            }
        }
    } else {
        top
    }
}

/// The color that contrasts with a resolved background: black over a
/// bright RGB background, white over everything else.
pub open spec fn contrast_rgb(bg: NcChannel) -> u32 {
    if !bg.default_color && !bg.palindexed && ((bg.rgb >> 16) & 0xFF) + ((bg.rgb >> 8) & 0xFF) + (
    bg.rgb & 0xFF) >= 384 {
        0
    } else {
        0xFFFFFF
    }
}

/// The foreground half resolved: a high-contrast half is forced against
/// the resolved background, anything else resolves like a background
/// half.
pub open spec fn resolve_fg(top: NcChannel, below_fg: NcChannel, resolved_bg: NcChannel) -> NcChannel {
    if top.alpha == crate::NCALPHA_HIGHCONTRAST {
        NcChannel {
            rgb: contrast_rgb(resolved_bg),
            palindex: 0,
            alpha: crate::NCALPHA_OPAQUE,
            palindexed: false,
            default_color: false,
        }
    } else {
        resolve_half(top, below_fg)
    }
}

/// The planes of `nc` in compositing order, topmost first.
pub open spec fn zviews(nc: Nc) -> Seq<NcPlane> {
    Seq::new(nc.zorder@.len(), |k: int| nc.planes@[nc.zorder@[k] as int])
}

/// The grapheme visible at `(y, x)` after compositing `zs` top to
/// bottom.
pub open spec fn composite_text(zs: Seq<NcPlane>, y: int, x: int) -> Seq<char>
    decreases zs.len(),
{
    if zs.len() == 0 {
        Seq::empty()
    } else if plane_covers(zs[0], y, x) && !cell_hidden(visible_cell(zs[0], y, x)) {
        crate::cell::cell_text(visible_cell(zs[0], y, x), zs[0].pool@)
    } else {
        composite_text(zs.drop_first(), y, x)
    }
}

/// The style visible at `(y, x)` after compositing `zs`.
pub open spec fn composite_style(zs: Seq<NcPlane>, y: int, x: int) -> NcStyle
    decreases zs.len(),
{
    if zs.len() == 0 {
        0
    } else if plane_covers(zs[0], y, x) && !cell_hidden(visible_cell(zs[0], y, x)) {
        visible_cell(zs[0], y, x).stylemask
    } else {
        composite_style(zs.drop_first(), y, x)
    }
}

/// The channels visible at `(y, x)` after compositing `zs`: the topmost
/// contributing cell's halves, each resolved against what the planes
/// beneath resolve to.
pub open spec fn composite_channels(zs: Seq<NcPlane>, y: int, x: int) -> NcChannels
    decreases zs.len(),
{
    if zs.len() == 0 {
        default_channels()
    } else if plane_covers(zs[0], y, x) && !cell_hidden(visible_cell(zs[0], y, x)) {
        let c = visible_cell(zs[0], y, x);
        let below = composite_channels(zs.drop_first(), y, x);
        let bg = resolve_half(c.channels.bg, below.bg);
        NcChannels { fg: resolve_fg(c.channels.fg, below.fg, bg), bg }
    } else {
        composite_channels(zs.drop_first(), y, x)
    }
}

/// A fully opaque top cell hides everything beneath it: when the topmost
/// plane covers `(y, x)` and its cell there has opaque foreground and
/// background, the composited glyph, style and channels at `(y, x)` are
/// the same whatever planes lie below.
pub proof fn lemma_opaque_top_hides(zs1: Seq<NcPlane>, zs2: Seq<NcPlane>, y: int, x: int)
    requires
        zs1.len() > 0,
        zs2.len() > 0,
        zs1[0] == zs2[0],
        plane_covers(zs1[0], y, x),
        visible_cell(zs1[0], y, x).channels.fg.alpha == crate::NCALPHA_OPAQUE,
        visible_cell(zs1[0], y, x).channels.bg.alpha == crate::NCALPHA_OPAQUE,
    ensures
        composite_text(zs1, y, x) == composite_text(zs2, y, x),
        composite_style(zs1, y, x) == composite_style(zs2, y, x),
        composite_channels(zs1, y, x) == composite_channels(zs2, y, x),
{
    let c = visible_cell(zs1[0], y, x);
    assert(!cell_hidden(c));
    assert(resolve_half(c.channels.bg, composite_channels(zs1.drop_first(), y, x).bg)
        == c.channels.bg);
    assert(resolve_half(c.channels.bg, composite_channels(zs2.drop_first(), y, x).bg)
        == c.channels.bg);
    assert(resolve_fg(
        c.channels.fg,
        composite_channels(zs1.drop_first(), y, x).fg,
        c.channels.bg,
    ) == c.channels.fg);
    assert(resolve_fg(
        c.channels.fg,
        composite_channels(zs2.drop_first(), y, x).fg,
        c.channels.bg,
    ) == c.channels.fg);
}

/// The componentwise average of two 24-bit colors.
fn blend_rgb_exec(a: u32, b: u32) -> (r: u32)
    ensures
        r == blend_rgb(a, b),
{
    proof {
        assert((a >> 16) & 0xFF < 256 && (a >> 8) & 0xFF < 256 && (a & 0xFF) < 256)
            by (bit_vector);
        assert((b >> 16) & 0xFF < 256 && (b >> 8) & 0xFF < 256 && (b & 0xFF) < 256)
            by (bit_vector);
    }
    let r = (((a >> 16) & 0xFF) + ((b >> 16) & 0xFF)) / 2;
    let g = (((a >> 8) & 0xFF) + ((b >> 8) & 0xFF)) / 2;
    let l = ((a & 0xFF) + (b & 0xFF)) / 2;
    r * 0x10000 + g * 0x100 + l
}

/// One channel half resolved against the half beneath it.
fn resolve_half_exec(top: NcChannel, below: NcChannel) -> (r: NcChannel)
    ensures
        r == resolve_half(top, below),
{
    if top.alpha == crate::NCALPHA_TRANSPARENT {
        below
    } else if top.alpha == crate::NCALPHA_BLEND {
        if top.default_color || top.palindexed || below.default_color || below.palindexed {
            top
        } else {
            NcChannel {
                rgb: blend_rgb_exec(top.rgb, below.rgb),
                palindex: 0,
                alpha: crate::NCALPHA_OPAQUE,
                palindexed: false,
                default_color: false,
            }
        }
    } else {
        top
    }
}

/// The color that contrasts with a resolved background.
fn contrast_rgb_exec(bg: NcChannel) -> (r: u32)
    ensures
        r == contrast_rgb(bg),
{
    let v = bg.rgb;
    proof {
        assert((v >> 16) & 0xFF < 256 && (v >> 8) & 0xFF < 256 && (v & 0xFF) < 256)
            by (bit_vector);
    }
    if !bg.default_color && !bg.palindexed && ((v >> 16) & 0xFF) + ((v >> 8) & 0xFF) + (v & 0xFF)
        >= 384 {
        0
    } else {
        0xFFFFFF
    }
}

impl Nc {
    /// Resolves the coordinate `(y, x)` against the planes from z-order
    /// position `k` down.
    fn resolve_under(&self, k: usize, y: NcDim, x: NcDim) -> (r: (String, NcStyle, NcChannels))
        requires
            nc_wf(*self),
            k <= self.zorder@.len(),
        ensures
            r.0@ == composite_text(zviews(*self).skip(k as int), y as int, x as int),
            r.1 == composite_style(zviews(*self).skip(k as int), y as int, x as int),
            r.2 == composite_channels(zviews(*self).skip(k as int), y as int, x as int),
        decreases self.zorder@.len() - k,
    {
        let ghost zs = zviews(*self);
        if k >= self.zorder.len() {
            proof {
                assert(zs.skip(k as int).len() == 0);
            }
            return (String::new(), 0, NcChannels::new());
        }
        proof {
            assert(zs.skip(k as int)[0] == zs[k as int]);
            assert(zs.skip(k as int).drop_first() =~= zs.skip(k as int + 1));
        }
        let pi = self.zorder[k];
        let p = &self.planes[pi];
        let yi = y as i64;
        let xi = x as i64;
        let covers = (p.abs_y as i64) <= yi && yi < (p.abs_y as i64) + (p.rows as i64) && (
        p.abs_x as i64) <= xi && xi < (p.abs_x as i64) + (p.cols as i64);
        if !covers {
            return self.resolve_under(k + 1, y, x);
        }
        let ly = (yi - (p.abs_y as i64)) as u32;
        let lx = (xi - (p.abs_x as i64)) as u32;
        let idx = crate::plane::grid_index(p.rows, p.cols, ly, lx);
        let mut c = p.cells[idx];
        if c.gcluster == 0 {
            c = p.base;
        }
        proof {
            assert(c == visible_cell(zs[k as int], y as int, x as int));
        }
        if c.channels.fg.alpha == crate::NCALPHA_TRANSPARENT && c.channels.bg.alpha
            == crate::NCALPHA_TRANSPARENT {
            return self.resolve_under(k + 1, y, x);
        }
        let below = self.resolve_under(k + 1, y, x);
        let bg = resolve_half_exec(c.channels.bg, below.2.bg);
        let fg = if c.channels.fg.alpha == crate::NCALPHA_HIGHCONTRAST {
            NcChannel {
                rgb: contrast_rgb_exec(bg),
                palindex: 0,
                alpha: crate::NCALPHA_OPAQUE,
                palindexed: false,
                default_color: false,
            }
        } else {
            resolve_half_exec(c.channels.fg, below.2.fg)
        };
        let text = c.strdup(p);
        (text, c.stylemask, NcChannels { fg, bg })
    }

    /// Composites the standard pile into the frame buffer: for every
    /// coordinate of the standard plane's geometry, the planes are
    /// walked top to bottom and resolved into one glyph, style and
    /// channel triple. Rendering reads the planes and writes only the
    /// frame.
    pub fn render(&mut self) -> (r: NcResult<()>)
        requires
            nc_wf(*old(self)),
        ensures
            nc_wf(*final(self)),
            r is Ok,
            *final(self) == (Nc {
                frame: final(self).frame,
                frame_rows: final(self).frame_rows,
                frame_cols: final(self).frame_cols,
                ..*old(self)
            }),
            final(self).frame_rows == old(self).planes@[0].rows,
            final(self).frame_cols == old(self).planes@[0].cols,
            final(self).frame@.len() == final(self).frame_rows * final(self).frame_cols,
            forall|y: int, x: int|
                0 <= y < final(self).frame_rows && 0 <= x < final(self).frame_cols ==> {
                    let rc = #[trigger] final(self).frame@[crate::plane::gidx(
                        final(self).frame_cols as int,
                        y,
                        x,
                    )];
                    &&& rc.egc@ == composite_text(zviews(*old(self)), y, x)
                    &&& rc.stylemask == composite_style(zviews(*old(self)), y, x)
                    &&& rc.channels == composite_channels(zviews(*old(self)), y, x)
                },
    {
        let ghost nc0 = *old(self);
        let rows = self.planes[0].rows;
        let cols = self.planes[0].cols;
        proof {
            assert(plane_wf(nc0.planes@[0]));
        }
        let mut nf: Vec<NcRenderedCell> = Vec::new();
        let mut yy: NcDim = 0;
        while yy < rows
            invariant
                nc0 == *old(self),
                *self == nc0,
                nc_wf(*self),
                rows == nc0.planes@[0].rows,
                cols == nc0.planes@[0].cols,
                1 <= rows <= DIM_MAX,
                1 <= cols <= DIM_MAX,
                yy <= rows,
                nf@.len() == yy * cols,
                forall|ry: int, rx: int|
                    0 <= ry < yy && 0 <= rx < cols ==> {
                        let rc = #[trigger] nf@[crate::plane::gidx(cols as int, ry, rx)];
                        &&& rc.egc@ == composite_text(zviews(nc0), ry, rx)
                        &&& rc.stylemask == composite_style(zviews(nc0), ry, rx)
                        &&& rc.channels == composite_channels(zviews(nc0), ry, rx)
                    },
            decreases rows - yy,
        {
            let mut xx: NcDim = 0;
            proof {
                assert(yy * cols + cols <= rows * cols) by (nonlinear_arith)
                    requires yy < rows, cols >= 0,
                ;
                assert(rows * cols <= 0xFFFF * 0xFFFF) by (nonlinear_arith)
                    requires rows <= 0xFFFF, cols <= 0xFFFF,
                ;
            }
            while xx < cols
                invariant
                    nc0 == *old(self),
                    *self == nc0,
                    nc_wf(*self),
                    rows == nc0.planes@[0].rows,
                    cols == nc0.planes@[0].cols,
                    1 <= rows <= DIM_MAX,
                    1 <= cols <= DIM_MAX,
                    yy < rows,
                    xx <= cols,
                    yy * cols + cols <= rows * cols,
                    rows * cols <= 0xFFFF * 0xFFFF,
                    nf@.len() == yy * cols + xx,
                    forall|ry: int, rx: int|
                        0 <= ry < yy && 0 <= rx < cols ==> {
                            let rc = #[trigger] nf@[crate::plane::gidx(cols as int, ry, rx)];
                            &&& rc.egc@ == composite_text(zviews(nc0), ry, rx)
                            &&& rc.stylemask == composite_style(zviews(nc0), ry, rx)
                            &&& rc.channels == composite_channels(zviews(nc0), ry, rx)
                        },
                    forall|rx: int|
                        0 <= rx < xx ==> {
                            let rc = #[trigger] nf@[crate::plane::gidx(
                                cols as int,
                                yy as int,
                                rx,
                            )];
                            &&& rc.egc@ == composite_text(zviews(nc0), yy as int, rx)
                            &&& rc.stylemask == composite_style(zviews(nc0), yy as int, rx)
                            &&& rc.channels == composite_channels(zviews(nc0), yy as int, rx)
                        },
                decreases cols - xx,
            {
                let (text, style, chans) = self.resolve_under(0, yy, xx);
                proof {
                    assert(zviews(*self).skip(0) =~= zviews(nc0));
                }
                let ghost prev = nf@;
                nf.push(NcRenderedCell { egc: text, stylemask: style, channels: chans });
                proof {
                    assert forall|ry: int, rx: int|
                        (0 <= ry < yy && 0 <= rx < cols) || (ry == yy && 0 <= rx < xx
                            + 1) implies {
                        let rc = #[trigger] nf@[crate::plane::gidx(cols as int, ry, rx)];
                        &&& rc.egc@ == composite_text(zviews(nc0), ry, rx)
                        &&& rc.stylemask == composite_style(zviews(nc0), ry, rx)
                        &&& rc.channels == composite_channels(zviews(nc0), ry, rx)
                    } by {
                        crate::plane::lemma_gidx(rows as int, cols as int, ry, rx);
                        let i = crate::plane::gidx(cols as int, ry, rx);
                        if ry < yy {
                            assert(i < yy * cols) by (nonlinear_arith)
                                requires
                                    i == ry * cols + rx,
                                    0 <= ry < yy,
                                    0 <= rx < cols,
                                    cols >= 1,
                            ;
                            assert(nf@[i] == prev[i]);
                        } else if rx < xx {
                            assert(i == yy * cols + rx);
                            assert(nf@[i] == prev[i]);
                        } else {
                            assert(i == prev.len());
                        }
                    }
                }
                xx = xx + 1;
            }
            proof {
                assert((yy + 1) * cols == yy * cols + cols) by (nonlinear_arith);
            }
            yy = yy + 1;
        }
        self.frame = nf;
        self.frame_rows = rows;
        self.frame_cols = cols;
        Ok(())
    }

    /// The last rendered content at `(y, x)`: the grapheme as an owned
    /// copy, with the resolved style and channels written through the
    /// two out-parameters; nothing, outside the last frame's geometry.
    pub fn at_yx(
        &mut self,
        y: NcDim,
        x: NcDim,
        stylemask: &mut NcStyle,
        channels: &mut NcChannels,
    ) -> (r: Option<String>)
        ensures
            *final(self) == *old(self),
            r is Some <==> (y < old(self).frame_rows && x < old(self).frame_cols
                && crate::plane::gidx(old(self).frame_cols as int, y as int, x as int) < old(self).frame@.len()),
            r matches Some(s) ==> {
                let rc = old(self).frame@[crate::plane::gidx(
                    old(self).frame_cols as int,
                    y as int,
                    x as int,
                )];
                &&& s@ == rc.egc@
                &&& *final(stylemask) == rc.stylemask
                &&& *final(channels) == rc.channels
            },
            r is None ==> *final(stylemask) == *old(stylemask) && *final(channels) == *old(channels),
    {
        if y >= self.frame_rows || x >= self.frame_cols {
            return None;
        }
        proof {
            assert((y as int) * (self.frame_cols as int) + (x as int) < 0x1_0000_0000_0000_0000)
                by (nonlinear_arith)
                requires
                    y as int <= 0xFFFF_FFFF,
                    self.frame_cols as int <= 0xFFFF_FFFF,
                    x as int <= 0xFFFF_FFFF,
            ;
        }
        let idx64: u64 = (y as u64) * (self.frame_cols as u64) + (x as u64);
        proof {
            assert((y as u64) * (self.frame_cols as u64) + (x as u64) == crate::plane::gidx(
                self.frame_cols as int,
                y as int,
                x as int,
            )) by (nonlinear_arith);
        }
        if idx64 >= self.frame.len() as u64 {
            return None;
        }
        let idx: usize = idx64 as usize;
        let rc = &self.frame[idx];
        *stylemask = rc.stylemask;
        *channels = rc.channels;
        Some(rc.egc.clone())
    }
}

/// A signed position shifted by a signed offset, saturating at the
/// signed range.
pub open spec fn add_sat_i32(a: int, b: int) -> i32 {
    if a + b > 0x7FFF_FFFF {
        0x7FFF_FFFFi32
    } else if a + b < -0x8000_0000 {
        (-0x8000_0000) as i32
    } else {
        (a + b) as i32
    }
}

/// A signed position shifted by a signed offset, saturating at the
/// signed range.
fn add_sat_i32_exec(a: i32, b: i32) -> (r: i32)
    ensures
        r == add_sat_i32(a as int, b as int),
{
    let s: i64 = (a as i64) + (b as i64);
    if s > 0x7FFF_FFFF {
        0x7FFF_FFFF
    } else if s < -0x8000_0000 {
        -0x8000_0000
    } else {
        s as i32
    }
}

/// # The scene graph
impl Nc {
    /// Creates a new plane bound to `bound_to`, at `(y, x)` relative to
    /// that parent's origin, at the top of the z-order, and hands back
    /// its handle. Fails with an invalid-handle error on a dead parent
    /// and with a geometry error on bad dimensions.
    pub fn create_plane(
        &mut self,
        bound_to: usize,
        y: crate::NcOffset,
        x: crate::NcOffset,
        rows: NcDim,
        cols: NcDim,
    ) -> (r: NcResult<usize>)
        requires
            nc_wf(*old(self)),
        ensures
            nc_wf(*final(self)),
            r is Err ==> *final(self) == *old(self),
            r matches Err(e) ==> (e == NcError::Invalid <==> (bound_to
                >= old(self).planes@.len() || !old(self).alive@[bound_to as int])) && (e
                == NcError::Invalid || e == NcError::Geometry),
            (bound_to < old(self).planes@.len() && old(self).alive@[bound_to as int] && 1 <= rows
                <= crate::plane::DIM_MAX && 1 <= cols <= crate::plane::DIM_MAX) ==> r is Ok,
            r matches Ok(id) ==> {
                &&& id == old(self).planes@.len()
                &&& final(self).planes@.len() == old(self).planes@.len() + 1
                &&& final(self).alive@[id as int]
                &&& final(self).parent@[id as int] == bound_to
                &&& final(self).planes@[id as int].rows == rows
                &&& final(self).planes@[id as int].cols == cols
                &&& final(self).zorder@ == old(self).zorder@.insert(0, id)
                &&& forall|j: int|
                    0 <= j < old(self).planes@.len() ==> #[trigger] final(self).planes@[j] == old(self).planes@[j] && final(self).alive@[j] == old(self).alive@[j]
            },
    {
        if bound_to >= self.planes.len() || !self.alive[bound_to] {
            return Err(NcError::Invalid);
        }
        let mut plane = match NcPlane::new(rows, cols) {
            Ok(p) => p,
            Err(e) => {
                return Err(e);
            },
        };
        let py = self.planes[bound_to].abs_y;
        let px = self.planes[bound_to].abs_x;
        let ghost plane0 = plane;
        plane.abs_y = add_sat_i32_exec(py, y);
        plane.abs_x = add_sat_i32_exec(px, x);
        proof {
            crate::plane::lemma_wf_cells_same(plane0, plane);
        }
        let id = self.planes.len();
        self.planes.push(plane);
        self.alive.push(true);
        self.parent.push(bound_to);
        self.zorder.insert(0, id);
        proof {
            assert forall|i: int|
                0 <= i < self.planes@.len() && self.alive@[i] implies plane_wf(
                #[trigger] self.planes@[i],
            ) by {
                if i < old(self).planes@.len() {
                    assert(self.planes@[i] == old(self).planes@[i]);
                } else {
                    assert(self.planes@[i] == self.planes@[id as int]);
                }
            }
        }
        Ok(id)
    }

    /// Destroys the plane `id`, releasing its cell store; planes bound
    /// to it are rebound to its own parent, keeping their absolute
    /// positions. The policy is a choice: [`Nc::destroy_plane_family`]
    /// is the cascading alternative, taking the bound subtree down with
    /// the plane. The standard plane cannot be destroyed.
    pub fn destroy_plane(&mut self, id: usize) -> (r: NcResult<()>)
        requires
            nc_wf(*old(self)),
        ensures
            nc_wf(*final(self)),
            r is Err ==> *final(self) == *old(self),
            r matches Err(e) ==> e == NcError::Invalid,
            r is Ok <==> (0 < id < old(self).planes@.len() && old(self).alive@[id as int]),
            r is Ok ==> !final(self).alive@[id as int] && forall|j: int|
                0 <= j < old(self).planes@.len() && j != id ==> final(self).alive@[j] == old(self).alive@[j],
    {
        if id == 0 || id >= self.planes.len() || !self.alive[id] {
            return Err(NcError::Invalid);
        }
        let g0 = self.parent[id];
        let gp: usize = if g0 == id {
            0
        } else {
            g0
        };
        let n = self.planes.len();
        let mut i: usize = 0;
        while i < n
            invariant
                n == self.planes@.len(),
                i <= n,
                0 < id < n,
                gp < n,
                gp != id,
                *self == (Nc { parent: self.parent, ..*old(self) }),
                self.parent@.len() == n,
                nc_wf(*old(self)),
                self.alive@[gp as int],
                forall|j: int| 0 <= j < n ==> #[trigger] self.parent@[j] < n,
                forall|j: int| 0 <= j < i && j != id ==> #[trigger] self.parent@[j] != id,
                forall|j: int|
                    0 <= j < n && self.alive@[j] ==> self.alive@[#[trigger] self.parent@[j] as int],
                self.parent@[0] == 0,
            decreases n - i,
        {
            if i != id && self.parent[i] == id {
                self.parent[i] = gp;
            }
            i = i + 1;
        }
        self.alive[id] = false;
        let mut nz: Vec<usize> = Vec::new();
        let zl = self.zorder.len();
        let mut k: usize = 0;
        while k < zl
            invariant
                zl == self.zorder@.len(),
                k <= zl,
                id < self.planes@.len(),
                *self == (Nc { parent: self.parent, alive: self.alive, ..*old(self) }),
                self.zorder@ == old(self).zorder@,
                nc_wf(*old(self)),
                self.alive@.len() == self.planes@.len(),
                forall|j: int|
                    0 <= j < self.planes@.len() && j != id ==> self.alive@[j] == old(self).alive@[j],
                !self.alive@[id as int],
                forall|k2: int|
                    0 <= k2 < nz@.len() ==> #[trigger] nz@[k2] < self.planes@.len()
                        && self.alive@[nz@[k2] as int],
                forall|k2: int|
                    0 <= k2 < nz@.len() ==> exists|k3: int|
                        0 <= k3 < k && #[trigger] nz@[k2] == self.zorder@[k3],
                forall|k2: int, k3: int|
                    0 <= k2 < nz@.len() && 0 <= k3 < nz@.len() && k2 != k3 ==> #[trigger] nz@[k2]
                        != #[trigger] nz@[k3],
            decreases zl - k,
        {
            let z = self.zorder[k];
            if z != id {
                proof {
                    assert(old(self).alive@[z as int]);
                    assert forall|k2: int| 0 <= k2 < nz@.len() implies nz@[k2] != z by {
                        let k3 = choose|k3: int|
                            0 <= k3 < k && nz@[k2] == self.zorder@[k3];
                        assert(self.zorder@[k3] != self.zorder@[k as int]);
                    }
                }
                nz.push(z);
                proof {
                    assert forall|k2: int|
                        0 <= k2 < nz@.len() implies exists|k3: int|
                        0 <= k3 < k + 1 && #[trigger] nz@[k2] == self.zorder@[k3] by {
                        if k2 == nz@.len() - 1 {
                            assert(nz@[k2] == self.zorder@[k as int]);
                        } else {
                            let k3 = choose|k3: int|
                                0 <= k3 < k && nz@[k2] == self.zorder@[k3];
                            assert(0 <= k3 < k + 1 && nz@[k2] == self.zorder@[k3]);
                        }
                    }
                }
            } else {
                proof {
                    assert forall|k2: int|
                        0 <= k2 < nz@.len() implies exists|k3: int|
                        0 <= k3 < k + 1 && #[trigger] nz@[k2] == self.zorder@[k3] by {
                        let k3 = choose|k3: int|
                            0 <= k3 < k && nz@[k2] == self.zorder@[k3];
                        assert(0 <= k3 < k + 1 && nz@[k2] == self.zorder@[k3]);
                    }
                }
            }
            k = k + 1;
        }
        self.zorder = nz;
        Ok(())
    }

    /// Destroys the plane `id` and, with it, every plane whose binding
    /// chain passes through it: the cascading alternative to
    /// [`Nc::destroy_plane`]'s rebinding policy. The standard plane
    /// cannot be destroyed.
    pub fn destroy_plane_family(&mut self, id: usize) -> (r: NcResult<()>)
        requires
            nc_wf(*old(self)),
        ensures
            nc_wf(*final(self)),
            r is Err ==> *final(self) == *old(self),
            r matches Err(e) ==> e == NcError::Invalid,
            r is Ok <==> (0 < id < old(self).planes@.len() && old(self).alive@[id as int]),
            r is Ok ==> !final(self).alive@[id as int] && final(self).alive@[0] && forall|j: int|
                0 <= j < old(self).planes@.len() && final(self).alive@[j] ==> old(self).alive@[j],
    {
        if id == 0 || id >= self.planes.len() || !self.alive[id] {
            return Err(NcError::Invalid);
        }
        let n = self.planes.len();
        self.alive[id] = false;
        let mut changed = true;
        while changed
            invariant
                n == self.planes@.len(),
                0 < id < n,
                *self == (Nc { alive: self.alive, ..*old(self) }),
                self.alive@.len() == n,
                nc_wf(*old(self)),
                !self.alive@[id as int],
                self.alive@[0],
                forall|j: int| 0 <= j < n && self.alive@[j] ==> old(self).alive@[j],
                !changed ==> forall|i: int|
                    1 <= i < n ==> !(self.alive@[i] && !self.alive@[#[trigger] self.parent@[i] as int]),
            decreases 2 * count_true(self.alive@) + (if changed {
                1int
            } else {
                0int
            }),
        {
            changed = false;
            let ghost head = self.alive@;
            let mut i: usize = 1;
            while i < n
                invariant
                    n == self.planes@.len(),
                    0 < id < n,
                    1 <= i <= n,
                    *self == (Nc { alive: self.alive, ..*old(self) }),
                    self.alive@.len() == n,
                    nc_wf(*old(self)),
                    head.len() == n,
                    !self.alive@[id as int],
                    self.alive@[0],
                    forall|j: int| 0 <= j < n && self.alive@[j] ==> old(self).alive@[j],
                    forall|j: int| 0 <= j < n && self.alive@[j] ==> head[j],
                    count_true(self.alive@) <= count_true(head),
                    changed ==> count_true(self.alive@) < count_true(head),
                    !changed ==> self.alive@ == head && forall|j: int|
                        1 <= j < i ==> !(self.alive@[j] && !self.alive@[#[trigger] self.parent@[j] as int]),
                decreases n - i,
            {
                if self.alive[i] && !self.alive[self.parent[i]] {
                    let ghost prev = self.alive@;
                    self.alive[i] = false;
                    proof {
                        lemma_count_true_update(prev, i as int);
                        lemma_count_true_le(self.alive@, prev);
                        if !changed {
                            lemma_count_true_le(self.alive@, head);
                        }
                    }
                    changed = true;
                }
                i = i + 1;
            }
        }
        let mut nz: Vec<usize> = Vec::new();
        let zl = self.zorder.len();
        let mut k: usize = 0;
        while k < zl
            invariant
                zl == self.zorder@.len(),
                k <= zl,
                id < self.planes@.len(),
                *self == (Nc { alive: self.alive, ..*old(self) }),
                self.zorder@ == old(self).zorder@,
                nc_wf(*old(self)),
                self.alive@.len() == self.planes@.len(),
                forall|j: int|
                    0 <= j < self.planes@.len() && self.alive@[j] ==> old(self).alive@[j],
                forall|k2: int|
                    0 <= k2 < nz@.len() ==> #[trigger] nz@[k2] < self.planes@.len()
                        && self.alive@[nz@[k2] as int],
                forall|k2: int|
                    0 <= k2 < nz@.len() ==> exists|k3: int|
                        0 <= k3 < k && #[trigger] nz@[k2] == self.zorder@[k3],
                forall|k2: int, k3: int|
                    0 <= k2 < nz@.len() && 0 <= k3 < nz@.len() && k2 != k3 ==> #[trigger] nz@[k2]
                        != #[trigger] nz@[k3],
            decreases zl - k,
        {
            let z = self.zorder[k];
            if z < self.alive.len() && self.alive[z] {
                proof {
                    assert forall|k2: int| 0 <= k2 < nz@.len() implies nz@[k2] != z by {
                        let k3 = choose|k3: int|
                            0 <= k3 < k && nz@[k2] == self.zorder@[k3];
                        assert(self.zorder@[k3] != self.zorder@[k as int]);
                    }
                }
                nz.push(z);
                proof {
                    assert forall|k2: int|
                        0 <= k2 < nz@.len() implies exists|k3: int|
                        0 <= k3 < k + 1 && #[trigger] nz@[k2] == self.zorder@[k3] by {
                        if k2 == nz@.len() - 1 {
                            assert(nz@[k2] == self.zorder@[k as int]);
                        } else {
                            let k3 = choose|k3: int|
                                0 <= k3 < k && nz@[k2] == self.zorder@[k3];
                            assert(0 <= k3 < k + 1 && nz@[k2] == self.zorder@[k3]);
                        }
                    }
                }
            } else {
                proof {
                    assert forall|k2: int|
                        0 <= k2 < nz@.len() implies exists|k3: int|
                        0 <= k3 < k + 1 && #[trigger] nz@[k2] == self.zorder@[k3] by {
                        let k3 = choose|k3: int|
                            0 <= k3 < k && nz@[k2] == self.zorder@[k3];
                        assert(0 <= k3 < k + 1 && nz@[k2] == self.zorder@[k3]);
                    }
                }
            }
            k = k + 1;
        }
        self.zorder = nz;
        Ok(())
    }

    /// Destroys every plane but the standard one.
    pub fn drop_planes(&mut self)
        requires
            nc_wf(*old(self)),
        ensures
            nc_wf(*final(self)),
            final(self).alive@[0],
            forall|j: int| 1 <= j < final(self).alive@.len() ==> !(#[trigger] final(self).alive@[j]),
            final(self).zorder@ == seq![0usize],
            final(self).planes == old(self).planes,
            final(self).alive@.len() == old(self).alive@.len(),
            *final(self) == (Nc {
                alive: final(self).alive,
                parent: final(self).parent,
                zorder: final(self).zorder,
                ..*old(self)
            }),
    {
        let n = self.planes.len();
        let mut na: Vec<bool> = Vec::new();
        na.push(true);
        let mut np: Vec<usize> = Vec::new();
        np.push(0);
        let mut i: usize = 1;
        while i < n
            invariant
                1 <= i <= n || (n == 0 && i == 1),
                na@.len() == i,
                np@.len() == i,
                na@[0],
                np@[0] == 0,
                forall|j: int| 1 <= j < i ==> !(#[trigger] na@[j]),
                forall|j: int| 0 <= j < i ==> #[trigger] np@[j] == 0,
            decreases n - i,
        {
            na.push(false);
            np.push(0);
            i = i + 1;
        }
        self.alive = na;
        self.parent = np;
        let mut nz: Vec<usize> = Vec::new();
        nz.push(0);
        self.zorder = nz;
        proof {
            assert(self.zorder@ =~= seq![0usize]);
        }
    }
}

/// Removing an element of a duplicate-free sequence keeps it duplicate
/// free, and every remaining element is one of the source sequence.
pub(crate) proof fn lemma_distinct_remove(s: Seq<usize>, i: int)
    requires
        0 <= i < s.len(),
        forall|k1: int, k2: int|
            0 <= k1 < s.len() && 0 <= k2 < s.len() && k1 != k2 ==> s[k1] != s[k2],
    ensures
        forall|k: int|
            0 <= k < s.remove(i).len() ==> #[trigger] s.remove(i)[k] == (if k < i {
                s[k]
            } else {
                s[k + 1]
            }),
        forall|k1: int, k2: int|
            0 <= k1 < s.remove(i).len() && 0 <= k2 < s.remove(i).len() && k1 != k2 ==> s.remove(
                i,
            )[k1] != s.remove(i)[k2],
        forall|k: int| 0 <= k < s.remove(i).len() ==> s.remove(i)[k] != s[i],
{
    assert forall|k: int|
        0 <= k < s.remove(i).len() implies #[trigger] s.remove(i)[k] == (if k < i {
        s[k]
    } else {
        s[k + 1]
    }) by {}
}

/// How many entries of a liveness map are set.
pub open spec fn count_true(s: Seq<bool>) -> nat
    decreases s.len(),
{
    if s.len() == 0 {
        0
    } else {
        (if s[0] {
            1nat
        } else {
            0nat
        }) + count_true(s.drop_first())
    }
}

/// Clearing a set entry lowers the count by exactly one.
pub(crate) proof fn lemma_count_true_update(s: Seq<bool>, i: int)
    requires
        0 <= i < s.len(),
        s[i],
    ensures
        count_true(s.update(i, false)) + 1 == count_true(s),
    decreases s.len(),
{
    if i == 0 {
        assert(s.update(0, false).drop_first() =~= s.drop_first());
    } else {
        assert(s.update(i, false).drop_first() =~= s.drop_first().update(i - 1, false));
        lemma_count_true_update(s.drop_first(), i - 1);
    }
}

/// A map set nowhere a second map is clear counts no higher.
pub(crate) proof fn lemma_count_true_le(a: Seq<bool>, b: Seq<bool>)
    requires
        a.len() == b.len(),
        forall|j: int| 0 <= j < a.len() && a[j] ==> b[j],
    ensures
        count_true(a) <= count_true(b),
    decreases a.len(),
{
    if a.len() > 0 {
        assert(a[0] ==> b[0]);
        assert forall|j: int| 0 <= j < a.drop_first().len() && a.drop_first()[j] implies b.drop_first()[j] by {
            assert(a[j + 1] ==> b[j + 1]);
        }
        lemma_count_true_le(a.drop_first(), b.drop_first());
    }
}

/// Does the z-order hold `id`?
pub open spec fn in_zorder(z: Seq<usize>, id: usize) -> bool {
    exists|k: int| 0 <= k < z.len() && z[k] == id
}

impl Nc {
    /// The position of `id` in the z-order, if it stands there.
    fn z_index_of(&self, id: usize) -> (r: Option<usize>)
        ensures
            r matches Some(k) ==> k < self.zorder@.len() && self.zorder@[k as int] == id,
            r is None ==> forall|k: int| 0 <= k < self.zorder@.len() ==> self.zorder@[k] != id,
            r is Some <==> in_zorder(self.zorder@, id),
    {
        let n = self.zorder.len();
        let mut k: usize = 0;
        while k < n
            invariant
                n == self.zorder@.len(),
                k <= n,
                forall|k2: int| 0 <= k2 < k ==> self.zorder@[k2] != id,
            decreases n - k,
        {
            if self.zorder[k] == id {
                return Some(k);
            }
            k = k + 1;
        }
        None
    }

    /// Moves `id` in the z-order so that it stands directly above
    /// `target`. Fails with an invalid-handle error on dead or missing
    /// planes, and with a not-sibling error when the two planes are not
    /// bound to the same parent.
    pub fn move_above(&mut self, id: usize, target: usize) -> (r: NcResult<()>)
        requires
            nc_wf(*old(self)),
        ensures
            nc_wf(*final(self)),
            r is Err ==> final(self).zorder@ == old(self).zorder@ && *final(self) == (Nc {
                zorder: final(self).zorder,
                ..*old(self)
            }),
            r matches Err(e) ==> (e == NcError::Invalid || e == NcError::NotSibling),
            r is Ok <==> (id < old(self).planes@.len() && old(self).alive@[id as int] && target
                < old(self).planes@.len() && old(self).alive@[target as int] && id != target
                && old(self).parent@[id as int] == old(self).parent@[target as int] && in_zorder(
                old(self).zorder@,
                id,
            ) && in_zorder(old(self).zorder@, target)),
            r is Ok ==> exists|j: int|
                0 <= j && j + 1 < final(self).zorder@.len() && (#[trigger] final(self).zorder@[j]) == id && final(self).zorder@[j + 1] == target,
            r is Ok ==> final(self).zorder@.len() == old(self).zorder@.len(),
            r is Ok ==> *final(self) == (Nc { zorder: final(self).zorder, ..*old(self) }),
    {
        self.z_reorder(id, target, true)
    }

    /// Moves `id` in the z-order so that it stands directly below
    /// `target`. Fails as [`Nc::move_above`] does.
    pub fn move_below(&mut self, id: usize, target: usize) -> (r: NcResult<()>)
        requires
            nc_wf(*old(self)),
        ensures
            nc_wf(*final(self)),
            r is Err ==> final(self).zorder@ == old(self).zorder@ && *final(self) == (Nc {
                zorder: final(self).zorder,
                ..*old(self)
            }),
            r matches Err(e) ==> (e == NcError::Invalid || e == NcError::NotSibling),
            r is Ok <==> (id < old(self).planes@.len() && old(self).alive@[id as int] && target
                < old(self).planes@.len() && old(self).alive@[target as int] && id != target
                && old(self).parent@[id as int] == old(self).parent@[target as int] && in_zorder(
                old(self).zorder@,
                id,
            ) && in_zorder(old(self).zorder@, target)),
            r is Ok ==> exists|j: int|
                0 <= j && j + 1 < final(self).zorder@.len() && (#[trigger] final(self).zorder@[j]) == target && final(self).zorder@[j + 1] == id,
            r is Ok ==> final(self).zorder@.len() == old(self).zorder@.len(),
            r is Ok ==> *final(self) == (Nc { zorder: final(self).zorder, ..*old(self) }),
    {
        self.z_reorder(id, target, false)
    }

    /// Takes `id` out of the z-order and reinserts it against `target`.
    fn z_reorder(&mut self, id: usize, target: usize, above: bool) -> (r: NcResult<()>)
        requires
            nc_wf(*old(self)),
        ensures
            nc_wf(*final(self)),
            r is Err ==> final(self).zorder@ == old(self).zorder@ && *final(self) == (Nc {
                zorder: final(self).zorder,
                ..*old(self)
            }),
            r matches Err(e) ==> (e == NcError::Invalid || e == NcError::NotSibling),
            r is Ok <==> (id < old(self).planes@.len() && old(self).alive@[id as int] && target
                < old(self).planes@.len() && old(self).alive@[target as int] && id != target
                && old(self).parent@[id as int] == old(self).parent@[target as int] && in_zorder(
                old(self).zorder@,
                id,
            ) && in_zorder(old(self).zorder@, target)),
            r is Ok && above ==> exists|j: int|
                0 <= j && j + 1 < final(self).zorder@.len() && (#[trigger] final(self).zorder@[j]) == id && final(self).zorder@[j + 1] == target,
            r is Ok && !above ==> exists|j: int|
                0 <= j && j + 1 < final(self).zorder@.len() && (#[trigger] final(self).zorder@[j]) == target && final(self).zorder@[j + 1] == id,
            r is Ok ==> final(self).zorder@.len() == old(self).zorder@.len(),
            r is Ok ==> *final(self) == (Nc { zorder: final(self).zorder, ..*old(self) }),
    {
        if id >= self.planes.len() || !self.alive[id] || target >= self.planes.len()
            || !self.alive[target] || id == target {
            return Err(NcError::Invalid);
        }
        if self.parent[id] != self.parent[target] {
            return Err(NcError::NotSibling);
        }
        let ipos = match self.z_index_of(id) {
            Some(k) => k,
            None => {
                return Err(NcError::Invalid);
            },
        };
        let ghost z0 = self.zorder@;
        let _ = self.zorder.remove(ipos);
        proof {
            lemma_distinct_remove(z0, ipos as int);
        }
        let ghost z1 = self.zorder@;
        let tpos = match self.z_index_of(target) {
            Some(k) => k,
            None => {
                // the target is absent from the z-order entirely: restore
                // what was removed and refuse
                self.zorder.insert(ipos, id);
                proof {
                    assert(self.zorder@ =~= z0);
                    if in_zorder(z0, target) {
                        let k0 = choose|k0: int| 0 <= k0 < z0.len() && z0[k0] == target;
                        if k0 < ipos {
                            assert(z1[k0] == target);
                        } else {
                            assert(z1[k0 - 1] == target);
                        }
                        assert(false);
                    }
                }
                return Err(NcError::Invalid);
            },
        };
        proof {
            assert(in_zorder(z0, id)) by {
                assert(z0[ipos as int] == id);
            }
            assert(in_zorder(z0, target)) by {
                if tpos < ipos {
                    assert(z0[tpos as int] == z1[tpos as int]);
                } else {
                    assert(z0[tpos as int + 1] == z1[tpos as int]);
                }
            }
        }
        proof {
            assert(tpos < self.zorder@.len());
            assert(self.zorder@.len() <= usize::MAX) by {
                let l = vstd::std_specs::vec::spec_vec_len(&self.zorder);
            }
        }
        let at: usize = if above {
            tpos
        } else {
            tpos + 1
        };
        self.zorder.insert(at, id);
        proof {
            let z2 = self.zorder@;
            assert(z2 == z1.insert(at as int, id));
            assert forall|k: int| 0 <= k < z2.len() implies #[trigger] z2[k] == (if k < at {
                z1[k]
            } else if k == at {
                id
            } else {
                z1[k - 1]
            }) by {}
            assert forall|k1: int, k2: int|
                0 <= k1 < z2.len() && 0 <= k2 < z2.len() && k1 != k2 implies #[trigger] z2[k1]
                != #[trigger] z2[k2] by {
                if k1 != at && k2 != at {
                    let j1: int = if k1 < at {
                        k1
                    } else {
                        k1 - 1
                    };
                    let j2: int = if k2 < at {
                        k2
                    } else {
                        k2 - 1
                    };
                    assert(z1[j1] != z1[j2]);
                }
            }
            if above {
                assert(z2[at as int] == id && z2[at as int + 1] == z1[tpos as int]);
            } else {
                assert(z2[at as int] == id && z2[at as int - 1] == z1[tpos as int]);
            }
        }
        Ok(())
    }

    /// Walks the parent links up from `from`, as far as a chain inside
    /// the arena can go: whether `anc` stands among the ancestors. The
    /// arena's size bounds the walk, and with it the reachability the
    /// contract speaks of: a longer parent chain would have to revisit a
    /// plane, and so could not reach anything new.
    fn is_ancestor(&self, anc: usize, from: usize) -> (r: bool)
        requires
            nc_wf(*self),
            from < self.planes@.len(),
        ensures
            r == reaches_in(self.parent@, from as int, anc as int, self.planes@.len() as nat),
    {
        let n = self.planes.len();
        let mut cur = from;
        let mut fuel: usize = n;
        while fuel > 0
            invariant
                nc_wf(*self),
                n == self.planes@.len(),
                cur < n,
                fuel <= n,
                reaches_in(self.parent@, from as int, anc as int, n as nat) == reaches_in(
                    self.parent@,
                    cur as int,
                    anc as int,
                    fuel as nat,
                ),
            decreases fuel,
        {
            if cur == anc {
                return true;
            }
            let up = self.parent[cur];
            if up == cur {
                proof {
                    lemma_reaches_self_loop(self.parent@, cur as int, anc as int, fuel as nat);
                }
                return false;
            }
            cur = up;
            fuel = fuel - 1;
        }
        cur == anc
    }

    /// Rebinds `id` to `new_parent`, keeping its origin relative to its
    /// parent: the absolute origin moves by the difference of the two
    /// parents' origins. The rebinding is refused, with a cycle error,
    /// exactly when `new_parent` descends from `id`: the ancestors of
    /// the proposed parent are walked before anything is committed.
    pub fn reparent(&mut self, id: usize, new_parent: usize) -> (r: NcResult<()>)
        requires
            nc_wf(*old(self)),
        ensures
            nc_wf(*final(self)),
            r is Err ==> *final(self) == *old(self),
            r is Ok <==> (id != 0 && id < old(self).planes@.len() && old(self).alive@[id as int]
                && new_parent < old(self).planes@.len() && old(self).alive@[new_parent as int]
                && !reaches_in(
                old(self).parent@,
                new_parent as int,
                id as int,
                old(self).planes@.len() as nat,
            )),
            r matches Err(e) ==> (e == NcError::Cycle <==> (id != 0 && id < old(self).planes@.len() && old(self).alive@[id as int] && new_parent < old(self).planes@.len() && old(self).alive@[new_parent as int])) && (e == NcError::Invalid
                || e == NcError::Cycle),
            r is Ok ==> final(self).parent@ == old(self).parent@.update(id as int, new_parent),
            r is Ok ==> forall|j: int|
                0 <= j < old(self).planes@.len() && j != id ==> #[trigger] final(self).planes@[j] == old(self).planes@[j],
    {
        if id == 0 || id >= self.planes.len() || !self.alive[id] || new_parent
            >= self.planes.len() || !self.alive[new_parent] {
            return Err(NcError::Invalid);
        }
        if self.is_ancestor(id, new_parent) {
            return Err(NcError::Cycle);
        }
        let old_parent = self.parent[id];
        let rel_y = self.planes[id].abs_y;
        let rel_x = self.planes[id].abs_x;
        let opy = self.planes[old_parent].abs_y;
        let opx = self.planes[old_parent].abs_x;
        let npy = self.planes[new_parent].abs_y;
        let npx = self.planes[new_parent].abs_x;
        let dy = add_sat_i32_exec(npy, i32_neg_sat(opy));
        let dx = add_sat_i32_exec(npx, i32_neg_sat(opx));
        let ghost p_before = self.planes@[id as int];
        let ny = add_sat_i32_exec(rel_y, dy);
        let nx = add_sat_i32_exec(rel_x, dx);
        self.planes[id].abs_y = ny;
        self.planes[id].abs_x = nx;
        self.parent[id] = new_parent;
        proof {
            crate::plane::lemma_wf_cells_same(p_before, self.planes@[id as int]);
            lemma_nc_wf_plane_update(
                Nc { parent: self.parent, ..*old(self) },
                *self,
                id as int,
            );
            assert(nc_wf(Nc { parent: self.parent, ..*old(self) })) by {
                let ncm = Nc { parent: self.parent, ..*old(self) };
                assert forall|i: int|
                    0 <= i < ncm.planes@.len() && ncm.alive@[i] implies ncm.alive@[#[trigger]
                ncm.parent@[i] as int] by {
                    if i != id {
                        assert(ncm.parent@[i] == old(self).parent@[i]);
                    }
                }
            }
        }
        Ok(())
    }
}

/// Does following parent links from `from` reach `id` within `k` steps?
pub open spec fn reaches_in(par: Seq<usize>, from: int, id: int, k: nat) -> bool
    decreases k,
{
    if from == id {
        true
    } else if k == 0 {
        false
    } else {
        reaches_in(par, par[from] as int, id, (k - 1) as nat)
    }
}

/// A plane that is its own parent, and is not the sought ancestor, leads
/// nowhere however far the walk goes.
pub(crate) proof fn lemma_reaches_self_loop(par: Seq<usize>, cur: int, id: int, k: nat)
    requires
        0 <= cur < par.len(),
        par[cur] == cur,
        cur != id,
    ensures
        !reaches_in(par, cur, id, k),
    decreases k,
{
    if k > 0 {
        lemma_reaches_self_loop(par, cur, id, (k - 1) as nat);
    }
}

/// The negation of a signed position, saturating at the signed range.
fn i32_neg_sat(v: i32) -> (r: i32)
    ensures
        v > -0x8000_0000 ==> r == -v,
        v == -0x8000_0000 ==> r == 0x7FFF_FFFF,
{
    if v == -0x8000_0000 {
        0x7FFF_FFFF
    } else {
        -v
    }
}

/// # Operations on planes held by the context
impl Nc {
    /// Writes grapheme clusters to the plane `id` as
    /// [`NcPlane::putstr_yx`] does on a free-standing plane.
    pub fn putstr_yx(&mut self, id: usize, y: NcDim, x: NcDim, s: &str) -> (r: NcResult<u32>)
        requires
            nc_wf(*old(self)),
            s@.len() <= 0x3FFF_FFFF,
        ensures
            nc_wf(*final(self)),
            (id >= old(self).planes@.len() || !old(self).alive@[id as int]) ==> (r matches Err(
                e,
            ) && e == NcError::Invalid) && *final(self) == *old(self),
            (id < old(self).planes@.len() && old(self).alive@[id as int]) ==> {
                &&& *final(self) == (Nc { planes: final(self).planes, ..*old(self) })
                &&& forall|j: int|
                    0 <= j < old(self).planes@.len() && j != id ==> #[trigger] final(self).planes@[j] == old(self).planes@[j]
                &&& r matches Ok(n) ==> n <= s@.len()
                &&& ((y >= old(self).planes@[id as int].rows || x >= old(self).planes@[id as int].cols) <==> r is Err)
                &&& (r matches Err(e) ==> e == NcError::OutOfBounds)
                &&& ((y < old(self).planes@[id as int].rows && x < old(self).planes@[id as int].cols && s@.len() > 0 && !crate::cell::is_control_char(
                    crate::unicode::first_egc(s@)[0],
                ) && crate::cell::clamp2(crate::unicode::egc_width(crate::unicode::first_egc(s@)))
                    == 1 && (crate::unicode::first_egc(s@).len() == 1
                    || crate::plane::pool_has_room(old(self).planes@[id as int].pool@))) ==> (
                r matches Ok(n) && n >= 1))
            },
    {
        if id >= self.planes.len() || !self.alive[id] {
            return Err(NcError::Invalid);
        }
        let r = self.planes[id].putstr_yx(y, x, s);
        proof {
            lemma_nc_wf_plane_update(*old(self), *self, id as int);
        }
        r
    }

    /// Resizes the plane `id` as [`NcPlane::resize`] does.
    pub fn resize_plane(&mut self, id: usize, rows: NcDim, cols: NcDim) -> (r: NcResult<()>)
        requires
            nc_wf(*old(self)),
        ensures
            nc_wf(*final(self)),
            (id >= old(self).planes@.len() || !old(self).alive@[id as int]) ==> (r matches Err(
                e,
            ) && e == NcError::Invalid) && *final(self) == *old(self),
            (id < old(self).planes@.len() && old(self).alive@[id as int]) ==> {
                &&& *final(self) == (Nc { planes: final(self).planes, ..*old(self) })
                &&& forall|j: int|
                    0 <= j < old(self).planes@.len() && j != id ==> #[trigger] final(self).planes@[j] == old(self).planes@[j]
                &&& (r is Ok <==> (1 <= rows <= crate::plane::DIM_MAX && 1 <= cols
                    <= crate::plane::DIM_MAX))
                &&& r is Ok ==> crate::plane::resize_rel(
                    old(self).planes@[id as int],
                    final(self).planes@[id as int],
                    rows,
                    cols,
                )
                &&& (r matches Err(e) ==> e == NcError::Geometry)
            },
    {
        if id >= self.planes.len() || !self.alive[id] {
            return Err(NcError::Invalid);
        }
        let r = self.planes[id].resize(rows, cols);
        proof {
            lemma_nc_wf_plane_update(*old(self), *self, id as int);
        }
        r
    }

    /// Erases the plane `id` as [`NcPlane::erase`] does.
    pub fn erase_plane(&mut self, id: usize) -> (r: NcResult<()>)
        requires
            nc_wf(*old(self)),
        ensures
            nc_wf(*final(self)),
            (id >= old(self).planes@.len() || !old(self).alive@[id as int]) ==> (r matches Err(
                e,
            ) && e == NcError::Invalid) && *final(self) == *old(self),
            (id < old(self).planes@.len() && old(self).alive@[id as int]) ==> {
                &&& r is Ok
                &&& *final(self) == (Nc { planes: final(self).planes, ..*old(self) })
                &&& forall|j: int|
                    0 <= j < old(self).planes@.len() && j != id ==> #[trigger] final(self).planes@[j] == old(self).planes@[j]
                &&& forall|yy: int, xx: int|
                    crate::plane::in_bounds(old(self).planes@[id as int], yy, xx)
                        ==> #[trigger] crate::plane::cell_at(
                        final(self).planes@[id as int],
                        yy,
                        xx,
                    ) == old(self).planes@[id as int].base
            },
    {
        if id >= self.planes.len() || !self.alive[id] {
            return Err(NcError::Invalid);
        }
        self.planes[id].erase();
        proof {
            lemma_nc_wf_plane_update(*old(self), *self, id as int);
        }
        Ok(())
    }

    /// Replaces the base cell of the plane `id` as [`NcPlane::set_base`]
    /// does.
    pub fn set_plane_base(
        &mut self,
        id: usize,
        ch: char,
        style: NcStyle,
        channels: NcChannels,
    ) -> (r: NcResult<()>)
        requires
            nc_wf(*old(self)),
            channels_wf(channels),
        ensures
            nc_wf(*final(self)),
            (id >= old(self).planes@.len() || !old(self).alive@[id as int]) ==> (r matches Err(
                e,
            ) && e == NcError::Invalid) && *final(self) == *old(self),
            (id < old(self).planes@.len() && old(self).alive@[id as int]) ==> {
                &&& *final(self) == (Nc { planes: final(self).planes, ..*old(self) })
                &&& forall|j: int|
                    0 <= j < old(self).planes@.len() && j != id ==> #[trigger] final(self).planes@[j] == old(self).planes@[j]
                &&& (r is Ok <==> !crate::cell::is_control_char(ch))
                &&& r is Ok ==> final(self).planes@[id as int].base.gcluster == ch as u32
            },
    {
        if id >= self.planes.len() || !self.alive[id] {
            return Err(NcError::Invalid);
        }
        let r = self.planes[id].set_base(ch, style, channels);
        proof {
            lemma_nc_wf_plane_update(*old(self), *self, id as int);
        }
        r
    }
}

/// Replacing one live plane with a well-formed one preserves the
/// context's invariant.
pub(crate) proof fn lemma_nc_wf_plane_update(nc0: Nc, nc1: Nc, id: int)
    requires
        nc_wf(nc0),
        0 <= id < nc0.planes@.len(),
        nc1 == (Nc { planes: nc1.planes, ..nc0 }),
        nc1.planes@.len() == nc0.planes@.len(),
        forall|j: int| 0 <= j < nc0.planes@.len() && j != id ==> nc1.planes@[j] == nc0.planes@[j],
        plane_wf(nc1.planes@[id]),
    ensures
        nc_wf(nc1),
{
    assert forall|i: int|
        0 <= i < nc1.planes@.len() && nc1.alive@[i] implies plane_wf(
        #[trigger] nc1.planes@[i],
    ) by {
        if i != id {
            assert(nc1.planes@[i] == nc0.planes@[i]);
            assert(plane_wf(nc0.planes@[i]));
        }
    }
}

/// The offset into `availcols` at which `cols` ought be output under the
/// requirements of `align`: zero for the left edge or an oversized span,
/// centered or right-aligned otherwise, and the negated largest result
/// for an invalid alignment.
pub fn notcurses_align(availcols: NcDim, align: NcAlign, cols: NcDim) -> (r: NcIntResult)
    requires
        availcols <= 0x7FFF_FFFF,
    ensures
        align == NCALIGN_LEFT ==> r == 0,
        align != NCALIGN_LEFT && cols > availcols ==> (align == NCALIGN_CENTER || align
            == NCALIGN_RIGHT ==> r == 0),
        align == NCALIGN_CENTER && cols <= availcols ==> r == (availcols - cols) as int / 2,
        align == NCALIGN_RIGHT && cols <= availcols ==> r == availcols - cols,
        (align == NCALIGN_UNALIGNED || align > NCALIGN_RIGHT) ==> r == -NCRESULT_MAX,
        r >= 0 <==> (align == NCALIGN_LEFT || align == NCALIGN_CENTER || align == NCALIGN_RIGHT),
{
    if align == NCALIGN_LEFT {
        return 0;
    }
    if align != NCALIGN_CENTER && align != NCALIGN_RIGHT {
        return -NCRESULT_MAX;
    }
    if cols > availcols {
        return 0;
    }
    let room = availcols - cols;
    if align == NCALIGN_CENTER {
        (room / 2) as NcIntResult
    } else {
        room as NcIntResult
    }
}

/// A character with any ASCII capital folded to lower case.
pub open spec fn lower_char(c: char) -> char {
    if 0x41 <= c as u32 && c as u32 <= 0x5A {
        ((c as u32) + 32) as char
    } else {
        c
    }
}

/// A character sequence with every ASCII capital folded to lower case.
pub open spec fn lower(s: Seq<char>) -> Seq<char> {
    Seq::new(s.len(), |i: int| lower_char(s[i]))
}

/// A character with any ASCII capital folded to lower case.
fn lower_char_exec(c: char) -> (r: char)
    ensures
        r == lower_char(c),
{
    let v = c as u32;
    if v >= 0x41 && v <= 0x5A {
        let d = char_of(v + 32);
        proof {
            crate::unicode::lemma_scalar_char(d);
        }
        d
    } else {
        c
    }
}

/// The style a single lowercased token names: one of the five styles,
/// the no-op `none`, or nothing.
pub open spec fn spec_token_style(t: Seq<char>) -> Option<NcStyle> {
    if t == "italic"@ {
        Some(crate::NCSTYLE_ITALIC)
    } else if t == "underline"@ {
        Some(crate::NCSTYLE_UNDERLINE)
    } else if t == "undercurl"@ {
        Some(crate::NCSTYLE_UNDERCURL)
    } else if t == "struck"@ {
        Some(crate::NCSTYLE_STRUCK)
    } else if t == "bold"@ {
        Some(crate::NCSTYLE_BOLD)
    } else if t == "none"@ {
        Some(crate::NCSTYLE_NONE)
    } else {
        None
    }
}

/// The style a single lowercased token names.
fn token_style(tok: &String) -> (r: Option<NcStyle>)
    ensures
        r == spec_token_style(tok@),
        r matches Some(st) ==> st <= 0x1F,
{
    if String::from_str("italic") == *tok {
        Some(crate::NCSTYLE_ITALIC)
    } else if String::from_str("underline") == *tok {
        Some(crate::NCSTYLE_UNDERLINE)
    } else if String::from_str("undercurl") == *tok {
        Some(crate::NCSTYLE_UNDERCURL)
    } else if String::from_str("struck") == *tok {
        Some(crate::NCSTYLE_STRUCK)
    } else if String::from_str("bold") == *tok {
        Some(crate::NCSTYLE_BOLD)
    } else if String::from_str("none") == *tok {
        Some(crate::NCSTYLE_NONE)
    } else {
        None
    }
}

/// The length of the token at position `i`: the run of characters before
/// the next space.
pub open spec fn tok_len_at(s: Seq<char>, i: int) -> nat
    decreases s.len() - i,
{
    if i < 0 || i >= s.len() || s[i] == ' ' {
        0
    } else {
        1 + tok_len_at(s, i + 1)
    }
}

/// The styles a whole space-separated list of tokens names: the union of
/// the style each token names, or nothing as soon as any token —
/// including an empty one, from a leading, trailing or doubled space —
/// names none.
pub open spec fn spec_lex_styles(s: Seq<char>) -> Option<NcStyle>
    decreases s.len(),
{
    let k = tok_len_at(s, 0);
    let t = s.subrange(0, k as int);
    match spec_token_style(lower(t)) {
        None => None,
        Some(st) => {
            if k >= s.len() {
                Some(st)
            } else {
                match spec_lex_styles(s.skip(k as int + 1)) {
                    None => None,
                    Some(r) => Some((st | r) as u16),
                }
            }
        },
    }
}

/// A token that runs from `i` to `k` exclusive — no space inside, a
/// space or the end at `k` — has exactly that length.
pub(crate) proof fn lemma_tok_len_at(s: Seq<char>, i: int, k: int)
    requires
        0 <= i <= k <= s.len(),
        forall|j: int| i <= j < k ==> s[j] != ' ',
        k == s.len() || s[k] == ' ',
    ensures
        tok_len_at(s, i) == k - i,
    decreases k - i,
{
    if i < k {
        lemma_tok_len_at(s, i + 1, k);
    }
}

/// The list of style names in a style mask, each followed by a space, in
/// a fixed order.
pub open spec fn style_words(style: NcStyle) -> Seq<char> {
    (if style & crate::NCSTYLE_ITALIC != 0 {
        "italic "@
    } else {
        Seq::<char>::empty()
    }) + (if style & crate::NCSTYLE_UNDERLINE != 0 {
        "underline "@
    } else {
        Seq::<char>::empty()
    }) + (if style & crate::NCSTYLE_UNDERCURL != 0 {
        "undercurl "@
    } else {
        Seq::<char>::empty()
    }) + (if style & crate::NCSTYLE_STRUCK != 0 {
        "struck "@
    } else {
        Seq::<char>::empty()
    }) + (if style & crate::NCSTYLE_BOLD != 0 {
        "bold "@
    } else {
        Seq::<char>::empty()
    })
}

/// The blitter each name denotes, tried in a fixed order.
pub open spec fn spec_lex_blitter(s: Seq<char>) -> NcResult<NcBlitter> {
    if s == "default"@ {
        Ok(NCBLIT_DEFAULT)
    } else if s == "1x1"@ {
        Ok(NCBLIT_1X1)
    } else if s == "2x1"@ {
        Ok(NCBLIT_2X1)
    } else if s == "2x2"@ {
        Ok(NCBLIT_2X2)
    } else if s == "3x2"@ {
        Ok(NCBLIT_3X2)
    } else if s == "4x1"@ {
        Ok(NCBLIT_4X1)
    } else if s == "8x1"@ {
        Ok(NCBLIT_8X1)
    } else if s == "braille"@ {
        Ok(NCBLIT_BRAILLE)
    } else if s == "pixel"@ {
        Ok(NCBLIT_PIXEL)
    } else {
        Err(NcError::Invalid)
    }
}

/// The scaling mode each name denotes, tried in a fixed order.
pub open spec fn spec_lex_scalemode(s: Seq<char>) -> NcResult<NcScale> {
    if s == "none"@ {
        Ok(NCSCALE_NONE)
    } else if s == "scale"@ {
        Ok(NCSCALE_SCALE)
    } else if s == "stretch"@ {
        Ok(NCSCALE_STRETCH)
    } else if s == "nonehires"@ {
        Ok(NCSCALE_NONE_HIRES)
    } else if s == "scalehires"@ {
        Ok(NCSCALE_SCALE_HIRES)
    } else {
        Err(NcError::Invalid)
    }
}

/// Whatever a style list parses to fits inside the style mask.
pub(crate) proof fn lemma_spec_lex_styles_masked(s: Seq<char>)
    ensures
        (match spec_lex_styles(s) {
            Some(st) => st == st & crate::NCSTYLE_MASK,
            None => true,
        }),
    decreases s.len(),
{
    let k = tok_len_at(s, 0);
    let t = s.subrange(0, k as int);
    match spec_token_style(lower(t)) {
        None => {},
        Some(st) => {
            assert(st & crate::NCSTYLE_MASK == st) by (bit_vector)
                requires st == 0x10u16 || st == 8u16 || st == 4u16 || st == 1u16 || st == 2u16
                    || st == 0u16,
            ;
            if k < s.len() {
                lemma_spec_lex_styles_masked(s.skip(k as int + 1));
                match spec_lex_styles(s.skip(k as int + 1)) {
                    None => {},
                    Some(r) => {
                        assert((st | r) & crate::NCSTYLE_MASK == (st | r)) by (bit_vector)
                            requires
                                st == st & crate::NCSTYLE_MASK,
                                r == r & crate::NCSTYLE_MASK,
                        ;
                    },
                }
            }
        },
    }
}

/// Parses a style list recursively, one token per step.
fn lex_styles_from(s: &str) -> (r: Option<NcStyle>)
    ensures
        r == spec_lex_styles(s@),
    decreases s@.len(),
{
    let n = s.unicode_len();
    let mut k: usize = 0;
    let mut tok = String::new();
    while k < n && s.get_char(k) != ' '
        invariant
            n == s@.len(),
            k <= n,
            forall|j: int| 0 <= j < k ==> s@[j] != ' ',
            tok@ =~= lower(s@.subrange(0, k as int)),
        decreases n - k,
    {
        let c = s.get_char(k);
        let lc = lower_char_exec(c);
        let cs = crate::unicode::char_to_string(lc);
        tok.append(cs.as_str());
        proof {
            assert(tok@ =~= lower(s@.subrange(0, k as int + 1)));
        }
        k = k + 1;
    }
    proof {
        lemma_tok_len_at(s@, 0, k as int);
        assert(s@.subrange(0, k as int) == s@.subrange(0, tok_len_at(s@, 0) as int));
    }
    let st = match token_style(&tok) {
        Some(st) => st,
        None => {
            return None;
        },
    };
    if k == n {
        return Some(st);
    }
    let rest = s.substring_char(k + 1, n);
    proof {
        assert(rest@ =~= s@.skip(k as int + 1));
    }
    match lex_styles_from(rest) {
        Some(r2) => Some(st | r2),
        None => None,
    }
}

/// One recognized token absorbs one step of a style list: a bare token
/// parses to its style, and a token, a space and a tail parse to the
/// union of the token's style and whatever the tail parses to.
pub proof fn lemma_lex_token_block(w: Seq<char>, t: Seq<char>, st: NcStyle)
    requires
        w.len() > 0,
        forall|j: int| 0 <= j < w.len() ==> w[j] != ' ',
        spec_token_style(lower(w)) == Some(st),
    ensures
        spec_lex_styles(w) == Some(st),
        spec_lex_styles(w + seq![' '] + t) == (match spec_lex_styles(t) {
            Some(r) => Some((st | r) as u16),
            None => None::<NcStyle>,
        }),
{
    lemma_tok_len_at(w, 0, w.len() as int);
    assert(w.subrange(0, w.len() as int) =~= w);
    let s = w + seq![' '] + t;
    assert(s[w.len() as int] == ' ');
    assert forall|j: int| 0 <= j < w.len() implies s[j] != ' ' by {
        assert(s[j] == w[j]);
    }
    lemma_tok_len_at(s, 0, w.len() as int);
    assert(s.subrange(0, w.len() as int) =~= w);
    assert(s.skip(w.len() as int + 1) =~= t);
}

/// The five style names and the no-op name are lowercase, space-free
/// tokens naming exactly their style bits, and each printed block is its
/// name plus one space.
pub(crate) proof fn lemma_style_word_facts()
    ensures
        "italic "@ == "italic"@ + seq![' '],
        "underline "@ == "underline"@ + seq![' '],
        "undercurl "@ == "undercurl"@ + seq![' '],
        "struck "@ == "struck"@ + seq![' '],
        "bold "@ == "bold"@ + seq![' '],
        "italic"@.len() == 6 && forall|j: int| 0 <= j < 6 ==> "italic"@[j] != ' ',
        "underline"@.len() == 9 && forall|j: int| 0 <= j < 9 ==> "underline"@[j] != ' ',
        "undercurl"@.len() == 9 && forall|j: int| 0 <= j < 9 ==> "undercurl"@[j] != ' ',
        "struck"@.len() == 6 && forall|j: int| 0 <= j < 6 ==> "struck"@[j] != ' ',
        "bold"@.len() == 4 && forall|j: int| 0 <= j < 4 ==> "bold"@[j] != ' ',
        "none"@.len() == 4 && forall|j: int| 0 <= j < 4 ==> "none"@[j] != ' ',
        spec_token_style(lower("italic"@)) == Some(crate::NCSTYLE_ITALIC),
        spec_token_style(lower("underline"@)) == Some(crate::NCSTYLE_UNDERLINE),
        spec_token_style(lower("undercurl"@)) == Some(crate::NCSTYLE_UNDERCURL),
        spec_token_style(lower("struck"@)) == Some(crate::NCSTYLE_STRUCK),
        spec_token_style(lower("bold"@)) == Some(crate::NCSTYLE_BOLD),
        spec_token_style(lower("none"@)) == Some(crate::NCSTYLE_NONE),
{
    reveal_strlit("italic ");
    reveal_strlit("italic");
    reveal_strlit("underline ");
    reveal_strlit("underline");
    reveal_strlit("undercurl ");
    reveal_strlit("undercurl");
    reveal_strlit("struck ");
    reveal_strlit("struck");
    reveal_strlit("bold ");
    reveal_strlit("bold");
    reveal_strlit("none");
    assert("italic "@ =~= "italic"@ + seq![' ']);
    assert("underline "@ =~= "underline"@ + seq![' ']);
    assert("undercurl "@ =~= "undercurl"@ + seq![' ']);
    assert("struck "@ =~= "struck"@ + seq![' ']);
    assert("bold "@ =~= "bold"@ + seq![' ']);
    assert("undercurl"@[5] != "underline"@[5]);
    assert("struck"@[0] != "italic"@[0]);
    assert("none"@[0] != "bold"@[0]);
    assert("none"@[0] != "struck"@[0]);
    assert("none"@[0] != "italic"@[0]);
    assert(lower("italic"@) =~= "italic"@);
    assert(lower("underline"@) =~= "underline"@);
    assert(lower("undercurl"@) =~= "undercurl"@);
    assert(lower("struck"@) =~= "struck"@);
    assert(lower("bold"@) =~= "bold"@);
    assert(lower("none"@) =~= "none"@);
}

/// Printing a style mask and parsing the print yields the mask back:
/// over the five styles, `lex_styles` inverts `str_styles`.
pub proof fn lemma_styles_round_trip(style: NcStyle)
    requires
        style == style & crate::NCSTYLE_MASK,
    ensures
        style == 0 ==> spec_lex_styles("none"@) == Some(style),
        style != 0 ==> spec_lex_styles(
            style_words(style).take(style_words(style).len() - 1),
        ) == Some(style),
{
    lemma_style_word_facts();
    if style == 0 {
        lemma_lex_token_block("none"@, Seq::<char>::empty(), crate::NCSTYLE_NONE);
        return ;
    }
    let c1: Seq<char> = if style & crate::NCSTYLE_ITALIC != 0 {
        "italic "@
    } else {
        Seq::<char>::empty()
    };
    let c2: Seq<char> = if style & crate::NCSTYLE_UNDERLINE != 0 {
        "underline "@
    } else {
        Seq::<char>::empty()
    };
    let c3: Seq<char> = if style & crate::NCSTYLE_UNDERCURL != 0 {
        "undercurl "@
    } else {
        Seq::<char>::empty()
    };
    let c4: Seq<char> = if style & crate::NCSTYLE_STRUCK != 0 {
        "struck "@
    } else {
        Seq::<char>::empty()
    };
    let c5: Seq<char> = if style & crate::NCSTYLE_BOLD != 0 {
        "bold "@
    } else {
        Seq::<char>::empty()
    };
    let s5 = c5;
    let s4 = c4 + s5;
    let s3 = c3 + s4;
    let s2 = c2 + s3;
    let s1 = c1 + s2;
    assert(style_words(style) =~= s1);
    let m5: u16 = style & 0x02;
    let m4: u16 = style & 0x03;
    let m3: u16 = style & 0x07;
    let m2: u16 = style & 0x0F;
    let m1: u16 = style & 0x1F;
    assert(m1 == style) by (bit_vector)
        requires style == style & 0x1F, m1 == style & 0x1F,
    ;
    assert(m4 == m5 | (style & 0x01) && m3 == m4 | (style & 0x04) && m2 == m3 | (style & 0x08)
        && m1 == m2 | (style & 0x10)) by (bit_vector)
        requires
            m5 == style & 0x02,
            m4 == style & 0x03,
            m3 == style & 0x07,
            m2 == style & 0x0F,
            m1 == style & 0x1F,
    ;
    // from the lowest block up: a nonempty suffix parses to its mask
    assert(s5.len() > 0 ==> spec_lex_styles(s5.take(s5.len() - 1)) == Some(m5)) by {
        if s5.len() > 0 {
            assert(s5 =~= "bold"@ + seq![' ']);
            assert(s5.take(s5.len() - 1) =~= "bold"@);
            lemma_lex_token_block("bold"@, Seq::<char>::empty(), crate::NCSTYLE_BOLD);
            assert(m5 == 0x02) by (bit_vector)
                requires m5 == style & 0x02, style & 0x02 != 0,
            ;
        }
    }
    assert(s5.len() == 0 ==> m5 == 0) by {
        if s5.len() == 0 {
            assert(style & 0x02 == 0);
        }
    }
    lemma_round_trip_step(c4, "struck"@, crate::NCSTYLE_STRUCK, s5, m5, m4, style, 0x01);
    lemma_round_trip_step(c3, "undercurl"@, crate::NCSTYLE_UNDERCURL, s4, m4, m3, style, 0x04);
    lemma_round_trip_step(c2, "underline"@, crate::NCSTYLE_UNDERLINE, s3, m3, m2, style, 0x08);
    lemma_round_trip_step(c1, "italic"@, crate::NCSTYLE_ITALIC, s2, m2, m1, style, 0x10);
    assert(s1.len() > 0) by {
        assert(style & 0x1F != 0 ==> (style & 0x10 != 0 || style & 0x08 != 0 || style & 0x04
            != 0 || style & 0x01 != 0 || style & 0x02 != 0)) by (bit_vector);
    }
}

/// One step of the round trip: prepending one (possibly absent) printed
/// block to a suffix of blocks extends the parsed mask by that block's
/// bit.
pub(crate) proof fn lemma_round_trip_step(
    c: Seq<char>,
    w: Seq<char>,
    bit: NcStyle,
    tail: Seq<char>,
    mt: u16,
    mc: u16,
    style: u16,
    bitv: u16,
)
    requires
        bit == bitv,
        bitv == 0x01 || bitv == 0x02 || bitv == 0x04 || bitv == 0x08 || bitv == 0x10,
        c == (if style & bitv != 0 {
            w + seq![' ']
        } else {
            Seq::<char>::empty()
        }),
        w.len() > 0,
        forall|j: int| 0 <= j < w.len() ==> w[j] != ' ',
        spec_token_style(lower(w)) == Some(bit),
        tail.len() > 0 ==> spec_lex_styles(tail.take(tail.len() - 1)) == Some(mt),
        tail.len() == 0 ==> mt == 0,
        mc == mt | (style & bitv),
    ensures
        (c + tail).len() > 0 ==> spec_lex_styles((c + tail).take((c + tail).len() - 1))
            == Some(mc),
        (c + tail).len() == 0 ==> mc == 0,
{
    if style & bitv == 0 {
        assert(c + tail =~= tail);
        assert(mc == mt) by (bit_vector)
            requires mc == mt | (style & bitv), style & bitv == 0,
        ;
        if tail.len() > 0 {
            assert((c + tail).take((c + tail).len() - 1) =~= tail.take(tail.len() - 1));
        }
    } else {
        assert(c =~= w + seq![' ']);
        if tail.len() == 0 {
            assert(c + tail =~= w + seq![' ']);
            assert((c + tail).take((c + tail).len() - 1) =~= w);
            lemma_lex_token_block(w, Seq::<char>::empty(), bit);
            assert(mc == bitv) by (bit_vector)
                requires mc == mt | (style & bitv), mt == 0, style & bitv != 0, bitv == 0x01
                    || bitv == 0x02 || bitv == 0x04 || bitv == 0x08 || bitv == 0x10,
            ;
        } else {
            let tt = tail.take(tail.len() - 1);
            assert((c + tail).take((c + tail).len() - 1) =~= w + seq![' '] + tt);
            lemma_lex_token_block(w, tt, bit);
            assert(mc == (bit | mt) as u16) by (bit_vector)
                requires
                    mc == mt | (style & bitv),
                    bit == bitv,
                    style & bitv != 0,
                    bitv == 0x01 || bitv == 0x02 || bitv == 0x04 || bitv == 0x08 || bitv
                        == 0x10,
            ;
        }
    }
}

impl Nc {
    /// Parses a space-separated, case-insensitive list of style names —
    /// `italic`, `underline`, `undercurl`, `struck`, `bold` and the
    /// no-op `none` — into a style mask. Any unrecognized token,
    /// including the empty token an extra space leaves, makes the whole
    /// parse fail.
    pub fn lex_styles(styles_str: &str) -> (r: NcResult<NcStyle>)
        ensures
            r == (match spec_lex_styles(styles_str@) {
                Some(st) => Ok::<NcStyle, NcError>(st),
                None => Err::<NcStyle, NcError>(NcError::Invalid),
            }),
            r matches Ok(st) ==> st == st & crate::NCSTYLE_MASK,
    {
        let r = lex_styles_from(styles_str);
        proof {
            lemma_spec_lex_styles_masked(styles_str@);
        }
        match r {
            Some(st) => Ok(st),
            None => Err(NcError::Invalid),
        }
    }

    /// The lowercase names of the styles in a mask, space separated: the
    /// word `none` for an empty mask.
    pub fn str_styles(style: NcStyle) -> (r: String)
        ensures
            (style & crate::NCSTYLE_MASK == 0) ==> r@ == "none"@,
            (style & crate::NCSTYLE_MASK != 0) ==> r@ == style_words(style).take(
                style_words(style).len() - 1,
            ),
    {
        if style & crate::NCSTYLE_MASK == 0 {
            return String::from_str("none");
        }
        let mut out = String::new();
        if style & crate::NCSTYLE_ITALIC != 0 {
            out.append("italic ");
        }
        if style & crate::NCSTYLE_UNDERLINE != 0 {
            out.append("underline ");
        }
        if style & crate::NCSTYLE_UNDERCURL != 0 {
            out.append("undercurl ");
        }
        if style & crate::NCSTYLE_STRUCK != 0 {
            out.append("struck ");
        }
        if style & crate::NCSTYLE_BOLD != 0 {
            out.append("bold ");
        }
        proof {
            assert(out@ =~= style_words(style));
            assert(style_words(style).len() > 0) by {
                assert(style & crate::NCSTYLE_MASK != 0 ==> (style & crate::NCSTYLE_ITALIC != 0
                    || style & crate::NCSTYLE_UNDERLINE != 0 || style & crate::NCSTYLE_UNDERCURL
                    != 0 || style & crate::NCSTYLE_STRUCK != 0 || style & crate::NCSTYLE_BOLD
                    != 0)) by (bit_vector);
                reveal_strlit("italic ");
                reveal_strlit("underline ");
                reveal_strlit("undercurl ");
                reveal_strlit("struck ");
                reveal_strlit("bold ");
            }
        }
        let m = out.as_str().unicode_len();
        let trimmed = out.as_str().substring_char(0, m - 1);
        let r = String::from_str(trimmed);
        proof {
            assert(r@ =~= style_words(style).take(style_words(style).len() - 1));
        }
        r
    }

    /// The name of a blitter.
    pub fn str_blitter(blitter: NcBlitter) -> (r: String)
        ensures
            blitter == NCBLIT_DEFAULT ==> r@ == "default"@,
            blitter == NCBLIT_1X1 ==> r@ == "1x1"@,
            blitter == NCBLIT_2X1 ==> r@ == "2x1"@,
            blitter == NCBLIT_2X2 ==> r@ == "2x2"@,
            blitter == NCBLIT_3X2 ==> r@ == "3x2"@,
            blitter == NCBLIT_4X1 ==> r@ == "4x1"@,
            blitter == NCBLIT_8X1 ==> r@ == "8x1"@,
            blitter == NCBLIT_BRAILLE ==> r@ == "braille"@,
            blitter == NCBLIT_PIXEL ==> r@ == "pixel"@,
            blitter > NCBLIT_PIXEL ==> r@ == "unknown"@,
    {
        if blitter == NCBLIT_DEFAULT {
            String::from_str("default")
        } else if blitter == NCBLIT_1X1 {
            String::from_str("1x1")
        } else if blitter == NCBLIT_2X1 {
            String::from_str("2x1")
        } else if blitter == NCBLIT_2X2 {
            String::from_str("2x2")
        } else if blitter == NCBLIT_3X2 {
            String::from_str("3x2")
        } else if blitter == NCBLIT_4X1 {
            String::from_str("4x1")
        } else if blitter == NCBLIT_8X1 {
            String::from_str("8x1")
        } else if blitter == NCBLIT_BRAILLE {
            String::from_str("braille")
        } else if blitter == NCBLIT_PIXEL {
            String::from_str("pixel")
        } else {
            String::from_str("unknown")
        }
    }

    /// The blitter a name denotes, or an invalid-argument error.
    pub fn lex_blitter(blitter_str: &str) -> (r: NcResult<NcBlitter>)
        ensures
            r == spec_lex_blitter(blitter_str@),
            r matches Err(e) ==> e == NcError::Invalid,
    {
        let s = String::from_str(blitter_str);
        if s == String::from_str("default") {
            Ok(NCBLIT_DEFAULT)
        } else if s == String::from_str("1x1") {
            Ok(NCBLIT_1X1)
        } else if s == String::from_str("2x1") {
            Ok(NCBLIT_2X1)
        } else if s == String::from_str("2x2") {
            Ok(NCBLIT_2X2)
        } else if s == String::from_str("3x2") {
            Ok(NCBLIT_3X2)
        } else if s == String::from_str("4x1") {
            Ok(NCBLIT_4X1)
        } else if s == String::from_str("8x1") {
            Ok(NCBLIT_8X1)
        } else if s == String::from_str("braille") {
            Ok(NCBLIT_BRAILLE)
        } else if s == String::from_str("pixel") {
            Ok(NCBLIT_PIXEL)
        } else {
            Err(NcError::Invalid)
        }
    }

    /// The name of a scaling mode.
    pub fn str_scalemode(scalemode: NcScale) -> (r: String)
        ensures
            scalemode == NCSCALE_NONE ==> r@ == "none"@,
            scalemode == NCSCALE_SCALE ==> r@ == "scale"@,
            scalemode == NCSCALE_STRETCH ==> r@ == "stretch"@,
            scalemode == NCSCALE_NONE_HIRES ==> r@ == "nonehires"@,
            scalemode == NCSCALE_SCALE_HIRES ==> r@ == "scalehires"@,
            scalemode > NCSCALE_SCALE_HIRES ==> r@ == "unknown"@,
    {
        if scalemode == NCSCALE_NONE {
            String::from_str("none")
        } else if scalemode == NCSCALE_SCALE {
            String::from_str("scale")
        } else if scalemode == NCSCALE_STRETCH {
            String::from_str("stretch")
        } else if scalemode == NCSCALE_NONE_HIRES {
            String::from_str("nonehires")
        } else if scalemode == NCSCALE_SCALE_HIRES {
            String::from_str("scalehires")
        } else {
            String::from_str("unknown")
        }
    }

    /// The scaling mode a name denotes, or an invalid-argument error.
    pub fn lex_scalemode(scalemode_str: &str) -> (r: NcResult<NcScale>)
        ensures
            r == spec_lex_scalemode(scalemode_str@),
            r matches Err(e) ==> e == NcError::Invalid,
    {
        let s = String::from_str(scalemode_str);
        if s == String::from_str("none") {
            Ok(NCSCALE_NONE)
        } else if s == String::from_str("scale") {
            Ok(NCSCALE_SCALE)
        } else if s == String::from_str("stretch") {
            Ok(NCSCALE_STRETCH)
        } else if s == String::from_str("nonehires") {
            Ok(NCSCALE_NONE_HIRES)
        } else if s == String::from_str("scalehires") {
            Ok(NCSCALE_SCALE_HIRES)
        } else {
            Err(NcError::Invalid)
        }
    }
}

impl Nc {
    /// Wraps [`notcurses_align`] as a result: an invalid alignment is an
    /// error, any computed offset is success (and is discarded).
    pub fn align(availcols: NcDim, align: NcAlign, cols: NcDim) -> (r: NcResult<()>)
        requires
            availcols <= 0x7FFF_FFFF,
        ensures
            r is Ok <==> (align == NCALIGN_LEFT || align == NCALIGN_CENTER || align
                == NCALIGN_RIGHT),
            r matches Err(e) ==> e == NcError::Invalid,
    {
        if notcurses_align(availcols, align, cols) < 0 {
            Err(NcError::Invalid)
        } else {
            Ok(())
        }
    }

    /// A human-readable version of this library.
    pub fn version() -> (r: String)
        ensures
            r@ == "0.1.0"@,
    {
        let s = String::from_str("0.1.0");
        s
    }

    /// The version of this library, as major, minor, patch and tweak
    /// components.
    pub fn version_components() -> (r: (u32, u32, u32, u32))
        ensures
            r == (0u32, 1u32, 0u32, 0u32),
    {
        (0, 1, 0, 0)
    }
}

} // verus!
