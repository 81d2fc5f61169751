//! The input model: one decoded event record, and the decoder that turns
//! raw terminal bytes into a stream of them.
//!
//! An event's 32-bit id is either a literal Unicode codepoint or a
//! synthesized key code in the Supplementary Private Use Area-B (see
//! [`crate::key::NcKey`]); the two can never collide. Mouse events carry
//! their coordinates, all other events carry the sentinel `-1`.

use vstd::prelude::*;

use crate::key::NcKey;
use crate::{NcDim, NcError, NcResult};

verus! {

/// The type of an input event.
pub type NcEvType = u32;

/// An event of unknown type.
pub const NCEVTYPE_UNKNOWN: NcEvType = 0;

/// A key or button going down.
pub const NCEVTYPE_PRESS: NcEvType = 1;

/// A key autorepeating.
pub const NCEVTYPE_REPEAT: NcEvType = 2;

/// A key or button coming up.
pub const NCEVTYPE_RELEASE: NcEvType = 3;

/// Enables the [`NcEvType`] associated constants.
pub trait NcEvTypeApi {
    /// An event of unknown type.
    const UNKNOWN: NcEvType;

    /// A key or button going down.
    const PRESS: NcEvType;

    /// A key autorepeating.
    const REPEAT: NcEvType;

    /// A key or button coming up.
    const RELEASE: NcEvType;
}

impl NcEvTypeApi for NcEvType {
    const UNKNOWN: NcEvType = NCEVTYPE_UNKNOWN;

    const PRESS: NcEvType = NCEVTYPE_PRESS;

    const REPEAT: NcEvType = NCEVTYPE_REPEAT;

    const RELEASE: NcEvType = NCEVTYPE_RELEASE;
}

/// One decoded input event.
#[derive(Clone, Copy, Debug, PartialEq, Eq, Structural)]
pub struct NcInput {
    /// A literal codepoint, or a synthesized code above `0x100000`.
    pub id: u32,
    /// The row of a mouse event; `-1` for everything else.
    pub y: i32,
    /// The column of a mouse event; `-1` for everything else.
    pub x: i32,
    /// Whether alt was held.
    pub alt: bool,
    /// Whether shift was held.
    pub shift: bool,
    /// Whether ctrl was held.
    pub ctrl: bool,
    /// What kind of event this is.
    pub evtype: NcEvType,
}

/// A well-formed event: the id is a Unicode scalar value (synthesized
/// codes live inside the Private Use Area-B, so they are scalars too),
/// the type is one of the four defined ones, and the coordinates are a
/// position or the `-1` sentinel.
pub open spec fn input_wf(i: NcInput) -> bool {
    &&& i.id <= 0x10FFFF
    &&& !(0xD800 <= i.id && i.id < 0xE000)
    &&& i.evtype <= NCEVTYPE_RELEASE
    &&& i.y >= -1
    &&& i.x >= -1
}

impl NcInput {
    /// A new empty event.
    pub fn new_empty() -> (r: NcInput)
        ensures
            r == (NcInput {
                id: 0,
                y: 0,
                x: 0,
                alt: false,
                shift: false,
                ctrl: false,
                evtype: NCEVTYPE_UNKNOWN,
            }),
    {
        NcInput { id: 0, y: 0, x: 0, alt: false, shift: false, ctrl: false, evtype: NCEVTYPE_UNKNOWN }
    }

    /// A new event for a plain keypress of `id`.
    pub fn new(id: char) -> (r: NcInput)
        ensures
            r == (NcInput {
                id: id as u32,
                y: -1i32,
                x: -1i32,
                alt: false,
                shift: false,
                ctrl: false,
                evtype: NCEVTYPE_UNKNOWN,
            }),
            input_wf(r),
    {
        Self::with_all_args(id, None, None, false, false, false, NCEVTYPE_UNKNOWN)
    }

    /// A new event for a keypress of `id` with alt held.
    pub fn with_alt(id: char) -> (r: NcInput)
        ensures
            r == (NcInput {
                id: id as u32,
                y: -1i32,
                x: -1i32,
                alt: true,
                shift: false,
                ctrl: false,
                evtype: NCEVTYPE_UNKNOWN,
            }),
            input_wf(r),
    {
        Self::with_all_args(id, None, None, true, false, false, NCEVTYPE_UNKNOWN)
    }

    /// A new event for a keypress of `id` with shift held.
    pub fn with_shift(id: char) -> (r: NcInput)
        ensures
            r == (NcInput {
                id: id as u32,
                y: -1i32,
                x: -1i32,
                alt: false,
                shift: true,
                ctrl: false,
                evtype: NCEVTYPE_UNKNOWN,
            }),
            input_wf(r),
    {
        Self::with_all_args(id, None, None, false, true, false, NCEVTYPE_UNKNOWN)
    }

    /// A new event for a keypress of `id` with ctrl held.
    pub fn with_ctrl(id: char) -> (r: NcInput)
        ensures
            r == (NcInput {
                id: id as u32,
                y: -1i32,
                x: -1i32,
                alt: false,
                shift: false,
                ctrl: true,
                evtype: NCEVTYPE_UNKNOWN,
            }),
            input_wf(r),
    {
        Self::with_all_args(id, None, None, false, false, true, NCEVTYPE_UNKNOWN)
    }

    /// A new event from all its parts: absent coordinates become the
    /// `-1` sentinel, and an out-of-range event type reads as unknown.
    pub fn with_all_args(
        id: char,
        x: Option<NcDim>,
        y: Option<NcDim>,
        alt: bool,
        shift: bool,
        ctrl: bool,
        evtype: NcEvType,
    ) -> (r: NcInput)
        ensures
            r.id == id as u32,
            r.x == (match x {
                Some(v) => (if v > 0x7FFF_FFFF {
                    0x7FFF_FFFFi32
                } else {
                    v as i32
                }),
                None => -1i32,
            }),
            r.y == (match y {
                Some(v) => (if v > 0x7FFF_FFFF {
                    0x7FFF_FFFFi32
                } else {
                    v as i32
                }),
                None => -1i32,
            }),
            r.alt == alt && r.shift == shift && r.ctrl == ctrl,
            r.evtype == (if evtype <= NCEVTYPE_RELEASE {
                evtype
            } else {
                NCEVTYPE_UNKNOWN
            }),
            input_wf(r),
    {
        let ix: i32 = match x {
            Some(v) => if v > 0x7FFF_FFFF {
                0x7FFF_FFFF
            } else {
                v as i32
            },
            None => -1,
        };
        let iy: i32 = match y {
            Some(v) => if v > 0x7FFF_FFFF {
                0x7FFF_FFFF
            } else {
                v as i32
            },
            None => -1,
        };
        let et: NcEvType = if evtype <= NCEVTYPE_RELEASE {
            evtype
        } else {
            NCEVTYPE_UNKNOWN
        };
        NcInput { id: id as u32, y: iy, x: ix, alt, shift, ctrl, evtype: et }
    }

    /// Do two events agree in every field?
    pub fn equal_p(&self, other: &NcInput) -> (r: bool)
        ensures
            r == (*self == *other),
    {
        self.id == other.id && self.y == other.y && self.x == other.x && self.alt == other.alt
            && self.shift == other.shift && self.ctrl == other.ctrl && self.evtype == other.evtype
    }

    /// Is the event free of modifiers?
    pub fn nomod_p(&self) -> (r: bool)
        ensures
            r == (!self.alt && !self.shift && !self.ctrl),
    {
        !self.alt && !self.shift && !self.ctrl
    }
}

/// Is `id` a synthesized mouse-button code?
pub open spec fn spec_mouse_p(id: u32) -> bool {
    NcKey::BUTTON1 as u32 <= id <= NcKey::BUTTON11 as u32
}

/// Is `id` a synthesized mouse-button code?
pub fn nckey_mouse_p(id: u32) -> (r: bool)
    ensures
        r == spec_mouse_p(id),
{
    id >= NcKey::BUTTON1 as u32 && id <= NcKey::BUTTON11 as u32
}

/// Is `id` inside the Supplementary Private Use Area-B, the range that
/// carries synthesized codes?
pub open spec fn spec_supppuab_p(id: u32) -> bool {
    0x100000 <= id <= 0x10FFFD
}

/// Is `id` inside the Supplementary Private Use Area-B?
pub fn nckey_supppuab_p(id: u32) -> (r: bool)
    ensures
        r == spec_supppuab_p(id),
{
    id >= 0x100000 && id <= 0x10FFFD
}

/// Where the decoder stands in the byte stream.
#[derive(Clone, Copy, Debug, PartialEq, Eq, Structural)]
pub enum DecoderPhase {
    /// Between sequences: expecting a fresh byte.
    Ground,
    /// An escape byte was seen.
    Escape,
    /// An `ESC O` single-shift is pending one final byte.
    Ss3,
    /// A control sequence is being accumulated.
    Csi,
    /// A UTF-8 sequence is missing continuation bytes.
    Utf8,
}

/// A plain press event carrying `id` and no modifiers.
pub open spec fn press_event(id: u32) -> NcInput {
    NcInput {
        id,
        y: -1i32,
        x: -1i32,
        alt: false,
        shift: false,
        ctrl: false,
        evtype: NCEVTYPE_PRESS,
    }
}

/// The event an escape-prefixed printable byte decodes to: the key with
/// alt held.
pub open spec fn alt_event(b: u8) -> NcInput {
    NcInput {
        id: b as u32,
        y: -1i32,
        x: -1i32,
        alt: true,
        shift: false,
        ctrl: false,
        evtype: NCEVTYPE_PRESS,
    }
}

/// The function key a single-shift final byte selects.
pub open spec fn ss3_event(b: u8) -> NcInput {
    press_event(((NcKey::F01 as u32) + ((b - 0x50) as u32)) as u32)
}

/// Up to three semicolon-separated decimal parameters read from byte `i`
/// of a control sequence on, continuing from the accumulators given:
/// digits extend the current parameter (saturating), each semicolon moves
/// to the next, anything else is ignored.
pub open spec fn spec_csi_params(
    buf: Seq<u8>,
    i: int,
    p1: u32,
    p2: u32,
    p3: u32,
    which: u8,
) -> (u32, u32, u32)
    decreases buf.len() - i,
{
    if i < 0 || i >= buf.len() {
        (p1, p2, p3)
    } else {
        let b = buf[i];
        if 0x30 <= b && b <= 0x39 {
            let d = (b - 0x30) as u32;
            if which == 0 {
                spec_csi_params(
                    buf,
                    i + 1,
                    if p1 < 100_000 {
                        (p1 * 10 + d) as u32
                    } else {
                        p1
                    },
                    p2,
                    p3,
                    which,
                )
            } else if which == 1 {
                spec_csi_params(
                    buf,
                    i + 1,
                    p1,
                    if p2 < 100_000 {
                        (p2 * 10 + d) as u32
                    } else {
                        p2
                    },
                    p3,
                    which,
                )
            } else {
                spec_csi_params(
                    buf,
                    i + 1,
                    p1,
                    p2,
                    if p3 < 100_000 {
                        (p3 * 10 + d) as u32
                    } else {
                        p3
                    },
                    which,
                )
            }
        } else if b == 0x3B {
            spec_csi_params(
                buf,
                i + 1,
                p1,
                p2,
                p3,
                if which < 2 {
                    (which + 1) as u8
                } else {
                    which
                },
            )
        } else {
            spec_csi_params(buf, i + 1, p1, p2, p3, which)
        }
    }
}

/// The event a selector-1006 mouse report resolves to: the button code,
/// the coordinates shifted to zero-based, the modifier bits, and press
/// or release from the final byte.
pub open spec fn mouse_event_of(btn: u32, px: u32, py: u32, fin: u8) -> NcInput {
    NcInput {
        id: if btn >= 64 {
            if btn % 2 == 0 {
                NcKey::BUTTON4 as u32
            } else {
                NcKey::BUTTON5 as u32
            }
        } else if btn % 4 == 0 {
            NcKey::BUTTON1 as u32
        } else if btn % 4 == 1 {
            NcKey::BUTTON2 as u32
        } else if btn % 4 == 2 {
            NcKey::BUTTON3 as u32
        } else {
            NcKey::INVALID as u32
        },
        y: if py > 0 {
            (py - 1) as i32
        } else {
            0i32
        },
        x: if px > 0 {
            (px - 1) as i32
        } else {
            0i32
        },
        alt: btn & 8 != 0,
        shift: btn & 4 != 0,
        ctrl: btn & 16 != 0,
        evtype: if fin == 0x4D {
            NCEVTYPE_PRESS
        } else {
            NCEVTYPE_RELEASE
        },
    }
}

/// The synthesized key a control sequence's final byte and first
/// parameter select, or the invalid sentinel.
pub open spec fn csi_key_id(p1: u32, fin: u8) -> u32 {
    if fin == 0x41 {
        NcKey::UP as u32
    } else if fin == 0x42 {
        NcKey::DOWN as u32
    } else if fin == 0x43 {
        NcKey::RIGHT as u32
    } else if fin == 0x44 {
        NcKey::LEFT as u32
    } else if fin == 0x48 {
        NcKey::HOME as u32
    } else if fin == 0x46 {
        NcKey::END as u32
    } else if fin == 0x7E {
        if p1 == 1 || p1 == 7 {
            NcKey::HOME as u32
        } else if p1 == 2 {
            NcKey::INS as u32
        } else if p1 == 3 {
            NcKey::DEL as u32
        } else if p1 == 4 || p1 == 8 {
            NcKey::END as u32
        } else if p1 == 5 {
            NcKey::PGUP as u32
        } else if p1 == 6 {
            NcKey::PGDOWN as u32
        } else if 11 <= p1 && p1 <= 15 {
            ((NcKey::F01 as u32) + (p1 - 11)) as u32
        } else if 17 <= p1 && p1 <= 21 {
            ((NcKey::F06 as u32) + (p1 - 17)) as u32
        } else if p1 == 23 || p1 == 24 {
            ((NcKey::F11 as u32) + (p1 - 23)) as u32
        } else {
            NcKey::INVALID as u32
        }
    } else {
        NcKey::INVALID as u32
    }
}

/// The event a completed control sequence queues, if any: a mouse event
/// for a selector-prefixed report, a synthesized key with its modifier
/// parameter otherwise, and nothing for an unrecognized sequence.
pub open spec fn csi_event_of(esc: Seq<u8>, fin: u8) -> Option<NcInput> {
    if esc.len() > 0 && esc[0] == 0x3C {
        if fin == 0x4D || fin == 0x6D {
            let (btn, px, py) = spec_csi_params(esc, 1, 0, 0, 0, 0);
            Some(mouse_event_of(btn, px, py, fin))
        } else {
            None
        }
    } else {
        let (p1, p2, _p3) = spec_csi_params(esc, 0, 0, 0, 0, 0);
        let m: u32 = if p2 >= 1 {
            (p2 - 1) as u32
        } else {
            0
        };
        let id = csi_key_id(p1, fin);
        if id != NcKey::INVALID as u32 {
            Some(
                NcInput {
                    id,
                    y: -1i32,
                    x: -1i32,
                    alt: m & 2 != 0,
                    shift: m & 1 != 0,
                    ctrl: m & 4 != 0,
                    evtype: NCEVTYPE_PRESS,
                },
            )
        } else {
            None
        }
    }
}

/// The next codepoint accumulator after a UTF-8 continuation byte.
pub open spec fn utf8_acc_next(acc: u32, b: u8) -> u32 {
    (acc << 6) | ((b & 0x3F) as u32)
}

/// Is `v` a codepoint a completed UTF-8 sequence may report: within the
/// scalar range and not an overlong encoding of something shorter?
pub open spec fn utf8_ok(v: u32, minv: u32) -> bool {
    minv <= v && v <= 0x10FFFF && !(0xD800 <= v && v < 0xE000)
}

/// What one byte does to the decoder between sequences: escape opens a
/// sequence, a plain byte is reported at once, a UTF-8 lead byte opens an
/// accumulation, and a malformed byte is dropped.
pub open spec fn ground_outcome(d0: NcInputDecoder, d1: NcInputDecoder, b: u8) -> bool {
    if b == 0x1B {
        d1 == (NcInputDecoder { phase: DecoderPhase::Escape, ..d0 })
    } else if b < 0x80 {
        d1 == (NcInputDecoder { phase: DecoderPhase::Ground, queue: d1.queue, ..d0 })
            && d1.queue@ == d0.queue@.push(byte_event(b))
    } else if 0xC2 <= b && b <= 0xDF {
        d1 == (NcInputDecoder {
            phase: DecoderPhase::Utf8,
            need: 1,
            acc: (b & 0x1F) as u32,
            minv: 0x80,
            ..d0
        })
    } else if 0xE0 <= b && b <= 0xEF {
        d1 == (NcInputDecoder {
            phase: DecoderPhase::Utf8,
            need: 2,
            acc: (b & 0x0F) as u32,
            minv: 0x800,
            ..d0
        })
    } else if 0xF0 <= b && b <= 0xF4 {
        d1 == (NcInputDecoder {
            phase: DecoderPhase::Utf8,
            need: 3,
            acc: (b & 0x07) as u32,
            minv: 0x10000,
            ..d0
        })
    } else {
        d1 == (NcInputDecoder { phase: DecoderPhase::Ground, ..d0 })
    }
}

/// Feeding the decoder the three bytes of the arrow-up escape sequence
/// from between sequences queues exactly one event: a press whose id is
/// the synthesized UP code, with every modifier clear. The three
/// hypotheses are [`NcInputDecoder::feed_byte`]'s own promises for the
/// escape byte, the bracket, and the final byte.
pub proof fn lemma_arrow_up_round_trip(
    d0: NcInputDecoder,
    d1: NcInputDecoder,
    d2: NcInputDecoder,
    d3: NcInputDecoder,
)
    requires
        d0.phase == DecoderPhase::Ground,
        ground_outcome(d0, d1, 0x1B),
        d2 == (NcInputDecoder { phase: DecoderPhase::Csi, esc: d2.esc, ..d1 }),
        d2.esc@ == Seq::<u8>::empty(),
        d3.queue@ == (match csi_event_of(d2.esc@, 0x41) {
            Some(ev) => d2.queue@.push(ev),
            None => d2.queue@,
        }),
    ensures
        d3.queue@ == d0.queue@.push(press_event(NcKey::UP as u32)),
{
    assert(d1 == (NcInputDecoder { phase: DecoderPhase::Escape, ..d0 }));
    assert(spec_csi_params(Seq::<u8>::empty(), 0, 0, 0, 0, 0) == (0u32, 0u32, 0u32));
    assert(0u32 & 1 == 0 && 0u32 & 2 == 0 && 0u32 & 4 == 0) by (bit_vector);
    assert(csi_event_of(Seq::<u8>::empty(), 0x41) == Some(press_event(NcKey::UP as u32)));
}

/// Feeding the decoder the two bytes of the UTF-8 encoding of the Latin
/// small letter e with acute from between sequences queues exactly one
/// event: a press whose id is that literal codepoint, not a synthesized
/// code. The hypotheses are [`NcInputDecoder::feed_byte`]'s own promises
/// for the lead and continuation bytes.
pub proof fn lemma_latin_e_acute_round_trip(
    d0: NcInputDecoder,
    d1: NcInputDecoder,
    d2: NcInputDecoder,
)
    requires
        d0.phase == DecoderPhase::Ground,
        ground_outcome(d0, d1, 0xC3),
        d2.queue@ == (if utf8_ok(utf8_acc_next(d1.acc, 0xA9), d1.minv) {
            d1.queue@.push(press_event(utf8_acc_next(d1.acc, 0xA9)))
        } else {
            d1.queue@
        }),
    ensures
        d2.queue@ == d0.queue@.push(press_event(0xE9)),
        0xE9 == '\u{E9}' as u32,
{
    assert(d1.acc == (0xC3u8 & 0x1F) as u32 && d1.minv == 0x80);
    assert((((0xC3u8 & 0x1F) as u32) << 6) | ((0xA9u8 & 0x3F) as u32) == 0xE9) by (bit_vector);
}

/// The state machine that turns raw terminal bytes into queued events.
///
/// Complete single bytes and UTF-8 codepoints become press events with
/// the literal codepoint as id; recognized escape sequences become
/// synthesized codes; mouse reports carry their coordinates; malformed
/// bytes and unrecognized sequences are dropped silently, after a
/// bounded accumulation window.
pub struct NcInputDecoder {
    /// Where the byte-stream scan stands.
    pub phase: DecoderPhase,
    /// The bytes of the escape sequence being accumulated.
    pub esc: Vec<u8>,
    /// Continuation bytes still expected of a UTF-8 sequence.
    pub need: u8,
    /// The codepoint bits accumulated so far.
    pub acc: u32,
    /// The smallest codepoint the current UTF-8 length may encode.
    pub minv: u32,
    /// Decoded events not yet handed out, oldest first.
    pub queue: Vec<NcInput>,
}

/// Every queued event is well formed.
pub open spec fn decoder_wf(d: NcInputDecoder) -> bool {
    forall|k: int| 0 <= k < d.queue@.len() ==> input_wf(#[trigger] d.queue@[k])
}

/// The event a lone byte below 0x80 decodes to.
pub open spec fn byte_event(b: u8) -> NcInput {
    NcInput {
        id: b as u32,
        y: -1i32,
        x: -1i32,
        alt: false,
        shift: false,
        ctrl: false,
        evtype: NCEVTYPE_PRESS,
    }
}

impl NcInputDecoder {
    /// A fresh decoder: between sequences, nothing queued.
    pub fn new() -> (r: NcInputDecoder)
        ensures
            r.phase == DecoderPhase::Ground,
            r.queue@.len() == 0,
            decoder_wf(r),
    {
        NcInputDecoder {
            phase: DecoderPhase::Ground,
            esc: Vec::new(),
            need: 0,
            acc: 0,
            minv: 0,
            queue: Vec::new(),
        }
    }

    /// How many decoded events are waiting.
    pub fn pending(&self) -> (r: usize)
        ensures
            r == self.queue@.len(),
    {
        self.queue.len()
    }

    /// Queues a synthesized resize notification, as the embedding
    /// application injects it when the host delivers one.
    pub fn push_resize(&mut self)
        ensures
            final(self).queue@ == old(self).queue@.push(
                NcInput {
                    id: NcKey::RESIZE as u32,
                    y: -1i32,
                    x: -1i32,
                    alt: false,
                    shift: false,
                    ctrl: false,
                    evtype: NCEVTYPE_PRESS,
                },
            ),
            *final(self) == (NcInputDecoder { queue: final(self).queue, ..*old(self) }),
            decoder_wf(*old(self)) ==> decoder_wf(*final(self)),
    {
        self.queue.push(
            NcInput {
                id: NcKey::RESIZE as u32,
                y: -1,
                x: -1,
                alt: false,
                shift: false,
                ctrl: false,
                evtype: NCEVTYPE_PRESS,
            },
        );
    }

    /// Hands out the oldest queued event, if one is waiting.
    pub fn poll_event(&mut self) -> (r: Option<NcInput>)
        ensures
            old(self).queue@.len() == 0 ==> r is None && *final(self) == *old(self),
            old(self).queue@.len() > 0 ==> r == Some(old(self).queue@[0]) && final(self).queue@
                == old(self).queue@.drop_first() && *final(self) == (NcInputDecoder {
                queue: final(self).queue,
                ..*old(self)
            }),
            decoder_wf(*old(self)) ==> decoder_wf(*final(self)),
            decoder_wf(*old(self)) ==> (r matches Some(i) ==> input_wf(i)),
    {
        if self.queue.len() == 0 {
            return None;
        }
        let ev = self.queue.remove(0);
        proof {
            assert(final(self).queue@ =~= old(self).queue@.drop_first());
        }
        Some(ev)
    }

    /// Feeds one raw byte to the state machine: one transition of the
    /// decoder, fixed in full by the clauses below. At most one event is
    /// queued per byte and everything already queued stays.
    pub fn feed_byte(&mut self, b: u8)
        ensures
            decoder_wf(*old(self)) ==> decoder_wf(*final(self)),
            final(self).queue@.len() >= old(self).queue@.len(),
            final(self).queue@.len() <= old(self).queue@.len() + 1,
            final(self).queue@.take(old(self).queue@.len() as int) == old(self).queue@,
            (old(self).phase == DecoderPhase::Ground && b < 0x80 && b != 0x1B) ==> final(self).queue@ == old(self).queue@.push(byte_event(b)),
            (old(self).phase == DecoderPhase::Ground && b == 0x1B) ==> final(self).queue@ == old(self).queue@ && final(self).phase == DecoderPhase::Escape,
            old(self).phase == DecoderPhase::Ground ==> ground_outcome(
                *old(self),
                *final(self),
                b,
            ),
            (old(self).phase == DecoderPhase::Escape && b == 0x5B) ==> *final(self)
                == (NcInputDecoder {
                phase: DecoderPhase::Csi,
                esc: final(self).esc,
                ..*old(self)
            }) && final(self).esc@ == Seq::<u8>::empty(),
            (old(self).phase == DecoderPhase::Escape && b == 0x4F) ==> *final(self)
                == (NcInputDecoder { phase: DecoderPhase::Ss3, ..*old(self) }),
            (old(self).phase == DecoderPhase::Escape && b != 0x5B && b != 0x4F && 0x20 <= b && b
                < 0x80) ==> *final(self) == (NcInputDecoder {
                phase: DecoderPhase::Ground,
                queue: final(self).queue,
                ..*old(self)
            }) && final(self).queue@ == old(self).queue@.push(alt_event(b)),
            (old(self).phase == DecoderPhase::Escape && b != 0x5B && b != 0x4F && !(0x20 <= b
                && b < 0x80)) ==> *final(self) == (NcInputDecoder {
                phase: DecoderPhase::Ground,
                ..*old(self)
            }),
            (old(self).phase == DecoderPhase::Ss3 && 0x50 <= b && b <= 0x53) ==> *final(self)
                == (NcInputDecoder {
                phase: DecoderPhase::Ground,
                queue: final(self).queue,
                ..*old(self)
            }) && final(self).queue@ == old(self).queue@.push(ss3_event(b)),
            (old(self).phase == DecoderPhase::Ss3 && !(0x50 <= b && b <= 0x53)) ==> *final(self)
                == (NcInputDecoder { phase: DecoderPhase::Ground, ..*old(self) }),
            (old(self).phase == DecoderPhase::Csi && 0x40 <= b && b <= 0x7E) ==> *final(self)
                == (NcInputDecoder {
                phase: DecoderPhase::Ground,
                queue: final(self).queue,
                ..*old(self)
            }) && final(self).queue@ == (match csi_event_of(old(self).esc@, b) {
                Some(ev) => old(self).queue@.push(ev),
                None => old(self).queue@,
            }),
            (old(self).phase == DecoderPhase::Csi && !(0x40 <= b && b <= 0x7E) && old(self).esc@.len() < 32) ==> *final(self) == (NcInputDecoder {
                esc: final(self).esc,
                ..*old(self)
            }) && final(self).esc@ == old(self).esc@.push(b),
            (old(self).phase == DecoderPhase::Csi && !(0x40 <= b && b <= 0x7E) && old(self).esc@.len() >= 32) ==> *final(self) == (NcInputDecoder {
                phase: DecoderPhase::Ground,
                ..*old(self)
            }),
            (old(self).phase == DecoderPhase::Utf8 && 0x80 <= b && b <= 0xBF && old(self).need
                > 1) ==> *final(self) == (NcInputDecoder {
                acc: utf8_acc_next(old(self).acc, b),
                need: (old(self).need - 1) as u8,
                ..*old(self)
            }),
            (old(self).phase == DecoderPhase::Utf8 && 0x80 <= b && b <= 0xBF && old(self).need
                == 1) ==> *final(self) == (NcInputDecoder {
                phase: DecoderPhase::Ground,
                acc: utf8_acc_next(old(self).acc, b),
                need: 0,
                queue: final(self).queue,
                ..*old(self)
            }) && final(self).queue@ == (if utf8_ok(
                utf8_acc_next(old(self).acc, b),
                old(self).minv,
            ) {
                old(self).queue@.push(press_event(utf8_acc_next(old(self).acc, b)))
            } else {
                old(self).queue@
            }),
            (old(self).phase == DecoderPhase::Utf8 && !(0x80 <= b && b <= 0xBF && old(self).need
                >= 1)) ==> ground_outcome(
                NcInputDecoder { phase: DecoderPhase::Ground, ..*old(self) },
                *final(self),
                b,
            ),
    {
        let ghost q0 = self.queue@;
        match self.phase {
            DecoderPhase::Ground => {
                self.ground_byte(b);
            },
            DecoderPhase::Escape => {
                if b == 0x5B {  // '['
                    self.esc.clear();
                    self.phase = DecoderPhase::Csi;
                } else if b == 0x4F {  // 'O'
                    self.phase = DecoderPhase::Ss3;
                } else if b >= 0x20 && b < 0x80 {
                    // an escape-prefixed printable: alt plus the key
                    self.queue.push(
                        NcInput {
                            id: b as u32,
                            y: -1,
                            x: -1,
                            alt: true,
                            shift: false,
                            ctrl: false,
                            evtype: NCEVTYPE_PRESS,
                        },
                    );
                    self.phase = DecoderPhase::Ground;
                } else {
                    self.phase = DecoderPhase::Ground;
                }
            },
            DecoderPhase::Ss3 => {
                if b >= 0x50 && b <= 0x53 {  // 'P'..'S'
                    let id = (NcKey::F01 as u32) + ((b - 0x50) as u32);
                    self.queue.push(
                        NcInput {
                            id,
                            y: -1,
                            x: -1,
                            alt: false,
                            shift: false,
                            ctrl: false,
                            evtype: NCEVTYPE_PRESS,
                        },
                    );
                }
                self.phase = DecoderPhase::Ground;
            },
            DecoderPhase::Csi => {
                if b >= 0x40 && b <= 0x7E {
                    self.finish_csi(b);
                    self.phase = DecoderPhase::Ground;
                } else if self.esc.len() >= 32 {
                    // the bounded accumulation window ran out: discard
                    self.phase = DecoderPhase::Ground;
                } else {
                    self.esc.push(b);
                }
            },
            DecoderPhase::Utf8 => {
                if b >= 0x80 && b <= 0xBF && self.need >= 1 {
                    self.acc = (self.acc << 6) | ((b & 0x3F) as u32);
                    self.need = self.need - 1;
                    if self.need == 0 {
                        let v = self.acc;
                        if v >= self.minv && v <= 0x10FFFF && !(v >= 0xD800 && v < 0xE000) {
                            self.queue.push(
                                NcInput {
                                    id: v,
                                    y: -1,
                                    x: -1,
                                    alt: false,
                                    shift: false,
                                    ctrl: false,
                                    evtype: NCEVTYPE_PRESS,
                                },
                            );
                        }
                        self.phase = DecoderPhase::Ground;
                    }
                } else {
                    // malformed continuation: drop the sequence, rescan b
                    self.phase = DecoderPhase::Ground;
                    self.ground_byte(b);
                }
            },
        }
    }

    /// Handles one byte seen between sequences.
    fn ground_byte(&mut self, b: u8)
        requires
            old(self).phase == DecoderPhase::Ground,
        ensures
            decoder_wf(*old(self)) ==> decoder_wf(*final(self)),
            final(self).queue@.len() >= old(self).queue@.len(),
            final(self).queue@.len() <= old(self).queue@.len() + 1,
            final(self).queue@.take(old(self).queue@.len() as int) == old(self).queue@,
            (b < 0x80 && b != 0x1B) ==> final(self).queue@ == old(self).queue@.push(
                byte_event(b),
            ),
            b == 0x1B ==> final(self).queue@ == old(self).queue@ && final(self).phase
                == DecoderPhase::Escape,
            ground_outcome(*old(self), *final(self), b),
    {
        if b == 0x1B {
            self.phase = DecoderPhase::Escape;
        } else if b < 0x80 {
            self.queue.push(byte_event_exec(b));
        } else if b >= 0xC2 && b <= 0xDF {
            self.phase = DecoderPhase::Utf8;
            self.need = 1;
            self.acc = (b & 0x1F) as u32;
            self.minv = 0x80;
        } else if b >= 0xE0 && b <= 0xEF {
            self.phase = DecoderPhase::Utf8;
            self.need = 2;
            self.acc = (b & 0x0F) as u32;
            self.minv = 0x800;
        } else if b >= 0xF0 && b <= 0xF4 {
            self.phase = DecoderPhase::Utf8;
            self.need = 3;
            self.acc = (b & 0x07) as u32;
            self.minv = 0x10000;
        }
        // anything else is a malformed byte, dropped silently
    }

    /// Turns a completed control sequence into an event, if recognized.
    fn finish_csi(&mut self, fin: u8)
        ensures
            decoder_wf(*old(self)) ==> decoder_wf(*final(self)),
            final(self).queue@.len() >= old(self).queue@.len(),
            final(self).queue@.len() <= old(self).queue@.len() + 1,
            final(self).queue@.take(old(self).queue@.len() as int) == old(self).queue@,
            *final(self) == (NcInputDecoder { queue: final(self).queue, ..*old(self) }),
            final(self).queue@ == (match csi_event_of(old(self).esc@, fin) {
                Some(ev) => old(self).queue@.push(ev),
                None => old(self).queue@,
            }),
    {
        if self.esc.len() > 0 && self.esc[0] == 0x3C {  // '<': an SGR mouse report
            if fin == 0x4D || fin == 0x6D {  // 'M' press, 'm' release
                let (btn, px, py) = csi_three_params(&self.esc, 1);
                let id: u32 = if btn >= 64 {
                    if btn % 2 == 0 {
                        NcKey::BUTTON4 as u32
                    } else {
                        NcKey::BUTTON5 as u32
                    }
                } else if btn % 4 == 0 {
                    NcKey::BUTTON1 as u32
                } else if btn % 4 == 1 {
                    NcKey::BUTTON2 as u32
                } else if btn % 4 == 2 {
                    NcKey::BUTTON3 as u32
                } else {
                    NcKey::INVALID as u32
                };
                let ev = NcInput {
                    id,
                    y: if py > 0 {
                        (py - 1) as i32
                    } else {
                        0
                    },
                    x: if px > 0 {
                        (px - 1) as i32
                    } else {
                        0
                    },
                    alt: btn & 8 != 0,
                    shift: btn & 4 != 0,
                    ctrl: btn & 16 != 0,
                    evtype: if fin == 0x4D {
                        NCEVTYPE_PRESS
                    } else {
                        NCEVTYPE_RELEASE
                    },
                };
                self.queue.push(ev);
            }
            return ;
        }
        let (p1, p2, _p3) = csi_three_params(&self.esc, 0);
        let m: u32 = if p2 >= 1 {
            p2 - 1
        } else {
            0
        };
        let shift = m & 1 != 0;
        let alt = m & 2 != 0;
        let ctrl = m & 4 != 0;
        let id: u32 = if fin == 0x41 {  // 'A'
            NcKey::UP as u32
        } else if fin == 0x42 {  // 'B'
            NcKey::DOWN as u32
        } else if fin == 0x43 {  // 'C'
            NcKey::RIGHT as u32
        } else if fin == 0x44 {  // 'D'
            NcKey::LEFT as u32
        } else if fin == 0x48 {  // 'H'
            NcKey::HOME as u32
        } else if fin == 0x46 {  // 'F'
            NcKey::END as u32
        } else if fin == 0x7E {  // '~': the first parameter selects the key
            if p1 == 1 || p1 == 7 {
                NcKey::HOME as u32
            } else if p1 == 2 {
                NcKey::INS as u32
            } else if p1 == 3 {
                NcKey::DEL as u32
            } else if p1 == 4 || p1 == 8 {
                NcKey::END as u32
            } else if p1 == 5 {
                NcKey::PGUP as u32
            } else if p1 == 6 {
                NcKey::PGDOWN as u32
            } else if p1 >= 11 && p1 <= 15 {
                (NcKey::F01 as u32) + (p1 - 11)
            } else if p1 >= 17 && p1 <= 21 {
                (NcKey::F06 as u32) + (p1 - 17)
            } else if p1 == 23 || p1 == 24 {
                (NcKey::F11 as u32) + (p1 - 23)
            } else {
                NcKey::INVALID as u32
            }
        } else {
            NcKey::INVALID as u32
        };
        if id != NcKey::INVALID as u32 {
            self.queue.push(
                NcInput { id, y: -1, x: -1, alt, shift, ctrl, evtype: NCEVTYPE_PRESS },
            );
        }
    }

    /// Feeds a whole buffer of raw bytes, oldest first: the byte-wise
    /// iteration of [`NcInputDecoder::feed_byte`], whose clauses fix
    /// each step. A run of plain bytes seen between sequences queues
    /// exactly its literal events, in order.
    pub fn feed_bytes(&mut self, bytes: &[u8])
        ensures
            decoder_wf(*old(self)) ==> decoder_wf(*final(self)),
            final(self).queue@.len() >= old(self).queue@.len(),
            final(self).queue@.take(old(self).queue@.len() as int) == old(self).queue@,
            (old(self).phase == DecoderPhase::Ground && (forall|k: int|
                0 <= k < bytes@.len() ==> bytes@[k] < 0x80 && bytes@[k] != 0x1B)) ==> final(self).phase == DecoderPhase::Ground && final(self).queue@ == old(self).queue@
                + bytes@.map_values(|b: u8| byte_event(b)),
    {
        let ghost plain = old(self).phase == DecoderPhase::Ground && (forall|k: int|
            0 <= k < bytes@.len() ==> bytes@[k] < 0x80 && bytes@[k] != 0x1B);
        let n = bytes.len();
        let mut i: usize = 0;
        while i < n
            invariant
                i <= n,
                n == bytes@.len(),
                plain == (old(self).phase == DecoderPhase::Ground && (forall|k: int|
                    0 <= k < bytes@.len() ==> bytes@[k] < 0x80 && bytes@[k] != 0x1B)),
                decoder_wf(*old(self)) ==> decoder_wf(*self),
                self.queue@.len() >= old(self).queue@.len(),
                self.queue@.take(old(self).queue@.len() as int) == old(self).queue@,
                plain ==> self.phase == DecoderPhase::Ground && self.queue@ == old(self).queue@
                    + bytes@.take(i as int).map_values(|b: u8| byte_event(b)),
            decreases n - i,
        {
            let ghost qp = self.queue@;
            self.feed_byte(bytes[i]);
            proof {
                assert(self.queue@.take(old(self).queue@.len() as int) =~= old(self).queue@);
                if plain {
                    assert(self.queue@ =~= old(self).queue@ + bytes@.take(i as int + 1).map_values(
                        |b: u8| byte_event(b),
                    ));
                }
            }
            i = i + 1;
        }
        proof {
            if plain {
                assert(bytes@.take(n as int) =~= bytes@);
            }
        }
    }
}

/// The event a lone byte below 0x80 decodes to.
fn byte_event_exec(b: u8) -> (r: NcInput)
    ensures
        r == byte_event(b),
        input_wf(r),
{
    NcInput {
        id: b as u32,
        y: -1,
        x: -1,
        alt: false,
        shift: false,
        ctrl: false,
        evtype: NCEVTYPE_PRESS,
    }
}

/// Reads up to three semicolon-separated decimal parameters out of a
/// control sequence, from `start` on; missing parameters read as zero,
/// and oversized ones saturate.
fn csi_three_params(buf: &Vec<u8>, start: usize) -> (r: (u32, u32, u32))
    ensures
        r.0 <= 1_000_000,
        r.1 <= 1_000_000,
        r.2 <= 1_000_000,
        r == spec_csi_params(buf@, start as int, 0, 0, 0, 0),
{
    let mut p1: u32 = 0;
    let mut p2: u32 = 0;
    let mut p3: u32 = 0;
    let mut which: u8 = 0;
    let mut i: usize = start;
    let n = buf.len();
    while i < n
        invariant
            n == buf@.len(),
            start <= i || i == start,
            i >= start,
            i <= n || start >= n,
            p1 <= 1_000_000,
            p2 <= 1_000_000,
            p3 <= 1_000_000,
            which <= 2,
            spec_csi_params(buf@, start as int, 0, 0, 0, 0) == spec_csi_params(
                buf@,
                i as int,
                p1,
                p2,
                p3,
                which,
            ),
        decreases n - i,
    {
        let b = buf[i];
        if b >= 0x30 && b <= 0x39 {
            let d = (b - 0x30) as u32;
            if which == 0 {
                p1 = if p1 < 100_000 {
                    p1 * 10 + d
                } else {
                    p1
                };
            } else if which == 1 {
                p2 = if p2 < 100_000 {
                    p2 * 10 + d
                } else {
                    p2
                };
            } else {
                p3 = if p3 < 100_000 {
                    p3 * 10 + d
                } else {
                    p3
                };
            }
        } else if b == 0x3B {  // ';'
            if which < 2 {
                which = which + 1;
            }
        }
        i = i + 1;
    }
    (p1, p2, p3)
}

} // verus!
