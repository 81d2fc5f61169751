//! One character cell: a grapheme-cluster reference, a display width, a
//! style mask and a channel pair.
//!
//! A cell stores a single codepoint inline in its `gcluster` word; a
//! longer cluster lives in the owning plane's pool and the word encodes
//! the slot index. A cleared cell has `gcluster` zero, and the trailing
//! half of a wide glyph carries a reserved continuation marker.

use vstd::prelude::*;
use vstd::utf8::encode_utf8;

use crate::channel::{
    channel_with_alpha, channel_with_default, channel_with_palindex, channel_with_rgb,
    channel_with_rgb8, channels_wf, default_channels, NcChannel, NcChannels,
};
use crate::plane::{plane_wf, pool_alloc, pool_free, pool_has_room, NcPlane};
use crate::unicode::{
    char_of, char_to_string, egc_width, first_egc, first_grapheme, grapheme_width, scalar_char,
};
use crate::{
    NcAlpha, NcComponent, NcError, NcPaletteIndex, NcResult, NcRgb, NcStyle, NCSTYLE_MASK,
};

verus! {

/// The first `gcluster` value that refers into the pool: references are
/// `POOL_TAG + index`, a range disjoint from every Unicode scalar.
pub const POOL_TAG: u32 = 0x0100_0000;

/// The `gcluster` marker of the trailing half of a wide glyph.
pub const WIDE_TAIL: u32 = 0x0200_0000;

/// One terminal character position.
#[derive(Clone, Copy, Debug, PartialEq, Eq, Structural)]
pub struct NcCell {
    /// The grapheme reference: zero for an empty cell, a scalar value for
    /// an inline codepoint, `POOL_TAG + i` for pool slot `i`, or
    /// [`WIDE_TAIL`] for the trailing half of a wide glyph.
    pub gcluster: u32,
    /// Columns the glyph occupies: 0, 1 or 2; 0 for empty cells and for
    /// the trailing half of a wide glyph.
    pub width: u8,
    /// The style bits, a subset of [`NCSTYLE_MASK`].
    pub stylemask: NcStyle,
    /// The foreground and background color state.
    pub channels: NcChannels,
}

/// `g` holds an inline Unicode scalar (and is not an empty cell).
pub open spec fn is_codepoint(g: u32) -> bool {
    1 <= g && (g < 0xD800 || (0xE000 <= g && g <= 0x10FFFF))
}

/// `g` refers into the owning plane's pool.
pub open spec fn is_pool_ref(g: u32) -> bool {
    POOL_TAG <= g < WIDE_TAIL
}

/// The pool slot index encoded in a pool reference.
pub open spec fn pool_index(g: u32) -> int {
    g - POOL_TAG
}

/// `g` marks the trailing half of a wide glyph.
pub open spec fn is_wide_tail(g: u32) -> bool {
    g == WIDE_TAIL
}

/// The wholly cleared cell: no glyph, no width, no styling, both channel
/// halves on the terminal's default color.
pub open spec fn empty_cell() -> NcCell {
    NcCell { gcluster: 0, width: 0, stylemask: 0, channels: default_channels() }
}

/// A well-formed cell with respect to the pool of its owning plane: the
/// channels are coherent, the width is at most 2, the grapheme reference
/// is one of the four legal shapes, a pool reference names a filled slot,
/// and empty or trailing cells have width 0.
pub open spec fn cell_wf(c: NcCell, pool: Seq<Option<String>>) -> bool {
    &&& channels_wf(c.channels)
    &&& c.width <= 2
    &&& (c.gcluster == 0 || is_codepoint(c.gcluster) || is_wide_tail(c.gcluster) || (is_pool_ref(
        c.gcluster,
    ) && pool_index(c.gcluster) < pool.len() && pool[pool_index(c.gcluster)] is Some))
    &&& (c.gcluster == 0 ==> c.width == 0)
    &&& (is_wide_tail(c.gcluster) ==> c.width == 0)
}

/// The grapheme text a cell shows, with pool references resolved; empty
/// for cleared cells, trailing halves, and dangling references.
pub open spec fn cell_text(c: NcCell, pool: Seq<Option<String>>) -> Seq<char> {
    if is_codepoint(c.gcluster) {
        seq![scalar_char(c.gcluster)]
    } else if is_pool_ref(c.gcluster) && pool_index(c.gcluster) < pool.len() {
        match pool[pool_index(c.gcluster)] {
            Some(s) => s@,
            None => Seq::empty(),
        }
    } else {
        Seq::empty()
    }
}

/// The pool slot a cell refers to, or -1 when it refers to none.
pub open spec fn ref_of(c: NcCell) -> int {
    if is_pool_ref(c.gcluster) {
        pool_index(c.gcluster)
    } else {
        -1
    }
}

/// `c` is a character that a cell refuses to store: a C0 control or
/// delete.
pub open spec fn is_control_char(c: char) -> bool {
    (c as u32) < 0x20 || (c as u32) == 0x7F
}

/// A display width clamped to the at most two columns a cell can span.
pub open spec fn clamp2(w: usize) -> u8 {
    if w > 2 {
        2
    } else {
        w as u8
    }
}

/// The UTF-8 byte length of a character sequence.
pub open spec fn byte_len(s: Seq<char>) -> nat {
    encode_utf8(s).len()
}

/// A UTF-8 encoding takes at most four bytes per character.
pub proof fn lemma_byte_len_bound(s: Seq<char>)
    ensures
        byte_len(s) <= 4 * s.len(),
    decreases s.len(),
{
    if s.len() > 0 {
        lemma_byte_len_bound(s.drop_first());
    }
}

/// What release does to a cell and its plane's pool: the cell is wholly
/// cleared, and the pool slot it referred to, if any, is freed.
pub open spec fn release_model(c: NcCell, pool: Seq<Option<String>>) -> (NcCell, Seq<
    Option<String>,
>) {
    (
        empty_cell(),
        if is_pool_ref(c.gcluster) && pool_index(c.gcluster) < pool.len() {
            pool.update(pool_index(c.gcluster), None)
        } else {
            pool
        },
    )
}

/// Releasing a released cell changes nothing further: the second release
/// finds no glyph and no pool reference, so it is a no-op rather than a
/// double free.
pub proof fn lemma_release_idempotent(c: NcCell, pool: Seq<Option<String>>)
    ensures
        ({
            let (c1, p1) = release_model(c, pool);
            release_model(c1, p1) == (c1, p1)
        }),
{
}

/// A cell loaded from a text that is a single whole grapheme cluster
/// stores that text exactly, so extraction returns it unchanged: what
/// `load` stores is `first_egc` of its input, what `extract` copies out
/// is the stored text, and on a whole cluster the two coincide.
pub proof fn lemma_load_extract_round_trip(t: Seq<char>, c: NcCell, pool: Seq<Option<String>>)
    requires
        first_egc(t) == t,
        cell_text(c, pool) == first_egc(t),
    ensures
        cell_text(c, pool) == t,
{
}

impl NcCell {
    /// A new, wholly empty cell.
    pub fn new() -> (r: NcCell)
        ensures
            r == empty_cell(),
    {
        NcCell { gcluster: 0, width: 0, stylemask: 0, channels: NcChannels::new() }
    }

    /// A new cell holding a 7-bit character; anything non-ASCII is
    /// rejected with an encoding error.
    pub fn from_char7b(ch: char) -> (r: NcResult<NcCell>)
        ensures
            (ch as u32) < 0x80 <==> r is Ok,
            r matches Err(e) ==> e == NcError::Encoding,
            r matches Ok(c) ==> {
                &&& c.gcluster == ch as u32
                &&& c.stylemask == 0
                &&& c.channels == default_channels()
                &&& c.width == (if ch as u32 == 0 || is_control_char(ch) {
                    0u8
                } else {
                    1u8
                })
            },
    {
        if (ch as u32) >= 0x80 {
            return Err(NcError::Encoding);
        }
        let v = ch as u32;
        let width: u8 = if v == 0 || v < 0x20 || v == 0x7F {
            0
        } else {
            1
        };
        Ok(NcCell { gcluster: v, width, stylemask: 0, channels: NcChannels::new() })
    }

    /// Wholly clears the cell in place, without touching any pool.
    pub fn init(&mut self)
        ensures
            *final(self) == empty_cell(),
    {
        self.gcluster = 0;
        self.width = 0;
        self.stylemask = 0;
        self.channels = NcChannels::new();
    }

    /// Releases the pool slot this cell holds in `plane`, if any, and
    /// wholly clears the cell. Releasing an already released cell is a
    /// no-op.
    pub fn release(&mut self, plane: &mut NcPlane)
        ensures
            (*final(self), final(plane).pool@) == release_model(*old(self), old(plane).pool@),
            *final(plane) == (NcPlane { pool: final(plane).pool, ..*old(plane) }),
    {
        pool_free(&mut plane.pool, self.gcluster);
        self.init();
    }

    /// The text a load of `egc` stores, and whether it can be stored at
    /// all: see [`NcCell::load`].
    pub open spec fn loadable(egc: Seq<char>, pool: Seq<Option<String>>) -> bool {
        &&& egc.len() > 0
        &&& !is_control_char(first_egc(egc)[0])
        &&& (first_egc(egc).len() == 1 || pool_has_room(pool))
    }

    /// Breaks the first extended grapheme cluster off the front of `egc`
    /// into `cell` — inline when it is a single codepoint, else into
    /// `plane`'s pool — releasing whatever the cell held before, and
    /// returns the number of bytes consumed. The cell's styling is left
    /// untouched.
    ///
    /// Fails with an encoding error on an empty text or one that begins
    /// with a control character, and with a resource error when the pool
    /// is full; on failure nothing is changed.
    pub fn load(plane: &mut NcPlane, cell: &mut NcCell, egc: &str) -> (r: NcResult<u32>)
        requires
            egc@.len() <= 0x3FFF_FFFF,
        ensures
            r is Ok <==> Self::loadable(egc@, old(plane).pool@),
            r matches Err(e) ==> *final(cell) == *old(cell) && final(plane).pool@ == old(plane).pool@ && e == (if egc@.len() == 0 || is_control_char(first_egc(egc@)[0]) {
                NcError::Encoding
            } else {
                NcError::Resource
            }),
            r matches Ok(n) ==> {
                let g = first_egc(egc@);
                &&& n == byte_len(g)
                &&& cell_text(*final(cell), final(plane).pool@) == g
                &&& final(cell).stylemask == old(cell).stylemask
                &&& final(cell).channels == old(cell).channels
                &&& final(cell).width == clamp2(egc_width(g))
                &&& (channels_wf(old(cell).channels) ==> cell_wf(
                    *final(cell),
                    final(plane).pool@,
                ))
            },
            *final(plane) == (NcPlane { pool: final(plane).pool, ..*old(plane) }),
            final(plane).pool@.len() >= old(plane).pool@.len(),
            forall|j: int|
                0 <= j < old(plane).pool@.len() && old(plane).pool@[j] is Some && j != ref_of(
                    *old(cell),
                ) ==> final(plane).pool@[j] == old(plane).pool@[j],
            (r is Ok && ref_of(*old(cell)) >= 0 && ref_of(*old(cell)) < old(plane).pool@.len()
                && final(cell).gcluster != old(cell).gcluster) ==> final(plane).pool@[ref_of(
                *old(cell),
            )] is None,
            (r is Ok && is_pool_ref(final(cell).gcluster)) ==> (pool_index(final(cell).gcluster)
                >= old(plane).pool@.len() || old(plane).pool@[pool_index(
                final(cell).gcluster,
            )] is None),
            plane_wf(*old(plane)) && !is_pool_ref(old(cell).gcluster) ==> plane_wf(*final(plane)),
            first_egc(egc@).len() <= egc@.len(),
            first_egc(egc@) == egc@.subrange(0, first_egc(egc@).len() as int),
            egc@.len() > 0 ==> first_egc(egc@).len() > 0,
            egc@.len() == 0 ==> first_egc(egc@).len() == 0,
            byte_len(first_egc(egc@)) <= 4 * first_egc(egc@).len(),
    {
        let g = first_grapheme(egc);
        proof {
            lemma_byte_len_bound(g@);
        }
        let glen = g.as_str().unicode_len();
        if glen == 0 {
            return Err(NcError::Encoding);
        }
        let c0 = g.as_str().get_char(0);
        let c0v = c0 as u32;
        if c0v < 0x20 || c0v == 0x7F {
            return Err(NcError::Encoding);
        }
        let nbytes = g.as_str().len();
        let wth = grapheme_width(g.as_str());
        let width: u8 = if wth > 2 {
            2
        } else {
            wth as u8
        };
        let ghost gview = g@;
        let new_gcl: u32;
        if glen == 1 {
            new_gcl = c0v;
            proof {
                crate::unicode::lemma_scalar_char(c0);
                assert(gview =~= seq![c0]);
            }
        } else {
            match pool_alloc(&mut plane.pool, g) {
                Some(gc) => {
                    new_gcl = gc;
                },
                None => {
                    return Err(NcError::Resource);
                },
            }
        }
        if cell.gcluster != new_gcl {
            pool_free(&mut plane.pool, cell.gcluster);
        }
        cell.gcluster = new_gcl;
        cell.width = width;
        proof {
            if plane_wf(*old(plane)) && !is_pool_ref(old(cell).gcluster) {
                lemma_plane_wf_pool_grow(*old(plane), *plane);
            }
        }
        Ok(nbytes as u32)
    }
}

/// What remains of a text after its first grapheme cluster.
pub open spec fn egc_rest(s: Seq<char>) -> Seq<char> {
    s.skip(first_egc(s).len() as int)
}

/// The `k`-th grapheme cluster of a text.
pub open spec fn nth_egc(s: Seq<char>, k: nat) -> Seq<char>
    decreases k,
{
    if k == 0 {
        first_egc(s)
    } else {
        nth_egc(egc_rest(s), (k - 1) as nat)
    }
}

/// Growing or refilling pool slots that no grid cell references keeps a
/// plane well formed: the grid itself is untouched, and every filled slot
/// it refers to is preserved.
pub proof fn lemma_plane_wf_pool_grow(p1: NcPlane, p2: NcPlane)
    requires
        plane_wf(p1),
        p2 == (NcPlane { pool: p2.pool, ..p1 }),
        p2.pool@.len() >= p1.pool@.len(),
        forall|j: int|
            0 <= j < p1.pool@.len() && p1.pool@[j] is Some ==> p2.pool@[j] == p1.pool@[j],
    ensures
        plane_wf(p2),
{
    assert forall|y: int, x: int| crate::plane::in_bounds(p2, y, x) implies #[trigger]
        crate::plane::cell_at(p2, y, x) == crate::plane::cell_at(p1, y, x) by {}
    assert forall|y: int, x: int|
        crate::plane::in_bounds(p2, y, x) implies cell_wf(
        #[trigger] crate::plane::cell_at(p2, y, x),
        p2.pool@,
    ) by {
        assert(crate::plane::in_bounds(p1, y, x));
        assert(cell_wf(crate::plane::cell_at(p1, y, x), p1.pool@));
    }
    assert(cell_wf(p2.base, p2.pool@)) by {
        assert(cell_wf(p1.base, p1.pool@));
        assert(!is_pool_ref(p1.base.gcluster));
    }
    assert(crate::plane::plane_refs_injective(p2)) by {
        assert(crate::plane::plane_refs_injective(p1));
    }
    assert(crate::plane::plane_wide_wf(p2)) by {
        assert forall|y: int, x: int|
            crate::plane::in_bounds(p2, y, x) implies #[trigger] crate::plane::wide_ok(
            p2,
            y,
            x,
        ) by {
            assert(crate::plane::in_bounds(p1, y, x));
            assert(crate::plane::wide_ok(p1, y, x));
        }
    }
}

/// Reads a cell's grapheme text out as an owned string, resolving a pool
/// reference through `pool`; dangling references read as empty.
fn text_of(cell: &NcCell, pool: &Vec<Option<String>>) -> (r: String)
    ensures
        r@ == cell_text(*cell, pool@),
{
    let g = cell.gcluster;
    if g >= 1 && (g < 0xD800 || (g >= 0xE000 && g <= 0x10FFFF)) {
        let c = char_of(g);
        proof {
            crate::unicode::lemma_scalar_char(c);
        }
        char_to_string(c)
    } else if g >= POOL_TAG && g < WIDE_TAIL {
        let idx = (g - POOL_TAG) as usize;
        if idx < pool.len() {
            match &pool[idx] {
                Some(s) => s.clone(),
                None => String::new(),
            }
        } else {
            String::new()
        }
    } else {
        String::new()
    }
}

impl NcCell {
    /// Copies the cell's grapheme text out of `plane`'s store as an owned
    /// string: the copy stays valid however the plane changes afterwards.
    pub fn strdup(&self, plane: &NcPlane) -> (r: String)
        ensures
            r@ == cell_text(*self, plane.pool@),
    {
        text_of(self, &plane.pool)
    }

    /// Returns the cell's grapheme text as an owned, durable copy, and
    /// writes its style and channels through the two out-parameters.
    pub fn extract(
        &mut self,
        plane: &mut NcPlane,
        styles: &mut NcStyle,
        channels: &mut NcChannels,
    ) -> (r: String)
        ensures
            r@ == cell_text(*old(self), old(plane).pool@),
            *final(styles) == old(self).stylemask,
            *final(channels) == old(self).channels,
            *final(self) == *old(self),
            *final(plane) == *old(plane),
    {
        *styles = self.stylemask;
        *channels = self.channels;
        text_of(self, &plane.pool)
    }

    /// The cell's grapheme text as an owned, durable copy.
    pub fn egc(&mut self, plane: &mut NcPlane) -> (r: String)
        ensures
            r@ == cell_text(*old(self), old(plane).pool@),
            *final(self) == *old(self),
            *final(plane) == *old(plane),
    {
        text_of(self, &plane.pool)
    }

    /// The cell's channel pair.
    pub fn channels(&mut self, plane: &mut NcPlane) -> (r: NcChannels)
        ensures
            r == old(self).channels,
            *final(self) == *old(self),
            *final(plane) == *old(plane),
    {
        self.channels
    }

    /// Do the two cells differ in expanded grapheme text, style, or
    /// channels? Pool slot numbers and owning planes play no part: only
    /// the resolved content is compared.
    pub fn compare(plane1: &NcPlane, cell1: &NcCell, plane2: &NcPlane, cell2: &NcCell) -> (r:
        bool)
        ensures
            r == !(cell_text(*cell1, plane1.pool@) == cell_text(*cell2, plane2.pool@)
                && cell1.stylemask == cell2.stylemask && cell1.channels == cell2.channels),
    {
        let t1 = text_of(cell1, &plane1.pool);
        let t2 = text_of(cell2, &plane2.pool);
        !(t1 == t2 && cell1.stylemask == cell2.stylemask && cell1.channels == cell2.channels)
    }

    /// The part of a duplicated cell that can be resolved: an inline
    /// codepoint, or a pool reference to a filled slot.
    pub open spec fn resolvable(c: NcCell, pool: Seq<Option<String>>) -> bool {
        is_codepoint(c.gcluster) || (is_pool_ref(c.gcluster) && pool_index(c.gcluster)
            < pool.len() && pool[pool_index(c.gcluster)] is Some)
    }

    /// Duplicates this cell into a cell valid for `common_plane`, copying
    /// a pooled cluster into a fresh slot of that plane's pool. A cell
    /// whose reference dangles duplicates as a cleared glyph. Fails only
    /// with a resource error, leaving everything unchanged.
    pub fn duplicate(&self, common_plane: &mut NcPlane) -> (r: NcResult<NcCell>)
        ensures
            r is Err ==> *final(common_plane) == *old(common_plane) && !pool_has_room(
                old(common_plane).pool@,
            ),
            r matches Err(e) ==> e == NcError::Resource,
            r matches Ok(c) ==> {
                &&& cell_text(c, final(common_plane).pool@) == cell_text(
                    *self,
                    old(common_plane).pool@,
                )
                &&& c.stylemask == self.stylemask
                &&& c.channels == self.channels
                &&& (!is_pool_ref(self.gcluster) ==> c == *self)
                &&& (Self::resolvable(*self, old(common_plane).pool@) ==> c.width == self.width)
            },
            *final(common_plane) == (NcPlane {
                pool: final(common_plane).pool,
                ..*old(common_plane)
            }),
            final(common_plane).pool@.len() >= old(common_plane).pool@.len(),
            forall|j: int|
                0 <= j < old(common_plane).pool@.len() && old(common_plane).pool@[j] is Some
                    ==> final(common_plane).pool@[j] == old(common_plane).pool@[j],
            plane_wf(*old(common_plane)) ==> plane_wf(*final(common_plane)),
    {
        let g = self.gcluster;
        let res: NcResult<NcCell>;
        if g >= POOL_TAG && g < WIDE_TAIL {
            let idx = (g - POOL_TAG) as usize;
            let mut found: Option<String> = None;
            if idx < common_plane.pool.len() {
                match &common_plane.pool[idx] {
                    Some(s) => {
                        found = Some(s.clone());
                    },
                    None => {},
                }
            }
            match found {
                Some(s) => {
                    match pool_alloc(&mut common_plane.pool, s) {
                        Some(gc) => {
                            res = Ok(NcCell { gcluster: gc, ..*self });
                        },
                        None => {
                            res = Err(NcError::Resource);
                        },
                    }
                },
                None => {
                    res = Ok(NcCell { gcluster: 0, width: 0, ..*self });
                },
            }
        } else {
            res = Ok(NcCell { ..*self });
        }
        proof {
            if plane_wf(*old(common_plane)) {
                lemma_plane_wf_pool_grow(*old(common_plane), *common_plane);
            }
        }
        res
    }

    /// A new cell loaded from the first grapheme cluster of `string`,
    /// with no styling.
    pub fn from_str(plane: &mut NcPlane, string: &str) -> (r: NcResult<NcCell>)
        requires
            string@.len() <= 0x3FFF_FFFF,
        ensures
            r is Ok <==> Self::loadable(string@, old(plane).pool@),
            r is Err ==> final(plane).pool@ == old(plane).pool@,
            r matches Ok(c) ==> {
                let g = first_egc(string@);
                &&& cell_text(c, final(plane).pool@) == g
                &&& c.stylemask == 0
                &&& c.channels == default_channels()
                &&& c.width == clamp2(egc_width(g))
                &&& cell_wf(c, final(plane).pool@)
            },
            *final(plane) == (NcPlane { pool: final(plane).pool, ..*old(plane) }),
            final(plane).pool@.len() >= old(plane).pool@.len(),
            forall|j: int|
                0 <= j < old(plane).pool@.len() && old(plane).pool@[j] is Some ==> final(plane).pool@[j] == old(plane).pool@[j],
            plane_wf(*old(plane)) ==> plane_wf(*final(plane)),
            first_egc(string@).len() <= string@.len(),
            first_egc(string@) == string@.subrange(0, first_egc(string@).len() as int),
            string@.len() > 0 ==> first_egc(string@).len() > 0,
    {
        let mut cell = NcCell::new();
        match NcCell::load(plane, &mut cell, string) {
            Ok(_) => Ok(cell),
            Err(e) => Err(e),
        }
    }

    /// A new cell holding the single character `ch`, with no styling.
    /// Only control characters are rejected.
    pub fn from_char(plane: &mut NcPlane, ch: char) -> (r: NcResult<NcCell>)
        ensures
            r is Ok <==> !is_control_char(ch),
            r matches Ok(c) ==> {
                &&& cell_text(c, final(plane).pool@) == seq![ch]
                &&& c.width == clamp2(egc_width(seq![ch]))
                &&& c.stylemask == 0
                &&& c.channels == default_channels()
                &&& cell_wf(c, final(plane).pool@)
            },
            *final(plane) == (NcPlane { pool: final(plane).pool, ..*old(plane) }),
            final(plane).pool@.len() >= old(plane).pool@.len(),
            forall|j: int|
                0 <= j < old(plane).pool@.len() && old(plane).pool@[j] is Some ==> final(plane).pool@[j] == old(plane).pool@[j],
            plane_wf(*old(plane)) ==> plane_wf(*final(plane)),
    {
        let s = char_to_string(ch);
        let r = Self::from_str(plane, s.as_str());
        proof {
            let t = seq![ch];
            assert(first_egc(t).len() == 1);
            assert(first_egc(t) =~= t);
        }
        match r {
            Ok(c) => {
                proof {
                    crate::unicode::lemma_scalar_char(ch);
                    assert(cell_text(c, final(plane).pool@) =~= seq![ch]);
                }
                Ok(c)
            },
            Err(_) => Err(NcError::Encoding),
        }
    }

    /// Loads the first grapheme cluster of `gcluster` into `cell` as
    /// [`NcCell::load`] does, then overwrites the cell's styling with
    /// `style` and `channels`.
    pub fn prime(
        plane: &mut NcPlane,
        cell: &mut NcCell,
        gcluster: &str,
        style: NcStyle,
        channels: NcChannels,
    ) -> (r: NcResult<u32>)
        requires
            gcluster@.len() <= 0x3FFF_FFFF,
        ensures
            r is Ok <==> Self::loadable(gcluster@, old(plane).pool@),
            r is Err ==> *final(cell) == *old(cell) && final(plane).pool@ == old(plane).pool@,
            r matches Ok(n) ==> {
                let g = first_egc(gcluster@);
                &&& n == byte_len(g)
                &&& cell_text(*final(cell), final(plane).pool@) == g
                &&& final(cell).stylemask == style
                &&& final(cell).channels == channels
                &&& final(cell).width == clamp2(egc_width(g))
                &&& (channels_wf(channels) ==> cell_wf(*final(cell), final(plane).pool@))
            },
            *final(plane) == (NcPlane { pool: final(plane).pool, ..*old(plane) }),
            final(plane).pool@.len() >= old(plane).pool@.len(),
            forall|j: int|
                0 <= j < old(plane).pool@.len() && old(plane).pool@[j] is Some && j != ref_of(
                    *old(cell),
                ) ==> final(plane).pool@[j] == old(plane).pool@[j],
            (r is Ok && is_pool_ref(final(cell).gcluster)) ==> (pool_index(final(cell).gcluster)
                >= old(plane).pool@.len() || old(plane).pool@[pool_index(
                final(cell).gcluster,
            )] is None),
            plane_wf(*old(plane)) && !is_pool_ref(old(cell).gcluster) ==> plane_wf(*final(plane)),
            first_egc(gcluster@).len() <= gcluster@.len(),
            first_egc(gcluster@) == gcluster@.subrange(0, first_egc(gcluster@).len() as int),
            gcluster@.len() > 0 ==> first_egc(gcluster@).len() > 0,
            gcluster@.len() == 0 ==> first_egc(gcluster@).len() == 0,
    {
        match NcCell::load(plane, cell, gcluster) {
            Ok(n) => {
                cell.stylemask = style;
                cell.channels = channels;
                Ok(n)
            },
            Err(e) => Err(e),
        }
    }
}

/// # Style accessors
impl NcCell {
    /// The style bits.
    pub fn styles(&mut self) -> (r: NcStyle)
        ensures
            r == old(self).stylemask,
            *final(self) == *old(self),
    {
        self.stylemask
    }

    /// Adds the given style bits to the cell.
    pub fn styles_on(&mut self, stylebits: NcStyle)
        ensures
            *final(self) == (NcCell {
                stylemask: old(self).stylemask | (stylebits & NCSTYLE_MASK),
                ..*old(self)
            }),
    {
        self.stylemask = self.stylemask | (stylebits & NCSTYLE_MASK);
    }

    /// Removes the given style bits from the cell.
    pub fn styles_off(&mut self, stylebits: NcStyle)
        ensures
            *final(self) == (NcCell {
                stylemask: old(self).stylemask & !(stylebits & NCSTYLE_MASK),
                ..*old(self)
            }),
    {
        self.stylemask = self.stylemask & !(stylebits & NCSTYLE_MASK);
    }

    /// Replaces the cell's styles with exactly the given bits.
    pub fn styles_set(&mut self, stylebits: NcStyle)
        ensures
            *final(self) == (NcCell { stylemask: stylebits & NCSTYLE_MASK, ..*old(self) }),
    {
        self.stylemask = stylebits & NCSTYLE_MASK;
    }
}

/// # Channel accessors
impl NcCell {
    /// The background alpha.
    pub fn bg_alpha(&self) -> (r: NcAlpha)
        ensures
            r == self.channels.bg.alpha,
    {
        self.channels.bg.alpha()
    }

    /// Does the background use the terminal's default color?
    pub fn bg_default_p(&self) -> (r: bool)
        ensures
            r == self.channels.bg.default_color,
    {
        self.channels.bg.default_p()
    }

    /// The background palette index.
    pub fn bg_palindex(&self) -> (r: NcPaletteIndex)
        ensures
            r == self.channels.bg.palindex,
    {
        self.channels.bg.palindex()
    }

    /// Is the background palette indexed?
    pub fn bg_palindex_p(&self) -> (r: bool)
        ensures
            r == self.channels.bg.palindexed,
    {
        self.channels.bg.palindex_p()
    }

    /// The background RGB color, in the low 24 bits.
    pub fn bg_rgb(&self) -> (r: NcRgb)
        ensures
            r == self.channels.bg.rgb,
    {
        self.channels.bg.rgb()
    }

    /// The background RGB components.
    pub fn bg_rgb8(&self) -> (r: (NcComponent, NcComponent, NcComponent))
        requires
            channels_wf(self.channels),
        ensures
            r.0 == (self.channels.bg.rgb >> 16) & 0xFF,
            r.1 == (self.channels.bg.rgb >> 8) & 0xFF,
            r.2 == self.channels.bg.rgb & 0xFF,
    {
        self.channels.bg.rgb8()
    }

    /// The foreground alpha.
    pub fn fg_alpha(&self) -> (r: NcAlpha)
        ensures
            r == self.channels.fg.alpha,
    {
        self.channels.fg.alpha()
    }

    /// Does the foreground use the terminal's default color?
    pub fn fg_default_p(&self) -> (r: bool)
        ensures
            r == self.channels.fg.default_color,
    {
        self.channels.fg.default_p()
    }

    /// The foreground palette index.
    pub fn fg_palindex(&self) -> (r: NcPaletteIndex)
        ensures
            r == self.channels.fg.palindex,
    {
        self.channels.fg.palindex()
    }

    /// Is the foreground palette indexed?
    pub fn fg_palindex_p(&self) -> (r: bool)
        ensures
            r == self.channels.fg.palindexed,
    {
        self.channels.fg.palindex_p()
    }

    /// The foreground RGB color, in the low 24 bits.
    pub fn fg_rgb(&self) -> (r: NcRgb)
        ensures
            r == self.channels.fg.rgb,
    {
        self.channels.fg.rgb()
    }

    /// The foreground RGB components.
    pub fn fg_rgb8(&self) -> (r: (NcComponent, NcComponent, NcComponent))
        requires
            channels_wf(self.channels),
        ensures
            r.0 == (self.channels.fg.rgb >> 16) & 0xFF,
            r.1 == (self.channels.fg.rgb >> 8) & 0xFF,
            r.2 == self.channels.fg.rgb & 0xFF,
    {
        self.channels.fg.rgb8()
    }

    /// Sets the background alpha.
    pub fn set_bg_alpha(&mut self, alpha: NcAlpha)
        ensures
            *final(self) == (NcCell {
                channels: NcChannels {
                    bg: channel_with_alpha(old(self).channels.bg, alpha),
                    ..old(self).channels
                },
                ..*old(self)
            }),
    {
        self.channels.bg.set_alpha(alpha);
    }

    /// Marks the background as using the terminal's default color.
    pub fn set_bg_default(&mut self)
        ensures
            *final(self) == (NcCell {
                channels: NcChannels {
                    bg: channel_with_default(old(self).channels.bg),
                    ..old(self).channels
                },
                ..*old(self)
            }),
    {
        self.channels.bg.set_default();
    }

    /// Sets the background palette index, marking the background palette
    /// indexed, non-default, and opaque.
    pub fn set_bg_palindex(&mut self, index: NcPaletteIndex)
        ensures
            *final(self) == (NcCell {
                channels: NcChannels {
                    bg: channel_with_palindex(old(self).channels.bg, index),
                    ..old(self).channels
                },
                ..*old(self)
            }),
    {
        self.channels.bg.set_palindex(index);
    }

    /// Sets the background RGB color, marking it as not default.
    pub fn set_bg_rgb(&mut self, rgb: NcRgb)
        ensures
            *final(self) == (NcCell {
                channels: NcChannels {
                    bg: channel_with_rgb(old(self).channels.bg, rgb),
                    ..old(self).channels
                },
                ..*old(self)
            }),
    {
        self.channels.bg.set_rgb(rgb);
    }

    /// Sets the background RGB components, marking it as not default.
    pub fn set_bg_rgb8(&mut self, red: NcComponent, green: NcComponent, blue: NcComponent)
        ensures
            *final(self) == (NcCell {
                channels: NcChannels {
                    bg: channel_with_rgb8(old(self).channels.bg, red, green, blue),
                    ..old(self).channels
                },
                ..*old(self)
            }),
    {
        self.channels.bg.set_rgb8(red, green, blue);
    }

    /// Sets the foreground alpha.
    pub fn set_fg_alpha(&mut self, alpha: NcAlpha)
        ensures
            *final(self) == (NcCell {
                channels: NcChannels {
                    fg: channel_with_alpha(old(self).channels.fg, alpha),
                    ..old(self).channels
                },
                ..*old(self)
            }),
    {
        self.channels.fg.set_alpha(alpha);
    }

    /// Marks the foreground as using the terminal's default color.
    pub fn set_fg_default(&mut self)
        ensures
            *final(self) == (NcCell {
                channels: NcChannels {
                    fg: channel_with_default(old(self).channels.fg),
                    ..old(self).channels
                },
                ..*old(self)
            }),
    {
        self.channels.fg.set_default();
    }

    /// Sets the foreground palette index, marking the foreground palette
    /// indexed, non-default, and opaque.
    pub fn set_fg_palindex(&mut self, index: NcPaletteIndex)
        ensures
            *final(self) == (NcCell {
                channels: NcChannels {
                    fg: channel_with_palindex(old(self).channels.fg, index),
                    ..old(self).channels
                },
                ..*old(self)
            }),
    {
        self.channels.fg.set_palindex(index);
    }

    /// Sets the foreground RGB color, marking it as not default.
    pub fn set_fg_rgb(&mut self, rgb: NcRgb)
        ensures
            *final(self) == (NcCell {
                channels: NcChannels {
                    fg: channel_with_rgb(old(self).channels.fg, rgb),
                    ..old(self).channels
                },
                ..*old(self)
            }),
    {
        self.channels.fg.set_rgb(rgb);
    }

    /// Sets the foreground RGB components, marking it as not default.
    pub fn set_fg_rgb8(&mut self, red: NcComponent, green: NcComponent, blue: NcComponent)
        ensures
            *final(self) == (NcCell {
                channels: NcChannels {
                    fg: channel_with_rgb8(old(self).channels.fg, red, green, blue),
                    ..old(self).channels
                },
                ..*old(self)
            }),
    {
        self.channels.fg.set_rgb8(red, green, blue);
    }
}

/// A cell that resolves against one pool keeps its text and shape against
/// any later pool in which every filled slot was preserved.
pub proof fn lemma_cell_text_preserved(
    c: NcCell,
    p1: Seq<Option<String>>,
    p2: Seq<Option<String>>,
)
    requires
        cell_wf(c, p1),
        p2.len() >= p1.len(),
        forall|j: int| 0 <= j < p1.len() && p1[j] is Some ==> p2[j] == p1[j],
    ensures
        cell_text(c, p2) == cell_text(c, p1),
        cell_wf(c, p2),
{
}

/// # Box loaders
impl NcCell {
    /// Loads six cells with the glyphs of a box: upper-left, upper-right,
    /// lower-left, lower-right, horizontal and vertical lines, taken as
    /// the first six grapheme clusters of `gcluster`, all styled with
    /// `style` and `channels`.
    ///
    /// Whatever the six cells held before is released first, and if any
    /// of the six loads fails every cell loaded in the batch is released
    /// again: on error all six cells are left cleared, never part of a
    /// box. Six single-codepoint, non-control clusters always succeed.
    pub fn load_box(
        plane: &mut NcPlane,
        style: NcStyle,
        channels: NcChannels,
        ul: &mut NcCell,
        ur: &mut NcCell,
        ll: &mut NcCell,
        lr: &mut NcCell,
        hl: &mut NcCell,
        vl: &mut NcCell,
        gcluster: &str,
    ) -> (r: NcResult<()>)
        requires
            gcluster@.len() <= 0x3FFF_FFFF,
            channels_wf(channels),
        ensures
            r is Ok ==> {
                let s = gcluster@;
                &&& cell_text(*final(ul), final(plane).pool@) == nth_egc(s, 0)
                &&& cell_text(*final(ur), final(plane).pool@) == nth_egc(s, 1)
                &&& cell_text(*final(ll), final(plane).pool@) == nth_egc(s, 2)
                &&& cell_text(*final(lr), final(plane).pool@) == nth_egc(s, 3)
                &&& cell_text(*final(hl), final(plane).pool@) == nth_egc(s, 4)
                &&& cell_text(*final(vl), final(plane).pool@) == nth_egc(s, 5)
                &&& final(ul).stylemask == style && final(ul).channels == channels
                &&& final(ur).stylemask == style && final(ur).channels == channels
                &&& final(ll).stylemask == style && final(ll).channels == channels
                &&& final(lr).stylemask == style && final(lr).channels == channels
                &&& final(hl).stylemask == style && final(hl).channels == channels
                &&& final(vl).stylemask == style && final(vl).channels == channels
            },
            r is Err ==> {
                &&& *final(ul) == empty_cell()
                &&& *final(ur) == empty_cell()
                &&& *final(ll) == empty_cell()
                &&& *final(lr) == empty_cell()
                &&& *final(hl) == empty_cell()
                &&& *final(vl) == empty_cell()
            },
            (forall|k: nat|
                k < 6 ==> (#[trigger] nth_egc(gcluster@, k)).len() == 1 && !is_control_char(
                    nth_egc(gcluster@, k)[0],
                )) ==> r is Ok,
            *final(plane) == (NcPlane { pool: final(plane).pool, ..*old(plane) }),
    {
        ul.release(plane);
        ur.release(plane);
        ll.release(plane);
        lr.release(plane);
        hl.release(plane);
        vl.release(plane);
        let mut rest: &str = gcluster;
        let ghost s0 = rest@;
        let r0 = NcCell::prime(plane, ul, rest, style, channels);
        if let Err(e) = r0 {
            ul.init();
            proof {
                assert(s0 == gcluster@);
                assert(nth_egc(gcluster@, 0) == first_egc(s0));
            }
            return Err(e);
        }
        rest = egc_advance(rest);
        let ghost s1 = rest@;
        let ghost q1 = plane.pool@;
        let r1 = NcCell::prime(plane, ur, rest, style, channels);
        if let Err(e) = r1 {
            ul.release(plane);
            ur.init();
            proof {
                assert(s0 == gcluster@);
                assert(nth_egc(gcluster@, 1) == nth_egc(s1, 0));
                assert(nth_egc(s1, 0) == first_egc(s1));
            }
            return Err(e);
        }
        rest = egc_advance(rest);
        let ghost s2 = rest@;
        let ghost q2 = plane.pool@;
        proof {
            lemma_cell_text_preserved(*ul, q1, q2);
        }
        let r2 = NcCell::prime(plane, ll, rest, style, channels);
        if let Err(e) = r2 {
            ul.release(plane);
            ur.release(plane);
            ll.init();
            proof {
                assert(s0 == gcluster@);
                assert(nth_egc(gcluster@, 2) == nth_egc(s1, 1));
                assert(nth_egc(s1, 1) == nth_egc(s2, 0));
                assert(nth_egc(s2, 0) == first_egc(s2));
            }
            return Err(e);
        }
        rest = egc_advance(rest);
        let ghost s3 = rest@;
        let ghost q3 = plane.pool@;
        proof {
            lemma_cell_text_preserved(*ul, q2, q3);
            lemma_cell_text_preserved(*ur, q2, q3);
        }
        let r3 = NcCell::prime(plane, lr, rest, style, channels);
        if let Err(e) = r3 {
            ul.release(plane);
            ur.release(plane);
            ll.release(plane);
            lr.init();
            proof {
                assert(s0 == gcluster@);
                assert(nth_egc(gcluster@, 3) == nth_egc(s1, 2));
                assert(nth_egc(s1, 2) == nth_egc(s2, 1));
                assert(nth_egc(s2, 1) == nth_egc(s3, 0));
                assert(nth_egc(s3, 0) == first_egc(s3));
            }
            return Err(e);
        }
        rest = egc_advance(rest);
        let ghost s4 = rest@;
        let ghost q4 = plane.pool@;
        proof {
            lemma_cell_text_preserved(*ul, q3, q4);
            lemma_cell_text_preserved(*ur, q3, q4);
            lemma_cell_text_preserved(*ll, q3, q4);
        }
        let r4 = NcCell::prime(plane, hl, rest, style, channels);
        if let Err(e) = r4 {
            ul.release(plane);
            ur.release(plane);
            ll.release(plane);
            lr.release(plane);
            hl.init();
            proof {
                assert(s0 == gcluster@);
                assert(nth_egc(gcluster@, 4) == nth_egc(s1, 3));
                assert(nth_egc(s1, 3) == nth_egc(s2, 2));
                assert(nth_egc(s2, 2) == nth_egc(s3, 1));
                assert(nth_egc(s3, 1) == nth_egc(s4, 0));
                assert(nth_egc(s4, 0) == first_egc(s4));
            }
            return Err(e);
        }
        rest = egc_advance(rest);
        let ghost s5 = rest@;
        let ghost q5 = plane.pool@;
        proof {
            lemma_cell_text_preserved(*ul, q4, q5);
            lemma_cell_text_preserved(*ur, q4, q5);
            lemma_cell_text_preserved(*ll, q4, q5);
            lemma_cell_text_preserved(*lr, q4, q5);
        }
        let r5 = NcCell::prime(plane, vl, rest, style, channels);
        if let Err(e) = r5 {
            ul.release(plane);
            ur.release(plane);
            ll.release(plane);
            lr.release(plane);
            hl.release(plane);
            vl.init();
            proof {
                assert(s0 == gcluster@);
                assert(nth_egc(gcluster@, 5) == nth_egc(s1, 4));
                assert(nth_egc(s1, 4) == nth_egc(s2, 3));
                assert(nth_egc(s2, 3) == nth_egc(s3, 2));
                assert(nth_egc(s3, 2) == nth_egc(s4, 1));
                assert(nth_egc(s4, 1) == nth_egc(s5, 0));
                assert(nth_egc(s5, 0) == first_egc(s5));
            }
            return Err(e);
        }
        let ghost q6 = plane.pool@;
        proof {
            lemma_cell_text_preserved(*ul, q5, q6);
            lemma_cell_text_preserved(*ur, q5, q6);
            lemma_cell_text_preserved(*ll, q5, q6);
            lemma_cell_text_preserved(*lr, q5, q6);
            lemma_cell_text_preserved(*hl, q5, q6);
            assert(nth_egc(s0, 0) == first_egc(s0));
            assert(nth_egc(s0, 1) == nth_egc(s1, 0));
            assert(nth_egc(s0, 2) == nth_egc(s1, 1));
            assert(nth_egc(s1, 1) == nth_egc(s2, 0));
            assert(nth_egc(s0, 3) == nth_egc(s1, 2));
            assert(nth_egc(s1, 2) == nth_egc(s2, 1));
            assert(nth_egc(s2, 1) == nth_egc(s3, 0));
            assert(nth_egc(s0, 4) == nth_egc(s1, 3));
            assert(nth_egc(s1, 3) == nth_egc(s2, 2));
            assert(nth_egc(s2, 2) == nth_egc(s3, 1));
            assert(nth_egc(s3, 1) == nth_egc(s4, 0));
            assert(nth_egc(s0, 5) == nth_egc(s1, 4));
            assert(nth_egc(s1, 4) == nth_egc(s2, 3));
            assert(nth_egc(s2, 3) == nth_egc(s3, 2));
            assert(nth_egc(s3, 2) == nth_egc(s4, 1));
            assert(nth_egc(s4, 1) == nth_egc(s5, 0));
        }
        Ok(())
    }
}

/// The six cells of a box hold the first six grapheme clusters of `s`,
/// each styled with `style` and `channels`.
pub open spec fn box_loaded(
    s: Seq<char>,
    ul: NcCell,
    ur: NcCell,
    ll: NcCell,
    lr: NcCell,
    hl: NcCell,
    vl: NcCell,
    pool: Seq<Option<String>>,
    style: NcStyle,
    channels: NcChannels,
) -> bool {
    &&& cell_text(ul, pool) == nth_egc(s, 0)
    &&& cell_text(ur, pool) == nth_egc(s, 1)
    &&& cell_text(ll, pool) == nth_egc(s, 2)
    &&& cell_text(lr, pool) == nth_egc(s, 3)
    &&& cell_text(hl, pool) == nth_egc(s, 4)
    &&& cell_text(vl, pool) == nth_egc(s, 5)
    &&& ul.stylemask == style && ul.channels == channels
    &&& ur.stylemask == style && ur.channels == channels
    &&& ll.stylemask == style && ll.channels == channels
    &&& lr.stylemask == style && lr.channels == channels
    &&& hl.stylemask == style && hl.channels == channels
    &&& vl.stylemask == style && vl.channels == channels
}

/// All six cells of a failed box load are left wholly cleared.
pub open spec fn box_cleared(
    ul: NcCell,
    ur: NcCell,
    ll: NcCell,
    lr: NcCell,
    hl: NcCell,
    vl: NcCell,
) -> bool {
    &&& ul == empty_cell()
    &&& ur == empty_cell()
    &&& ll == empty_cell()
    &&& lr == empty_cell()
    &&& hl == empty_cell()
    &&& vl == empty_cell()
}

/// The suffix of `s` that follows its first grapheme cluster.
pub(crate) fn egc_advance(s: &str) -> (r: &str)
    ensures
        r@ == egc_rest(s@),
        r@.len() <= s@.len(),
{
    let g = first_grapheme(s);
    let k = g.as_str().unicode_len();
    let n = s.unicode_len();
    let r = s.substring_char(k, n);
    proof {
        assert(r@ =~= egc_rest(s@));
    }
    r
}

/// # Box presets
impl NcCell {
    /// [`NcCell::load_box`] with the double-line box-drawing characters.
    pub fn double_box(
        plane: &mut NcPlane,
        style: NcStyle,
        channels: NcChannels,
        ul: &mut NcCell,
        ur: &mut NcCell,
        ll: &mut NcCell,
        lr: &mut NcCell,
        hl: &mut NcCell,
        vl: &mut NcCell,
    ) -> (r: NcResult<()>)
        requires
            channels_wf(channels),
        ensures
            r is Ok ==> box_loaded(
                "\u{2554}\u{2557}\u{255A}\u{255D}\u{2550}\u{2551}"@,
                *final(ul),
                *final(ur),
                *final(ll),
                *final(lr),
                *final(hl),
                *final(vl),
                final(plane).pool@,
                style,
                channels,
            ),
            r is Err ==> box_cleared(
                *final(ul),
                *final(ur),
                *final(ll),
                *final(lr),
                *final(hl),
                *final(vl),
            ),
            (forall|k: nat|
                k < 6 ==> (#[trigger] nth_egc("\u{2554}\u{2557}\u{255A}\u{255D}\u{2550}\u{2551}"@, k)).len() == 1 && !is_control_char(
                    nth_egc("\u{2554}\u{2557}\u{255A}\u{255D}\u{2550}\u{2551}"@, k)[0],
                )) ==> r is Ok,
            *final(plane) == (NcPlane { pool: final(plane).pool, ..*old(plane) }),
    {
        proof {
            reveal_strlit("\u{2554}\u{2557}\u{255A}\u{255D}\u{2550}\u{2551}");
        }
        NcCell::load_box(plane, style, channels, ul, ur, ll, lr, hl, vl, "\u{2554}\u{2557}\u{255A}\u{255D}\u{2550}\u{2551}")
    }

    /// [`NcCell::load_box`] with the rounded-corner box-drawing characters.
    pub fn rounded_box(
        plane: &mut NcPlane,
        style: NcStyle,
        channels: NcChannels,
        ul: &mut NcCell,
        ur: &mut NcCell,
        ll: &mut NcCell,
        lr: &mut NcCell,
        hl: &mut NcCell,
        vl: &mut NcCell,
    ) -> (r: NcResult<()>)
        requires
            channels_wf(channels),
        ensures
            r is Ok ==> box_loaded(
                "\u{256D}\u{256E}\u{2570}\u{256F}\u{2500}\u{2502}"@,
                *final(ul),
                *final(ur),
                *final(ll),
                *final(lr),
                *final(hl),
                *final(vl),
                final(plane).pool@,
                style,
                channels,
            ),
            r is Err ==> box_cleared(
                *final(ul),
                *final(ur),
                *final(ll),
                *final(lr),
                *final(hl),
                *final(vl),
            ),
            (forall|k: nat|
                k < 6 ==> (#[trigger] nth_egc("\u{256D}\u{256E}\u{2570}\u{256F}\u{2500}\u{2502}"@, k)).len() == 1 && !is_control_char(
                    nth_egc("\u{256D}\u{256E}\u{2570}\u{256F}\u{2500}\u{2502}"@, k)[0],
                )) ==> r is Ok,
            *final(plane) == (NcPlane { pool: final(plane).pool, ..*old(plane) }),
    {
        proof {
            reveal_strlit("\u{256D}\u{256E}\u{2570}\u{256F}\u{2500}\u{2502}");
        }
        NcCell::load_box(plane, style, channels, ul, ur, ll, lr, hl, vl, "\u{256D}\u{256E}\u{2570}\u{256F}\u{2500}\u{2502}")
    }

    /// [`NcCell::load_box`] with the plain ASCII box-drawing characters.
    pub fn ascii_box(
        plane: &mut NcPlane,
        style: NcStyle,
        channels: NcChannels,
        ul: &mut NcCell,
        ur: &mut NcCell,
        ll: &mut NcCell,
        lr: &mut NcCell,
        hl: &mut NcCell,
        vl: &mut NcCell,
    ) -> (r: NcResult<()>)
        requires
            channels_wf(channels),
        ensures
            r is Ok ==> box_loaded(
                "/\\\\/-|"@,
                *final(ul),
                *final(ur),
                *final(ll),
                *final(lr),
                *final(hl),
                *final(vl),
                final(plane).pool@,
                style,
                channels,
            ),
            r is Err ==> box_cleared(
                *final(ul),
                *final(ur),
                *final(ll),
                *final(lr),
                *final(hl),
                *final(vl),
            ),
            (forall|k: nat|
                k < 6 ==> (#[trigger] nth_egc("/\\\\/-|"@, k)).len() == 1 && !is_control_char(
                    nth_egc("/\\\\/-|"@, k)[0],
                )) ==> r is Ok,
            *final(plane) == (NcPlane { pool: final(plane).pool, ..*old(plane) }),
    {
        proof {
            reveal_strlit("/\\\\/-|");
        }
        NcCell::load_box(plane, style, channels, ul, ur, ll, lr, hl, vl, "/\\\\/-|")
    }

    /// [`NcCell::load_box`] with the heavy-line box-drawing characters.
    pub fn heavy_box(
        plane: &mut NcPlane,
        style: NcStyle,
        channels: NcChannels,
        ul: &mut NcCell,
        ur: &mut NcCell,
        ll: &mut NcCell,
        lr: &mut NcCell,
        hl: &mut NcCell,
        vl: &mut NcCell,
    ) -> (r: NcResult<()>)
        requires
            channels_wf(channels),
        ensures
            r is Ok ==> box_loaded(
                "\u{250F}\u{2513}\u{2517}\u{251B}\u{2501}\u{2503}"@,
                *final(ul),
                *final(ur),
                *final(ll),
                *final(lr),
                *final(hl),
                *final(vl),
                final(plane).pool@,
                style,
                channels,
            ),
            r is Err ==> box_cleared(
                *final(ul),
                *final(ur),
                *final(ll),
                *final(lr),
                *final(hl),
                *final(vl),
            ),
            (forall|k: nat|
                k < 6 ==> (#[trigger] nth_egc("\u{250F}\u{2513}\u{2517}\u{251B}\u{2501}\u{2503}"@, k)).len() == 1 && !is_control_char(
                    nth_egc("\u{250F}\u{2513}\u{2517}\u{251B}\u{2501}\u{2503}"@, k)[0],
                )) ==> r is Ok,
            *final(plane) == (NcPlane { pool: final(plane).pool, ..*old(plane) }),
    {
        proof {
            reveal_strlit("\u{250F}\u{2513}\u{2517}\u{251B}\u{2501}\u{2503}");
        }
        NcCell::load_box(plane, style, channels, ul, ur, ll, lr, hl, vl, "\u{250F}\u{2513}\u{2517}\u{251B}\u{2501}\u{2503}")
    }

    /// [`NcCell::load_box`] with the light-line box-drawing characters.
    pub fn light_box(
        plane: &mut NcPlane,
        style: NcStyle,
        channels: NcChannels,
        ul: &mut NcCell,
        ur: &mut NcCell,
        ll: &mut NcCell,
        lr: &mut NcCell,
        hl: &mut NcCell,
        vl: &mut NcCell,
    ) -> (r: NcResult<()>)
        requires
            channels_wf(channels),
        ensures
            r is Ok ==> box_loaded(
                "\u{250C}\u{2510}\u{2514}\u{2518}\u{2500}\u{2502}"@,
                *final(ul),
                *final(ur),
                *final(ll),
                *final(lr),
                *final(hl),
                *final(vl),
                final(plane).pool@,
                style,
                channels,
            ),
            r is Err ==> box_cleared(
                *final(ul),
                *final(ur),
                *final(ll),
                *final(lr),
                *final(hl),
                *final(vl),
            ),
            (forall|k: nat|
                k < 6 ==> (#[trigger] nth_egc("\u{250C}\u{2510}\u{2514}\u{2518}\u{2500}\u{2502}"@, k)).len() == 1 && !is_control_char(
                    nth_egc("\u{250C}\u{2510}\u{2514}\u{2518}\u{2500}\u{2502}"@, k)[0],
                )) ==> r is Ok,
            *final(plane) == (NcPlane { pool: final(plane).pool, ..*old(plane) }),
    {
        proof {
            reveal_strlit("\u{250C}\u{2510}\u{2514}\u{2518}\u{2500}\u{2502}");
        }
        NcCell::load_box(plane, style, channels, ul, ur, ll, lr, hl, vl, "\u{250C}\u{2510}\u{2514}\u{2518}\u{2500}\u{2502}")
    }

}

/// # Width accessors
impl NcCell {
    /// The number of columns the cell's glyph occupies.
    pub fn cols(&self) -> (r: u8)
        ensures
            r == self.width,
    {
        self.width
    }

    /// Does the cell hold the leading half of a wide glyph?
    pub fn double_wide_p(&self) -> (r: bool)
        ensures
            r == (self.width == 2),
    {
        self.width == 2
    }

    /// Is this the left (data-bearing) half of a wide glyph?
    pub fn wide_left_p(&self) -> (r: bool)
        ensures
            r == (self.width == 2),
    {
        self.width == 2
    }

    /// Is this the right (continuation) half of a wide glyph?
    pub fn wide_right_p(&self) -> (r: bool)
        ensures
            r == is_wide_tail(self.gcluster),
    {
        self.gcluster == WIDE_TAIL
    }
}

} // verus!
