//! The smallest unit of drawable content: one console square holding either a
//! single full-width glyph or two half-width glyphs, in one color.

use vstd::prelude::*;

use crate::char_width::{console_char_width, is_drawable_char, is_full_width, is_half_width};

verus! {

/// One of the eight console colors a unit can be drawn in.
#[derive(Clone, Copy, Debug, PartialEq, Eq, Structural)]
pub enum UnitColor {
    Black,
    Blue,
    Cyan,
    Green,
    Magenta,
    Red,
    White,
    Yellow,
}

/// A failed write to a draw destination.
#[derive(Clone, Copy, Debug, PartialEq, Eq, Structural)]
pub struct DrawError;

/// The smallest drawable unit: it always occupies exactly one console square,
/// either as one full-width glyph or as two half-width glyphs side by side.
#[derive(Clone, Copy, Debug, PartialEq, Eq, Structural)]
pub struct DrawableUnit {
    /// The glyph in the left column of the square.
    pub left: char,
    /// The glyph in the right column of the square, absent when the left
    /// glyph is full-width.
    pub right: Option<char>,
    /// The color the unit is drawn in.
    pub color: UnitColor,
}

/// The unit whose square holds the two half-width glyphs `left` and `right`.
pub open spec fn double_unit(left: char, right: char, color: UnitColor) -> DrawableUnit {
    DrawableUnit { left, right: Some(right), color }
}

/// The unit whose square holds the one full-width glyph `c`.
pub open spec fn full_unit(c: char, color: UnitColor) -> DrawableUnit {
    DrawableUnit { left: c, right: None, color }
}

impl DrawableUnit {
    /// The unit occupies exactly one console square: either one full-width
    /// glyph, or two half-width glyphs.
    pub open spec fn wf(self) -> bool {
        match self.right {
            Some(rc) => is_half_width(self.left) && is_half_width(rc),
            None => is_full_width(self.left),
        }
    }

    /// The characters this unit puts on the console, left to right.
    pub open spec fn rendered(self) -> Seq<char> {
        match self.right {
            Some(rc) => seq![self.left, rc],
            None => seq![self.left],
        }
    }

    /// A unit holding one full-width glyph.
    pub fn from_single_full_char(c: char, color: UnitColor) -> (r: Self)
        requires
            is_full_width(c),
        ensures
            r == full_unit(c, color),
            r.wf(),
    {
        DrawableUnit { left: c, right: None, color }
    }

    /// A unit packing two half-width glyphs into one square.
    pub fn from_double_half_char(left: char, right: char, color: UnitColor) -> (r: Self)
        requires
            is_half_width(left),
            is_half_width(right),
        ensures
            r == double_unit(left, right, color),
            r.wf(),
    {
        DrawableUnit { left, right: Some(right), color }
    }
}

/// The units the left-to-right scan emits from the text `s` when an unpaired
/// half-width character `pending` is still waiting for a partner: a half-width
/// character pairs with the pending one, or becomes pending itself; a
/// full-width character first flushes the pending one padded with a space,
/// then takes a square of its own; at the end a leftover pending character is
/// flushed padded with a space.
pub open spec fn segment_rec(s: Seq<char>, pending: Option<char>, color: UnitColor) -> Seq<
    DrawableUnit,
>
    decreases s.len(),
{
    if s.len() == 0 {
        match pending {
            Some(p) => seq![double_unit(p, ' ', color)],
            None => Seq::empty(),
        }
    } else {
        let c = s[0];
        let rest = s.skip(1);
        if is_half_width(c) {
            match pending {
                Some(p) => seq![double_unit(p, c, color)] + segment_rec(rest, None, color),
                None => segment_rec(rest, Some(c), color),
            }
        } else {
            match pending {
                Some(p) => seq![double_unit(p, ' ', color), full_unit(c, color)] + segment_rec(
                    rest,
                    None,
                    color,
                ),
                None => seq![full_unit(c, color)] + segment_rec(rest, None, color),
            }
        }
    }
}

/// The sequence of square render cells that the text `s` segments into.
pub open spec fn segment(s: Seq<char>, color: UnitColor) -> Seq<DrawableUnit> {
    segment_rec(s, None, color)
}

/// The characters a sequence of units puts on the console, concatenated left
/// to right.
pub open spec fn rendered_all(units: Seq<DrawableUnit>) -> Seq<char>
    decreases units.len(),
{
    if units.len() == 0 {
        Seq::empty()
    } else {
        units[0].rendered() + rendered_all(units.skip(1))
    }
}

/// The text `s` as the segmenter's cells display it when `pending` is still
/// waiting: the input characters in order, with one space after each
/// half-width character that the scan leaves unpaired.
pub open spec fn padded_rec(s: Seq<char>, pending: Option<char>) -> Seq<char>
    decreases s.len(),
{
    if s.len() == 0 {
        match pending {
            Some(p) => seq![p, ' '],
            None => Seq::empty(),
        }
    } else {
        let c = s[0];
        let rest = s.skip(1);
        if is_half_width(c) {
            match pending {
                Some(p) => seq![p, c] + padded_rec(rest, None),
                None => padded_rec(rest, Some(c)),
            }
        } else {
            match pending {
                Some(p) => seq![p, ' ', c] + padded_rec(rest, None),
                None => seq![c] + padded_rec(rest, None),
            }
        }
    }
}

/// The text `s` with one padding space after each half-width character the
/// segmentation scan leaves unpaired.
pub open spec fn padded_text(s: Seq<char>) -> Seq<char> {
    padded_rec(s, None)
}

proof fn lemma_segment_rec_renders(s: Seq<char>, pending: Option<char>, color: UnitColor)
    ensures
        rendered_all(segment_rec(s, pending, color)) == padded_rec(s, pending),
    decreases s.len(),
{
    if s.len() == 0 {
        match pending {
            Some(p) => {
                let u = double_unit(p, ' ', color);
                assert(seq![u].skip(1) =~= Seq::<DrawableUnit>::empty());
                assert(rendered_all(Seq::<DrawableUnit>::empty()) =~= Seq::<char>::empty());
                assert(rendered_all(seq![u]) =~= seq![p, ' ']);
            },
            None => {},
        }
    } else {
        let c = s[0];
        let rest = s.skip(1);
        lemma_segment_rec_renders(rest, None, color);
        lemma_segment_rec_renders(rest, Some(c), color);
        if is_half_width(c) {
            match pending {
                Some(p) => {
                    let u = double_unit(p, c, color);
                    let tail = segment_rec(rest, None, color);
                    assert((seq![u] + tail).skip(1) =~= tail);
                    assert(rendered_all(seq![u] + tail) =~= seq![p, c] + padded_rec(rest, None));
                },
                None => {},
            }
        } else {
            match pending {
                Some(p) => {
                    let u0 = double_unit(p, ' ', color);
                    let u1 = full_unit(c, color);
                    let tail = segment_rec(rest, None, color);
                    assert((seq![u0, u1] + tail).skip(1) =~= seq![u1] + tail);
                    assert((seq![u1] + tail).skip(1) =~= tail);
                    assert(rendered_all(seq![u1] + tail) =~= seq![c] + padded_rec(rest, None));
                    assert(rendered_all(seq![u0, u1] + tail) =~= seq![p, ' ', c] + padded_rec(
                        rest,
                        None,
                    ));
                },
                None => {
                    let u = full_unit(c, color);
                    let tail = segment_rec(rest, None, color);
                    assert((seq![u] + tail).skip(1) =~= tail);
                    assert(rendered_all(seq![u] + tail) =~= seq![c] + padded_rec(rest, None));
                },
            }
        }
    }
}

/// Law: segmenting a text and concatenating what each cell renders gives the
/// input text back, with one padding space after each half-width character
/// that the scan leaves unpaired.
pub proof fn lemma_segment_renders_padded_input(s: Seq<char>, color: UnitColor)
    ensures
        rendered_all(segment(s, color)) == padded_text(s),
{
    lemma_segment_rec_renders(s, None, color);
}

/// Law: a text of full-width characters only renders exactly as itself; no
/// padding appears.
pub proof fn lemma_full_width_text_renders_identically(s: Seq<char>, color: UnitColor)
    requires
        forall|i: int| 0 <= i < s.len() ==> is_full_width(#[trigger] s[i]),
    ensures
        rendered_all(segment(s, color)) == s,
{
    lemma_segment_renders_padded_input(s, color);
    lemma_padded_full_width(s);
}

proof fn lemma_padded_full_width(s: Seq<char>)
    requires
        forall|i: int| 0 <= i < s.len() ==> is_full_width(#[trigger] s[i]),
    ensures
        padded_rec(s, None) == s,
    decreases s.len(),
{
    if s.len() == 0 {
        assert(padded_rec(s, None) =~= s);
    } else {
        let c = s[0];
        assert(is_full_width(c));
        assert(!is_half_width(c));
        lemma_padded_full_width(s.skip(1));
        assert(seq![c] + s.skip(1) =~= s);
    }
}

/// Law: a text of half-width characters only renders as itself when its
/// length is even, and with exactly one trailing padding space when odd.
pub proof fn lemma_half_width_text_renders_with_trailing_pad(s: Seq<char>, color: UnitColor)
    requires
        forall|i: int| 0 <= i < s.len() ==> is_half_width(#[trigger] s[i]),
    ensures
        s.len() % 2 == 0 ==> rendered_all(segment(s, color)) == s,
        s.len() % 2 == 1 ==> rendered_all(segment(s, color)) == s.push(' '),
{
    lemma_segment_renders_padded_input(s, color);
    lemma_padded_half_width(s, None);
}

proof fn lemma_padded_half_width(s: Seq<char>, pending: Option<char>)
    requires
        forall|i: int| 0 <= i < s.len() ==> is_half_width(#[trigger] s[i]),
    ensures
        pending is None && s.len() % 2 == 0 ==> padded_rec(s, pending) == s,
        pending is None && s.len() % 2 == 1 ==> padded_rec(s, pending) == s.push(' '),
        pending matches Some(p) ==> (if s.len() % 2 == 1 {
            padded_rec(s, pending) == seq![p] + s
        } else {
            padded_rec(s, pending) == (seq![p] + s).push(' ')
        }),
    decreases s.len(),
{
    if s.len() == 0 {
        match pending {
            Some(p) => {
                assert(padded_rec(s, pending) =~= (seq![p] + s).push(' '));
            },
            None => {
                assert(padded_rec(s, pending) =~= s);
            },
        }
    } else {
        let c = s[0];
        let rest = s.skip(1);
        assert(is_half_width(c));
        lemma_padded_half_width(rest, None);
        lemma_padded_half_width(rest, Some(c));
        match pending {
            Some(p) => {
                assert(padded_rec(s, pending) == seq![p, c] + padded_rec(rest, None));
                if rest.len() % 2 == 0 {
                    assert(seq![p, c] + rest =~= seq![p] + s);
                } else {
                    assert(seq![p, c] + rest.push(' ') =~= (seq![p] + s).push(' '));
                }
            },
            None => {
                if rest.len() % 2 == 1 {
                    assert(seq![c] + rest =~= s);
                } else {
                    assert(seq![c] + rest.push(' ') =~= s.push(' '));
                }
            },
        }
    }
}

impl DrawableUnit {
    /// Segments a text into square render cells, scanning left to right: two
    /// adjacent half-width characters share one square, a full-width
    /// character takes a square of its own, and a half-width character left
    /// unpaired is padded with one space. Every character must display one or
    /// two columns wide.
    pub fn create_units_from(s: &str, color: UnitColor) -> (units: Vec<DrawableUnit>)
        requires
            forall|i: int| 0 <= i < s@.len() ==> is_drawable_char(#[trigger] s@[i]),
        ensures
            units@ == segment(s@, color),
            forall|k: int| 0 <= k < units@.len() ==> (#[trigger] units@[k]).wf(),
    {
        let n = s.unicode_len();
        let mut units: Vec<DrawableUnit> = Vec::new();
        let mut previous: Option<char> = None;
        let mut i: usize = 0;
        proof {
            assert(s@.skip(0) =~= s@);
            assert(Seq::<DrawableUnit>::empty() + segment(s@, color) =~= segment(s@, color));
        }
        while i < n
            invariant
                n == s@.len(),
                i <= n,
                forall|j: int| 0 <= j < s@.len() ==> is_drawable_char(#[trigger] s@[j]),
                previous matches Some(p) ==> is_half_width(p),
                units@ + segment_rec(s@.skip(i as int), previous, color) == segment(s@, color),
                forall|k: int| 0 <= k < units@.len() ==> (#[trigger] units@[k]).wf(),
            decreases n - i,
        {
            let c = s.get_char(i);
            let width = console_char_width(c);
            proof {
                assert(s@.skip(i as int)[0] == s@[i as int]);
                assert(s@.skip(i as int).skip(1) =~= s@.skip(i as int + 1));
            }
            let ghost before = units@;
            if width == Some(1usize) {
                match previous {
                    Some(p) => {
                        units.push(DrawableUnit::from_double_half_char(p, c, color));
                        previous = None;
                        proof {
                            assert(before.push(double_unit(p, c, color)) + segment_rec(
                                s@.skip(i as int + 1),
                                None,
                                color,
                            ) =~= before + segment_rec(s@.skip(i as int), Some(p), color));
                        }
                    },
                    None => {
                        previous = Some(c);
                    },
                }
            } else {
                match previous {
                    Some(p) => {
                        let pad = padding_space();
                        units.push(DrawableUnit::from_double_half_char(p, pad, color));
                        units.push(DrawableUnit::from_single_full_char(c, color));
                        previous = None;
                        proof {
                            assert(before.push(double_unit(p, ' ', color)).push(
                                full_unit(c, color),
                            ) + segment_rec(s@.skip(i as int + 1), None, color) =~= before
                                + segment_rec(s@.skip(i as int), Some(p), color));
                        }
                    },
                    None => {
                        units.push(DrawableUnit::from_single_full_char(c, color));
                        proof {
                            assert(before.push(full_unit(c, color)) + segment_rec(
                                s@.skip(i as int + 1),
                                None,
                                color,
                            ) =~= before + segment_rec(s@.skip(i as int), None, color));
                        }
                    },
                }
            }
            i += 1;
        }
        proof {
            assert(s@.skip(n as int) =~= Seq::<char>::empty());
        }
        if let Some(p) = previous {
            let ghost before = units@;
            let pad = padding_space();
            units.push(DrawableUnit::from_double_half_char(p, pad, color));
            proof {
                assert(before.push(double_unit(p, ' ', color)) =~= before + segment_rec(
                    s@.skip(n as int),
                    Some(p),
                    color,
                ));
            }
        }
        proof {
            assert(units@ =~= units@ + segment_rec(s@.skip(n as int), None, color));
        }
        units
    }
}

/// Whether every character of `s` displays one or two columns wide on the
/// console, checked character by character.
pub(crate) fn all_chars_drawable(s: &str) -> (r: bool)
    ensures
        r == (forall|i: int| 0 <= i < s@.len() ==> is_drawable_char(#[trigger] s@[i])),
{
    let n = s.unicode_len();
    let mut i: usize = 0;
    while i < n
        invariant
            n == s@.len(),
            i <= n,
            forall|j: int| 0 <= j < i ==> is_drawable_char(#[trigger] s@[j]),
        decreases n - i,
    {
        let c = s.get_char(i);
        let width = console_char_width(c);
        let drawable = match width {
            Some(w) => w == 1 || w == 2,
            None => false,
        };
        if !drawable {
            proof {
                assert(!is_drawable_char(s@[i as int]));
            }
            return false;
        }
        i += 1;
    }
    true
}

impl DrawableUnit {
    /// Segments `text` exactly as `create_units_from` does, after checking
    /// that every character displays one or two columns wide; a text holding
    /// any other character — a control character, say — is rejected as
    /// `None`.
    pub fn try_create_units_from(s: &str, color: UnitColor) -> (r: Option<Vec<DrawableUnit>>)
        ensures
            match r {
                Some(units) => (forall|i: int|
                    0 <= i < s@.len() ==> is_drawable_char(#[trigger] s@[i])) && units@ == segment(
                    s@,
                    color,
                ) && (forall|k: int| 0 <= k < units@.len() ==> (#[trigger] units@[k]).wf()),
                None => exists|i: int| 0 <= i < s@.len() && !is_drawable_char(s@[i]),
            },
    {
        if all_chars_drawable(s) {
            Some(DrawableUnit::create_units_from(s, color))
        } else {
            None
        }
    }
}

/// The space glyph used to pad an unpaired half-width character, established
/// to be half-width itself.
fn padding_space() -> (c: char)
    ensures
        c == ' ',
        is_half_width(c),
{
    let c = ' ';
    let _width = console_char_width(c);
    c
}

/// One element of serialized canvas output: a colored unit, or a line break.
#[derive(Clone, Copy, Debug, PartialEq, Eq, Structural)]
pub enum OutputItem {
    Unit(DrawableUnit),
    Newline,
}

/// A destination that canvas output can be written to, item by item. The
/// destination decides whether each write succeeds; `written` is the sequence
/// of items it has accepted so far.
pub trait DrawDestination: Sized {
    /// The items accepted so far, oldest first.
    spec fn written(&self) -> Seq<OutputItem>;

    /// Accepts one output item, or reports a write failure; on failure
    /// nothing is recorded.
    fn write_item(&mut self, item: &OutputItem) -> (r: Result<(), DrawError>)
        ensures
            r is Ok ==> final (self).written() == old(self).written().push(*item),
            r is Err ==> final (self).written() == old(self).written(),
    ;
}

impl DrawableUnit {
    /// Writes this unit to the destination as a single output item.
    pub fn write_to<D: DrawDestination>(&self, destination: &mut D) -> (r: Result<(), DrawError>)
        ensures
            r is Ok ==> final (destination).written() == old(destination).written().push(
                OutputItem::Unit(*self),
            ),
            r is Err ==> final (destination).written() == old(destination).written(),
    {
        destination.write_item(&OutputItem::Unit(*self))
    }
}

/// A destination that simply records every item; it never fails. Useful for
/// inspecting what a canvas serializes to.
pub struct OutputBuffer {
    items: Vec<OutputItem>,
}

impl OutputBuffer {
    /// The recorded items, oldest first.
    pub closed spec fn items_seq(self) -> Seq<OutputItem> {
        self.items@
    }

    /// An empty buffer.
    pub fn new() -> (r: Self)
        ensures
            r.items_seq() == Seq::<OutputItem>::empty(),
    {
        OutputBuffer { items: Vec::new() }
    }

    /// How many items have been recorded.
    pub fn len(&self) -> (r: usize)
        ensures
            r == self.items_seq().len(),
    {
        self.items.len()
    }

    /// The recorded item at `index`.
    pub fn get(&self, index: usize) -> (r: OutputItem)
        requires
            index < self.items_seq().len(),
        ensures
            r == self.items_seq()[index as int],
    {
        self.items[index]
    }
}

impl DrawDestination for OutputBuffer {
    open spec fn written(&self) -> Seq<OutputItem> {
        self.items_seq()
    }

    fn write_item(&mut self, item: &OutputItem) -> (r: Result<(), DrawError>)
        ensures
            r is Ok,
    {
        self.items.push(*item);
        Ok(())
    }
}

} // verus!
