//! Drawing plans: what a field paints into a terminal buffer, as a list of
//! cell operations that the terminal front end carries out in order.

use vstd::prelude::*;

use crate::text::{concat_str, to_owned_string};

verus! {

/// A rectangle of terminal cells.
#[derive(Clone, Copy, Debug, PartialEq, Eq)]
pub struct Area {
    pub x: u16,
    pub y: u16,
    pub width: u16,
    pub height: u16,
}

impl Area {
    /// The rectangle lies within the coordinate range of the terminal.
    pub open spec fn fits(self) -> bool {
        self.x + self.width <= u16::MAX && self.y + self.height <= u16::MAX
    }
}

/// The style roles of a form's theme.
#[derive(Clone, Copy, Debug, PartialEq, Eq)]
pub enum Paint {
    Label,
    LabelFocused,
    Input,
    InputFocused,
    Placeholder,
    /// The cursor cell: white background, black text, blinking.
    Cursor,
    /// The highlighted option of an open dropdown: blue background, white text.
    Highlighted,
    /// The selected option of an open dropdown: dark gray background, white text.
    Chosen,
    /// The form title.
    Title,
    /// A validation error message.
    Error,
    /// The submit button.
    Button,
    /// The submit button while it has the focus.
    ButtonFocused,
}

/// A style role, possibly shown reversed.
#[derive(Clone, Copy, Debug, PartialEq, Eq)]
pub struct Look {
    pub paint: Paint,
    pub reversed: bool,
}

/// One drawing operation on the buffer.
pub enum DrawOp {
    /// Renders `text` as a one-line paragraph into `width` cells from `(x, y)`.
    Line { x: u16, y: u16, width: u16, text: String, look: Look },
    /// Sets the cell's style, then its character to a space.
    Fill { x: u16, y: u16, look: Look },
    /// Sets the cell's character, then its style.
    Put { x: u16, y: u16, ch: char, look: Look },
    /// Sets the cell's character only.
    Glyph { x: u16, y: u16, ch: char },
    /// Sets the cell's style only.
    Restyle { x: u16, y: u16, look: Look },
}

/// The abstract form of a drawing operation.
pub enum Draw {
    Line { x: int, y: int, width: int, text: Seq<char>, look: Look },
    Fill { x: int, y: int, look: Look },
    Put { x: int, y: int, ch: char, look: Look },
    Glyph { x: int, y: int, ch: char },
    Restyle { x: int, y: int, look: Look },
}

impl View for DrawOp {
    type V = Draw;

    open spec fn view(&self) -> Draw {
        match self {
            DrawOp::Line { x, y, width, text, look } => Draw::Line {
                x: *x as int,
                y: *y as int,
                width: *width as int,
                text: text@,
                look: *look,
            },
            DrawOp::Fill { x, y, look } => Draw::Fill { x: *x as int, y: *y as int, look: *look },
            DrawOp::Put { x, y, ch, look } => Draw::Put { x: *x as int, y: *y as int, ch: *ch, look: *look },
            DrawOp::Glyph { x, y, ch } => Draw::Glyph { x: *x as int, y: *y as int, ch: *ch },
            DrawOp::Restyle { x, y, look } => Draw::Restyle { x: *x as int, y: *y as int, look: *look },
        }
    }
}

/// The abstract form of a plan.
pub open spec fn plan_view(ops: Seq<DrawOp>) -> Seq<Draw> {
    ops.map_values(|o: DrawOp| o@)
}

pub open spec fn plain(paint: Paint) -> Look {
    Look { paint, reversed: false }
}

/// The number of terminal columns that `s` takes, as `unicode-width` counts them.
pub uninterp spec fn display_width(s: Seq<char>) -> usize;

/// `UnicodeWidthStr::width` from `unicode-width`: the displayed width of `s`
/// in columns.
#[verifier::external_body]
pub(crate) fn str_width(s: &str) -> (r: usize)
    ensures
        r == display_width(s@),
{
    unicode_width::UnicodeWidthStr::width(s)
}

/// `Fill` operations over `n` cells from `(x, y)`.
pub open spec fn fill_ops(x: int, y: int, n: int, look: Look) -> Seq<Draw> {
    Seq::new(n as nat, |i: int| Draw::Fill { x: x + i, y, look })
}

/// The character at `i`.
pub open spec fn char_at(t: Seq<char>, i: int) -> char {
    t[i]
}

/// `Put` operations writing the first `n` characters of `text` from `(x, y)`.
pub open spec fn put_ops(x: int, y: int, text: Seq<char>, n: int, look: Look) -> Seq<Draw> {
    Seq::new(n as nat, |i: int| Draw::Put { x: x + i, y, ch: char_at(text, i), look })
}

/// `Glyph` operations writing the first `n` characters of `text` from `(x, y)`.
pub open spec fn glyph_ops(x: int, y: int, text: Seq<char>, n: int) -> Seq<Draw> {
    Seq::new(n as nat, |i: int| Draw::Glyph { x: x + i, y, ch: char_at(text, i) })
}

pub open spec fn min(a: int, b: int) -> int {
    if a < b { a } else { b }
}

/// Appends one operation to a plan.
pub(crate) fn push_op(ops: &mut Vec<DrawOp>, op: DrawOp)
    ensures
        plan_view(final(ops)@) == plan_view(old(ops)@).push(op@),
{
    let ghost o = op@;
    ops.push(op);
    assert(plan_view(ops@) =~= plan_view(old(ops)@).push(o));
}

/// Fills a row with a background style.
pub fn fill_row(ops: &mut Vec<DrawOp>, area: Area, look: Look)
    requires
        area.fits(),
    ensures
        plan_view(final(ops)@) == plan_view(old(ops)@) + fill_ops(area.x as int, area.y as int, area.width as int, look),
{
    let mut i: u16 = 0;
    while i < area.width
        invariant
            area.fits(),
            i <= area.width,
            plan_view(ops@) == plan_view(old(ops)@) + fill_ops(area.x as int, area.y as int, i as int, look),
        decreases area.width - i,
    {
        push_op(ops, DrawOp::Fill { x: area.x + i, y: area.y, look });
        assert(fill_ops(area.x as int, area.y as int, i + 1, look) =~= fill_ops(area.x as int, area.y as int, i as int, look).push(
            Draw::Fill { x: area.x + i, y: area.y as int, look },
        ));
        i = i + 1;
    }
}

/// Appends `Put` operations for the first `count` characters of `text` from `(x, y)`.
pub(crate) fn put_text(ops: &mut Vec<DrawOp>, x: u16, y: u16, text: &str, count: usize, look: Look)
    requires
        count <= text@.len(),
        x + count <= u16::MAX,
    ensures
        plan_view(final(ops)@) == plan_view(old(ops)@) + put_ops(x as int, y as int, text@, count as int, look),
{
    let mut i: usize = 0;
    while i < count
        invariant
            count <= text@.len(),
            x + count <= u16::MAX,
            i <= count,
            plan_view(ops@) == plan_view(old(ops)@) + put_ops(x as int, y as int, text@, i as int, look),
        decreases count - i,
    {
        let c = text.get_char(i);
        push_op(ops, DrawOp::Put { x: x + (i as u16), y, ch: c, look });
        assert(put_ops(x as int, y as int, text@, i + 1, look) =~= put_ops(x as int, y as int, text@, i as int, look).push(
            Draw::Put { x: x + i, y: y as int, ch: c, look },
        ));
        i = i + 1;
    }
}

/// Appends `Glyph` operations for the first `count` characters of `text` from `(x, y)`.
pub(crate) fn glyph_text(ops: &mut Vec<DrawOp>, x: u16, y: u16, text: &str, count: usize)
    requires
        count <= text@.len(),
        x + count <= u16::MAX,
    ensures
        plan_view(final(ops)@) == plan_view(old(ops)@) + glyph_ops(x as int, y as int, text@, count as int),
{
    let mut i: usize = 0;
    while i < count
        invariant
            count <= text@.len(),
            x + count <= u16::MAX,
            i <= count,
            plan_view(ops@) == plan_view(old(ops)@) + glyph_ops(x as int, y as int, text@, i as int),
        decreases count - i,
    {
        let c = text.get_char(i);
        push_op(ops, DrawOp::Glyph { x: x + (i as u16), y, ch: c });
        assert(glyph_ops(x as int, y as int, text@, i + 1) =~= glyph_ops(x as int, y as int, text@, i as int).push(
            Draw::Glyph { x: x + i, y: y as int, ch: c },
        ));
        i = i + 1;
    }
}

/// The text of a field label: the label, `*` when the field is required, and `: `.
pub open spec fn label_text(label: Seq<char>, required: bool) -> Seq<char> {
    label + (if required { "*"@ } else { ""@ }) + ": "@
}

/// The columns the label takes within an area of width `width`.
pub open spec fn label_columns(label: Seq<char>, required: bool, width: int) -> int {
    min(display_width(label_text(label, required)) as int, width)
}

/// The area left for the input once the label is drawn.
pub open spec fn input_area(area: Area, label: Seq<char>, required: bool) -> Area {
    let w = label_columns(label, required, area.width as int);
    Area { x: (area.x + w) as u16, y: area.y, width: (area.width - w) as u16, height: area.height }
}

/// The label's drawing: one line of label text in the label's columns.
pub open spec fn label_draw(area: Area, label: Seq<char>, required: bool, focused: bool) -> Draw {
    Draw::Line {
        x: area.x as int,
        y: area.y as int,
        width: label_columns(label, required, area.width as int),
        text: label_text(label, required),
        look: plain(if focused { Paint::LabelFocused } else { Paint::Label }),
    }
}

/// Draws a field label ("<label>[required]: ") and returns the area left
/// over for the input widget itself.
pub fn render_label(ops: &mut Vec<DrawOp>, area: Area, label: &str, required: bool, focused: bool) -> (r: Area)
    requires
        area.fits(),
    ensures
        plan_view(final(ops)@) == plan_view(old(ops)@).push(label_draw(area, label@, required, focused)),
        r == input_area(area, label@, required),
        r.fits(),
        r.x + r.width == area.x + area.width,
{
    let look = Look { paint: if focused { Paint::LabelFocused } else { Paint::Label }, reversed: false };
    let marker = if required { "*" } else { "" };
    let mut text = concat_str(label, marker);
    text.append(": ");
    let w = str_width(text.as_str());
    let width: u16 = if w < area.width as usize { w as u16 } else { area.width };
    proof {
        assert(text@ == label_text(label@, required));
    }
    push_op(ops, DrawOp::Line { x: area.x, y: area.y, width, text, look });
    Area { x: area.x + width, y: area.y, width: area.width - width, height: area.height }
}

} // verus!

verus! {

/// The text a text field shows: its value, or the placeholder when the value
/// is empty, with the role it is painted in.
pub open spec fn shown_text(value: Seq<char>, placeholder: Option<Seq<char>>) -> (Seq<char>, Paint) {
    if value.len() > 0 {
        (value, Paint::Input)
    } else {
        match placeholder {
            Some(p) => (p, Paint::Placeholder),
            None => (Seq::empty(), Paint::Input),
        }
    }
}

/// Whether character `i` of the value lies in the selection.
pub open spec fn in_selection(selection: Option<(nat, nat)>, i: int) -> bool {
    match selection {
        Some((start, end)) => start <= i < end,
        None => false,
    }
}

/// `Put` operations for the shown text: `n` characters painted in `paint`,
/// reversed where they lie in the selection.
pub open spec fn shown_ops(x: int, y: int, text: Seq<char>, n: int, paint: Paint, selection: Option<(nat, nat)>) -> Seq<
    Draw,
> {
    Seq::new(
        n as nat,
        |i: int| Draw::Put { x: x + i, y, ch: char_at(text, i), look: Look { paint, reversed: in_selection(selection, i) } },
    )
}

/// The cursor mark of a focused text field: the cell after the text before
/// the cursor, when it lies inside the area.
pub open spec fn cursor_ops(area: Area, input: Area, value: Seq<char>, cursor: nat) -> Seq<Draw> {
    let w = display_width(value.take(cursor as int)) as int;
    if w < 65536 && input.x + w < area.x + area.width {
        seq![Draw::Restyle { x: input.x + w, y: area.y as int, look: plain(Paint::Cursor) }]
    } else {
        Seq::empty()
    }
}

/// What a text field draws: its label; then, when room is left, the input
/// background, the shown text (as much as fits) and, when focused, the cursor.
/// The selection only shows while the value is not empty.
pub open spec fn text_field_plan(
    area: Area,
    label: Seq<char>,
    required: bool,
    focused: bool,
    value: Seq<char>,
    cursor: nat,
    selection: Option<(nat, nat)>,
    placeholder: Option<Seq<char>>,
) -> Seq<Draw> {
    if area.height < 1 || area.width < 1 {
        Seq::empty()
    } else {
        let input = input_area(area, label, required);
        let head = seq![label_draw(area, label, required, focused)];
        if input.width == 0 {
            head
        } else {
            let (shown, paint) = shown_text(value, placeholder);
            let bg = plain(if focused { Paint::InputFocused } else { Paint::Input });
            let n = min(shown.len() as int, input.width as int);
            let sel = if value.len() > 0 { selection } else { None };
            head + fill_ops(input.x as int, input.y as int, input.width as int, bg) + shown_ops(
                input.x as int,
                input.y as int,
                shown,
                n,
                paint,
                sel,
            ) + if focused { cursor_ops(area, input, value, cursor) } else { Seq::empty() }
        }
    }
}

/// A text field with a value draws the value's own characters, painted as
/// input, into the cells of its input area after the background, as many as
/// fit; the placeholder shows only in an empty field, painted as placeholder.
pub proof fn lemma_text_field_shows_value(
    area: Area,
    label: Seq<char>,
    required: bool,
    focused: bool,
    value: Seq<char>,
    cursor: nat,
    selection: Option<(nat, nat)>,
    placeholder: Option<Seq<char>>,
)
    requires
        area.height >= 1,
        area.width >= 1,
        input_area(area, label, required).width > 0,
    ensures
        ({
            let input = input_area(area, label, required);
            let plan = text_field_plan(area, label, required, focused, value, cursor, selection, placeholder);
            let drawn = min(
                (if value.len() > 0 {
                    value.len() as int
                } else {
                    match placeholder {
                        Some(p) => p.len() as int,
                        None => 0,
                    }
                }),
                input.width as int,
            );
            &&& plan.len() >= 1 + input.width + drawn
            &&& value.len() > 0 ==> forall|i: int|
                0 <= i < drawn ==> plan[1 + input.width + i] == Draw::Put {
                    x: input.x + i,
                    y: input.y as int,
                    ch: value[i],
                    look: Look { paint: Paint::Input, reversed: in_selection(selection, i) },
                }
            &&& value.len() == 0 ==> forall|i: int|
                0 <= i < drawn ==> plan[1 + input.width + i] == Draw::Put {
                    x: input.x + i,
                    y: input.y as int,
                    ch: placeholder->0[i],
                    look: Look { paint: Paint::Placeholder, reversed: false },
                }
        }),
{
}

/// A focused text field marks the cursor in the cell after the text before
/// the cursor, as its last drawing, when that cell lies in the area; an
/// unfocused one marks no cursor.
pub proof fn lemma_cursor_mark_follows_text_before_it(
    area: Area,
    label: Seq<char>,
    required: bool,
    focused: bool,
    value: Seq<char>,
    cursor: nat,
    selection: Option<(nat, nat)>,
    placeholder: Option<Seq<char>>,
)
    requires
        area.height >= 1,
        area.width >= 1,
        input_area(area, label, required).width > 0,
    ensures
        ({
            let input = input_area(area, label, required);
            let plan = text_field_plan(area, label, required, focused, value, cursor, selection, placeholder);
            let w = display_width(value.take(cursor as int)) as int;
            &&& focused && w < 65536 && input.x + w < area.x + area.width ==> plan.last() == Draw::Restyle {
                x: input.x + w,
                y: area.y as int,
                look: plain(Paint::Cursor),
            }
            &&& !focused ==> forall|i: int| 0 <= i < plan.len() ==> !(#[trigger] plan[i] is Restyle)
        }),
{
}

fn selection_contains(selection: Option<(usize, usize)>, i: usize) -> (r: bool)
    ensures
        r == in_selection(
            match selection {
                Some((s, e)) => Some((s as nat, e as nat)),
                None => None,
            },
            i as int,
        ),
{
    match selection {
        Some((start, end)) => start <= i && i < end,
        None => false,
    }
}

fn put_shown(ops: &mut Vec<DrawOp>, input: Area, shown: &str, n: usize, paint: Paint, sel: Option<(usize, usize)>)
    requires
        input.fits(),
        n <= shown@.len(),
        n <= input.width,
    ensures
        plan_view(final(ops)@) == plan_view(old(ops)@) + shown_ops(
            input.x as int,
            input.y as int,
            shown@,
            n as int,
            paint,
            match sel {
                Some((s, e)) => Some((s as nat, e as nat)),
                None => None,
            },
        ),
{
    let ghost sel_view = match sel {
        Some((s, e)) => Some((s as nat, e as nat)),
        None => None,
    };
    let mut i: usize = 0;
    while i < n
        invariant
            input.fits(),
            n <= shown@.len(),
            n <= input.width,
            i <= n,
            sel_view == (match sel {
                Some((s, e)) => Some((s as nat, e as nat)),
                None => None,
            }),
            plan_view(ops@) == plan_view(old(ops)@) + shown_ops(input.x as int, input.y as int, shown@, i as int, paint, sel_view),
        decreases n - i,
    {
        let c = shown.get_char(i);
        let selected = selection_contains(sel, i);
        assert(char_at(shown@, i as int) == c);
        push_op(ops, DrawOp::Put { x: input.x + (i as u16), y: input.y, ch: c, look: Look { paint, reversed: selected } });
        assert(shown_ops(input.x as int, input.y as int, shown@, i + 1, paint, sel_view) =~= shown_ops(
            input.x as int,
            input.y as int,
            shown@,
            i as int,
            paint,
            sel_view,
        ).push(Draw::Put { x: input.x + i, y: input.y as int, ch: c, look: Look { paint, reversed: selected } }));
        i = i + 1;
    }
}

fn put_cursor(ops: &mut Vec<DrawOp>, area: Area, input: Area, value: &str, cursor: usize)
    requires
        area.fits(),
        input.fits(),
        input.y == area.y,
        input.x + input.width == area.x + area.width,
        cursor <= value@.len(),
    ensures
        plan_view(final(ops)@) == plan_view(old(ops)@) + cursor_ops(area, input, value@, cursor as nat),
{
    let before = value.substring_char(0, cursor);
    let w = str_width(before);
    assert(value@.subrange(0, cursor as int) =~= value@.take(cursor as int));
    let right: usize = area.x as usize + area.width as usize;
    if w < 65536 && (input.x as usize) + w < right {
        push_op(ops, DrawOp::Restyle { x: input.x + (w as u16), y: area.y, look: Look { paint: Paint::Cursor, reversed: false } });
    } else {
        assert(plan_view(ops@) + Seq::<Draw>::empty() =~= plan_view(ops@));
    }
}

/// The shown text of a field, with its paint.
fn shown_of<'a>(value: &'a str, placeholder: Option<&'a str>) -> (r: (&'a str, Paint))
    ensures
        (r.0@, r.1) == shown_text(
            value@,
            match placeholder {
                Some(p) => Some(p@),
                None => None,
            },
        ),
{
    if value.unicode_len() > 0 {
        (value, Paint::Input)
    } else {
        match placeholder {
            Some(p) => (p, Paint::Placeholder),
            None => {
                proof {
                    reveal_strlit("");
                    assert(""@ =~= Seq::<char>::empty());
                }
                ("", Paint::Input)
            },
        }
    }
}

/// Draws a text field.
pub(crate) fn render_text_field(
    area: Area,
    label: &str,
    required: bool,
    focused: bool,
    value: &str,
    cursor: usize,
    selection: Option<(usize, usize)>,
    placeholder: Option<&str>,
) -> (r: Vec<DrawOp>)
    requires
        area.fits(),
        cursor <= value@.len(),
    ensures
        plan_view(r@) == text_field_plan(
            area,
            label@,
            required,
            focused,
            value@,
            cursor as nat,
            match selection {
                Some((s, e)) => Some((s as nat, e as nat)),
                None => None,
            },
            match placeholder {
                Some(p) => Some(p@),
                None => None,
            },
        ),
{
    let mut ops: Vec<DrawOp> = Vec::new();
    assert(plan_view(ops@) =~= Seq::empty());
    if area.height < 1 || area.width < 1 {
        return ops;
    }
    // Render label and compute the input area
    let input = render_label(&mut ops, area, label, required, focused);
    if input.width == 0 {
        assert(plan_view(ops@) =~= seq![label_draw(area, label@, required, focused)]);
        return ops;
    }
    let ghost p0 = plan_view(ops@);
    // Determine what to display
    let (shown, paint) = shown_of(value, placeholder);
    // Fill input area with background
    let bg = Look { paint: if focused { Paint::InputFocused } else { Paint::Input }, reversed: false };
    fill_row(&mut ops, input, bg);
    let ghost p1 = plan_view(ops@);
    // Render the text
    let n_shown = shown.unicode_len();
    let n: usize = if n_shown < input.width as usize { n_shown } else { input.width as usize };
    let sel = if value.unicode_len() > 0 { selection } else { None };
    put_shown(&mut ops, input, shown, n, paint, sel);
    let ghost p2 = plan_view(ops@);
    // Render cursor if focused
    if focused {
        put_cursor(&mut ops, area, input, value, cursor);
    }
    let ghost p3 = plan_view(ops@);
    let ghost tail = if focused { cursor_ops(area, input, value@, cursor as nat) } else { Seq::empty() };
    assert(p3 =~= p2 + tail);
    assert(p3 =~= p0 + fill_ops(input.x as int, input.y as int, input.width as int, bg) + shown_ops(
        input.x as int,
        input.y as int,
        shown@,
        n as int,
        paint,
        match sel {
            Some((s, e)) => Some((s as nat, e as nat)),
            None => None,
        },
    ) + tail);
    ops
}

} // verus!
