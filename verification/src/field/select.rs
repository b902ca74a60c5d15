//! Select/dropdown field.

use vstd::prelude::*;

use crate::field::{Field, required_error, required_message, strings_view};
use crate::key::{KeyCode, KeyPress};
use crate::render::{Area, Draw, DrawOp, Look, Paint, fill_ops, fill_row, glyph_ops, glyph_text, input_area, label_draw,
    min, plain, plan_view, push_op, render_label};
use crate::text::{str_eq, to_owned_string};

verus! {

/// What a select holds.
pub struct SelectState {
    pub label: Seq<char>,
    /// `(value, display)` of each option, in order.
    pub options: Seq<(Seq<char>, Seq<char>)>,
    pub selected: Option<nat>,
    pub open: bool,
    pub highlighted: nat,
    pub required: bool,
}

/// The index of the first option whose value is `v`.
pub open spec fn find_option(options: Seq<(Seq<char>, Seq<char>)>, v: Seq<char>) -> Option<nat>
    decreases options.len(),
{
    if options.len() == 0 {
        None
    } else if options[0].0 == v {
        Some(0)
    } else {
        match find_option(options.drop_first(), v) {
            Some(i) => Some(i + 1),
            None => None,
        }
    }
}

impl SelectState {
    pub open spec fn wf(self) -> bool {
        &&& (self.selected matches Some(i) ==> i < self.options.len())
        &&& (self.highlighted == 0 || self.highlighted < self.options.len())
    }

    pub open spec fn toggled(self) -> SelectState {
        if !self.open {
            SelectState {
                open: true,
                highlighted: match self.selected {
                    Some(i) => i,
                    None => self.highlighted,
                },
                ..self
            }
        } else {
            SelectState { open: false, ..self }
        }
    }

    pub open spec fn chose_highlighted(self) -> SelectState {
        SelectState {
            selected: if self.options.len() > 0 { Some(self.highlighted) } else { self.selected },
            open: false,
            ..self
        }
    }

    pub open spec fn highlight_up(self) -> SelectState {
        if self.highlighted > 0 {
            SelectState { highlighted: (self.highlighted - 1) as nat, ..self }
        } else {
            self
        }
    }

    pub open spec fn highlight_down(self) -> SelectState {
        if self.highlighted + 1 < self.options.len() {
            SelectState { highlighted: self.highlighted + 1, ..self }
        } else {
            self
        }
    }

    /// What a key press does to the select, and whether the key was consumed.
    /// Enter and Space open a closed select and choose in an open one; Esc,
    /// Up and Down act only while it is open, so a closed select leaves them
    /// to the form.
    pub open spec fn key(self, key: KeyPress) -> (SelectState, bool) {
        if key.code is Enter || key.code == KeyCode::Char(' ') {
            (if self.open { self.chose_highlighted() } else { self.toggled() }, true)
        } else if key.code is Esc && self.open {
            (SelectState { open: false, ..self }, true)
        } else if key.code is Up && self.open {
            (self.highlight_up(), true)
        } else if key.code is Down && self.open {
            (self.highlight_down(), true)
        } else {
            (self, false)
        }
    }

    /// The value of the selected option, or nothing.
    pub open spec fn value(self) -> Seq<char> {
        match self.selected {
            Some(i) => if i < self.options.len() { self.options[i as int].0 } else { Seq::empty() },
            None => Seq::empty(),
        }
    }
}

/// The text shown for the selection: the selected option's display text, or
/// `-- Select --`.
pub open spec fn shown_choice(st: SelectState) -> Seq<char> {
    match st.selected {
        Some(i) => if i < st.options.len() { st.options[i as int].1 } else { "-- Select --"@ },
        None => "-- Select --"@,
    }
}

/// The dropdown arrow: up while open, down while closed.
pub open spec fn arrow_text(open: bool) -> Seq<char> {
    if open {
        seq![' ', '▲']
    } else {
        seq![' ', '▼']
    }
}

/// How an option row of the open dropdown is painted.
pub open spec fn option_paint(st: SelectState, i: int) -> Paint {
    if i == st.highlighted {
        Paint::Highlighted
    } else if st.selected == Some(i as nat) {
        Paint::Chosen
    } else {
        Paint::Input
    }
}

/// The mark in front of an option: a dot for the selected one.
pub open spec fn option_mark(st: SelectState, i: int) -> Seq<char> {
    if st.selected == Some(i as nat) {
        seq!['●', ' ']
    } else {
        seq![' ', ' ']
    }
}

/// The columns left for option text after the mark.
pub open spec fn option_columns(input: Area) -> int {
    if input.width >= 2 { input.width - 2 } else { 0 }
}

/// The drawing of option row `i`: its background across the input columns,
/// its mark, and as much of its display text as fits after the mark.
pub open spec fn option_row(st: SelectState, input: Area, i: int) -> Seq<Draw> {
    let y = input.y + 1 + i;
    let text = st.options[i].1;
    fill_ops(input.x as int, y, input.width as int, plain(option_paint(st, i))) + glyph_ops(
        input.x as int,
        y,
        option_mark(st, i),
        2,
    ) + glyph_ops(input.x + 2, y, text, min(text.len() as int, option_columns(input)))
}

/// The drawing of the first `m` option rows.
pub open spec fn option_rows(st: SelectState, input: Area, m: int) -> Seq<Draw>
    decreases m,
{
    if m <= 0 {
        Seq::empty()
    } else {
        option_rows(st, input, m - 1) + option_row(st, input, m - 1)
    }
}

/// The number of option rows an open dropdown shows in an area of `height` rows.
pub open spec fn dropdown_rows(st: SelectState, height: int) -> int {
    min(height - 1, (st.options.len() as u16) as int)
}

/// What a select draws: its label; then, when room is left, the input
/// background, the shown choice (leaving two columns), the arrow in the last
/// two columns, and, while open with rows to spare, one row per option.
pub open spec fn select_plan(st: SelectState, area: Area, focused: bool) -> Seq<Draw> {
    if area.height < 1 || area.width < 1 {
        Seq::empty()
    } else {
        let input = input_area(area, st.label, st.required);
        let head = seq![label_draw(area, st.label, st.required, focused)];
        if input.width == 0 {
            head
        } else {
            let shown = shown_choice(st);
            let look = plain(if focused { Paint::InputFocused } else { Paint::Input });
            let n = min(shown.len() as int, option_columns(input));
            let right = input.x + input.width;
            let arrow_x = if right >= 2 { right - 2 } else { 0 };
            head + fill_ops(input.x as int, input.y as int, input.width as int, look) + glyph_ops(
                input.x as int,
                input.y as int,
                shown,
                n,
            ) + glyph_ops(arrow_x, input.y as int, arrow_text(st.open), 2) + if st.open && area.height > 1 {
                option_rows(st, input, dropdown_rows(st, area.height as int))
            } else {
                Seq::empty()
            }
        }
    }
}

pub open spec fn options_view(v: Seq<(String, String)>) -> Seq<(Seq<char>, Seq<char>)> {
    v.map_values(|p: (String, String)| (p.0@, p.1@))
}

/// A select/dropdown field.
pub struct Select {
    label: String,
    options: Vec<(String, String)>,  // (value, display)
    selected_index: Option<usize>,
    is_open: bool,
    highlighted_index: usize,
    required: bool,
}

impl View for Select {
    type V = SelectState;

    closed spec fn view(&self) -> SelectState {
        SelectState {
            label: self.label@,
            options: options_view(self.options@),
            selected: match self.selected_index {
                Some(i) => Some(i as nat),
                None => None,
            },
            open: self.is_open,
            highlighted: self.highlighted_index as nat,
            required: self.required,
        }
    }
}

impl Select {
    #[verifier::type_invariant]
    spec fn inv(self) -> bool {
        &&& (self.selected_index matches Some(i) ==> i < self.options@.len())
        &&& (self.highlighted_index == 0 || self.highlighted_index < self.options@.len())
    }

    /// Creates a new select field.
    pub fn new(label: &str) -> (r: Self)
        ensures
            r@ == (SelectState {
                label: label@,
                options: Seq::empty(),
                selected: None,
                open: false,
                highlighted: 0,
                required: false,
            }),
    {
        let options: Vec<(String, String)> = Vec::new();
        assert(options_view(options@) =~= Seq::empty());
        Self {
            label: to_owned_string(label),
            options,
            selected_index: None,
            is_open: false,
            highlighted_index: 0,
            required: false,
        }
    }

    /// Adds an option to the select.
    pub fn option(self, value: &str, display: &str) -> (r: Self)
        ensures
            r@ == (SelectState { options: self@.options.push((value@, display@)), ..self@ }),
    {
        proof {
            use_type_invariant(&self);
        }
        let Select { label, options, selected_index, is_open, highlighted_index, required } = self;
        let mut options = options;
        options.push((to_owned_string(value), to_owned_string(display)));
        assert(options_view(options@) =~= options_view(self.options@).push((value@, display@)));
        Select { label, options, selected_index, is_open, highlighted_index, required }
    }

    /// Adds multiple options at once.
    pub fn options(self, options: Vec<(&str, &str)>) -> (r: Self)
        ensures
            r@ == (SelectState {
                options: self@.options + options@.map_values(|p: (&str, &str)| (p.0@, p.1@)),
                ..self@
            }),
    {
        let mut s = self;
        proof {
            use_type_invariant(&s);
        }
        let mut i: usize = 0;
        while i < options.len()
            invariant
                i <= options@.len(),
                s@ == (SelectState {
                    options: self@.options + options@.take(i as int).map_values(|p: (&str, &str)| (p.0@, p.1@)),
                    ..self@
                }),
            decreases options@.len() - i,
        {
            let (value, display) = options[i];
            s = s.option(value, display);
            assert(options@.take(i + 1).map_values(|p: (&str, &str)| (p.0@, p.1@))
                =~= options@.take(i as int).map_values(|p: (&str, &str)| (p.0@, p.1@)).push((value@, display@)));
            i = i + 1;
        }
        assert(options@.take(options@.len() as int) =~= options@);
        s
    }

    /// Marks this field as required.
    pub fn required(self) -> (r: Self)
        ensures
            r@ == (SelectState { required: true, ..self@ }),
    {
        let mut s = self;
        proof {
            use_type_invariant(&s);
        }
        s.required = true;
        s
    }

    /// Sets the initial selected value: the first option with that value is
    /// selected and highlighted; with no such option nothing changes.
    pub fn initial_value(self, value: &str) -> (r: Self)
        ensures
            r@ == (match find_option(self@.options, value@) {
                Some(i) => SelectState { selected: Some(i), highlighted: i, ..self@ },
                None => self@,
            }),
    {
        let mut s = self;
        proof {
            use_type_invariant(&s);
        }
        let ghost opts = options_view(s.options@);
        let mut i: usize = 0;
        while i < s.options.len()
            invariant
                i <= s.options@.len(),
                s@ == self@,
                opts == self@.options,
                opts == options_view(s.options@),
                forall|j: int| 0 <= j < i ==> opts[j].0 != value@,
            decreases s.options@.len() - i,
        {
            if str_eq(s.options[i].0.as_str(), value) {
                proof {
                    lemma_find_option_first(opts, value@, i as int);
                    use_type_invariant(&s);
                }
                s.selected_index = Some(i);
                s.highlighted_index = i;
                return s;
            }
            i = i + 1;
        }
        proof {
            lemma_find_option_none(opts, value@);
        }
        s
    }

    /// The value of the selected option, or nothing.
    pub fn value(&self) -> (r: &str)
        ensures
            r@ == self@.value(),
            self@.wf(),
    {
        proof {
            use_type_invariant(self);
        }
        match self.selected_index {
            Some(i) => {
                assert(i < self.options@.len());
                assert(options_view(self.options@).len() == self.options@.len());
                assert(options_view(self.options@)[i as int] == (self.options@[i as int].0@, self.options@[i as int].1@));
                let r = self.options[i].0.as_str();
                assert(r@ == self@.value());
                r
            },
            None => {
                proof {
                    reveal_strlit("");
                }
                ""
            },
        }
    }

    fn toggle_open(&mut self)
        ensures
            final(self)@ == old(self)@.toggled(),
    {
        proof {
            use_type_invariant(&*self);
        }
        self.is_open = !self.is_open;
        if self.is_open {
            if let Some(idx) = self.selected_index {
                self.highlighted_index = idx;
            }
        }
    }

    fn select_highlighted(&mut self)
        ensures
            final(self)@ == old(self)@.chose_highlighted(),
    {
        proof {
            use_type_invariant(&*self);
        }
        if self.options.len() > 0 {
            self.selected_index = Some(self.highlighted_index);
        }
        self.is_open = false;
    }

    fn move_highlight_up(&mut self)
        ensures
            final(self)@ == old(self)@.highlight_up(),
    {
        proof {
            use_type_invariant(&*self);
        }
        if self.highlighted_index > 0 {
            self.highlighted_index = self.highlighted_index - 1;
        }
    }

    fn move_highlight_down(&mut self)
        ensures
            final(self)@ == old(self)@.highlight_down(),
    {
        proof {
            use_type_invariant(&*self);
        }
        if self.highlighted_index < self.options.len().saturating_sub(1) {
            self.highlighted_index = self.highlighted_index + 1;
        }
    }

    pub(crate) fn handle_key(&mut self, event: &KeyPress) -> (r: bool)
        ensures
            (final(self)@, r) == old(self)@.key(*event),
    {
        proof {
            use_type_invariant(&*self);
        }
        let space = match event.code {
            KeyCode::Char(c) => c == ' ',
            _ => false,
        };
        let enter = match event.code {
            KeyCode::Enter => true,
            _ => false,
        };
        if enter || space {
            if self.is_open {
                self.select_highlighted();
            } else {
                self.toggle_open();
            }
            return true;
        }
        match event.code {
            KeyCode::Esc => {
                if self.is_open {
                    self.is_open = false;
                    true
                } else {
                    false
                }
            },
            KeyCode::Up => {
                if self.is_open {
                    self.move_highlight_up();
                    true
                } else {
                    false
                }
            },
            KeyCode::Down => {
                if self.is_open {
                    self.move_highlight_down();
                    true
                } else {
                    false
                }
            },
            _ => false,
        }
    }

    fn draw_option_row(&self, ops: &mut Vec<DrawOp>, input: Area, i: usize)
        requires
            input.fits(),
            input.width >= 1,
            i < self@.options.len(),
            input.y + 1 + i < u16::MAX,
        ensures
            plan_view(final(ops)@) == plan_view(old(ops)@) + option_row(self@, input, i as int),
    {
        proof {
            use_type_invariant(self);
        }
        let y = input.y + 1 + (i as u16);
        let highlighted = i == self.highlighted_index;
        let selected = match self.selected_index {
            Some(s) => s == i,
            None => false,
        };
        let paint = if highlighted {
            Paint::Highlighted
        } else if selected {
            Paint::Chosen
        } else {
            Paint::Input
        };
        let ghost st = self@;
        assert(paint == option_paint(st, i as int));
        let ghost p0 = plan_view(ops@);
        // Fill option row with background
        fill_row(ops, Area { x: input.x, y, width: input.width, height: 1 }, Look { paint, reversed: false });
        let ghost p1 = plan_view(ops@);
        // Render option text
        let prefix = if selected { "● " } else { "  " };
        proof {
            reveal_strlit("● ");
            reveal_strlit("  ");
            assert(prefix@ =~= option_mark(st, i as int));
        }
        let ghost p2_expected = p1 + glyph_ops(input.x as int, y as int, prefix@, 2);
        push_op(ops, DrawOp::Glyph { x: input.x, y, ch: prefix.get_char(0) });
        push_op(ops, DrawOp::Glyph { x: input.x + 1, y, ch: prefix.get_char(1) });
        assert(plan_view(ops@) =~= p2_expected);
        let ghost p2 = plan_view(ops@);
        let display = self.options[i].1.as_str();
        assert(options_view(self.options@)[i as int] == (self.options@[i as int].0@, self.options@[i as int].1@));
        let n_display = display.unicode_len();
        let columns: usize = if input.width >= 2 { (input.width - 2) as usize } else { 0 };
        let n: usize = if n_display < columns { n_display } else { columns };
        if n > 0 {
            glyph_text(ops, input.x + 2, y, display, n);
        }
        assert(plan_view(ops@) =~= p0 + option_row(st, input, i as int));
    }

    /// What the select draws into `area`.
    pub(crate) fn plan(&self, area: Area, focused: bool) -> (r: Vec<DrawOp>)
        requires
            area.fits(),
        ensures
            plan_view(r@) == select_plan(self@, area, focused),
    {
        proof {
            use_type_invariant(self);
        }
        let mut ops: Vec<DrawOp> = Vec::new();
        assert(plan_view(ops@) =~= Seq::empty());
        if area.height < 1 || area.width < 1 {
            return ops;
        }
        let input = render_label(&mut ops, area, self.label.as_str(), self.required, focused);
        if input.width == 0 {
            assert(plan_view(ops@) =~= seq![label_draw(area, self@.label, self@.required, focused)]);
            return ops;
        }
        let ghost p0 = plan_view(ops@);
        // Get selected display text
        let shown: &str = match self.selected_index {
            Some(i) => {
                assert(options_view(self.options@)[i as int] == (self.options@[i as int].0@, self.options@[i as int].1@));
                self.options[i].1.as_str()
            },
            None => "-- Select --",
        };
        assert(shown@ == shown_choice(self@));
        let look = Look { paint: if focused { Paint::InputFocused } else { Paint::Input }, reversed: false };
        // Fill input area with background
        fill_row(&mut ops, input, look);
        // Render selected text
        let n_shown = shown.unicode_len();
        let columns: usize = if input.width >= 2 { (input.width - 2) as usize } else { 0 };
        let n: usize = if n_shown < columns { n_shown } else { columns };
        glyph_text(&mut ops, input.x, input.y, shown, n);
        // Render arrow
        let arrow = if self.is_open { " ▲" } else { " ▼" };
        proof {
            reveal_strlit(" ▲");
            reveal_strlit(" ▼");
            assert(arrow@ =~= arrow_text(self@.open));
        }
        let arrow_x = (input.x + input.width).saturating_sub(2);
        glyph_text(&mut ops, arrow_x, input.y, arrow, 2);
        let ghost p1 = plan_view(ops@);
        // Render dropdown if open
        if self.is_open && area.height > 1 {
            #[verifier::truncate]
            let count = self.options.len() as u16;
            let rows: u16 = if area.height - 1 < count { area.height - 1 } else { count };
            let mut i: u16 = 0;
            assert(p1 + option_rows(self@, input, 0) =~= p1);
            while i < rows
                invariant
                    area.fits(),
                    input.fits(),
                    input.width >= 1,
                    input.y == area.y,
                    rows <= area.height - 1,
                    rows <= self@.options.len(),
                    i <= rows,
                    plan_view(ops@) == p1 + option_rows(self@, input, i as int),
                decreases rows - i,
            {
                self.draw_option_row(&mut ops, input, i as usize);
                i = i + 1;
            }
        }
        ops
    }

    pub(crate) fn check(&self) -> (r: Result<(), Vec<String>>)
        ensures
            r is Ok <==> !(self@.required && self@.selected is None),
            r matches Err(v) ==> strings_view(v@) == seq![required_message(self@.label)],
    {
        if self.required && self.selected_index.is_none() {
            let mut v: Vec<String> = Vec::new();
            v.push(required_error(self.label.as_str()));
            assert(strings_view(v@) =~= seq![required_message(self@.label)]);
            Err(v)
        } else {
            Ok(())
        }
    }

    pub(crate) fn text_value(&self) -> (r: String)
        ensures
            r@ == self@.value(),
    {
        to_owned_string(self.value())
    }

    pub(crate) fn rows(&self) -> (r: u16)
        ensures
            r == (if self@.open {
                1 + (if self@.options.len() < 10 { self@.options.len() } else { 10 })
            } else {
                1
            }),
            self@.wf(),
    {
        proof {
            use_type_invariant(self);
        }
        if self.is_open {
            let n = self.options.len();
            1 + (if n < 10 { n as u16 } else { 10 })
        } else {
            1
        }
    }
}

proof fn lemma_find_option_first(opts: Seq<(Seq<char>, Seq<char>)>, v: Seq<char>, i: int)
    requires
        0 <= i < opts.len(),
        opts[i].0 == v,
        forall|j: int| 0 <= j < i ==> opts[j].0 != v,
    ensures
        find_option(opts, v) == Some(i as nat),
    decreases i,
{
    if i > 0 {
        let rest = opts.drop_first();
        assert forall|j: int| 0 <= j < i - 1 implies rest[j].0 != v by {
            assert(rest[j] == opts[j + 1]);
        }
        lemma_find_option_first(rest, v, i - 1);
    }
}

proof fn lemma_find_option_none(opts: Seq<(Seq<char>, Seq<char>)>, v: Seq<char>)
    requires
        forall|j: int| 0 <= j < opts.len() ==> opts[j].0 != v,
    ensures
        find_option(opts, v) is None,
    decreases opts.len(),
{
    if opts.len() > 0 {
        let rest = opts.drop_first();
        assert forall|j: int| 0 <= j < rest.len() implies rest[j].0 != v by {
            assert(rest[j] == opts[j + 1]);
        }
        lemma_find_option_none(rest, v);
    }
}

/// A found option lies within the list and carries the value looked for.
pub proof fn lemma_find_option_found(opts: Seq<(Seq<char>, Seq<char>)>, v: Seq<char>)
    ensures
        find_option(opts, v) matches Some(i) ==> i < opts.len() && opts[i as int].0 == v,
    decreases opts.len(),
{
    if opts.len() > 0 {
        lemma_find_option_found(opts.drop_first(), v);
    }
}

/// Every key keeps the selection and the highlight on existing options.
pub proof fn lemma_key_keeps_select_wf(s: SelectState, key: KeyPress)
    requires
        s.wf(),
    ensures
        s.key(key).0.wf(),
        s.key(key).0.options == s.options,
{
}

/// Up and Down on an open select move the highlight by exactly one option,
/// and only within the list; nothing else changes.
pub proof fn lemma_arrows_move_highlight_by_one(s: SelectState, key: KeyPress)
    requires
        s.open,
        key.code is Up || key.code is Down,
    ensures
        s.key(key).1,
        s.key(key).0 == (SelectState { highlighted: s.key(key).0.highlighted, ..s }),
        key.code is Down && s.highlighted + 1 < s.options.len() ==> s.key(key).0.highlighted == s.highlighted + 1,
        key.code is Down && s.highlighted + 1 >= s.options.len() ==> s.key(key).0.highlighted == s.highlighted,
        key.code is Up && s.highlighted > 0 ==> s.key(key).0.highlighted + 1 == s.highlighted,
        key.code is Up && s.highlighted == 0 ==> s.key(key).0.highlighted == 0,
{
}

/// Esc on an open select closes the list and keeps the selection and the
/// highlight.
pub proof fn lemma_escape_closes_list(s: SelectState, key: KeyPress)
    requires
        s.open,
        key.code is Esc,
    ensures
        s.key(key).1,
        s.key(key).0 == (SelectState { open: false, ..s }),
        s.key(key).0.value() == s.value(),
{
}

/// Enter or Space on an open select chooses the highlighted option, whose
/// value becomes the select's value, and closes the list.
pub proof fn lemma_enter_chooses_highlighted(s: SelectState, key: KeyPress)
    requires
        s.wf(),
        s.open,
        s.options.len() > 0,
        key.code is Enter || key.code == KeyCode::Char(' '),
    ensures
        s.key(key).1,
        s.key(key).0.selected == Some(s.highlighted),
        s.key(key).0.value() == s.options[s.highlighted as int].0,
        !s.key(key).0.open,
        s.key(key).0.options == s.options,
{
}

/// Enter or Space on a closed select opens the list on the selected option,
/// or where the highlight was when nothing is selected; the value stays.
pub proof fn lemma_opening_highlights_selection(s: SelectState, key: KeyPress)
    requires
        !s.open,
        key.code is Enter || key.code == KeyCode::Char(' '),
    ensures
        s.key(key).1,
        s.key(key).0.open,
        s.key(key).0.selected == s.selected,
        s.key(key).0.value() == s.value(),
        s.key(key).0.highlighted == (match s.selected {
            Some(i) => i,
            None => s.highlighted,
        }),
{
}

/// A closed select does not take Esc, Up or Down and stays as it is, so the
/// form can cancel or move the focus.
pub proof fn lemma_closed_select_leaves_navigation_keys(s: SelectState, key: KeyPress)
    requires
        !s.open,
        key.code is Esc || key.code is Up || key.code is Down,
    ensures
        s.key(key) == (s, false),
{
}

/// Seeding a select with the value of one of its options makes that value
/// the select's value.
pub proof fn lemma_initial_value_round_trip(s: SelectState, v: Seq<char>, i: int)
    requires
        0 <= i < s.options.len(),
        s.options[i].0 == v,
    ensures
        find_option(s.options, v) is Some,
        (match find_option(s.options, v) {
            Some(k) => SelectState { selected: Some(k), highlighted: k, ..s },
            None => s,
        }).value() == v,
    decreases i,
{
    lemma_find_option_found(s.options, v);
    if find_option(s.options, v) is None {
        lemma_find_some_when_present(s.options, v, i);
    }
}

proof fn lemma_find_some_when_present(opts: Seq<(Seq<char>, Seq<char>)>, v: Seq<char>, i: int)
    requires
        0 <= i < opts.len(),
        opts[i].0 == v,
    ensures
        find_option(opts, v) is Some,
    decreases i,
{
    if i > 0 && opts[0].0 != v {
        assert(opts.drop_first()[i - 1] == opts[i]);
        lemma_find_some_when_present(opts.drop_first(), v, i - 1);
    }
}

impl Field for Select {
    open spec fn label_text(&self) -> Seq<char> {
        self@.label
    }

    open spec fn value_text(&self) -> Seq<char> {
        self@.value()
    }

    open spec fn value_flag(&self) -> Option<bool> {
        None
    }

    open spec fn error_list(&self) -> Seq<Seq<char>> {
        if self@.required && self@.selected is None {
            seq![required_message(self@.label)]
        } else {
            Seq::empty()
        }
    }

    fn label(&self) -> (r: &str) {
        self.label.as_str()
    }

    fn value_str(&self) -> (r: String) {
        self.text_value()
    }

    fn value_bool(&self) -> (r: Option<bool>) {
        None
    }

    fn render(&self, area: Area, focused: bool) -> (r: Vec<DrawOp>)
        ensures
            plan_view(r@) == select_plan(self@, area, focused),
    {
        self.plan(area, focused)
    }

    fn handle_input(&mut self, event: &KeyPress) -> (r: bool)
        ensures
            (final(self)@, r) == old(self)@.key(*event),
    {
        self.handle_key(event)
    }

    fn validate(&self) -> (r: Result<(), Vec<String>>) {
        self.check()
    }

    fn height(&self) -> (r: u16)
        ensures
            r == (if self@.open {
                1 + (if self@.options.len() < 10 { self@.options.len() } else { 10 })
            } else {
                1
            }),
    {
        self.rows()
    }

    fn is_required(&self) -> (r: bool)
        ensures
            r == self@.required,
    {
        self.required
    }
}

} // verus!
