//! A form: a titled list of fields, a focus ring over them and a submit
//! button, driven by key presses.

use vstd::prelude::*;

use crate::field_base::{FieldState, FormField, field_height, field_plan, field_steps, touched};
use crate::render::{Area, Draw, DrawOp, Look, Paint, min, plain, plan_view, push_op};
use crate::field::strings_view;
use crate::key::{KeyCode, KeyPress};
use crate::model::FormModel;
use crate::navigation::{FocusManager, FocusState, lemma_next_undoes_previous, lemma_previous_undoes_next};
use crate::text::to_owned_string;
use crate::validation::ValidationError;

verus! {

/// Where a form stands: still being edited, submitted, or cancelled.
#[derive(Clone, Copy, Debug, PartialEq, Eq, Structural)]
pub enum FormResult {
    Active,
    Submitted,
    Cancelled,
}

/// Everything a form holds.
pub struct FormState {
    pub title: Seq<char>,
    pub fields: Seq<FieldState>,
    pub focus: FocusState,
    pub result: FormResult,
    /// The errors of the last refused submit: field index and message.
    pub errors: Seq<(nat, Seq<char>)>,
}

/// The errors of a list of fields: each field's messages in order, tagged
/// with the field's index.
pub open spec fn all_errors(fields: Seq<FieldState>) -> Seq<(nat, Seq<char>)>
    decreases fields.len(),
{
    if fields.len() == 0 {
        Seq::empty()
    } else {
        let i = (fields.len() - 1) as nat;
        all_errors(fields.drop_last()) + fields.last().errors().map_values(|m: Seq<char>| (i, m))
    }
}

/// The errors as pairs of field index and message.
pub open spec fn errors_view(v: Seq<ValidationError>) -> Seq<(nat, Seq<char>)> {
    v.map_values(|e: ValidationError| (e.field_index as nat, e.message@))
}

impl FormState {
    /// The text value of each field.
    pub open spec fn texts(self) -> Seq<Seq<char>> {
        self.fields.map_values(|f: FieldState| f.text())
    }

    /// The boolean value of each field, for fields that hold one.
    pub open spec fn flags(self) -> Seq<Option<bool>> {
        self.fields.map_values(|f: FieldState| f.flag())
    }

    /// The focus ring covers exactly the fields.
    pub open spec fn wf(self) -> bool {
        self.focus.wf() && self.focus.field_count == self.fields.len()
    }

    /// The index of the field that holds the focus, when a field does.
    pub open spec fn focused_field(self) -> Option<nat> {
        if !self.focus.submit_focused && self.focus.current_index < self.fields.len() {
            Some(self.focus.current_index)
        } else {
            None
        }
    }

    /// The form with field `i` replaced by `g`.
    pub open spec fn with_field(self, i: int, g: FieldState) -> FormState {
        FormState { fields: self.fields.update(i, g), ..self }
    }

    /// Moving the focus to `to` takes the form to `next`: the field that had
    /// the focus loses it, the field that gets it gains it, and nothing else
    /// changes.
    pub open spec fn moves_to(self, to: FocusState, next: FormState) -> bool {
        &&& next.title == self.title
        &&& next.result == self.result
        &&& next.errors == self.errors
        &&& next.focus == to
        &&& next.fields.len() == self.fields.len()
        &&& forall|j: int|
            #![trigger next.fields[j]]
            0 <= j < self.fields.len() ==> touched(
                self.fields[j],
                next.fields[j],
                self.focused_field() == Some(j as nat),
                next.focused_field() == Some(j as nat),
            )
    }

    /// Submitting: every field is validated; with no error the form is
    /// submitted, else it stays active and keeps the errors.
    pub open spec fn submitted(self) -> FormState {
        let errors = all_errors(self.fields);
        FormState {
            errors,
            result: if errors.len() == 0 { FormResult::Submitted } else { FormResult::Active },
            ..self
        }
    }

    pub open spec fn cancelled(self) -> FormState {
        FormState { result: FormResult::Cancelled, ..self }
    }

    /// What a key that no field used does, taking the form to `next`, `used`
    /// telling whether the form used it: Esc cancels, Up and Down move the
    /// focus, any other key changes nothing.
    pub open spec fn unused_step(self, key: KeyPress, next: FormState, used: bool) -> bool {
        match key.code {
            KeyCode::Esc => used && next == self.cancelled(),
            KeyCode::Up => used && self.moves_to(self.focus.previous(), next),
            KeyCode::Down => used && self.moves_to(self.focus.next(), next),
            _ => !used && next == self,
        }
    }

    /// What follows once focused field `i` went to `g` on `key`, `u` telling
    /// whether the field used it: a used key is done; an unused one goes to
    /// [`FormState::unused_step`].
    pub open spec fn after_field(
        self,
        i: int,
        g: FieldState,
        u: bool,
        key: KeyPress,
        next: FormState,
        used: bool,
    ) -> bool {
        if u {
            used && next == self.with_field(i, g)
        } else {
            self.with_field(i, g).unused_step(key, next, used)
        }
    }

    /// What a key press does to the form: it takes the form to `next`, and
    /// `used` tells whether the form used it.
    ///
    /// Only an active form takes keys. Tab and Shift+Tab move the focus. On
    /// the submit button Enter submits; on a field the field takes the key
    /// first (see [`field_steps`]), and what it leaves goes to
    /// [`FormState::unused_step`].
    pub open spec fn steps(self, key: KeyPress, next: FormState, used: bool) -> bool {
        if !(self.result is Active) {
            !used && next == self
        } else if key.code is Tab {
            used && self.moves_to(self.focus.next(), next)
        } else if key.code is BackTab {
            used && self.moves_to(self.focus.previous(), next)
        } else if self.focus.submit_focused {
            if key.code is Enter {
                used && next == self.submitted()
            } else {
                self.unused_step(key, next, used)
            }
        } else {
            match self.focused_field() {
                Some(i) => exists|g: FieldState, u: bool|
                    #[trigger] field_steps(self.fields[i as int], key, g, u) && self.after_field(
                        i as int,
                        g,
                        u,
                        key,
                        next,
                        used,
                    ),
                None => self.unused_step(key, next, used),
            }
        }
    }

    /// Appending field `f` takes the form to `next`: `f` comes last, the
    /// focus ring grows by one, and the first field gains the focus unless
    /// the submit button has it.
    pub open spec fn pushes_to(self, f: FieldState, next: FormState) -> bool {
        let n = self.fields.len();
        &&& next.title == self.title
        &&& next.result == self.result
        &&& next.errors == self.errors
        &&& next.focus == self.focus.with_field_count(n + 1)
        &&& next.fields.len() == n + 1
        &&& next.fields.take(n as int) == self.fields
        &&& touched(f, next.fields[n as int], false, n == 0 && !self.focus.submit_focused)
    }
}

/// Rows taken by the first `k` fields.
pub open spec fn rows_before(fields: Seq<FieldState>, k: int) -> int
    decreases k,
{
    if k <= 0 {
        0
    } else {
        rows_before(fields, k - 1) + field_height(fields[k - 1])
    }
}

/// From field `k` on, the number of leading fields whose rows fit into
/// `avail` rows.
pub open spec fn fitting_fields(fields: Seq<FieldState>, avail: int, k: int) -> int
    decreases fields.len() - k,
{
    if 0 <= k < fields.len() && rows_before(fields, k + 1) <= avail {
        fitting_fields(fields, avail, k + 1)
    } else {
        k
    }
}

/// Where field `j` is drawn: the full width, below the title and the fields
/// before it.
pub open spec fn field_area(fields: Seq<FieldState>, area: Area, j: int) -> Area {
    Area {
        x: area.x,
        y: (area.y + 1 + rows_before(fields, j)) as u16,
        width: area.width,
        height: field_height(fields[j]) as u16,
    }
}

/// What the first `k` fields draw.
pub open spec fn fields_plan(s: FormState, area: Area, k: int) -> Seq<Draw>
    decreases k,
{
    if k <= 0 {
        Seq::empty()
    } else {
        fields_plan(s, area, k - 1) + field_plan(
            s.fields[k - 1],
            field_area(s.fields, area, k - 1),
            s.focused_field() == Some((k - 1) as nat),
        )
    }
}

/// The line of error message `i`, at row `top + i`.
pub open spec fn error_line(s: FormState, area: Area, top: int, i: int) -> Draw {
    Draw::Line { x: area.x as int, y: top + i, width: area.width as int, text: s.errors[i].1, look: plain(Paint::Error) }
}

/// The label of the submit button.
pub open spec fn submit_label() -> Seq<char> {
    "[ Submit ]"@
}

/// What a form draws into `area`: the title on the first row, then each field
/// that fits in turn, then the error messages, then the submit button, as
/// far as rows remain.
pub open spec fn form_plan(s: FormState, area: Area) -> Seq<Draw> {
    if area.height == 0 || area.width == 0 {
        Seq::empty()
    } else {
        let k = fitting_fields(s.fields, area.height - 1, 0);
        let used = 1 + rows_before(s.fields, k);
        let n_err = min(s.errors.len() as int, area.height - used);
        let top = area.y + used;
        let title = Draw::Line {
            x: area.x as int,
            y: area.y as int,
            width: area.width as int,
            text: s.title,
            look: plain(Paint::Title),
        };
        let button = Draw::Line {
            x: area.x as int,
            y: top + n_err,
            width: area.width as int,
            text: submit_label(),
            look: plain(if s.focus.submit_focused { Paint::ButtonFocused } else { Paint::Button }),
        };
        seq![title] + fields_plan(s, area, k) + Seq::new(n_err as nat, |i: int| error_line(s, area, top, i)) + (
        if used + n_err < area.height {
            seq![button]
        } else {
            Seq::empty()
        })
    }
}

/// A form seeded from a model: its fields are addressed by position.
pub struct Form {
    title: String,
    fields: Vec<FormField>,
    focus: FocusManager,
    result: FormResult,
    errors: Vec<ValidationError>,
}

impl View for Form {
    type V = FormState;

    closed spec fn view(&self) -> FormState {
        FormState {
            title: self.title@,
            fields: self.fields@.map_values(|f: FormField| f@),
            focus: self.focus@,
            result: self.result,
            errors: errors_view(self.errors@),
        }
    }
}

impl Form {
    #[verifier::type_invariant]
    spec fn inv(self) -> bool {
        self.focus@.wf() && self.focus@.field_count == self.fields@.len()
    }

    /// Creates an empty form with a title.
    pub fn new(title: &str) -> (r: Self)
        ensures
            r@ == (FormState {
                title: title@,
                fields: Seq::empty(),
                focus: FocusState { field_count: 0, current_index: 0, submit_focused: false },
                result: FormResult::Active,
                errors: Seq::empty(),
            }),
    {
        let fields: Vec<FormField> = Vec::new();
        let errors: Vec<ValidationError> = Vec::new();
        let r = Form {
            title: to_owned_string(title),
            fields,
            focus: FocusManager::new(0),
            result: FormResult::Active,
            errors,
        };
        assert(r@.fields =~= Seq::empty());
        assert(r@.errors =~= Seq::empty());
        r
    }

    /// Appends a field; it gets the next index.
    pub fn push(&mut self, field: FormField)
        ensures
            old(self)@.pushes_to(field@, final(self)@),
    {
        proof {
            use_type_invariant(&*self);
        }
        let ghost before = self@;
        let n = self.fields.len();
        let first = n == 0 && !self.focus.is_submit_focused();
        let mut field = field;
        let ghost f = field@;
        if first {
            field.on_focus();
        }
        let ghost g = field@;
        let mut me = Form::new("");
        std::mem::swap(&mut me, self);
        proof {
            use_type_invariant(&me);
        }
        let Form { title, mut fields, mut focus, result, errors } = me;
        fields.push(field);
        focus.set_field_count(fields.len());
        *self = Form { title, fields, focus, result, errors };
        proof {
            assert(self@.fields.take(n as int) =~= before.fields);
            assert(self@.fields[n as int] == g);
        }
    }

    /// The number of fields. The form is well-formed: its focus ring covers
    /// exactly its fields.
    pub fn len(&self) -> (r: usize)
        ensures
            r == self@.fields.len(),
            self@.wf(),
    {
        proof {
            use_type_invariant(self);
        }
        self.fields.len()
    }

    /// The form title.
    pub fn title(&self) -> (r: &str)
        ensures
            r@ == self@.title,
    {
        self.title.as_str()
    }

    /// The text value of the field at `index`, or `None` past the last field.
    pub fn value_str(&self, index: usize) -> (r: Option<String>)
        ensures
            r is Some <==> index < self@.texts().len(),
            r matches Some(s) ==> s@ == self@.texts()[index as int],
    {
        if index < self.fields.len() {
            Some(self.fields[index].value_str())
        } else {
            None
        }
    }

    /// The boolean value of the field at `index`: `None` past the last field
    /// or for a field that holds no boolean.
    pub fn value_bool(&self, index: usize) -> (r: Option<bool>)
        ensures
            r == (if index < self@.flags().len() { self@.flags()[index as int] } else { None }),
    {
        if index < self.fields.len() {
            self.fields[index].value_bool()
        } else {
            None
        }
    }

    /// Where the form stands.
    pub fn result(&self) -> (r: &FormResult)
        ensures
            *r == self@.result,
    {
        &self.result
    }

    /// Whether the form is still being edited.
    pub fn is_active(&self) -> (r: bool)
        ensures
            r == (self@.result is Active),
    {
        match self.result {
            FormResult::Active => true,
            _ => false,
        }
    }

    /// The errors of the last refused submit.
    pub fn validation_errors(&self) -> (r: &[ValidationError])
        ensures
            errors_view(r@) == self@.errors,
    {
        self.errors.as_slice()
    }

    /// What the form draws into `area`.
    pub fn render(&self, area: Area) -> (r: Vec<DrawOp>)
        requires
            area.fits(),
        ensures
            plan_view(r@) == form_plan(self@, area),
    {
        proof {
            use_type_invariant(self);
        }
        let ghost st = self@;
        let mut ops: Vec<DrawOp> = Vec::new();
        if area.height == 0 || area.width == 0 {
            assert(plan_view(ops@) =~= Seq::<Draw>::empty());
            return ops;
        }
        let look = Look { paint: Paint::Title, reversed: false };
        push_op(&mut ops, DrawOp::Line { x: area.x, y: area.y, width: area.width, text: self.title.clone(), look });
        let bottom: u16 = area.y + area.height;
        let avail: u16 = area.height - 1;
        let submit = self.focus.is_submit_focused();
        let current = self.focus.current_index();
        let ghost k = fitting_fields(st.fields, avail as int, 0);
        let mut rows: u16 = 0;
        let mut i: usize = 0;
        assert(plan_view(ops@) =~= seq![form_plan(st, area)[0]] + fields_plan(st, area, 0));
        while i < self.fields.len()
            invariant
                area.fits(),
                st == self@,
                bottom == area.y + area.height,
                avail == area.height - 1,
                area.height > 0 && area.width > 0,
                submit == st.focus.submit_focused,
                current == st.focus.current_index,
                i <= self.fields@.len(),
                self.fields@.len() == st.fields.len(),
                rows == rows_before(st.fields, i as int),
                rows <= avail,
                fitting_fields(st.fields, avail as int, 0) == fitting_fields(st.fields, avail as int, i as int),
                plan_view(ops@) == seq![form_plan(st, area)[0]] + fields_plan(st, area, i as int),
            ensures
                fitting_fields(st.fields, avail as int, i as int) == i,
                rows == rows_before(st.fields, i as int),
                rows <= avail,
                plan_view(ops@) == seq![form_plan(st, area)[0]] + fields_plan(st, area, i as int),
            decreases self.fields@.len() - i,
        {
            let h = self.fields[i].height();
            assert(st.fields[i as int] == self.fields@[i as int]@);
            if h > avail - rows {
                break;
            }
            let fa = Area { x: area.x, y: area.y + 1 + rows, width: area.width, height: h };
            let focused = !submit && i == current;
            let mut part = self.fields[i].render(fa, focused);
            let ghost before = ops@;
            let ghost added = part@;
            ops.append(&mut part);
            proof {
                assert(fa == field_area(st.fields, area, i as int));
                assert(focused == (st.focused_field() == Some(i as nat)));
                assert(plan_view(ops@) =~= plan_view(before) + plan_view(added)) by {
                    assert(ops@ =~= before + added);
                }
            }
            rows = rows + h;
            i = i + 1;
        }
        let ghost used = 1 + rows as int;
        assert(fitting_fields(st.fields, avail as int, 0) == i);
        let mut y: u16 = area.y + 1 + rows;
        let mut e: usize = 0;
        let ghost n_err = min(st.errors.len() as int, area.height - used);
        while e < self.errors.len() && y < bottom
            invariant
                area.fits(),
                st == self@,
                bottom == area.y + area.height,
                area.height > 0 && area.width > 0,
                used == 1 + rows_before(st.fields, i as int),
                y == area.y + used + e,
                y <= bottom,
                e <= self.errors@.len(),
                e <= n_err,
                n_err == min(st.errors.len() as int, area.height - used),
                st.errors == errors_view(self.errors@),
                plan_view(ops@) == seq![form_plan(st, area)[0]] + fields_plan(st, area, i as int) + Seq::new(
                    e as nat,
                    |j: int| error_line(st, area, area.y + used, j),
                ),
            decreases self.errors@.len() - e,
        {
            let look = Look { paint: Paint::Error, reversed: false };
            let ghost before = plan_view(ops@);
            push_op(
                &mut ops,
                DrawOp::Line { x: area.x, y, width: area.width, text: self.errors[e].message.clone(), look },
            );
            assert(Seq::new((e + 1) as nat, |j: int| error_line(st, area, area.y + used, j)) =~= Seq::new(
                e as nat,
                |j: int| error_line(st, area, area.y + used, j),
            ).push(error_line(st, area, area.y + used, e as int)));
            y = y + 1;
            e = e + 1;
        }
        assert(e == n_err);
        if y < bottom {
            let look = Look {
                paint: if submit {
                    Paint::ButtonFocused
                } else {
                    Paint::Button
                },
                reversed: false,
            };
            push_op(&mut ops, DrawOp::Line { x: area.x, y, width: area.width, text: String::from_str("[ Submit ]"), look });
        }
        assert(plan_view(ops@) =~= form_plan(st, area));
        ops
    }

    /// Tells the focused field that it gains (`gain`) or loses the focus.
    fn touch_focused(&mut self, gain: bool)
        ensures
            final(self)@.title == old(self)@.title,
            final(self)@.result == old(self)@.result,
            final(self)@.errors == old(self)@.errors,
            final(self)@.focus == old(self)@.focus,
            final(self)@.fields.len() == old(self)@.fields.len(),
            forall|j: int|
                #![trigger final(self)@.fields[j]]
                0 <= j < old(self)@.fields.len() ==> touched(
                    old(self)@.fields[j],
                    final(self)@.fields[j],
                    !gain && old(self)@.focused_field() == Some(j as nat),
                    gain && old(self)@.focused_field() == Some(j as nat),
                ),
    {
        proof {
            use_type_invariant(&*self);
        }
        let ghost before = self@;
        if !self.focus.is_submit_focused() {
            let i = self.focus.current_index();
            if i < self.fields.len() {
                if gain {
                    self.fields[i].on_focus();
                } else {
                    self.fields[i].on_blur();
                }
                assert forall|j: int| 0 <= j < before.fields.len() implies touched(
                    before.fields[j],
                    #[trigger] self@.fields[j],
                    !gain && before.focused_field() == Some(j as nat),
                    gain && before.focused_field() == Some(j as nat),
                ) by {
                    if j != i {
                        assert(self@.fields[j] == self.fields@[j]@);
                    }
                }
                return;
            }
        }
        assert(self@.fields =~= before.fields);
    }

    /// Moves the focus forward (`forward`) or back, blurring the field that
    /// had it and focusing the field that gets it.
    fn move_focus(&mut self, forward: bool)
        ensures
            old(self)@.moves_to(
                if forward {
                    old(self)@.focus.next()
                } else {
                    old(self)@.focus.previous()
                },
                final(self)@,
            ),
    {
        proof {
            use_type_invariant(&*self);
        }
        let ghost s0 = self@;
        self.touch_focused(false);
        let ghost s1 = self@;
        if forward {
            self.focus.focus_next();
        } else {
            self.focus.focus_previous();
        }
        let ghost s2 = self@;
        assert(s2.fields == s1.fields);
        self.touch_focused(true);
        proof {
            assert forall|j: int| #![trigger self@.fields[j]] 0 <= j < s0.fields.len() implies touched(
                s0.fields[j],
                self@.fields[j],
                s0.focused_field() == Some(j as nat),
                self@.focused_field() == Some(j as nat),
            ) by {
                assert(touched(s0.fields[j], s1.fields[j], s0.focused_field() == Some(j as nat), false));
                assert(touched(s2.fields[j], self@.fields[j], false, s2.focused_field() == Some(j as nat)));
                lemma_touched_compose(
                    s0.fields[j],
                    s1.fields[j],
                    self@.fields[j],
                    s0.focused_field() == Some(j as nat),
                    s2.focused_field() == Some(j as nat),
                );
            }
        }
    }

    /// Validates every field; with no error the form is submitted.
    fn submit(&mut self)
        ensures
            final(self)@ == old(self)@.submitted(),
    {
        proof {
            use_type_invariant(&*self);
        }
        let mut errors: Vec<ValidationError> = Vec::new();
        let mut i: usize = 0;
        while i < self.fields.len()
            invariant
                i <= self.fields@.len(),
                errors_view(errors@) == all_errors(self@.fields.take(i as int)),
            decreases self.fields@.len() - i,
        {
            let ghost before = errors@;
            let outcome = self.fields[i].validate();
            let ghost msgs = self@.fields[i as int].errors();
            proof {
                assert(self@.fields.take(i + 1).drop_last() =~= self@.fields.take(i as int));
                assert(self@.fields.take(i + 1).last() == self@.fields[i as int]);
            }
            match outcome {
                Ok(()) => {
                    assert(msgs.len() == 0);
                    assert(msgs.map_values(|m: Seq<char>| (i as nat, m)) =~= Seq::empty());
                    assert(all_errors(self@.fields.take(i + 1)) =~= all_errors(self@.fields.take(i as int)));
                },
                Err(messages) => {
                    let mut messages = messages;
                    let ghost mut j: int = 0;
                    while messages.len() > 0
                        invariant
                            0 <= j <= msgs.len(),
                            strings_view(messages@) == msgs.skip(j),
                            errors_view(errors@) == errors_view(before) + msgs.take(j).map_values(
                                |m: Seq<char>| (i as nat, m),
                            ),
                        decreases messages@.len(),
                    {
                        let ghost mid = errors@;
                        let ghost old_m = messages@;
                        let message = messages.remove(0);
                        proof {
                            assert(strings_view(old_m)[0] == msgs.skip(j)[0]);
                            assert(msgs.skip(j)[0] == message@);
                            assert(messages@ =~= old_m.skip(1));
                            assert(strings_view(messages@) =~= strings_view(old_m).skip(1));
                            assert(msgs.skip(j).skip(1) =~= msgs.skip(j + 1));
                            assert(msgs.take(j + 1) =~= msgs.take(j).push(message@));
                        }
                        errors.push(ValidationError { field_index: i, message });
                        proof {
                            assert(errors_view(errors@) =~= errors_view(mid).push((i as nat, message@)));
                            assert(msgs.take(j + 1).map_values(|m: Seq<char>| (i as nat, m)) =~= msgs.take(
                                j,
                            ).map_values(|m: Seq<char>| (i as nat, m)).push((i as nat, message@)));
                            j = j + 1;
                        }
                    }
                    assert(msgs.take(j) =~= msgs);
                },
            }
            i = i + 1;
        }
        assert(self@.fields.take(i as int) =~= self@.fields);
        if errors.len() == 0 {
            self.result = FormResult::Submitted;
        } else {
            self.result = FormResult::Active;
        }
        self.errors = errors;
    }

    /// Handles a key press. Returns true if the form used it.
    ///
    /// Tab and Shift+Tab move the focus; on the submit button Enter submits
    /// and Esc cancels; on a field the field takes the key first, then Esc
    /// cancels and Up and Down move the focus.
    pub fn handle_input(&mut self, event: KeyPress) -> (r: bool)
        ensures
            old(self)@.steps(event, final(self)@, r),
    {
        proof {
            use_type_invariant(&*self);
        }
        let ghost s0 = self@;
        match self.result {
            FormResult::Active => {},
            _ => {
                return false;
            },
        }
        match event.code {
            KeyCode::Tab => {
                self.move_focus(true);
                return true;
            },
            KeyCode::BackTab => {
                self.move_focus(false);
                return true;
            },
            _ => {},
        }
        let ghost mut mid = s0;
        let ghost mut left: FieldState = arbitrary();
        if !self.focus.is_submit_focused() {
            let i = self.focus.current_index();
            if i < self.fields.len() {
                let used = self.fields[i].handle_input(&event);
                proof {
                    left = self.fields@[i as int]@;
                    assert(self@.fields =~= s0.fields.update(i as int, left));
                    mid = s0.with_field(i as int, left);
                }
                if used {
                    let ghost k = s0.focused_field()->0;
                    assert(field_steps(s0.fields[k as int], event, left, used));
                    assert(s0.after_field(k as int, left, used, event, self@, true));
                    return true;
                }
            }
        } else {
            match event.code {
                KeyCode::Enter => {
                    self.submit();
                    return true;
                },
                _ => {},
            }
        }
        assert(self@ == mid);
        let r = match event.code {
            KeyCode::Esc => {
                self.result = FormResult::Cancelled;
                true
            },
            KeyCode::Up => {
                self.move_focus(false);
                true
            },
            KeyCode::Down => {
                self.move_focus(true);
                true
            },
            _ => false,
        };
        assert(mid.unused_step(event, self@, r));
        proof {
            if let Some(i) = s0.focused_field() {
                assert(field_steps(s0.fields[i as int], event, left, false));
            }
        }
        r
    }
}

/// Losing and then gaining the focus, each in its own step, is touching the
/// field once with both.
pub proof fn lemma_touched_compose(f: FieldState, m: FieldState, g: FieldState, blur: bool, focus: bool)
    requires
        touched(f, m, blur, false),
        touched(m, g, false, focus),
    ensures
        touched(f, g, blur, focus),
{
}

/// Touching a field keeps its value.
pub proof fn lemma_touched_keeps_value(f: FieldState, g: FieldState, blur: bool, focus: bool)
    requires
        touched(f, g, blur, focus),
    ensures
        g.text() == f.text(),
        g.flag() == f.flag(),
{
    lemma_focus_keeps_value(f);
    lemma_focus_keeps_value(f.blurred());
}

/// Gaining or losing focus leaves a field's value as it is.
pub proof fn lemma_focus_keeps_value(f: FieldState)
    ensures
        f.focused().text() == f.text(),
        f.focused().flag() == f.flag(),
        f.blurred().text() == f.text(),
        f.blurred().flag() == f.flag(),
        f.focused().errors() == f.errors(),
        f.blurred().errors() == f.errors(),
{
}

/// Moving the focus keeps every field's value and the form's
/// well-formedness.
pub proof fn lemma_moving_focus_keeps_values(s: FormState, to: FocusState, next: FormState)
    requires
        s.wf(),
        to.wf(),
        to.field_count == s.fields.len(),
        s.moves_to(to, next),
    ensures
        next.texts() == s.texts(),
        next.flags() == s.flags(),
        next.fields.len() == s.fields.len(),
        next.wf(),
{
    assert forall|j: int| 0 <= j < s.fields.len() implies #[trigger] next.fields[j].text() == s.fields[j].text()
        && next.fields[j].flag() == s.fields[j].flag() by {
        lemma_touched_keeps_value(
            s.fields[j],
            next.fields[j],
            s.focused_field() == Some(j as nat),
            next.focused_field() == Some(j as nat),
        );
    }
    assert(next.texts() =~= s.texts());
    assert(next.flags() =~= s.flags());
}

/// Every key keeps the form well-formed: the focus ring still covers exactly
/// the fields.
pub proof fn lemma_key_keeps_wf(s: FormState, key: KeyPress, next: FormState, used: bool)
    requires
        s.wf(),
        s.steps(key, next, used),
    ensures
        next.wf(),
        next.fields.len() == s.fields.len(),
{
    lemma_previous_undoes_next(s.focus);
    lemma_next_undoes_previous(s.focus);
    if s.result is Active && !(key.code is Tab) && !(key.code is BackTab) && !s.focus.submit_focused {
        if let Some(i) = s.focused_field() {
            let (g, u) = choose|g: FieldState, u: bool|
                #[trigger] field_steps(s.fields[i as int], key, g, u) && s.after_field(i as int, g, u, key, next, used);
            let m = s.with_field(i as int, g);
            assert(m.wf());
        }
    }
}

/// A submitted or cancelled form takes no more keys and stays as it is.
pub proof fn lemma_finished_form_ignores_keys(s: FormState, key: KeyPress, next: FormState, used: bool)
    requires
        !(s.result is Active),
        s.steps(key, next, used),
    ensures
        next == s,
        !used,
{
}

/// Tab and Shift+Tab only move the focus: no field's value changes.
pub proof fn lemma_tabbing_keeps_values(s: FormState, key: KeyPress, next: FormState, used: bool)
    requires
        s.wf(),
        key.code is Tab || key.code is BackTab,
        s.steps(key, next, used),
    ensures
        next.texts() == s.texts(),
        next.flags() == s.flags(),
        next.result == s.result,
        used == (s.result is Active),
{
    lemma_previous_undoes_next(s.focus);
    lemma_next_undoes_previous(s.focus);
    if s.result is Active {
        if key.code is Tab {
            lemma_moving_focus_keeps_values(s, s.focus.next(), next);
        } else {
            lemma_moving_focus_keeps_values(s, s.focus.previous(), next);
        }
    }
}

/// Shift+Tab after Tab gives the focus back to what held it.
pub proof fn lemma_back_tab_undoes_tab(
    s: FormState,
    tab: KeyPress,
    back: KeyPress,
    mid: FormState,
    used_tab: bool,
    end: FormState,
    used_back: bool,
)
    requires
        s.wf(),
        s.result is Active,
        tab.code is Tab,
        back.code is BackTab,
        s.steps(tab, mid, used_tab),
        mid.steps(back, end, used_back),
    ensures
        end.focus.target() == s.focus.target(),
{
    lemma_previous_undoes_next(s.focus);
    lemma_moving_focus_keeps_values(s, s.focus.next(), mid);
}

/// The errors of a list of fields are empty exactly when no field reports
/// an error.
pub proof fn lemma_no_errors_iff_all_fields_valid(fields: Seq<FieldState>)
    ensures
        all_errors(fields).len() == 0 <==> forall|i: int| 0 <= i < fields.len() ==> #[trigger] fields[i].errors().len()
            == 0,
    decreases fields.len(),
{
    if fields.len() > 0 {
        let init = fields.drop_last();
        lemma_no_errors_iff_all_fields_valid(init);
        let i = (fields.len() - 1) as nat;
        let tail = fields.last().errors().map_values(|m: Seq<char>| (i, m));
        assert(tail.len() == fields.last().errors().len());
        if all_errors(fields).len() == 0 {
            assert forall|k: int| 0 <= k < fields.len() implies #[trigger] fields[k].errors().len() == 0 by {
                if k < fields.len() - 1 {
                    assert(init[k] == fields[k]);
                }
            }
        }
        if forall|k: int| 0 <= k < fields.len() ==> #[trigger] fields[k].errors().len() == 0 {
            assert forall|k: int| 0 <= k < init.len() implies #[trigger] init[k].errors().len() == 0 by {
                assert(init[k] == fields[k]);
            }
            assert(fields[fields.len() - 1].errors().len() == 0);
        }
    }
}

/// Enter on the submit button submits the form exactly when no field reports
/// an error; otherwise the form stays active and keeps every field's errors.
pub proof fn lemma_enter_submits_iff_valid(s: FormState, enter: KeyPress, next: FormState, used: bool)
    requires
        s.result is Active,
        s.focus.submit_focused,
        enter.code is Enter,
        s.steps(enter, next, used),
    ensures
        used,
        next.errors == all_errors(s.fields),
        next.result == (if forall|i: int| 0 <= i < s.fields.len() ==> #[trigger] s.fields[i].errors().len() == 0 {
            FormResult::Submitted
        } else {
            FormResult::Active
        }),
        next.fields == s.fields,
{
    lemma_no_errors_iff_all_fields_valid(s.fields);
}

/// Esc cancels an active form unless the focused field takes it (an open
/// dropdown closes instead). What a widget of the user's own does with Esc
/// is its own, so the focused field is one of the library's.
pub proof fn lemma_escape_cancels(s: FormState, esc: KeyPress, next: FormState, used: bool)
    requires
        s.result is Active,
        esc.code is Esc,
        s.steps(esc, next, used),
        s.focused_field() matches Some(i) ==> !(s.fields[i as int] is Custom) && !s.fields[i as int].key(esc).1,
    ensures
        next.result is Cancelled,
        used,
{
    if !s.focus.submit_focused {
        if let Some(i) = s.focused_field() {
            let (g, u) = choose|g: FieldState, u: bool|
                #[trigger] field_steps(s.fields[i as int], esc, g, u) && s.after_field(i as int, g, u, esc, next, used);
            assert(!u);
        }
    }
}

/// Appending a field records its value at the next index and keeps the form
/// well-formed.
pub proof fn lemma_pushed_records_value(s: FormState, f: FieldState, next: FormState)
    requires
        s.wf(),
        s.pushes_to(f, next),
    ensures
        next.texts() == s.texts().push(f.text()),
        next.flags() == s.flags().push(f.flag()),
        next.wf(),
{
    let n = s.fields.len();
    lemma_touched_keeps_value(f, next.fields[n as int], false, n == 0 && !s.focus.submit_focused);
    assert forall|j: int| 0 <= j < n implies next.fields[j] == s.fields[j] by {
        assert(next.fields.take(n as int)[j] == next.fields[j]);
    }
    assert(next.texts() =~= s.texts().push(f.text()));
    assert(next.flags() =~= s.flags().push(f.flag()));
}

impl<T: FormModel> From<T> for Form {
    /// Builds the form of a model, as `get_form` does.
    fn from(model: T) -> (r: Self) {
        model.get_form()
    }
}

impl<T: FormModel> vstd::std_specs::convert::FromSpecImpl<T> for Form {
    open spec fn obeys_from_spec() -> bool {
        false
    }

    open spec fn from_spec(v: T) -> Form {
        arbitrary()
    }
}

} // verus!
