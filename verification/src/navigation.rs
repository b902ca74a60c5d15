//! Focus and keyboard navigation management.

use vstd::prelude::*;

verus! {

/// The abstract state of a [`FocusManager`].
pub struct FocusState {
    /// Number of fields in the form.
    pub field_count: nat,
    /// Index of the focused (or last focused) field.
    pub current_index: nat,
    /// Whether the submit button holds the focus.
    pub submit_focused: bool,
}

/// What holds the focus: a field by index, or the submit button.
pub enum FocusTarget {
    Field(nat),
    SubmitButton,
}

impl FocusState {
    /// The index stays on a field, or at zero when the form has no field.
    pub open spec fn wf(self) -> bool {
        self.current_index == 0 || self.current_index < self.field_count
    }

    pub open spec fn target(self) -> FocusTarget {
        if self.submit_focused {
            FocusTarget::SubmitButton
        } else {
            FocusTarget::Field(self.current_index)
        }
    }

    /// Position in the focus ring: fields `0..n`, then the submit button at `n`.
    pub open spec fn position(self) -> nat {
        if self.submit_focused {
            self.field_count
        } else {
            self.current_index
        }
    }

    pub open spec fn next(self) -> FocusState {
        if self.submit_focused {
            FocusState { current_index: 0, submit_focused: false, ..self }
        } else if self.current_index + 1 >= self.field_count {
            FocusState { submit_focused: true, ..self }
        } else {
            FocusState { current_index: self.current_index + 1, ..self }
        }
    }

    pub open spec fn previous(self) -> FocusState {
        if self.submit_focused {
            FocusState {
                current_index: if self.field_count == 0 { 0 } else { (self.field_count - 1) as nat },
                submit_focused: false,
                ..self
            }
        } else if self.current_index > 0 {
            FocusState { current_index: (self.current_index - 1) as nat, ..self }
        } else {
            FocusState { submit_focused: true, ..self }
        }
    }

    pub open spec fn with_field_count(self, count: nat) -> FocusState {
        FocusState {
            field_count: count,
            current_index: if self.current_index >= count {
                if count == 0 { 0 } else { (count - 1) as nat }
            } else {
                self.current_index
            },
            ..self
        }
    }

    pub open spec fn with_focused_field(self, index: nat) -> FocusState {
        if index < self.field_count {
            FocusState { current_index: index, submit_focused: false, ..self }
        } else {
            self
        }
    }

    /// The state after `k` calls of `focus_next`.
    pub open spec fn next_n(self, k: nat) -> FocusState
        decreases k,
    {
        if k == 0 {
            self
        } else {
            self.next().next_n((k - 1) as nat)
        }
    }
}

/// Manages focus navigation between form fields.
pub struct FocusManager {
    field_count: usize,
    current_index: usize,
    submit_button_focused: bool,
}

impl View for FocusManager {
    type V = FocusState;

    closed spec fn view(&self) -> FocusState {
        FocusState {
            field_count: self.field_count as nat,
            current_index: self.current_index as nat,
            submit_focused: self.submit_button_focused,
        }
    }
}

impl FocusManager {
    #[verifier::type_invariant]
    spec fn inv(self) -> bool {
        self.current_index == 0 || self.current_index < self.field_count
    }

    /// Creates a new focus manager.
    pub fn new(field_count: usize) -> (r: Self)
        ensures
            r@ == (FocusState { field_count: field_count as nat, current_index: 0, submit_focused: false }),
            r@.wf(),
    {
        Self { field_count, current_index: 0, submit_button_focused: false }
    }

    /// Returns the currently focused field index.
    pub fn current_index(&self) -> (r: usize)
        ensures
            r == self@.current_index,
            self@.wf(),
    {
        proof {
            use_type_invariant(self);
        }
        self.current_index
    }

    /// Returns whether the submit button is focused.
    pub fn is_submit_focused(&self) -> (r: bool)
        ensures
            r == self@.submit_focused,
            self@.wf(),
    {
        proof {
            use_type_invariant(self);
        }
        self.submit_button_focused
    }

    /// Moves focus to the next field.
    pub fn focus_next(&mut self)
        ensures
            final(self)@ == old(self)@.next(),
            final(self)@.wf(),
        no_unwind
    {
        proof {
            use_type_invariant(&*self);
        }
        if self.submit_button_focused {
            // Wrap around to first field
            self.submit_button_focused = false;
            self.current_index = 0;
        } else if self.current_index + 1 >= self.field_count {
            // Move to submit button
            self.submit_button_focused = true;
        } else {
            self.current_index = self.current_index + 1;
        }
    }

    /// Moves focus to the previous field.
    pub fn focus_previous(&mut self)
        ensures
            final(self)@ == old(self)@.previous(),
            final(self)@.wf(),
        no_unwind
    {
        proof {
            use_type_invariant(&*self);
        }
        if self.submit_button_focused {
            // Move back to last field
            self.submit_button_focused = false;
            self.current_index = if self.field_count == 0 {
                0
            } else {
                self.field_count - 1
            };
        } else if self.current_index > 0 {
            self.current_index = self.current_index - 1;
        } else {
            // Wrap around to submit button
            self.submit_button_focused = true;
        }
    }

    /// Sets the total number of fields.
    pub fn set_field_count(&mut self, count: usize)
        ensures
            final(self)@ == old(self)@.with_field_count(count as nat),
            final(self)@.wf(),
    {
        proof {
            use_type_invariant(&*self);
        }
        if self.current_index >= count {
            self.current_index = count.saturating_sub(1);
        }
        self.field_count = count;
    }

    /// Focuses on a specific field index.
    pub fn focus_field(&mut self, index: usize)
        ensures
            final(self)@ == old(self)@.with_focused_field(index as nat),
            final(self)@.wf(),
    {
        proof {
            use_type_invariant(&*self);
        }
        if index < self.field_count {
            self.current_index = index;
            self.submit_button_focused = false;
        }
    }
}

/// Moving back undoes moving forward: what held the focus holds it again.
pub proof fn lemma_previous_undoes_next(s: FocusState)
    requires
        s.wf(),
    ensures
        s.next().previous().target() == s.target(),
        s.next().wf(),
{
}

/// Moving forward undoes moving back: what held the focus holds it again.
pub proof fn lemma_next_undoes_previous(s: FocusState)
    requires
        s.wf(),
    ensures
        s.previous().next().target() == s.target(),
        s.previous().wf(),
{
}

/// With at least one field, `focus_next` walks the ring of the fields and the
/// submit button one step forward, wrapping from the button to the first field.
pub proof fn lemma_next_rotates(s: FocusState)
    requires
        s.wf(),
        s.field_count > 0,
    ensures
        s.next().position() == (s.position() + 1) % (s.field_count + 1),
        s.next().field_count == s.field_count,
{
    let m: int = s.field_count as int + 1;
    let p: int = s.position() as int;
    if p + 1 < m {
        vstd::arithmetic::div_mod::lemma_small_mod((p + 1) as nat, m as nat);
    } else {
        vstd::arithmetic::div_mod::lemma_mod_self_0(m);
    }
}

/// With at least one field, `focus_previous` walks the ring one step back,
/// wrapping from the first field to the submit button.
pub proof fn lemma_previous_rotates(s: FocusState)
    requires
        s.wf(),
        s.field_count > 0,
    ensures
        s.previous().position() == (s.position() + s.field_count) % (s.field_count + 1),
        s.previous().field_count == s.field_count,
{
    let m: int = s.field_count as int + 1;
    let p: int = s.position() as int;
    let n: int = s.field_count as int;
    if p == 0 {
        vstd::arithmetic::div_mod::lemma_small_mod(n as nat, m as nat);
    } else {
        assert((m + (p - 1)) % m == (p - 1) % m) by {
            vstd::arithmetic::div_mod::lemma_mod_add_multiples_vanish(p - 1, m);
        }
        vstd::arithmetic::div_mod::lemma_small_mod((p - 1) as nat, m as nat);
    }
}

/// After `k` steps forward the position has advanced by `k` around the ring.
pub proof fn lemma_next_n_position(s: FocusState, k: nat)
    requires
        s.wf(),
        s.field_count > 0,
    ensures
        s.next_n(k).wf(),
        s.next_n(k).field_count == s.field_count,
        s.next_n(k).position() == (s.position() + k) % (s.field_count + 1),
    decreases k,
{
    if k == 0 {
        vstd::arithmetic::div_mod::lemma_small_mod(s.position(), (s.field_count + 1) as nat);
    } else {
        lemma_next_rotates(s);
        lemma_next_n_position(s.next(), (k - 1) as nat);
        let m: int = s.field_count as int + 1;
        let a: int = s.position() as int + 1;
        let y: int = k - 1;
        assert(((a % m) + y) % m == (a + y) % m) by {
            vstd::arithmetic::div_mod::lemma_add_mod_noop(a, y, m);
            vstd::arithmetic::div_mod::lemma_add_mod_noop(a % m, y, m);
            vstd::arithmetic::div_mod::lemma_mod_twice(a, m);
        }
    }
}

/// Tabbing through every field and the submit button brings the focus back
/// to where it started.
pub proof fn lemma_full_cycle_returns(s: FocusState)
    requires
        s.wf(),
        s.field_count > 0,
    ensures
        s.next_n(s.field_count + 1).target() == s.target(),
{
    lemma_next_n_position(s, s.field_count + 1);
    let m: int = s.field_count as int + 1;
    let p: int = s.position() as int;
    assert((m + p) % m == p % m) by {
        vstd::arithmetic::div_mod::lemma_mod_add_multiples_vanish(p, m);
    }
    vstd::arithmetic::div_mod::lemma_small_mod(s.position(), (s.field_count + 1) as nat);
}

/// Focusing a field by a valid index puts the focus on that field.
pub proof fn lemma_focus_field_targets(s: FocusState, index: nat)
    requires
        s.wf(),
        index < s.field_count,
    ensures
        s.with_focused_field(index).target() == FocusTarget::Field(index),
        s.with_focused_field(index).wf(),
{
}

} // verus!
