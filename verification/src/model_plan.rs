//! What a model declaration makes: reading the `#[form(...)]` attributes of a
//! struct and its fields into the form that the model's `FormModel` builds.
//!
//! A declaration is the struct as plain data: its name, whether it is
//! generic, its shape, and the items of its `form` attributes in order. The
//! plan says, for each field, its form position (skipped fields have none),
//! label, placeholder, whether it is required and which items name its
//! validators; or which item is in error.

use vstd::prelude::*;

use crate::naming::{humanize, humanized};
use crate::text::{str_eq, to_owned_string};

verus! {

/// The value on the right of `key = value`.
pub enum AttrValue {
    /// A string literal.
    Str(String),
    /// A path, such as a function's name.
    Path(String),
    /// Any other expression.
    Other,
}

/// One item of a `#[form(...)]` attribute.
pub enum AttrItem {
    /// A bare name, such as `required`.
    Flag(String),
    /// `key = value`.
    Pair(String, AttrValue),
    /// Anything else.
    Other,
}

/// A field of a model: its name and the items of its `form` attributes.
pub struct FieldDecl {
    pub name: String,
    pub attrs: Vec<AttrItem>,
}

/// What a model type is made of.
pub enum ModelShape {
    /// A struct with named fields.
    NamedFields(Vec<FieldDecl>),
    /// A tuple or unit struct.
    OtherStruct,
    /// An enum or a union.
    NotAStruct,
}

/// A model type: its name, whether it has generic parameters, the items of
/// its own `form` attributes, and its shape.
pub struct ModelDecl {
    pub name: String,
    pub generic: bool,
    pub attrs: Vec<AttrItem>,
    pub shape: ModelShape,
}

/// Why a declaration makes no form.
#[derive(Clone, Copy, Debug, PartialEq, Eq, Structural)]
pub enum PlanErrorKind {
    /// The struct has generic parameters.
    Generic,
    /// The struct has no named fields.
    NotNamedFields,
    /// The type is not a struct.
    NotAStruct,
    /// An attribute item that the form does not know.
    Unsupported,
    /// A title, label or placeholder that is not a string literal.
    ExpectedString,
    /// A validator that is not a path.
    ExpectedPath,
}

/// An error and where it is: the field (none for the struct itself) and the
/// item of its attributes.
#[derive(Clone, Copy, Debug, PartialEq, Eq, Structural)]
pub struct PlanError {
    pub kind: PlanErrorKind,
    pub field: Option<usize>,
    pub item: usize,
}

/// What one field becomes.
pub struct FieldPlan {
    pub name: String,
    /// Its position in the form; `None` for a skipped field.
    pub index: Option<usize>,
    pub label: String,
    pub placeholder: Option<String>,
    pub required: bool,
    /// The items of its attributes that name its validators, in order.
    pub validators: Vec<usize>,
}

/// What a model becomes: the form's title and each field's plan, in order.
pub struct ModelPlan {
    pub title: String,
    pub fields: Vec<FieldPlan>,
}

/// The settings that a field's items make.
pub struct Settings {
    pub label: Option<Seq<char>>,
    pub placeholder: Option<Seq<char>>,
    pub required: bool,
    pub skip: bool,
    /// For each validator: whether its value is a path, and its item.
    pub validators: Seq<(bool, nat)>,
}

pub open spec fn no_settings() -> Settings {
    Settings { label: None, placeholder: None, required: false, skip: false, validators: Seq::empty() }
}

/// The settings after item `k`, or the kind of its error.
pub open spec fn apply_item(st: Settings, item: AttrItem, k: nat) -> Result<Settings, PlanErrorKind> {
    match item {
        AttrItem::Flag(n) => if n@ == "required"@ {
            Ok(Settings { required: true, ..st })
        } else if n@ == "skip"@ {
            Ok(Settings { skip: true, ..st })
        } else {
            Err(PlanErrorKind::Unsupported)
        },
        AttrItem::Pair(key, v) => if key@ == "label"@ {
            match v {
                AttrValue::Str(s) => Ok(Settings { label: Some(s@), ..st }),
                _ => Err(PlanErrorKind::ExpectedString),
            }
        } else if key@ == "placeholder"@ {
            match v {
                AttrValue::Str(s) => Ok(Settings { placeholder: Some(s@), ..st }),
                _ => Err(PlanErrorKind::ExpectedString),
            }
        } else if key@ == "validate"@ {
            Ok(Settings { validators: st.validators.push((v is Path, k)), ..st })
        } else {
            Err(PlanErrorKind::Unsupported)
        },
        AttrItem::Other => Err(PlanErrorKind::Unsupported),
    }
}

/// The settings that a field's items make in order, or the first item in
/// error and its kind.
pub open spec fn settings_of(items: Seq<AttrItem>) -> Result<Settings, (PlanErrorKind, nat)>
    decreases items.len(),
{
    if items.len() == 0 {
        Ok(no_settings())
    } else {
        let k = (items.len() - 1) as nat;
        match settings_of(items.drop_last()) {
            Err(e) => Err(e),
            Ok(st) => match apply_item(st, items.last(), k) {
                Ok(next) => Ok(next),
                Err(kind) => Err((kind, k)),
            },
        }
    }
}

/// The item of the first validator that is not a path.
pub open spec fn first_non_path(vs: Seq<(bool, nat)>) -> Option<nat>
    decreases vs.len(),
{
    if vs.len() == 0 {
        None
    } else {
        match first_non_path(vs.drop_last()) {
            Some(k) => Some(k),
            None => if vs.last().0 {
                None
            } else {
                Some(vs.last().1)
            },
        }
    }
}

/// A field's plan, abstractly.
pub struct FieldPlanView {
    pub name: Seq<char>,
    pub index: Option<nat>,
    pub label: Seq<char>,
    pub placeholder: Option<Seq<char>>,
    pub required: bool,
    pub validators: Seq<nat>,
}

/// A model's plan, abstractly.
pub struct ModelPlanView {
    pub title: Seq<char>,
    pub fields: Seq<FieldPlanView>,
}

/// The number of fields in `done` that have a form position.
pub open spec fn shown_count(done: Seq<FieldPlanView>) -> nat
    decreases done.len(),
{
    if done.len() == 0 {
        0
    } else {
        shown_count(done.drop_last()) + if done.last().index is Some { 1nat } else { 0nat }
    }
}

/// What a field with settings `st` becomes, at form position `index`.
pub open spec fn field_plan_of(name: Seq<char>, st: Settings, index: Option<nat>) -> FieldPlanView {
    FieldPlanView {
        name,
        index,
        label: match st.label {
            Some(l) => l,
            None => humanized(name),
        },
        placeholder: st.placeholder,
        required: st.required,
        validators: if index is Some { st.validators.map_values(|v: (bool, nat)| v.1) } else { Seq::empty() },
    }
}

/// The plans of the fields in order: a skipped field has no position and no
/// validators; every other field takes the next position, once its
/// validators are all paths.
pub open spec fn fields_planned(fs: Seq<FieldDecl>) -> Result<Seq<FieldPlanView>, PlanError>
    decreases fs.len(),
{
    if fs.len() == 0 {
        Ok(Seq::empty())
    } else {
        let j = (fs.len() - 1) as usize;
        match fields_planned(fs.drop_last()) {
            Err(e) => Err(e),
            Ok(done) => match settings_of(fs.last().attrs@) {
                Err((kind, k)) => Err(PlanError { kind, field: Some(j), item: k as usize }),
                Ok(st) => if st.skip {
                    Ok(done.push(field_plan_of(fs.last().name@, st, None)))
                } else {
                    match first_non_path(st.validators) {
                        Some(k) => Err(PlanError { kind: PlanErrorKind::ExpectedPath, field: Some(j), item: k as usize }),
                        None => Ok(done.push(field_plan_of(fs.last().name@, st, Some(shown_count(done))))),
                    }
                },
            },
        }
    }
}

/// The title that a struct's items give: the first `title = ...`, which must
/// be a string literal; `None` when there is none. Other items are not read.
pub open spec fn title_of(items: Seq<AttrItem>) -> Result<Option<Seq<char>>, nat>
    decreases items.len(),
{
    if items.len() == 0 {
        Ok(None)
    } else {
        match title_of(items.drop_last()) {
            Ok(None) => match items.last() {
                AttrItem::Pair(key, v) => if key@ == "title"@ {
                    match v {
                        AttrValue::Str(s) => Ok(Some(s@)),
                        _ => Err((items.len() - 1) as nat),
                    }
                } else {
                    Ok(None)
                },
                _ => Ok(None),
            },
            other => other,
        }
    }
}

/// What a model declaration makes. A generic struct, a struct without named
/// fields and a type that is no struct make no form; then the title (by
/// default the struct's name as it is) and the fields in order.
pub open spec fn model_planned(d: ModelDecl) -> Result<ModelPlanView, PlanError> {
    if d.generic {
        Err(PlanError { kind: PlanErrorKind::Generic, field: None, item: 0 })
    } else {
        match d.shape {
            ModelShape::OtherStruct => Err(PlanError { kind: PlanErrorKind::NotNamedFields, field: None, item: 0 }),
            ModelShape::NotAStruct => Err(PlanError { kind: PlanErrorKind::NotAStruct, field: None, item: 0 }),
            ModelShape::NamedFields(fs) => match title_of(d.attrs@) {
                Err(k) => Err(PlanError { kind: PlanErrorKind::ExpectedString, field: None, item: k as usize }),
                Ok(t) => match fields_planned(fs@) {
                    Err(e) => Err(e),
                    Ok(ps) => Ok(
                        ModelPlanView {
                            title: match t {
                                Some(s) => s,
                                None => d.name@,
                            },
                            fields: ps,
                        },
                    ),
                },
            },
        }
    }
}

/// Fields are addressed by their position among the fields that are not
/// skipped: the field at `i` that has a position has the number of such
/// fields before it.
pub proof fn lemma_positions_count_shown_fields(fs: Seq<FieldDecl>)
    ensures
        fields_planned(fs) matches Ok(ps) ==> forall|i: int|
            0 <= i < ps.len() && (#[trigger] ps[i]).index is Some ==> ps[i].index == Some(
                shown_count(ps.take(i)),
            ),
    decreases fs.len(),
{
    if fs.len() > 0 {
        lemma_positions_count_shown_fields(fs.drop_last());
        if let (Ok(ps), Ok(done)) = (fields_planned(fs), fields_planned(fs.drop_last())) {
            assert(ps.drop_last() =~= done);
            assert forall|i: int| 0 <= i < ps.len() && (#[trigger] ps[i]).index is Some implies ps[i].index == Some(
                shown_count(ps.take(i)),
            ) by {
                if i < ps.len() - 1 {
                    assert(ps[i] == done[i]);
                    assert(ps.take(i) =~= done.take(i));
                } else {
                    assert(ps.take(i) =~= done);
                }
            }
        }
    }
}

/// A field's plan follows its declaration: it has a position exactly when
/// it is not skipped, and its label is its own or, without one, its name made
/// into a label.
pub open spec fn plan_follows(p: FieldPlanView, f: FieldDecl) -> bool {
    match settings_of(f.attrs@) {
        Ok(st) => {
            &&& (p.index is None <==> st.skip)
            &&& p.label == match st.label {
                Some(l) => l,
                None => humanized(f.name@),
            }
            &&& p.name == f.name@
            &&& p.required == st.required
        },
        Err(_) => false,
    }
}

/// Every field of a planned model has a plan that follows its declaration.
pub proof fn lemma_field_plans_follow_declarations(fs: Seq<FieldDecl>)
    ensures
        fields_planned(fs) matches Ok(ps) ==> ps.len() == fs.len() && forall|i: int|
            0 <= i < ps.len() ==> plan_follows(#[trigger] ps[i], fs[i]),
    decreases fs.len(),
{
    if fs.len() > 0 {
        lemma_field_plans_follow_declarations(fs.drop_last());
        if let (Ok(ps), Ok(done)) = (fields_planned(fs), fields_planned(fs.drop_last())) {
            assert(ps.drop_last() =~= done);
            assert forall|i: int| 0 <= i < ps.len() implies plan_follows(#[trigger] ps[i], fs[i]) by {
                if i < ps.len() - 1 {
                    assert(ps[i] == done[i]);
                    assert(fs[i] == fs.drop_last()[i]);
                }
            }
        }
    }
}

/// Whether an attribute item is a `validate = ...` item.
pub open spec fn is_validate_item(item: AttrItem) -> bool {
    item matches AttrItem::Pair(key, _) && key@ == "validate"@
}

/// Whether `vs` lists exactly the `validate = ...` items of `items`, by
/// their positions, in the order they are written: one entry per item, none
/// left out.
pub open spec fn lists_validate_items(vs: Seq<nat>, items: Seq<AttrItem>) -> bool {
    &&& forall|i: int| 0 <= i < vs.len() ==> #[trigger] vs[i] < items.len() && is_validate_item(items[vs[i] as int])
    &&& forall|i: int, j: int| 0 <= i < j < vs.len() ==> #[trigger] vs[i] < #[trigger] vs[j]
    &&& forall|k: int|
        0 <= k < items.len() && is_validate_item(#[trigger] items[k]) ==> exists|i: int|
            0 <= i < vs.len() && #[trigger] vs[i] == k
}

/// The validators that a field's items make are all of its `validate = ...`
/// items, in order.
pub proof fn lemma_settings_list_every_validator(items: Seq<AttrItem>)
    ensures
        settings_of(items) matches Ok(st) ==> lists_validate_items(
            st.validators.map_values(|v: (bool, nat)| v.1),
            items,
        ),
    decreases items.len(),
{
    if items.len() > 0 {
        let init = items.drop_last();
        let n = (items.len() - 1) as nat;
        lemma_settings_list_every_validator(init);
        if let Ok(st) = settings_of(items) {
            let st0 = settings_of(init)->Ok_0;
            let vs0 = st0.validators.map_values(|v: (bool, nat)| v.1);
            let vs = st.validators.map_values(|v: (bool, nat)| v.1);
            assert forall|k: int| 0 <= k < init.len() implies init[k] == items[k] by {}
            assert(settings_of(init) is Ok);
            assert(apply_item(st0, items.last(), n) == Ok::<Settings, PlanErrorKind>(st));
            if is_validate_item(items.last()) {
                if let AttrItem::Pair(key, v) = items.last() {
                    reveal_strlit("validate");
                    reveal_strlit("label");
                    reveal_strlit("placeholder");
                    assert(key@.len() != "label"@.len() && key@.len() != "placeholder"@.len());
                    assert(st.validators == st0.validators.push((v is Path, n)));
                }
                assert(vs =~= vs0.push(n));
                assert forall|k: int|
                    0 <= k < items.len() && is_validate_item(#[trigger] items[k]) implies exists|i: int|
                    0 <= i < vs.len() && #[trigger] vs[i] == k by {
                    if k < n {
                        assert(is_validate_item(init[k]));
                        let i = choose|i: int| 0 <= i < vs0.len() && #[trigger] vs0[i] == k;
                        assert(vs[i] == vs0[i]);
                    } else {
                        assert(vs[vs.len() - 1] == k);
                    }
                }
                assert forall|i: int| 0 <= i < vs.len() implies #[trigger] vs[i] < items.len() && is_validate_item(
                    items[vs[i] as int],
                ) by {
                    if i < vs0.len() {
                        assert(vs[i] == vs0[i]);
                        assert(vs0[i] < init.len() && is_validate_item(init[vs0[i] as int]));
                    }
                }
                assert forall|i: int, j: int| 0 <= i < j < vs.len() implies #[trigger] vs[i] < #[trigger] vs[j] by {
                    assert(vs[i] == vs0[i]);
                    if j < vs0.len() {
                        assert(vs[j] == vs0[j]);
                        assert(vs0[i] < vs0[j]);
                    } else {
                        assert(vs0[i] < init.len());
                    }
                }
            } else {
                assert(st.validators == st0.validators);
                assert(vs =~= vs0);
                assert forall|k: int|
                    0 <= k < items.len() && is_validate_item(#[trigger] items[k]) implies exists|i: int|
                    0 <= i < vs.len() && #[trigger] vs[i] == k by {
                    assert(k < n);
                    assert(is_validate_item(init[k]));
                }
                assert forall|i: int| 0 <= i < vs.len() implies #[trigger] vs[i] < items.len() && is_validate_item(
                    items[vs[i] as int],
                ) by {
                    assert(vs0[i] < init.len() && is_validate_item(init[vs0[i] as int]));
                }
            }
        }
    }
}

/// Whether an attribute item is `key = ...`, whatever its value.
pub open spec fn is_key_item(item: AttrItem, key: Seq<char>) -> bool {
    item matches AttrItem::Pair(k, _) && k@ == key
}

/// Whether an attribute item is `key = "s"`.
pub open spec fn sets_string(item: AttrItem, key: Seq<char>, s: Seq<char>) -> bool {
    item matches AttrItem::Pair(k, AttrValue::Str(t)) && k@ == key && t@ == s
}

/// Whether `v` is what the `key = "..."` items of `items` say: nothing when
/// there is none, else the string of the last one.
pub open spec fn string_setting(v: Option<Seq<char>>, items: Seq<AttrItem>, key: Seq<char>) -> bool {
    match v {
        None => forall|k: int| 0 <= k < items.len() ==> !is_key_item(#[trigger] items[k], key),
        Some(s) => exists|k: int|
            0 <= k < items.len() && sets_string(#[trigger] items[k], key, s) && forall|j: int|
                k < j < items.len() ==> !is_key_item(#[trigger] items[j], key),
    }
}

/// Whether the bare name `name` is among `items`.
pub open spec fn has_flag(items: Seq<AttrItem>, name: Seq<char>) -> bool {
    exists|k: int| 0 <= k < items.len() && (#[trigger] items[k] matches AttrItem::Flag(n) && n@ == name)
}

/// The label and placeholder that a field's items make are those of its last
/// `label = "..."` and `placeholder = "..."` items, none without one; it is
/// required exactly when `required` is among its items, and skipped exactly
/// when `skip` is.
pub proof fn lemma_settings_follow_items(items: Seq<AttrItem>)
    ensures
        settings_of(items) matches Ok(st) ==> {
            &&& string_setting(st.label, items, "label"@)
            &&& string_setting(st.placeholder, items, "placeholder"@)
            &&& st.required == has_flag(items, "required"@)
            &&& st.skip == has_flag(items, "skip"@)
        },
    decreases items.len(),
{
    reveal_strlit("label");
    reveal_strlit("placeholder");
    reveal_strlit("validate");
    reveal_strlit("required");
    reveal_strlit("skip");
    assert("label"@.len() == 5 && "placeholder"@.len() == 11 && "validate"@.len() == 8);
    assert("required"@.len() == 8 && "skip"@.len() == 4);
    if items.len() == 0 {
        return;
    }
    let init = items.drop_last();
    let n = items.len() - 1;
    lemma_settings_follow_items(init);
    if let Ok(st) = settings_of(items) {
        assert(settings_of(init) is Ok);
        let st0 = settings_of(init)->Ok_0;
        assert(apply_item(st0, items.last(), n as nat) == Ok::<Settings, PlanErrorKind>(st));
        assert forall|k: int| 0 <= k < init.len() implies init[k] == items[k] by {}
        let last = items.last();
        assert(items[n] == last);
        // What the last item sets, if anything.
        let is_label = is_key_item(last, "label"@);
        let is_place = is_key_item(last, "placeholder"@);
        if let AttrItem::Pair(key, v) = last {
            assert(key@ == "label"@ || key@ == "placeholder"@ || key@ == "validate"@);
        }
        // Labels.
        if is_label {
            assert(sets_string(items[n], "label"@, st.label->0));
        } else {
            assert(st.label == st0.label);
            match st.label {
                None => {},
                Some(l) => {
                    let k = choose|k: int|
                        0 <= k < init.len() && sets_string(#[trigger] init[k], "label"@, l) && forall|j: int|
                            k < j < init.len() ==> !is_key_item(#[trigger] init[j], "label"@);
                    assert(sets_string(items[k], "label"@, l));
                    assert forall|j: int| k < j < items.len() implies !is_key_item(#[trigger] items[j], "label"@) by {
                        if j < n {
                            assert(!is_key_item(init[j], "label"@));
                        }
                    }
                },
            }
        }
        // Placeholders.
        if is_place {
            assert(sets_string(items[n], "placeholder"@, st.placeholder->0));
        } else {
            assert(st.placeholder == st0.placeholder);
            match st.placeholder {
                None => {},
                Some(l) => {
                    let k = choose|k: int|
                        0 <= k < init.len() && sets_string(#[trigger] init[k], "placeholder"@, l) && forall|j: int|
                            k < j < init.len() ==> !is_key_item(#[trigger] init[j], "placeholder"@);
                    assert(sets_string(items[k], "placeholder"@, l));
                    assert forall|j: int| k < j < items.len() implies !is_key_item(
                        #[trigger] items[j],
                        "placeholder"@,
                    ) by {
                        if j < n {
                            assert(!is_key_item(init[j], "placeholder"@));
                        }
                    }
                },
            }
        }
        // Flags.
        if has_flag(init, "required"@) {
            let k = choose|k: int|
                0 <= k < init.len() && (#[trigger] init[k] matches AttrItem::Flag(m) && m@ == "required"@);
            assert(items[k] == init[k]);
        }
        if has_flag(items, "required"@) && !(last matches AttrItem::Flag(m) && m@ == "required"@) {
            let k = choose|k: int|
                0 <= k < items.len() && (#[trigger] items[k] matches AttrItem::Flag(m) && m@ == "required"@);
            assert(init[k] == items[k]);
        }
        if has_flag(init, "skip"@) {
            let k = choose|k: int|
                0 <= k < init.len() && (#[trigger] init[k] matches AttrItem::Flag(m) && m@ == "skip"@);
            assert(items[k] == init[k]);
        }
        if has_flag(items, "skip"@) && !(last matches AttrItem::Flag(m) && m@ == "skip"@) {
            let k = choose|k: int|
                0 <= k < items.len() && (#[trigger] items[k] matches AttrItem::Flag(m) && m@ == "skip"@);
            assert(init[k] == items[k]);
        }
    }
}

/// Whether plan `p` says what the items of declaration `f` say: no position
/// exactly when `skip` is among them, required exactly when `required` is,
/// the placeholder of the last `placeholder = "..."`, and the label of the
/// last `label = "..."` or, without one, the field's name made into a label.
pub open spec fn plan_says_items(p: FieldPlanView, f: FieldDecl) -> bool {
    let items = f.attrs@;
    &&& (p.index is None <==> has_flag(items, "skip"@))
    &&& p.required == has_flag(items, "required"@)
    &&& string_setting(p.placeholder, items, "placeholder"@)
    &&& if exists|k: int| 0 <= k < items.len() && is_key_item(#[trigger] items[k], "label"@) {
        string_setting(Some(p.label), items, "label"@)
    } else {
        p.label == humanized(f.name@)
    }
}

/// Every field of a planned model has a plan that says what its items say.
pub proof fn lemma_plans_say_items(fs: Seq<FieldDecl>)
    ensures
        fields_planned(fs) matches Ok(ps) ==> ps.len() == fs.len() && forall|i: int|
            0 <= i < ps.len() ==> plan_says_items(#[trigger] ps[i], fs[i]),
    decreases fs.len(),
{
    if fs.len() > 0 {
        lemma_plans_say_items(fs.drop_last());
        let items = fs.last().attrs@;
        lemma_settings_follow_items(items);
        if let (Ok(ps), Ok(done)) = (fields_planned(fs), fields_planned(fs.drop_last())) {
            assert(ps.drop_last() =~= done);
            let st = settings_of(items)->Ok_0;
            assert(settings_of(items) is Ok);
            if st.label is None {
                assert(!exists|k: int| 0 <= k < items.len() && is_key_item(#[trigger] items[k], "label"@));
            }
            assert(plan_says_items(ps[ps.len() - 1], fs.last()));
            assert forall|i: int| 0 <= i < ps.len() implies plan_says_items(#[trigger] ps[i], fs[i]) by {
                if i < ps.len() - 1 {
                    assert(ps[i] == done[i]);
                    assert(fs[i] == fs.drop_last()[i]);
                }
            }
        }
    }
}

/// Every field of a planned model that has a position lists as validators
/// all of its `validate = ...` items, in the order they are written; a
/// skipped field lists none.
pub proof fn lemma_plans_list_every_validator(fs: Seq<FieldDecl>)
    ensures
        fields_planned(fs) matches Ok(ps) ==> ps.len() == fs.len() && forall|i: int|
            0 <= i < ps.len() ==> if (#[trigger] ps[i]).index is Some {
                lists_validate_items(ps[i].validators, fs[i].attrs@)
            } else {
                ps[i].validators.len() == 0
            },
    decreases fs.len(),
{
    if fs.len() > 0 {
        lemma_plans_list_every_validator(fs.drop_last());
        lemma_settings_list_every_validator(fs.last().attrs@);
        if let (Ok(ps), Ok(done)) = (fields_planned(fs), fields_planned(fs.drop_last())) {
            assert(ps.drop_last() =~= done);
            assert forall|i: int| 0 <= i < ps.len() implies if (#[trigger] ps[i]).index is Some {
                lists_validate_items(ps[i].validators, fs[i].attrs@)
            } else {
                ps[i].validators.len() == 0
            } by {
                if i < ps.len() - 1 {
                    assert(ps[i] == done[i]);
                    assert(fs[i] == fs.drop_last()[i]);
                }
            }
        }
    }
}

/// The abstract form of a field plan.
pub open spec fn field_plan_view(p: FieldPlan) -> FieldPlanView {
    FieldPlanView {
        name: p.name@,
        index: match p.index {
            Some(i) => Some(i as nat),
            None => None,
        },
        label: p.label@,
        placeholder: match p.placeholder {
            Some(s) => Some(s@),
            None => None,
        },
        required: p.required,
        validators: p.validators@.map_values(|k: usize| k as nat),
    }
}

impl View for ModelPlan {
    type V = ModelPlanView;

    open spec fn view(&self) -> ModelPlanView {
        ModelPlanView { title: self.title@, fields: self.fields@.map_values(|p: FieldPlan| field_plan_view(p)) }
    }
}

/// The settings of a field, as they are read.
struct FieldSettings {
    label: Option<String>,
    placeholder: Option<String>,
    required: bool,
    skip: bool,
    validators: Vec<(bool, usize)>,
}

impl View for FieldSettings {
    type V = Settings;

    closed spec fn view(&self) -> Settings {
        Settings {
            label: match self.label {
                Some(s) => Some(s@),
                None => None,
            },
            placeholder: match self.placeholder {
                Some(s) => Some(s@),
                None => None,
            },
            required: self.required,
            skip: self.skip,
            validators: self.validators@.map_values(|v: (bool, usize)| (v.0, v.1 as nat)),
        }
    }
}

/// Reads item `k` into the settings.
fn read_item(st: &mut FieldSettings, item: &AttrItem, k: usize) -> (r: Result<(), PlanErrorKind>)
    ensures
        match (r, apply_item(old(st)@, *item, k as nat)) {
            (Ok(()), Ok(next)) => final(st)@ == next,
            (Err(e), Err(f)) => e == f,
            _ => false,
        },
{
    proof {
        reveal_strlit("required");
        reveal_strlit("skip");
        reveal_strlit("label");
        reveal_strlit("placeholder");
        reveal_strlit("validate");
    }
    match item {
        AttrItem::Flag(n) => {
            if str_eq(n.as_str(), "required") {
                st.required = true;
                Ok(())
            } else if str_eq(n.as_str(), "skip") {
                st.skip = true;
                Ok(())
            } else {
                Err(PlanErrorKind::Unsupported)
            }
        },
        AttrItem::Pair(key, v) => {
            if str_eq(key.as_str(), "label") {
                match v {
                    AttrValue::Str(s) => {
                        st.label = Some(s.clone());
                        Ok(())
                    },
                    _ => Err(PlanErrorKind::ExpectedString),
                }
            } else if str_eq(key.as_str(), "placeholder") {
                match v {
                    AttrValue::Str(s) => {
                        st.placeholder = Some(s.clone());
                        Ok(())
                    },
                    _ => Err(PlanErrorKind::ExpectedString),
                }
            } else if str_eq(key.as_str(), "validate") {
                let is_path = match v {
                    AttrValue::Path(_) => true,
                    _ => false,
                };
                let ghost before = st.validators@;
                st.validators.push((is_path, k));
                assert(st@.validators =~= old(st)@.validators.push((is_path, k as nat)));
                Ok(())
            } else {
                Err(PlanErrorKind::Unsupported)
            }
        },
        AttrItem::Other => Err(PlanErrorKind::Unsupported),
    }
}

/// Reads a field's items in order.
fn read_settings(items: &Vec<AttrItem>) -> (r: Result<FieldSettings, (PlanErrorKind, usize)>)
    ensures
        match (r, settings_of(items@)) {
            (Ok(st), Ok(v)) => st@ == v,
            (Err(e), Err(f)) => e.0 == f.0 && e.1 as nat == f.1,
            _ => false,
        },
{
    let mut st = FieldSettings { label: None, placeholder: None, required: false, skip: false, validators: Vec::new() };
    assert(st@.validators =~= Seq::<(bool, nat)>::empty());
    assert(items@.take(0) =~= Seq::<AttrItem>::empty());
    let mut k: usize = 0;
    while k < items.len()
        invariant
            k <= items@.len(),
            settings_of(items@.take(k as int)) == Ok::<Settings, (PlanErrorKind, nat)>(st@),
        decreases items@.len() - k,
    {
        let ghost prefix = items@.take(k + 1);
        assert(prefix.drop_last() =~= items@.take(k as int));
        assert(prefix.last() == items@[k as int]);
        match read_item(&mut st, &items[k], k) {
            Ok(()) => {},
            Err(kind) => {
                assert(settings_of(prefix) == Err::<Settings, (PlanErrorKind, nat)>((kind, k as nat)));
                assert(settings_of(items@) == Err::<Settings, (PlanErrorKind, nat)>((kind, k as nat))) by {
                    lemma_settings_error_stays(items@, k as int + 1);
                }
                return Err((kind, k));
            },
        }
        k = k + 1;
    }
    assert(items@.take(k as int) =~= items@);
    Ok(st)
}

/// Once a prefix of the items is in error, so are all the items.
proof fn lemma_settings_error_stays(items: Seq<AttrItem>, n: int)
    requires
        0 <= n <= items.len(),
        settings_of(items.take(n)) is Err,
    ensures
        settings_of(items) == settings_of(items.take(n)),
    decreases items.len() - n,
{
    if n < items.len() {
        assert(items.take(n + 1).drop_last() =~= items.take(n));
        lemma_settings_error_stays(items, n + 1);
    } else {
        assert(items.take(n) =~= items);
    }
}

/// The item of the first validator that is not a path.
fn find_non_path(vs: &Vec<(bool, usize)>) -> (r: Option<usize>)
    ensures
        match r {
            Some(k) => first_non_path(vs@.map_values(|v: (bool, usize)| (v.0, v.1 as nat))) == Some(k as nat),
            None => first_non_path(vs@.map_values(|v: (bool, usize)| (v.0, v.1 as nat))) is None,
        },
{
    let ghost w = vs@.map_values(|v: (bool, usize)| (v.0, v.1 as nat));
    let mut i: usize = 0;
    assert(w.take(0) =~= Seq::<(bool, nat)>::empty());
    while i < vs.len()
        invariant
            i <= vs@.len(),
            w == vs@.map_values(|v: (bool, usize)| (v.0, v.1 as nat)),
            first_non_path(w.take(i as int)) is None,
        decreases vs@.len() - i,
    {
        let ghost prefix = w.take(i + 1);
        assert(prefix.drop_last() =~= w.take(i as int));
        assert(prefix.last() == w[i as int]);
        let (is_path, k) = vs[i];
        if !is_path {
            assert(first_non_path(prefix) == Some(k as nat));
            proof {
                lemma_non_path_stays(w, i as int + 1);
            }
            return Some(k);
        }
        i = i + 1;
    }
    assert(w.take(i as int) =~= w);
    None
}

proof fn lemma_non_path_stays(vs: Seq<(bool, nat)>, n: int)
    requires
        0 <= n <= vs.len(),
        first_non_path(vs.take(n)) is Some,
    ensures
        first_non_path(vs) == first_non_path(vs.take(n)),
    decreases vs.len() - n,
{
    if n < vs.len() {
        assert(vs.take(n + 1).drop_last() =~= vs.take(n));
        lemma_non_path_stays(vs, n + 1);
    } else {
        assert(vs.take(n) =~= vs);
    }
}

/// The title that a struct's items give.
fn read_title(items: &Vec<AttrItem>) -> (r: Result<Option<String>, usize>)
    ensures
        match (r, title_of(items@)) {
            (Ok(Some(t)), Ok(Some(u))) => t@ == u,
            (Ok(None), Ok(None)) => true,
            (Err(k), Err(j)) => k as nat == j,
            _ => false,
        },
{
    proof {
        reveal_strlit("title");
    }
    let mut k: usize = 0;
    assert(items@.take(0) =~= Seq::<AttrItem>::empty());
    while k < items.len()
        invariant
            k <= items@.len(),
            title_of(items@.take(k as int)) == Ok::<Option<Seq<char>>, nat>(None),
        decreases items@.len() - k,
    {
        let ghost prefix = items@.take(k + 1);
        assert(prefix.drop_last() =~= items@.take(k as int));
        assert(prefix.last() == items@[k as int]);
        match &items[k] {
            AttrItem::Pair(key, v) => {
                if str_eq(key.as_str(), "title") {
                    proof {
                        lemma_title_stays(items@, k as int + 1);
                    }
                    return match v {
                        AttrValue::Str(t) => Ok(Some(t.clone())),
                        _ => Err(k),
                    };
                }
            },
            _ => {},
        }
        k = k + 1;
    }
    assert(items@.take(k as int) =~= items@);
    Ok(None)
}

/// Once a prefix of the items gives a title or an error, all the items do.
proof fn lemma_title_stays(items: Seq<AttrItem>, n: int)
    requires
        0 <= n <= items.len(),
        title_of(items.take(n)) != Ok::<Option<Seq<char>>, nat>(None),
    ensures
        title_of(items) == title_of(items.take(n)),
    decreases items.len() - n,
{
    if n < items.len() {
        assert(items.take(n + 1).drop_last() =~= items.take(n));
        lemma_title_stays(items, n + 1);
    } else {
        assert(items.take(n) =~= items);
    }
}

/// Once a prefix of the fields is in error, so are all the fields.
proof fn lemma_fields_error_stays(fs: Seq<FieldDecl>, n: int)
    requires
        0 <= n <= fs.len(),
        fields_planned(fs.take(n)) is Err,
    ensures
        fields_planned(fs) == fields_planned(fs.take(n)),
    decreases fs.len() - n,
{
    if n < fs.len() {
        assert(fs.take(n + 1).drop_last() =~= fs.take(n));
        lemma_fields_error_stays(fs, n + 1);
    } else {
        assert(fs.take(n) =~= fs);
    }
}

/// The plans of the fields in order.
fn plan_fields(fs: &Vec<FieldDecl>) -> (r: Result<Vec<FieldPlan>, PlanError>)
    ensures
        match (r, fields_planned(fs@)) {
            (Ok(ps), Ok(v)) => ps@.map_values(|p: FieldPlan| field_plan_view(p)) == v,
            (Err(e), Err(f)) => e == f,
            _ => false,
        },
{
    let mut plans: Vec<FieldPlan> = Vec::new();
    let mut shown: usize = 0;
    let mut j: usize = 0;
    assert(fs@.take(0) =~= Seq::<FieldDecl>::empty());
    assert(plans@.map_values(|p: FieldPlan| field_plan_view(p)) =~= Seq::<FieldPlanView>::empty());
    while j < fs.len()
        invariant
            j <= fs@.len(),
            shown <= j,
            fields_planned(fs@.take(j as int)) == Ok::<Seq<FieldPlanView>, PlanError>(
                plans@.map_values(|p: FieldPlan| field_plan_view(p)),
            ),
            shown_count(plans@.map_values(|p: FieldPlan| field_plan_view(p))) == shown,
        decreases fs@.len() - j,
    {
        let ghost done = plans@.map_values(|p: FieldPlan| field_plan_view(p));
        let ghost prefix = fs@.take(j + 1);
        assert(prefix.drop_last() =~= fs@.take(j as int));
        assert(prefix.last() == fs@[j as int]);
        let f = &fs[j];
        let st = match read_settings(&f.attrs) {
            Ok(st) => st,
            Err((kind, k)) => {
                let e = PlanError { kind, field: Some(j), item: k };
                proof {
                    lemma_fields_error_stays(fs@, j as int + 1);
                }
                return Err(e);
            },
        };
        let label = match &st.label {
            Some(l) => l.clone(),
            None => humanize(f.name.as_str()),
        };
        let placeholder = match &st.placeholder {
            Some(p) => Some(p.clone()),
            None => None,
        };
        let plan = if st.skip {
            FieldPlan {
                name: f.name.clone(),
                index: None,
                label,
                placeholder,
                required: st.required,
                validators: Vec::new(),
            }
        } else {
            match find_non_path(&st.validators) {
                Some(k) => {
                    proof {
                        lemma_fields_error_stays(fs@, j as int + 1);
                    }
                    return Err(PlanError { kind: PlanErrorKind::ExpectedPath, field: Some(j), item: k });
                },
                None => {},
            }
            let mut items: Vec<usize> = Vec::new();
            let mut v: usize = 0;
            while v < st.validators.len()
                invariant
                    v <= st.validators@.len(),
                    items@.map_values(|k: usize| k as nat) == st@.validators.take(v as int).map_values(
                        |x: (bool, nat)| x.1,
                    ),
                decreases st.validators@.len() - v,
            {
                let ghost before = items@;
                items.push(st.validators[v].1);
                proof {
                    assert(st@.validators[v as int] == (st.validators@[v as int].0, st.validators@[v as int].1 as nat));
                    assert(items@.map_values(|k: usize| k as nat) =~= before.map_values(|k: usize| k as nat).push(
                        st.validators@[v as int].1 as nat,
                    ));
                    assert(st@.validators.take(v + 1).map_values(|x: (bool, nat)| x.1) =~= st@.validators.take(
                        v as int,
                    ).map_values(|x: (bool, nat)| x.1).push(st@.validators[v as int].1));
                }
                v = v + 1;
            }
            assert(st@.validators.take(v as int) =~= st@.validators);
            FieldPlan { name: f.name.clone(), index: Some(shown), label, placeholder, required: st.required, validators: items }
        };
        let ghost pv = field_plan_view(plan);
        let ghost expected = field_plan_of(f.name@, st@, if st@.skip { None } else { Some(shown as nat) });
        assert(pv == expected) by {
            assert(pv.validators =~= expected.validators);
        }
        let ghost is_shown = plan.index is Some;
        plans.push(plan);
        proof {
            assert(plans@.map_values(|p: FieldPlan| field_plan_view(p)) =~= done.push(pv));
            assert(done.push(pv).drop_last() =~= done);
        }
        if !st.skip {
            assert(shown < usize::MAX) by {
                assert(shown <= j);
                assert(j < fs@.len());
            }
            shown = shown + 1;
        }
        j = j + 1;
    }
    assert(fs@.take(j as int) =~= fs@);
    Ok(plans)
}

/// What a model declaration makes: the form's title and each field's plan,
/// or the first error.
pub fn plan_model(d: &ModelDecl) -> (r: Result<ModelPlan, PlanError>)
    ensures
        match (r, model_planned(*d)) {
            (Ok(p), Ok(v)) => p@ == v,
            (Err(e), Err(f)) => e == f,
            _ => false,
        },
{
    if d.generic {
        return Err(PlanError { kind: PlanErrorKind::Generic, field: None, item: 0 });
    }
    let fs = match &d.shape {
        ModelShape::NamedFields(fs) => fs,
        ModelShape::OtherStruct => {
            return Err(PlanError { kind: PlanErrorKind::NotNamedFields, field: None, item: 0 });
        },
        ModelShape::NotAStruct => {
            return Err(PlanError { kind: PlanErrorKind::NotAStruct, field: None, item: 0 });
        },
    };
    let title = match read_title(&d.attrs) {
        Ok(Some(t)) => t,
        Ok(None) => d.name.clone(),
        Err(k) => {
            return Err(PlanError { kind: PlanErrorKind::ExpectedString, field: None, item: k });
        },
    };
    match plan_fields(fs) {
        Ok(fields) => Ok(ModelPlan { title, fields }),
        Err(e) => Err(e),
    }
}

} // verus!
