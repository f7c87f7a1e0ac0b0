//! Schema migration / versioning.
//!
//! When a [`DnaSchema`] evolves (fields added, removed, renamed, or
//! retyped), a [`MigrationPlan`] describes how to transform old data into
//! the new shape. Plans are built from a sequence of [`MigrationStep`]s and
//! can be applied to any struct value.
//!
//! Conversions and custom transformations are functions supplied by the
//! plan's author: `C` converts one field's value, `T` rewrites the whole
//! value in place.

use vstd::prelude::*;
use vstd::string::*;

use super::schema::{
    default_model, field_default, first_field, lemma_first_field, DnaField, DnaSchema, DnaType,
    fields_model, FieldModel, TypeModel,
};
use super::value::{dna_map_entries, DnaMap, DnaValue, ValueModel};
use crate::index_map::{entries_insert, entries_remove, key_position, lemma_key_position};
use crate::text::str_eq;

verus! {

/// A single atomic transformation in a migration.
#[derive(Debug, Clone)]
pub enum MigrationStep<C, T> {
    /// Add a new field with a default value.
    AddField { name: String, ty: DnaType, default: DnaValue },
    /// Remove a field (its data is discarded).
    RemoveField { name: String },
    /// Rename a field (preserving its value).
    RenameField { old_name: String, new_name: String },
    /// Change a field's type, applying a conversion function.
    ChangeFieldType { name: String, new_ty: DnaType, convert: C },
    /// Apply a custom transformation to the entire struct value.
    Custom { description: String, transform: T },
}

/// What a step says, without its functions.
pub enum StepShape {
    AddField { name: Seq<char>, ty: TypeModel, default: ValueModel },
    RemoveField { name: Seq<char> },
    RenameField { old_name: Seq<char>, new_name: Seq<char> },
    ChangeFieldType { name: Seq<char>, new_ty: TypeModel },
    Custom { description: Seq<char> },
}

pub open spec fn step_shape<C, T>(s: MigrationStep<C, T>) -> StepShape {
    match s {
        MigrationStep::AddField { name, ty, default } => StepShape::AddField {
            name: name@,
            ty: ty.model(),
            default: default.model(),
        },
        MigrationStep::RemoveField { name } => StepShape::RemoveField { name: name@ },
        MigrationStep::RenameField { old_name, new_name } => StepShape::RenameField {
            old_name: old_name@,
            new_name: new_name@,
        },
        MigrationStep::ChangeFieldType { name, new_ty, .. } => StepShape::ChangeFieldType {
            name: name@,
            new_ty: new_ty.model(),
        },
        MigrationStep::Custom { description, .. } => StepShape::Custom { description: description@ },
    }
}

/// A plan describing how to migrate a DNA value from `from_version` to
/// `to_version`.
#[derive(Debug, Clone)]
pub struct MigrationPlan<C, T> {
    /// The schema name this plan applies to.
    pub schema_name: String,
    /// Source version.
    pub from_version: u32,
    /// Target version.
    pub to_version: u32,
    /// Ordered list of migration steps.
    pub steps: Vec<MigrationStep<C, T>>,
}

/// Errors produced when applying a migration.
#[derive(Debug, Clone)]
pub enum MigrationError {
    /// The value is not a struct.
    NotAStruct,
    /// A rename target already exists.
    FieldAlreadyExists(String),
    /// A type conversion produced an unexpected result.
    ConversionFailed(String),
}

impl MigrationError {
    /// The error's message, as `Display` writes it.
    pub fn to_string(&self) -> (r: String)
        ensures
            r@ == match self {
                MigrationError::NotAStruct => "migration target is not a struct"@,
                MigrationError::FieldAlreadyExists(name) => "field already exists: "@ + name@,
                MigrationError::ConversionFailed(msg) => "conversion failed: "@ + msg@,
            },
    {
        match self {
            MigrationError::NotAStruct => String::from_str("migration target is not a struct"),
            MigrationError::FieldAlreadyExists(name) => {
                let mut s = String::from_str("field already exists: ");
                s.append(name.as_str());
                s
            },
            MigrationError::ConversionFailed(msg) => {
                let mut s = String::from_str("conversion failed: ");
                s.append(msg.as_str());
                s
            },
        }
    }
}

// ---------------------------------------------------------------------------
// What a step does.
// ---------------------------------------------------------------------------

/// The error a step meets on a value, if any: every step but `Custom` needs
/// a struct, and a rename needs its new name to be free.
pub open spec fn step_error<C, T>(s: MigrationStep<C, T>, v: ValueModel) -> Option<MigrationError> {
    match s {
        MigrationStep::Custom { .. } => None,
        MigrationStep::RenameField { new_name, .. } => match v {
            ValueModel::Struct(e) => if key_position(e, new_name@) >= 0 {
                Some(MigrationError::FieldAlreadyExists(new_name))
            } else {
                None
            },
            _ => Some(MigrationError::NotAStruct),
        },
        _ => if v is Struct {
            None
        } else {
            Some(MigrationError::NotAStruct)
        },
    }
}

/// A step that meets no error takes `v` to `w`: adding a missing field
/// appends it, removing a field drops it, renaming moves the value to the
/// end under its new name, converting a present field replaces its value in
/// place by a result of the conversion. What a custom step leaves is what
/// its transformation leaves; [`MigrationPlan::apply`] states it.
pub open spec fn step_ok<C: Fn(&DnaValue) -> DnaValue, T: Fn(&mut DnaValue)>(
    s: MigrationStep<C, T>,
    v: ValueModel,
    w: ValueModel,
) -> bool {
    match s {
        MigrationStep::Custom { .. } => true,
        _ => match v {
            ValueModel::Struct(e) => match s {
                MigrationStep::AddField { name, default, .. } => w == ValueModel::Struct(
                    if key_position(e, name@) >= 0 {
                        e
                    } else {
                        e.push((name@, default.model()))
                    },
                ),
                MigrationStep::RemoveField { name } => w == ValueModel::Struct(entries_remove(e, name@)),
                MigrationStep::RenameField { old_name, new_name } => w == ValueModel::Struct(
                    if key_position(e, old_name@) >= 0 {
                        entries_insert(
                            entries_remove(e, old_name@),
                            new_name@,
                            e[key_position(e, old_name@)].1,
                        )
                    } else {
                        e
                    },
                ),
                MigrationStep::ChangeFieldType { name, convert, .. } => {
                    let p = key_position(e, name@);
                    if p >= 0 {
                        exists|x: DnaValue, y: DnaValue|
                            x.model() == e[p].1 && #[trigger] call_ensures(convert, (&x,), y) && w
                                == ValueModel::Struct(e.update(p, (name@, y.model())))
                    } else {
                        w == v
                    }
                },
                MigrationStep::Custom { .. } => false,
            },
            _ => false,
        },
    }
}

/// `trace` lists the values that the steps go through without error: it
/// starts with the value before the first step, and each step takes one
/// value of the trace to the next.
pub open spec fn trace_ok<C: Fn(&DnaValue) -> DnaValue, T: Fn(&mut DnaValue)>(
    steps: Seq<MigrationStep<C, T>>,
    trace: Seq<ValueModel>,
) -> bool {
    &&& trace.len() == steps.len() + 1
    &&& forall|i: int|
        0 <= i < steps.len() ==> step_error(#[trigger] steps[i], trace[i]) is None && step_ok(
            steps[i],
            trace[i],
            trace[i + 1],
        )
}

/// `trace` takes `v` to `w` through `steps` without error.
pub open spec fn migrates<C: Fn(&DnaValue) -> DnaValue, T: Fn(&mut DnaValue)>(
    steps: Seq<MigrationStep<C, T>>,
    v: ValueModel,
    w: ValueModel,
    trace: Seq<ValueModel>,
) -> bool {
    trace_ok(steps, trace) && trace[0] == v && trace.last() == w
}

/// Step `k` of `steps` stops with error `e` at value `w`, after the steps
/// before it took `v` to `w` along `trace` without error.
pub open spec fn fails_at<C: Fn(&DnaValue) -> DnaValue, T: Fn(&mut DnaValue)>(
    steps: Seq<MigrationStep<C, T>>,
    v: ValueModel,
    w: ValueModel,
    e: MigrationError,
    k: int,
    trace: Seq<ValueModel>,
) -> bool {
    0 <= k < steps.len() && migrates(steps.take(k), v, w, trace) && step_error(steps[k], w) == Some(e)
}

impl<C, T> MigrationPlan<C, T> {
    /// The plan's steps, in order.
    pub open spec fn step_seq(&self) -> Seq<MigrationStep<C, T>> {
        self.steps@
    }

    /// A new, empty migration plan.
    pub fn new(schema_name: &str, from_version: u32, to_version: u32) -> (p: Self)
        ensures
            p.schema_name@ == schema_name@,
            p.from_version == from_version,
            p.to_version == to_version,
            p.step_seq().len() == 0,
    {
        MigrationPlan {
            schema_name: schema_name.to_owned(),
            from_version,
            to_version,
            steps: Vec::new(),
        }
    }

    /// Builder: append a migration step.
    pub fn step(self, step: MigrationStep<C, T>) -> (p: Self)
        ensures
            p.schema_name == self.schema_name,
            p.from_version == self.from_version,
            p.to_version == self.to_version,
            p.step_seq() == self.step_seq().push(step),
    {
        let mut p = self;
        p.steps.push(step);
        p
    }

    /// The number of steps in this plan.
    pub fn step_count(&self) -> (n: usize)
        ensures
            n == self.step_seq().len(),
    {
        self.steps.len()
    }

    /// All steps, in order.
    pub fn steps(&self) -> (s: &[MigrationStep<C, T>])
        ensures
            s@ == self.step_seq(),
    {
        self.steps.as_slice()
    }
}

/// Every conversion and custom transformation of the steps may be called on
/// any value.
pub open spec fn steps_callable<C: Fn(&DnaValue) -> DnaValue, T: Fn(&mut DnaValue)>(steps: Seq<MigrationStep<C, T>>) -> bool {
    forall|i: int|
        0 <= i < steps.len() ==> match #[trigger] steps[i] {
            MigrationStep::ChangeFieldType { convert, .. } => forall|x: &DnaValue| call_requires(convert, (x,)),
            MigrationStep::Custom { transform, .. } => forall|x: &mut DnaValue| call_requires(transform, (x,)),
            _ => true,
        }
}

/// A stop at step `k` along `trace`, with the custom steps before it run,
/// gives the failure that [`MigrationPlan::apply`] reports.
proof fn lemma_stop_witness<C: Fn(&DnaValue) -> DnaValue, T: Fn(&mut DnaValue)>(
    steps: Seq<MigrationStep<C, T>>,
    v: ValueModel,
    w: ValueModel,
    e: MigrationError,
    k: int,
    trace: Seq<ValueModel>,
)
    requires
        fails_at(steps, v, w, e, k, trace),
        forall|j: int|
            0 <= j < k && #[trigger] steps[j] is Custom ==> exists|x: &mut DnaValue|
                (*x).model() == trace[j] && (*final(x)).model() == trace[j + 1] && call_ensures(
                    steps[j]->transform,
                    (x,),
                    (),
                ),
    ensures
        exists|k2: int, tr: Seq<ValueModel>|
            #![trigger fails_at(steps, v, w, e, k2, tr)]
            fails_at(steps, v, w, e, k2, tr) && forall|j: int|
                0 <= j < k2 && #[trigger] steps[j] is Custom ==> exists|x: &mut DnaValue|
                    (*x).model() == tr[j] && (*final(x)).model() == tr[j + 1] && call_ensures(
                        steps[j]->transform,
                        (x,),
                        (),
                    ),
{
}

impl<C: Fn(&DnaValue) -> DnaValue, T: Fn(&mut DnaValue)> MigrationPlan<C, T> {
    /// Applies the steps in order to a struct value, in place. The first
    /// step that meets an error stops the migration with that error; the
    /// steps before it stay applied.
    #[verifier::spinoff_prover]
    pub fn apply(&self, value: &mut DnaValue) -> (r: Result<(), MigrationError>)
        requires
            steps_callable(self.step_seq()),
        ensures
            r is Ok ==> exists|trace: Seq<ValueModel>|
                #![trigger migrates(self.step_seq(), old(value).model(), final(value).model(), trace)]
                migrates(self.step_seq(), old(value).model(), final(value).model(), trace) && forall|j: int|
                    0 <= j < self.step_seq().len() && #[trigger] self.step_seq()[j] is Custom ==> exists|x: &mut DnaValue|
                        (*x).model() == trace[j] && (*final(x)).model() == trace[j + 1] && call_ensures(
                            self.step_seq()[j]->transform,
                            (x,),
                            (),
                        ),
            r matches Err(e) ==> exists|k: int, trace: Seq<ValueModel>|
                #![trigger fails_at(self.step_seq(), old(value).model(), final(value).model(), e, k, trace)]
                fails_at(self.step_seq(), old(value).model(), final(value).model(), e, k, trace) && forall|j: int|
                    0 <= j < k && #[trigger] self.step_seq()[j] is Custom ==> exists|x: &mut DnaValue|
                        (*x).model() == trace[j] && (*final(x)).model() == trace[j + 1] && call_ensures(
                            self.step_seq()[j]->transform,
                            (x,),
                            (),
                        ),
    {
        let ghost start = value.model();
        let ghost mut trace: Seq<ValueModel> = seq![start];
        let mut i: usize = 0;
        while i < self.steps.len()
            invariant
                i <= self.steps@.len(),
                steps_callable(self.steps@),
                start == old(value).model(),
                trace_ok(self.steps@.take(i as int), trace),
                forall|j: int|
                    0 <= j < i && #[trigger] self.steps@[j] is Custom ==> exists|x: &mut DnaValue|
                        (*x).model() == trace[j] && (*final(x)).model() == trace[j + 1] && call_ensures(
                            self.steps@[j]->transform,
                            (x,),
                            (),
                        ),
                trace[0] == start,
                trace.last() == value.model(),
            decreases self.steps@.len() - i,
        {
            let ghost u = value.model();
            let ghost step = self.steps@[i as int];
            assert(migrates(self.steps@.take(i as int), start, u, trace));
            let custom = match &self.steps[i] {
                MigrationStep::Custom { .. } => true,
                _ => false,
            };
            let is_struct = match &*value {
                DnaValue::Struct(_) => true,
                _ => false,
            };
            // Every step but a custom one needs a struct value, so the `_`
            // arms below are never reached.
            if !custom && !is_struct {
                proof {
                    lemma_stop_witness(
                        self.step_seq(),
                        old(value).model(),
                        (*final(value)).model(),
                        MigrationError::NotAStruct,
                        i as int,
                        trace,
                    );
                }
                return Err(MigrationError::NotAStruct);
            }
            match &self.steps[i] {
                MigrationStep::AddField { name, default, .. } => {
                    match value {
                        DnaValue::Struct(map) => {
                            if !map.contains_key(name.as_str()) {
                                map.insert(name.clone(), default.clone());
                            }
                        },
                        _ => {},
                    }
                },
                MigrationStep::RemoveField { name } => {
                    match value {
                        DnaValue::Struct(map) => {
                            map.shift_remove(name.as_str());
                        },
                        _ => {},
                    }
                },
                MigrationStep::RenameField { old_name, new_name } => {
                    let taken = match &*value {
                        DnaValue::Struct(map) => map.contains_key(new_name.as_str()),
                        _ => false,
                    };
                    if taken {
                        let err = MigrationError::FieldAlreadyExists(new_name.clone());
                        assert(step_error(step, u) == Some(err));
                        proof {
                            lemma_stop_witness(
                                self.step_seq(),
                                old(value).model(),
                                (*final(value)).model(),
                                err,
                                i as int,
                                trace,
                            );
                        }
                        return Err(err);
                    }
                    match value {
                        DnaValue::Struct(map) => {
                            let ghost e = dna_map_entries(*map);
                            proof {
                                lemma_key_position(e, old_name@);
                            }
                            match map.shift_remove(old_name.as_str()) {
                                Some(val) => {
                                    map.insert(new_name.clone(), val);
                                },
                                None => {},
                            }
                        },
                        _ => {},
                    }
                },
                MigrationStep::ChangeFieldType { name, convert, .. } => {
                    match value {
                        DnaValue::Struct(map) => {
                            let ghost e = dna_map_entries(*map);
                            proof {
                                lemma_key_position(e, name@);
                            }
                            let converted = match map.get(name.as_str()) {
                                Some(old_val) => Some(convert(old_val)),
                                None => None,
                            };
                            match converted {
                                Some(new_val) => {
                                    map.insert(name.clone(), new_val);
                                },
                                None => {},
                            }
                        },
                        _ => {},
                    }
                },
                MigrationStep::Custom { transform, .. } => {
                    let ghost before = *value;
                    transform(value);
                    assert(exists|y: &mut DnaValue|
                        call_ensures(*transform, (y,), ()) && *y == before && *final(y) == *value);
                },
            }
            assert(step_error(step, u) is None);
            assert(step_ok(step, u, value.model()));
            proof {
                let t2 = trace.push(value.model());
                let s2 = self.steps@.take(i + 1);
                assert forall|j: int| 0 <= j < s2.len() implies step_error(#[trigger] s2[j], t2[j]) is None
                    && step_ok(s2[j], t2[j], t2[j + 1]) by {
                    if j < i {
                        assert(s2[j] == self.steps@.take(i as int)[j]);
                        assert(t2[j] == trace[j] && t2[j + 1] == trace[j + 1]);
                    }
                }
                assert forall|j: int|
                    0 <= j < i + 1 && #[trigger] self.steps@[j] is Custom implies exists|x: &mut DnaValue|
                        (*x).model() == t2[j] && (*final(x)).model() == t2[j + 1] && call_ensures(
                            self.steps@[j]->transform,
                            (x,),
                            (),
                        ) by {
                    if j < i {
                        assert(t2[j] == trace[j] && t2[j + 1] == trace[j + 1]);
                    } else {
                        assert(t2[j] == u && t2[j + 1] == value.model());
                    }
                }
                trace = t2;
            }
            i = i + 1;
        }
        assert(self.steps@.take(self.steps@.len() as int) =~= self.steps@);
        assert(trace_ok(self.steps@, trace));
        assert(migrates(self.steps@, start, value.model(), trace));
        Ok(())
    }
}

// ---------------------------------------------------------------------------
// Deriving a plan from two schemas.
// ---------------------------------------------------------------------------

/// `AddField` steps for the fields of `new_fields` (in order) whose names
/// `old_fields` lacks, each with the field's start value.
pub open spec fn added_steps(old_fields: Seq<FieldModel>, new_fields: Seq<FieldModel>) -> Seq<StepShape>
    decreases new_fields.len(),
{
    if new_fields.len() == 0 {
        Seq::empty()
    } else {
        let rest = added_steps(old_fields, new_fields.drop_last());
        let f = new_fields.last();
        if first_field(old_fields, f.name) >= 0 {
            rest
        } else {
            rest.push(StepShape::AddField { name: f.name, ty: f.ty, default: field_default(f) })
        }
    }
}

/// `RemoveField` steps for the fields of `old_fields` (in order) whose
/// names `new_fields` lacks.
pub open spec fn removed_steps(old_fields: Seq<FieldModel>, new_fields: Seq<FieldModel>) -> Seq<StepShape>
    decreases old_fields.len(),
{
    if old_fields.len() == 0 {
        Seq::empty()
    } else {
        let rest = removed_steps(old_fields.drop_last(), new_fields);
        let f = old_fields.last();
        if first_field(new_fields, f.name) >= 0 {
            rest
        } else {
            rest.push(StepShape::RemoveField { name: f.name })
        }
    }
}

/// Whether some field is named `name`.
fn has_field(fields: &Vec<DnaField>, name: &str) -> (b: bool)
    ensures
        b == (first_field(fields_model(fields@), name@) >= 0),
{
    let ghost fs = fields_model(fields@);
    proof {
        lemma_first_field(fs, name@);
    }
    let mut i: usize = 0;
    while i < fields.len()
        invariant
            i <= fields@.len() == fs.len(),
            fs == fields_model(fields@),
            forall|j: int| 0 <= j < i ==> #[trigger] fs[j].name != name@,
            first_field(fs, name@) >= 0 ==> fs[first_field(fs, name@)].name == name@,
            -1 <= first_field(fs, name@) < fs.len(),
            forall|j: int| 0 <= j < fs.len() && (first_field(fs, name@) < 0 || j < first_field(fs, name@))
                ==> #[trigger] fs[j].name != name@,
        decreases fields@.len() - i,
    {
        if str_eq(fields[i].name.as_str(), name) {
            assert(fs[i as int].name == name@);
            return true;
        }
        assert(fs[i as int].name != name@);
        i = i + 1;
    }
    false
}

impl<C, T> MigrationPlan<C, T> {
    /// Derives a migration plan by diffing two schemas: an `AddField` step
    /// for each field of `new` missing from `old` (with the field's default,
    /// or its type's), then a `RemoveField` step for each field of `old`
    /// missing from `new`. Renames and type changes are not detected.
    pub fn auto_diff(old: &DnaSchema, new: &DnaSchema) -> (p: Self)
        ensures
            p.schema_name@ == new.name@,
            p.from_version == old.version,
            p.to_version == new.version,
            p.step_seq().map_values(|s: MigrationStep<C, T>| step_shape(s)) == added_steps(
                old.model().fields,
                new.model().fields,
            ) + removed_steps(old.model().fields, new.model().fields),
    {
        let ghost om = old.model().fields;
        let ghost nm = new.model().fields;
        let mut plan = Self::new(new.name.as_str(), old.version, new.version);
        // Fields added in new.
        let mut j: usize = 0;
        assert(nm.take(0) =~= Seq::<FieldModel>::empty());
        assert(plan.steps@.map_values(|s: MigrationStep<C, T>| step_shape(s)) =~= Seq::<StepShape>::empty());
        while j < new.fields.len()
            invariant
                j <= new.fields@.len() == nm.len(),
                om == old.model().fields,
                nm == new.model().fields,
                plan.schema_name@ == new.name@,
                plan.from_version == old.version,
                plan.to_version == new.version,
                plan.steps@.map_values(|s: MigrationStep<C, T>| step_shape(s)) == added_steps(om, nm.take(j as int)),
            decreases new.fields@.len() - j,
        {
            let field = &new.fields[j];
            assert(nm.take(j + 1).drop_last() =~= nm.take(j as int));
            assert(nm.take(j + 1).last() == field.model());
            let ghost before = plan.steps@;
            if !has_field(&old.fields, field.name.as_str()) {
                let default = match &field.default {
                    Some(d) => d.clone(),
                    None => DnaValue::default_for_type(&field.ty),
                };
                plan.steps.push(MigrationStep::AddField { name: field.name.clone(), ty: field.ty.clone(), default });
                assert(plan.steps@.map_values(|s: MigrationStep<C, T>| step_shape(s)) =~= before.map_values(
                    |s: MigrationStep<C, T>| step_shape(s),
                ).push(StepShape::AddField { name: field.name@, ty: field.ty.model(), default: field_default(field.model()) }));
            }
            j = j + 1;
        }
        assert(nm.take(nm.len() as int) =~= nm);
        let ghost adds = plan.steps@.map_values(|s: MigrationStep<C, T>| step_shape(s));
        // Fields removed from old.
        let mut k: usize = 0;
        assert(om.take(0) =~= Seq::<FieldModel>::empty());
        assert(adds + removed_steps(om.take(0), nm) =~= adds);
        while k < old.fields.len()
            invariant
                k <= old.fields@.len() == om.len(),
                om == old.model().fields,
                nm == new.model().fields,
                plan.schema_name@ == new.name@,
                plan.from_version == old.version,
                plan.to_version == new.version,
                adds == added_steps(om, nm),
                plan.steps@.map_values(|s: MigrationStep<C, T>| step_shape(s)) == adds + removed_steps(
                    om.take(k as int),
                    nm,
                ),
            decreases old.fields@.len() - k,
        {
            let field = &old.fields[k];
            assert(om.take(k + 1).drop_last() =~= om.take(k as int));
            assert(om.take(k + 1).last() == field.model());
            let ghost before = plan.steps@;
            if !has_field(&new.fields, field.name.as_str()) {
                plan.steps.push(MigrationStep::RemoveField { name: field.name.clone() });
                assert(plan.steps@.map_values(|s: MigrationStep<C, T>| step_shape(s)) =~= before.map_values(
                    |s: MigrationStep<C, T>| step_shape(s),
                ).push(StepShape::RemoveField { name: field.name@ }));
                assert(adds + removed_steps(om.take(k + 1), nm) =~= (adds + removed_steps(om.take(k as int), nm)).push(
                    StepShape::RemoveField { name: field.name@ },
                ));
            }
            k = k + 1;
        }
        assert(om.take(om.len() as int) =~= om);
        plan
    }
}

} // verus!
