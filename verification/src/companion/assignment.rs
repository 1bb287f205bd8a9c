//! Model assignments from the coordinator: the phone's constraints, whether
//! an assignment fits them, and the models it holds. The comparison of a
//! full model's size in billions of parameters is made by the caller, in
//! floating point, and handed in as a flag.
use vstd::prelude::*;

use crate::companion::types::{AssignmentPriority, ConnectionType};
use crate::text::{push_str, string_from_chars};

verus! {

/// Errors of assignment handling.
#[derive(Debug, Clone, PartialEq)]
pub enum AssignmentError {
    /// The model is not loaded (nothing to unload).
    ModelNotLoaded(String),
    /// An internal failure.
    InternalError(String),
}

/// The message of an assignment error.
pub open spec fn assignment_error_text(e: AssignmentError) -> Seq<char> {
    match e {
        AssignmentError::ModelNotLoaded(id) => "Model not loaded: "@ + id@,
        AssignmentError::InternalError(m) => "Internal error: "@ + m@,
    }
}

impl AssignmentError {
    /// The human-readable message of the error.
    pub fn to_text(&self) -> (s: String)
        ensures
            s@ == assignment_error_text(*self),
    {
        let mut out: Vec<char> = Vec::new();
        match self {
            AssignmentError::ModelNotLoaded(id) => {
                push_str(&mut out, "Model not loaded: ");
                push_str(&mut out, id.as_str());
            },
            AssignmentError::InternalError(m) => {
                push_str(&mut out, "Internal error: ");
                push_str(&mut out, m.as_str());
            },
        }
        string_from_chars(&out)
    }
}

/// The phone's constraints on assignments (the parameter limit of full
/// models is held by the caller).
#[derive(Debug, Clone)]
pub struct PhoneConstraints {
    pub available_memory_mb: u64,
    pub battery_percent: u8,
    pub is_charging: bool,
    pub connection_type: ConnectionType,
    pub allow_cellular: bool,
    /// Largest model weights accepted, in megabytes.
    pub max_model_size_mb: u64,
    /// Battery percentage below which assignments are refused unless
    /// charging.
    pub battery_threshold: u8,
}

impl Default for PhoneConstraints {
    fn default() -> (c: Self)
        ensures
            c.available_memory_mb == 3072,
            c.battery_percent == 100,
            !c.is_charging,
            c.connection_type == ConnectionType::WiFi,
            !c.allow_cellular,
            c.max_model_size_mb == 3072,
            c.battery_threshold == 20,
    {
        PhoneConstraints {
            available_memory_mb: 3072,
            battery_percent: 100,
            is_charging: false,
            connection_type: ConnectionType::WiFi,
            allow_cellular: false,
            max_model_size_mb: 3072,
            battery_threshold: 20,
        }
    }
}

/// Whether an assignment is a full model or some layers of a split one.
#[derive(Debug, Clone, Copy)]
pub enum AssignmentKind {
    FullModel,
    SplitLayers { layer_range: (u32, u32), session_id: u128 },
}

/// A model assignment from the coordinator.
#[derive(Debug, Clone)]
pub struct ModelAssignment {
    pub model_id: String,
    pub assignment_type: AssignmentKind,
    pub download_url: String,
    pub weight_size_mb: u64,
    pub priority: AssignmentPriority,
}

/// Why an assignment is refused.
#[derive(Debug, Clone, PartialEq, Eq, Structural)]
pub enum ConstraintViolation {
    InsufficientMemory { required_mb: u64, available_mb: u64 },
    BatteryTooLow { current: u8, threshold: u8 },
    CellularNotAllowed,
    /// A full model with more parameters than the phone takes.
    ModelTooLarge,
}

/// The phone's answer to an assignment.
#[derive(Debug, Clone)]
pub enum AssignmentResponse {
    Accepted { estimated_ready_ms: u64 },
    Rejected { reason: ConstraintViolation },
}

/// The answer of the constraint checks, in order: weights within the
/// available memory, within the size cap, battery above the threshold or
/// charging, cellular only when allowed, and a full model within the
/// parameter limit (`full_model_fits`).
pub open spec fn constraint_check(c: PhoneConstraints, weight_size_mb: u64, is_full: bool, full_model_fits: bool) -> Result<(), ConstraintViolation> {
    if weight_size_mb > c.available_memory_mb {
        Err(ConstraintViolation::InsufficientMemory { required_mb: weight_size_mb, available_mb: c.available_memory_mb })
    } else if weight_size_mb > c.max_model_size_mb {
        Err(ConstraintViolation::InsufficientMemory { required_mb: weight_size_mb, available_mb: c.max_model_size_mb })
    } else if c.battery_percent < c.battery_threshold && !c.is_charging {
        Err(ConstraintViolation::BatteryTooLow { current: c.battery_percent, threshold: c.battery_threshold })
    } else if c.connection_type == ConnectionType::Cellular && !c.allow_cellular {
        Err(ConstraintViolation::CellularNotAllowed)
    } else if is_full && !full_model_fits {
        Err(ConstraintViolation::ModelTooLarge)
    } else {
        Ok(())
    }
}

/// The texts of a list of strings.
pub open spec fn texts(v: Seq<String>) -> Seq<Seq<char>> {
    v.map_values(|s: String| s@)
}

/// The models without `model_id`.
pub open spec fn without_id(models: Seq<Seq<char>>, model_id: Seq<char>) -> Seq<Seq<char>>
    decreases models.len(),
{
    if models.len() == 0 {
        models
    } else {
        let r = without_id(models.drop_last(), model_id);
        if models.last() == model_id {
            r
        } else {
            r.push(models.last())
        }
    }
}

/// Validates assignments and tracks the models they loaded.
pub struct AssignmentManager {
    constraints: PhoneConstraints,
    loaded_models: Vec<String>,
}

impl AssignmentManager {
    /// The constraints in force.
    pub closed spec fn constraints_view(&self) -> PhoneConstraints {
        self.constraints
    }

    /// The loaded models, in order of assignment.
    pub closed spec fn models_view(&self) -> Seq<Seq<char>> {
        texts(self.loaded_models@)
    }

    /// A manager with the given constraints and no model.
    pub fn new(constraints: PhoneConstraints) -> (m: Self)
        ensures
            m.constraints_view() == constraints,
            m.models_view() == Seq::<Seq<char>>::empty(),
    {
        let m = AssignmentManager { constraints, loaded_models: Vec::new() };
        assert(m.models_view() =~= Seq::<Seq<char>>::empty());
        m
    }

    /// A manager with the default constraints (3 GiB of memory and of
    /// weights, a full battery not charging, on Wi-Fi with cellular refused,
    /// a battery threshold of 20 %) and no model.
    pub fn with_defaults() -> (m: Self)
        ensures
            m.constraints_view().available_memory_mb == 3072,
            m.constraints_view().battery_percent == 100,
            !m.constraints_view().is_charging,
            m.constraints_view().connection_type == ConnectionType::WiFi,
            !m.constraints_view().allow_cellular,
            m.constraints_view().max_model_size_mb == 3072,
            m.constraints_view().battery_threshold == 20,
            m.models_view() == Seq::<Seq<char>>::empty(),
    {
        Self::new(PhoneConstraints::default())
    }

    /// Replaces the constraints.
    pub fn update_constraints(&mut self, constraints: PhoneConstraints)
        ensures
            final(self).constraints_view() == constraints,
            final(self).models_view() == old(self).models_view(),
    {
        self.constraints = constraints;
    }

    /// The constraints in force.
    pub fn constraints(&self) -> (c: &PhoneConstraints)
        ensures
            *c == self.constraints_view(),
    {
        &self.constraints
    }

    /// Checks an assignment against the constraints; `full_model_fits`
    /// tells whether a full model's parameter count is within the phone's
    /// limit.
    pub fn validate_constraints(&self, assignment: &ModelAssignment, full_model_fits: bool) -> (r: Result<
        (),
        ConstraintViolation,
    >)
        ensures
            r == constraint_check(
                self.constraints_view(),
                assignment.weight_size_mb,
                assignment.assignment_type is FullModel,
                full_model_fits,
            ),
    {
        let c = &self.constraints;
        if assignment.weight_size_mb > c.available_memory_mb {
            return Err(
                ConstraintViolation::InsufficientMemory {
                    required_mb: assignment.weight_size_mb,
                    available_mb: c.available_memory_mb,
                },
            );
        }
        if assignment.weight_size_mb > c.max_model_size_mb {
            return Err(
                ConstraintViolation::InsufficientMemory {
                    required_mb: assignment.weight_size_mb,
                    available_mb: c.max_model_size_mb,
                },
            );
        }
        if c.battery_percent < c.battery_threshold && !c.is_charging {
            return Err(ConstraintViolation::BatteryTooLow { current: c.battery_percent, threshold: c.battery_threshold });
        }
        let cellular = match c.connection_type {
            ConnectionType::Cellular => true,
            _ => false,
        };
        if cellular && !c.allow_cellular {
            return Err(ConstraintViolation::CellularNotAllowed);
        }
        let is_full = match assignment.assignment_type {
            AssignmentKind::FullModel => true,
            AssignmentKind::SplitLayers { .. } => false,
        };
        if is_full && !full_model_fits {
            return Err(ConstraintViolation::ModelTooLarge);
        }
        Ok(())
    }

    /// Answers an assignment: accepted (the model is tracked, ready in
    /// about 10 ms per megabyte) or rejected with the violated constraint.
    pub fn handle_assignment(&mut self, assignment: &ModelAssignment, full_model_fits: bool) -> (r: AssignmentResponse)
        requires
            assignment.weight_size_mb * 10 <= u64::MAX,
        ensures
            final(self).constraints_view() == old(self).constraints_view(),
            match constraint_check(
                old(self).constraints_view(),
                assignment.weight_size_mb,
                assignment.assignment_type is FullModel,
                full_model_fits,
            ) {
                Ok(()) => r == AssignmentResponse::Accepted { estimated_ready_ms: (assignment.weight_size_mb * 10) as u64 }
                    && final(self).models_view() == old(self).models_view().push(assignment.model_id@),
                Err(v) => r == AssignmentResponse::Rejected { reason: v } && final(self).models_view()
                    == old(self).models_view(),
            },
    {
        match self.validate_constraints(assignment, full_model_fits) {
            Ok(()) => {
                let ghost before = self.loaded_models@;
                self.loaded_models.push(assignment.model_id.clone());
                assert(self.models_view() =~= texts(before).push(assignment.model_id@));
                AssignmentResponse::Accepted { estimated_ready_ms: assignment.weight_size_mb * 10 }
            },
            Err(violation) => AssignmentResponse::Rejected { reason: violation },
        }
    }

    /// Unloads every copy of a model; an error when it was not loaded.
    pub fn handle_unload(&mut self, model_id: &String) -> (r: Result<(), AssignmentError>)
        ensures
            final(self).models_view() == without_id(old(self).models_view(), model_id@),
            final(self).constraints_view() == old(self).constraints_view(),
            old(self).models_view().contains(model_id@) ==> r is Ok,
            !old(self).models_view().contains(model_id@) ==> r == Err::<(), AssignmentError>(
                AssignmentError::ModelNotLoaded(*model_id),
            ),
    {
        let ghost mv = self.models_view();
        let mut kept: Vec<String> = Vec::new();
        let mut found = false;
        let mut i: usize = 0;
        while i < self.loaded_models.len()
            invariant
                i <= self.loaded_models@.len(),
                mv == self.models_view(),
                mv.len() == self.loaded_models@.len(),
                texts(kept@) == without_id(mv.take(i as int), model_id@),
                found == mv.take(i as int).contains(model_id@),
            decreases self.loaded_models.len() - i,
        {
            assert(mv.take(i + 1).drop_last() =~= mv.take(i as int));
            assert(mv.take(i + 1).last() == self.loaded_models@[i as int]@);
            proof {
                vstd::seq_lib::lemma_seq_contains_after_push(mv.take(i as int), mv.take(i + 1).last(), model_id@);
                assert(mv.take(i + 1) =~= mv.take(i as int).push(mv.take(i + 1).last()));
            }
            if self.loaded_models[i] != *model_id {
                let ghost before = kept@;
                kept.push(self.loaded_models[i].clone());
                assert(texts(kept@) =~= texts(before).push(self.loaded_models@[i as int]@));
            } else {
                found = true;
            }
            i = i + 1;
        }
        assert(mv.take(i as int) =~= mv);
        self.loaded_models = kept;
        if !found {
            return Err(AssignmentError::ModelNotLoaded(model_id.clone()));
        }
        Ok(())
    }

    /// The loaded models.
    pub fn loaded_models(&self) -> (m: &Vec<String>)
        ensures
            texts(m@) == self.models_view(),
    {
        &self.loaded_models
    }

    /// Whether a model is loaded.
    pub fn is_model_loaded(&self, model_id: &String) -> (b: bool)
        ensures
            b == self.models_view().contains(model_id@),
    {
        let ghost mv = self.models_view();
        let mut i: usize = 0;
        while i < self.loaded_models.len()
            invariant
                i <= self.loaded_models@.len(),
                mv == self.models_view(),
                mv.len() == self.loaded_models@.len(),
                forall|j: int| 0 <= j < i ==> mv[j] != model_id@,
            decreases self.loaded_models.len() - i,
        {
            assert(mv[i as int] == self.loaded_models@[i as int]@);
            if self.loaded_models[i] == *model_id {
                return true;
            }
            i = i + 1;
        }
        false
    }
}

/// Law: after unloading a model no copy of it is left.
pub proof fn law_unload_removes_every_copy(models: Seq<Seq<char>>, model_id: Seq<char>)
    ensures
        !without_id(models, model_id).contains(model_id),
    decreases models.len(),
{
    if models.len() > 0 {
        law_unload_removes_every_copy(models.drop_last(), model_id);
        let r = without_id(models.drop_last(), model_id);
        if models.last() != model_id {
            vstd::seq_lib::lemma_seq_contains_after_push(r, models.last(), model_id);
        }
    }
}

} // verus!
