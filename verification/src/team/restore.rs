//! How a restore row lands: the order of its outside steps and what
//! each step's failure leads to (a refusal that stops the batch, or the
//! degraded landing that replaces an unusable parked body with a fresh
//! spawn and says so loudly).
use vstd::prelude::*;
use vstd::string::StringExecFns;
use crate::team::converge::{AlignItems, PlannedAction, RowReport, report_fits};
use crate::team::TeamAction;

verus! {

/// What made a parked body unusable. Each carries the outside error's
/// rendering.
#[derive(Clone, Debug)]
pub enum RestoreLoss {
    /// The inactive area could not be resolved for the id.
    InactiveUnreadable(String),
    /// The parked body's metadata could not be read.
    MetaUnreadable(String),
    /// The aligned metadata could not be written back.
    MetaWriteFailed(String),
    /// The boot restore path could not bring the body up.
    BootFailed(String),
}

/// The note that names the loss.
pub open spec fn loss_note(l: RestoreLoss) -> Seq<char> {
    match l {
        RestoreLoss::InactiveUnreadable(e) => "inactive body unreadable: "@ + e@,
        RestoreLoss::MetaUnreadable(e) => "IDENTITY LOSS: the inactive body's metadata is unreadable ("@ + e@
            + "); spawned a fresh replacement"@,
        RestoreLoss::MetaWriteFailed(e) => "IDENTITY LOSS: aligned metadata could not be written ("@ + e@
            + "); spawned a fresh replacement"@,
        RestoreLoss::BootFailed(e) => "IDENTITY LOSS: restore failed ("@ + e@ + "); spawned a fresh replacement"@,
    }
}

pub open spec fn repark_note(e: Seq<char>) -> Seq<char> {
    "old body re-park failed; manual cleanup needed ("@ + e + ")"@
}

/// The notes of a degraded restore: the loss; a failed re-park of the
/// old body, when one was attempted and failed (a failure is surfaced,
/// never swallowed); and that the previous body was not reused.
pub open spec fn degraded_notes_spec(loss: RestoreLoss, repark_error: Option<Seq<char>>, old_id: Seq<char>) -> Seq<Seq<char>> {
    seq![loss_note(loss)] + (match repark_error {
        Some(e) => seq![repark_note(e)],
        None => Seq::empty(),
    }) + seq!["the previous body "@ + old_id + " was not reused"@]
}

fn loss_message(loss: &RestoreLoss) -> (m: String)
    ensures m@ == loss_note(*loss),
{
    match loss {
        RestoreLoss::InactiveUnreadable(e) => String::from_str("inactive body unreadable: ").concat(e.as_str()),
        RestoreLoss::MetaUnreadable(e) => String::from_str("IDENTITY LOSS: the inactive body's metadata is unreadable (").concat(
            e.as_str(),
        ).concat("); spawned a fresh replacement"),
        RestoreLoss::MetaWriteFailed(e) => String::from_str("IDENTITY LOSS: aligned metadata could not be written (").concat(
            e.as_str(),
        ).concat("); spawned a fresh replacement"),
        RestoreLoss::BootFailed(e) => String::from_str("IDENTITY LOSS: restore failed (").concat(e.as_str()).concat(
            "); spawned a fresh replacement",
        ),
    }
}

/// Build the notes of a degraded restore (see [`degraded_notes_spec`]).
pub fn degraded_notes(loss: &RestoreLoss, repark_error: &Option<String>, old_id: &String) -> (r: Vec<String>)
    ensures
        r.deep_view() == degraded_notes_spec(
            *loss,
            match repark_error { Some(e) => Some(e@), None => None },
            old_id@,
        ),
{
    let mut notes: Vec<String> = Vec::new();
    notes.push(loss_message(loss));
    match repark_error {
        Some(e) => {
            notes.push(String::from_str("old body re-park failed; manual cleanup needed (").concat(e.as_str()).concat(")"));
        },
        None => {},
    }
    notes.push(String::from_str("the previous body ").concat(old_id.as_str()).concat(" was not reused"));
    proof {
        assert(notes.deep_view() =~= degraded_notes_spec(
            *loss,
            match repark_error { Some(e) => Some(e@), None => None },
            old_id@,
        ));
    }
    notes
}

/// The landing of a degraded restore: the replacement's id with the
/// notes, or the replacement spawn's own failure, which stops the batch.
pub fn degraded_report(notes: Vec<String>, spawn: Result<String, String>) -> (r: RowReport)
    ensures
        match spawn {
            Ok(id) => r == (RowReport::Degraded { id, notes }),
            Err(d) => r matches RowReport::Failed(m)
                && m@ == "restore degraded to a fresh spawn, and the spawn failed: "@ + d@,
        },
{
    match spawn {
        Ok(id) => RowReport::Degraded { id, notes },
        Err(d) => RowReport::Failed(String::from_str("restore degraded to a fresh spawn, and the spawn failed: ").concat(
            d.as_str(),
        )),
    }
}

/// Whether the aligned items need a metadata write before the body
/// comes up.
pub fn needs_meta_write(items: &AlignItems) -> (b: bool)
    ensures b == !crate::team::converge::align_empty(items@),
{
    !items.is_empty()
}

/// The refusal when the parked body cannot move back to the live area.
pub fn reactivate_failed(err: &String) -> (m: String)
    ensures m@ == "could not move the inactive body back to the live area: "@ + err@,
{
    String::from_str("could not move the inactive body back to the live area: ").concat(err.as_str())
}

/// The refusal when the live directory of the restored id cannot be
/// resolved.
pub fn live_dir_failed(err: &String) -> (m: String)
    ensures m@ == "live dir unresolved: "@ + err@,
{
    String::from_str("live dir unresolved: ").concat(err.as_str())
}

/// The refusal when the registration re-check found the id or the role
/// taken while the body came up (the body was torn down and re-parked;
/// a failed re-park asks for manual cleanup).
pub fn registration_violated(repark_failed: bool) -> (m: String)
    ensures
        m@ == "registry changed in the plan→execute window (role or id taken); batch stopped, the body was re-parked"@
            + if repark_failed { " (re-park failed; manual cleanup needed)"@ } else { Seq::<char>::empty() },
{
    let m = String::from_str(
        "registry changed in the plan→execute window (role or id taken); batch stopped, the body was re-parked",
    );
    if repark_failed {
        m.concat(" (re-park failed; manual cleanup needed)")
    } else {
        proof {
            assert(m@ + Seq::<char>::empty() =~= m@);
        }
        m
    }
}

/// The outside steps of a restore row, in the order they run.
#[derive(Clone, Copy, Debug, PartialEq, Eq, Structural)]
pub enum RestoreStage {
    /// Resolve the inactive area of the lock-recorded id.
    Locate,
    /// Read the parked body's metadata.
    ReadMeta,
    /// Move the parked body back to the live area.
    Reactivate,
    /// Resolve the restored id's live directory.
    ResolveLive,
    /// Write the aligned metadata (only when alignment changed something).
    WriteMeta,
    /// Bring the body up through the boot restore path.
    Boot,
    /// Register the body that came up, after re-checking that neither
    /// its id nor its role was taken meanwhile.
    Register,
}

/// What follows one step.
#[derive(Clone, Debug)]
pub enum RestoreStep {
    /// Run this step next.
    Next(RestoreStage),
    /// The parked body is unusable: spawn a fresh replacement (see
    /// [`degraded_notes`]). `repark` says the body was already moved to
    /// the live area and must be parked back first.
    Degrade { loss: RestoreLoss, repark: bool },
    /// The batch stops with this detail; nothing is applied for the row.
    Fail(String),
    /// The id or the role was taken while the body came up: tear the
    /// body down, park it back, and stop the batch (see
    /// [`registration_violated`]).
    Violated,
    /// The body is registered, identity intact.
    Restored,
}

/// The value of a [`RestoreStep`].
pub ghost enum RestoreStepV {
    Next(RestoreStage),
    Degrade { kind: RestoreLossKind, error: Seq<char>, repark: bool },
    Fail(Seq<char>),
    Violated,
    Restored,
}

pub open spec fn step_view(r: RestoreStep) -> RestoreStepV {
    match r {
        RestoreStep::Next(n) => RestoreStepV::Next(n),
        RestoreStep::Degrade { loss, repark } =>
            RestoreStepV::Degrade { kind: loss_parts(loss).0, error: loss_parts(loss).1, repark },
        RestoreStep::Fail(m) => RestoreStepV::Fail(m@),
        RestoreStep::Violated => RestoreStepV::Violated,
        RestoreStep::Restored => RestoreStepV::Restored,
    }
}

/// The step after `stage` finished with `outcome` (the outside error's
/// rendering on failure; for `Register`, `Err` means the re-check found
/// the id or the role taken). `write_needed` says whether alignment
/// changed the parked metadata.
pub open spec fn restore_step_spec(stage: RestoreStage, outcome: Result<(), Seq<char>>, write_needed: bool) -> RestoreStepV {
    match (stage, outcome) {
        (RestoreStage::Locate, Ok(())) => RestoreStepV::Next(RestoreStage::ReadMeta),
        (RestoreStage::Locate, Err(e)) =>
            RestoreStepV::Degrade { kind: RestoreLossKind::InactiveUnreadable, error: e, repark: false },
        (RestoreStage::ReadMeta, Ok(())) => RestoreStepV::Next(RestoreStage::Reactivate),
        (RestoreStage::ReadMeta, Err(e)) =>
            RestoreStepV::Degrade { kind: RestoreLossKind::MetaUnreadable, error: e, repark: false },
        (RestoreStage::Reactivate, Ok(())) => RestoreStepV::Next(RestoreStage::ResolveLive),
        (RestoreStage::Reactivate, Err(e)) => RestoreStepV::Fail("could not move the inactive body back to the live area: "@ + e),
        (RestoreStage::ResolveLive, Ok(())) =>
            RestoreStepV::Next(if write_needed { RestoreStage::WriteMeta } else { RestoreStage::Boot }),
        (RestoreStage::ResolveLive, Err(e)) => RestoreStepV::Fail("live dir unresolved: "@ + e),
        (RestoreStage::WriteMeta, Ok(())) => RestoreStepV::Next(RestoreStage::Boot),
        (RestoreStage::WriteMeta, Err(e)) =>
            RestoreStepV::Degrade { kind: RestoreLossKind::MetaWriteFailed, error: e, repark: true },
        (RestoreStage::Boot, Ok(())) => RestoreStepV::Next(RestoreStage::Register),
        (RestoreStage::Boot, Err(e)) => RestoreStepV::Degrade { kind: RestoreLossKind::BootFailed, error: e, repark: true },
        (RestoreStage::Register, Ok(())) => RestoreStepV::Restored,
        (RestoreStage::Register, Err(_)) => RestoreStepV::Violated,
    }
}

/// The kind of a [`RestoreLoss`].
#[derive(Clone, Copy, Debug, PartialEq, Eq, Structural)]
pub enum RestoreLossKind {
    InactiveUnreadable,
    MetaUnreadable,
    MetaWriteFailed,
    BootFailed,
}

pub open spec fn loss_parts(l: RestoreLoss) -> (RestoreLossKind, Seq<char>) {
    match l {
        RestoreLoss::InactiveUnreadable(e) => (RestoreLossKind::InactiveUnreadable, e@),
        RestoreLoss::MetaUnreadable(e) => (RestoreLossKind::MetaUnreadable, e@),
        RestoreLoss::MetaWriteFailed(e) => (RestoreLossKind::MetaWriteFailed, e@),
        RestoreLoss::BootFailed(e) => (RestoreLossKind::BootFailed, e@),
    }
}

/// Decide what follows a restore step (see [`restore_step_spec`]). A
/// loss before the body left the inactive area degrades without a
/// re-park; a loss after it re-parks first; a failed move or live-dir
/// lookup stops the batch with nothing applied.
pub fn restore_step(stage: RestoreStage, outcome: Result<(), String>, write_needed: bool) -> (r: RestoreStep)
    ensures
        step_view(r) == restore_step_spec(
            stage,
            match outcome { Ok(()) => Ok::<(), Seq<char>>(()), Err(e) => Err::<(), Seq<char>>(e@) },
            write_needed,
        ),
{
    match stage {
        RestoreStage::Locate => match outcome {
            Ok(()) => RestoreStep::Next(RestoreStage::ReadMeta),
            Err(e) => RestoreStep::Degrade { loss: RestoreLoss::InactiveUnreadable(e), repark: false },
        },
        RestoreStage::ReadMeta => match outcome {
            Ok(()) => RestoreStep::Next(RestoreStage::Reactivate),
            Err(e) => RestoreStep::Degrade { loss: RestoreLoss::MetaUnreadable(e), repark: false },
        },
        RestoreStage::Reactivate => match outcome {
            Ok(()) => RestoreStep::Next(RestoreStage::ResolveLive),
            Err(e) => RestoreStep::Fail(reactivate_failed(&e)),
        },
        RestoreStage::ResolveLive => match outcome {
            Ok(()) => if write_needed {
                RestoreStep::Next(RestoreStage::WriteMeta)
            } else {
                RestoreStep::Next(RestoreStage::Boot)
            },
            Err(e) => RestoreStep::Fail(live_dir_failed(&e)),
        },
        RestoreStage::WriteMeta => match outcome {
            Ok(()) => RestoreStep::Next(RestoreStage::Boot),
            Err(e) => RestoreStep::Degrade { loss: RestoreLoss::MetaWriteFailed(e), repark: true },
        },
        RestoreStage::Boot => match outcome {
            Ok(()) => RestoreStep::Next(RestoreStage::Register),
            Err(e) => RestoreStep::Degrade { loss: RestoreLoss::BootFailed(e), repark: true },
        },
        RestoreStage::Register => match outcome {
            Ok(()) => RestoreStep::Restored,
            Err(_) => RestoreStep::Violated,
        },
    }
}

/// The landing of a restore that came up identity-intact: the row's own
/// lock id, with the alignment notes.
pub fn restored_report(a: &PlannedAction, notes: Vec<String>) -> (r: RowReport)
    requires
        a.action == TeamAction::Restore,
        a.target is Some,
    ensures
        r matches RowReport::Restored { id, notes: n } && id@ == a.target->Some_0@ && n == notes,
        report_fits(*a, r),
{
    let id = match &a.target {
        Some(t) => t.clone(),
        None => String::new(),
    };
    RowReport::Restored { id, notes }
}

} // verus!
