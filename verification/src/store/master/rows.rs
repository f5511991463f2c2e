//! The rows of the master's tables, with their order where they are listed.
use crate::model::{
    CategoryOverride, ChildInfo, ChildInfoView, GoalConfig, OverrideView, PointsEntry,
    PointsEntryView, SessionRecord, SessionView, WorkerInfo, WorkerInfoView,
};
use crate::seqs::Ordered;
use crate::text::{lemma_text_leq_total, lemma_text_leq_transitive, text_le, text_leq};
use vstd::prelude::*;

verus! {

#[derive(Debug)]
pub struct ChildRow {
    pub id: String,
    pub name: String,
    pub created_at: i64,
}

pub struct ChildRowView {
    pub id: Seq<char>,
    pub name: Seq<char>,
    pub created_at: i64,
}

impl View for ChildRow {
    type V = ChildRowView;

    open spec fn view(&self) -> ChildRowView {
        ChildRowView { id: self.id@, name: self.name@, created_at: self.created_at }
    }
}

/// A registered worker with the token it authenticates with.
#[derive(Debug)]
pub struct WorkerRow {
    pub info: WorkerInfo,
    pub token: String,
}

pub struct WorkerRowView {
    pub info: WorkerInfoView,
    pub token: Seq<char>,
}

impl View for WorkerRow {
    type V = WorkerRowView;

    open spec fn view(&self) -> WorkerRowView {
        WorkerRowView { info: self.info@, token: self.token@ }
    }
}

/// A session with the worker that recorded it.
#[derive(Debug)]
pub struct SessionRow {
    pub worker_id: String,
    pub session: SessionRecord,
}

pub struct SessionRowView {
    pub worker_id: Seq<char>,
    pub session: SessionView,
}

impl View for SessionRow {
    type V = SessionRowView;

    open spec fn view(&self) -> SessionRowView {
        SessionRowView { worker_id: self.worker_id@, session: self.session@ }
    }
}

#[derive(Debug)]
pub struct GoalRow {
    pub child_id: String,
    pub goal: GoalConfig,
}

pub struct GoalRowView {
    pub child_id: Seq<char>,
    pub goal: GoalConfig,
}

impl View for GoalRow {
    type V = GoalRowView;

    open spec fn view(&self) -> GoalRowView {
        GoalRowView { child_id: self.child_id@, goal: self.goal }
    }
}

#[derive(Debug)]
pub struct PointsRow {
    pub child_id: String,
    pub entry: PointsEntry,
}

pub struct PointsRowView {
    pub child_id: Seq<char>,
    pub entry: PointsEntryView,
}

impl View for PointsRow {
    type V = PointsRowView;

    open spec fn view(&self) -> PointsRowView {
        PointsRowView { child_id: self.child_id@, entry: self.entry@ }
    }
}

/// Children are listed by name.
impl Ordered for ChildInfo {
    open spec fn leq(a: ChildInfoView, b: ChildInfoView) -> bool {
        text_leq(a.name, b.name)
    }

    proof fn leq_total(a: ChildInfoView, b: ChildInfoView) {
        lemma_text_leq_total(a.name, b.name);
    }

    proof fn leq_transitive(a: ChildInfoView, b: ChildInfoView, c: ChildInfoView) {
        lemma_text_leq_transitive(a.name, b.name, c.name);
    }

    fn le(&self, other: &Self) -> (b: bool) {
        text_le(self.name.as_str(), other.name.as_str())
    }
}

/// Workers are listed in the order of their registration.
impl Ordered for WorkerInfo {
    open spec fn leq(a: WorkerInfoView, b: WorkerInfoView) -> bool {
        a.created_at <= b.created_at
    }

    proof fn leq_total(a: WorkerInfoView, b: WorkerInfoView) {
    }

    proof fn leq_transitive(a: WorkerInfoView, b: WorkerInfoView, c: WorkerInfoView) {
    }

    fn le(&self, other: &Self) -> (b: bool) {
        self.created_at <= other.created_at
    }
}

/// Points are listed by date, latest first.
impl Ordered for PointsEntry {
    open spec fn leq(a: PointsEntryView, b: PointsEntryView) -> bool {
        text_leq(b.date, a.date)
    }

    proof fn leq_total(a: PointsEntryView, b: PointsEntryView) {
        lemma_text_leq_total(b.date, a.date);
    }

    proof fn leq_transitive(a: PointsEntryView, b: PointsEntryView, c: PointsEntryView) {
        lemma_text_leq_transitive(c.date, b.date, a.date);
    }

    fn le(&self, other: &Self) -> (b: bool) {
        text_le(other.date.as_str(), self.date.as_str())
    }
}

/// Overrides are listed by application name.
impl Ordered for CategoryOverride {
    open spec fn leq(a: OverrideView, b: OverrideView) -> bool {
        text_leq(a.app_name, b.app_name)
    }

    proof fn leq_total(a: OverrideView, b: OverrideView) {
        lemma_text_leq_total(a.app_name, b.app_name);
    }

    proof fn leq_transitive(a: OverrideView, b: OverrideView, c: OverrideView) {
        lemma_text_leq_transitive(a.app_name, b.app_name, c.app_name);
    }

    fn le(&self, other: &Self) -> (b: bool) {
        text_le(self.app_name.as_str(), other.app_name.as_str())
    }
}

} // verus!
