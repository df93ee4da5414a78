//! The shapes of resources as the GraphQL view presents them.
use vstd::prelude::*;
use crate::schemas::{IssueStatus, PlanningMoment};

verus! {

/// The root of GraphQL queries.
#[derive(Debug, Clone, Copy)]
pub struct QueryRoot {}

#[derive(Debug, Clone)]
pub struct GqlIssue {
    pub id: String,
    pub title: String,
    pub description: Option<String>,
    pub status: IssueStatus,
    pub assignee: Option<String>,
    pub resolution: Option<String>,
    pub involved: Option<Vec<String>>,
}

#[derive(Debug, Clone)]
pub struct GqlTask {
    pub id: String,
    pub cta: String,
    pub description: String,
    pub url: String,
    pub completed: bool,
    pub deadline: Option<String>,
}

#[derive(Debug, Clone)]
pub struct GqlComment {
    pub id: String,
    pub content: String,
    pub parent_id: Option<String>,
    pub mentions: Option<Vec<String>>,
}

#[derive(Debug, Clone)]
pub struct GqlPlanning {
    pub id: String,
    pub title: Option<String>,
    pub description: Option<String>,
    pub moments: Vec<PlanningMoment>,
}

#[derive(Debug, Clone)]
pub struct GqlDocument {
    pub id: String,
    pub title: String,
    pub url: String,
    pub size: u64,
}

} // verus!
