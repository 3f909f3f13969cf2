//! Assigns applicants to the help sessions of a timetable.
//!
//! A search by simulated annealing looks for an allocation of low cost: the
//! cost weighs the applicants' preferences, the staffed hours wanted in
//! each week and the evenness of the staffing, and no applicant is given a
//! session they cannot attend or more hours in a week than they asked for.
//!
//! - `types`: sessions, applicants and what describes them.
//! - `text`, `numbers`, `tsv`: the characters of a text, numbers in base ten,
//!   tab-separated tables.
//! - `read_sessions`, `read_responses`: the timetable, the desired hours and
//!   the survey responses.
//! - `allocation`: who is assigned to which session.
//! - `cost`, `solver`, `setup`, `evaluate`: the cost of an allocation.
//! - `stream`, `mutate`, `anneal`, `select`: the search.
//! - `ordering`, `solution_output`, `hours_by_tutor`, `summary`: what is
//!   written of a solution.

pub mod allocation;
pub mod anneal;
pub mod cost;
pub mod evaluate;
pub mod hours_by_tutor;
pub mod mutate;
pub mod numbers;
pub mod ordering;
pub mod read_responses;
pub mod read_sessions;
pub mod select;
pub mod setup;
pub mod solution_output;
pub mod solver;
pub mod stream;
pub mod summary;
pub mod text;
pub mod tsv;
pub mod types;
