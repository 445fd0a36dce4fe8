//! Scheduling, durable tasks and tool-call decisions of a coding agent.
pub mod automation;
pub mod automation_change_laws;
pub mod automation_laws;
pub mod automation_listing;
pub mod calendar_laws;
pub mod enqueue;
pub mod execution_laws;
pub mod failure;
pub mod hidden_tools;
pub mod ids;
pub mod journal_laws;
pub mod json;
pub mod locations;
pub mod manager_laws;
pub mod manual_run;
pub mod order;
pub mod pending;
pub mod protection;
pub mod queueing_laws;
pub mod reconcile;
pub mod reading_laws;
pub mod recovery_laws;
pub mod resumption;
pub mod retention;
pub mod route;
pub mod rrule;
pub mod rrule_laws;
pub mod rrule_spelling;
pub mod rule_text_laws;
pub mod run_history_laws;
pub mod run_index;
pub mod run_index_laws;
pub mod run_reading;
pub mod run_reading_laws;
pub mod run_save;
pub mod schedule;
pub mod schedule_laws;
pub mod scheduler;
pub mod scheduler_laws;
pub mod storage_id;
pub mod task;
pub mod task_events;
pub mod task_loading;
pub mod task_outcome_laws;
pub mod task_pruning;
pub mod task_recovery;
pub mod task_runs;
pub mod task_store;
pub mod task_store_laws;
pub mod task_updates;
pub mod text;
pub mod text_laws;
pub mod time;
pub mod tool_calls;
pub mod tool_laws;
pub mod tool_output;
pub mod turn;
