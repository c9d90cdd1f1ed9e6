pub mod text;
pub mod ids;
pub mod paths;
pub mod sql_lexer;
pub mod sql_safety;
pub mod backup_model;
pub mod backup_naming;
pub mod backup_scope;
pub mod backup_time;
pub mod sql_file_batch;
pub mod sql_file_run;
pub mod sort;
pub mod backup_store;
pub mod backup_manager;
pub mod backup_export;
pub mod agent_runtime;
