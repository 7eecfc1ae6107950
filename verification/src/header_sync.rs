//! Native header synchronisation.
pub mod ids;
pub mod message;
pub mod range;
pub mod v8;
pub mod wire;
pub mod wire_end_laws;
pub mod wire_error_laws;
pub mod wire_format;
pub mod wire_laws;
pub mod wire_rule_laws;
pub mod work_cut_laws;
pub mod work_laws;
pub mod work_model;
pub mod work_owner_laws;
pub mod work_queue;
pub mod work_repeat_laws;
pub mod work_step_laws;
