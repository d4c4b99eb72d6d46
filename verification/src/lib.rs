//! Split-tunnel planning for several VPN clients on one machine.

pub mod bypass_laws;
pub mod card;
pub mod card_laws;
pub mod choice_laws;
pub mod dns_plan;
pub mod domain;
pub mod effect_laws;
pub mod fallback;
pub mod fallback_laws;
pub mod health;
pub mod health_laws;
pub mod ipv4;
pub mod life_laws;
pub mod lists;
pub mod lookup_laws;
pub mod message_laws;
pub mod operations;
pub mod physical;
pub mod physical_health;
pub mod physical_laws;
pub mod plan_laws;
pub mod policy;
pub mod policy_laws;
pub mod powershell;
pub mod preparation;
pub mod refusal_laws;
pub mod route_laws;
pub mod routes;
pub mod rule_laws;
pub mod selection;
pub mod session;
pub mod session_laws;
pub mod state;
pub mod survival_laws;
pub mod text;
pub mod text_laws;
pub mod transaction;
pub mod transaction_laws;
pub mod validation;
pub mod validation_laws;
pub mod whole_laws;
pub mod windows;
pub mod windows_laws;
