pub mod clock;
pub mod directory;
pub mod fsm_bind;
pub mod fsm_extended;
pub mod fsm_runtime;
pub mod fsm_server;
pub mod fsm_write;
pub mod http;
pub mod index;
pub mod laws;
pub mod ldap_controls;
pub mod ldap_filter_eval;
pub mod ldap_message;
pub mod ldap_url;
pub mod ldif;
pub mod metrics;
pub mod metrics_text;
pub mod monitoring_runtime;
pub mod operational_attrs;
mod queue;
pub mod response;
pub mod schema;
pub mod search_controls;
pub mod search_entries;
pub mod search_paging;
pub mod search_request;
pub mod search_stream;
pub mod search_text;
pub mod startup;
pub mod string_map;
pub mod text;
