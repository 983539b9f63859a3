//! Recon pipelines: entities, their graph, and the logic of the tools that find them.
pub mod certsh;
pub mod certsh_laws;
pub mod cli;
pub mod cli_laws;
pub mod dns_laws;
pub mod dns_wire;
pub mod dnsx;
pub mod dnsx_laws;
pub mod document;
pub mod engine;
pub mod entity;
pub mod error;
pub mod gather;
pub mod graph;
pub mod graph_laws;
pub mod graph_model;
pub mod httpx;
pub mod httpx_laws;
pub mod json;
pub mod katana;
pub mod net;
pub mod net_laws;
pub mod nuclei;
pub mod octets;
pub mod order;
pub mod pipeline;
pub mod pipeline_laws;
pub mod plugin;
pub mod plugin_laws;
pub mod plugins;
pub mod portscan;
pub mod portscan_laws;
pub mod result_laws;
pub mod runs;
pub mod scanner_laws;
pub mod store;
pub mod subfinder;
pub mod text;
pub mod text_laws;
pub mod tool;
pub mod tool_laws;
pub mod whois;
pub mod whois_laws;
pub mod x509;
