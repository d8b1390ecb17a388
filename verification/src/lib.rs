//! What a home server's status page works with: what is read of the machine, how it is put
//! together, when a section is not to be believed, and what goes to the log and the page.

pub mod assemble;
pub mod cgroup_info;
pub mod clock;
pub mod command;
pub mod container_names;
pub mod get_stats;
pub mod http_server;
pub mod io_wait;
pub mod monitor;
pub mod monitor_log;
pub mod numbers;
pub mod nvidia;
pub mod paths;
pub mod proxmox;
pub mod slots;
pub mod sorting;
pub mod structures;
pub mod tapo;
pub mod text;
