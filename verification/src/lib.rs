//! Capture the layout of a window-manager session as a portable tree,
//! persist it, and later rebuild the session from that tree.
//!
//! The crate is organised around plain data: compositor adapters (kept
//! outside the verified core) translate live compositor state into the
//! types defined here, and every decision — which workspaces are kept at
//! capture, which commands a replay issues, how a spawn is retried and
//! confirmed — is made by the verified functions in this crate.

pub mod config;
pub mod consts;
pub mod models;
pub mod niri;
pub mod record;
pub mod replay;
pub mod spawn;
pub mod strings;
pub mod sway;
pub mod util;

pub use models::Node;
pub use models::NodeLayout;
pub use models::NodeType;
pub use models::NodeV;
pub use models::node_view;
pub use models::none_or_zero_u8;
pub use models::opt_view;
pub use models::tree_view;
pub use record::Record;
pub use record::RecordV;
pub use record::from_record;
pub use record::to_record;
pub use record::record_of;
pub use record::records_of;
pub use record::nodes_of;
pub use record::node_of;
pub use record::persist_normal;
pub use record::persist_normal_all;
pub use record::lemma_round_trip;
pub use record::lemma_tree_round_trip;
pub use record::lemma_persist_normal_wf;
pub use record::lemma_persist_normal_idempotent;
pub use spawn::SpawnAction;
pub use spawn::SpawnEvent;
pub use spawn::SpawnJob;
pub use spawn::SpawnJobV;
pub use spawn::SpawnPhase;
pub use spawn::SpawnState;
pub use spawn::SpawnStateV;
pub use spawn::counts_never_rise;
pub use spawn::event_ok;
pub use spawn::launches;
pub use spawn::lemma_spawn_confirms;
pub use spawn::lemma_spawn_exhausts;
pub use spawn::lemma_spawn_launch_bound;
pub use spawn::lemma_spawn_sleep_bound;
pub use spawn::lemma_terminal_stays;
pub use spawn::run_steps;
pub use spawn::step_spec;
pub use spawn::trace_ok;
pub use niri::FlatCaptureError;
pub use niri::FlatWindow;
pub use niri::FlatWindowV;
pub use niri::FlatWorkspace;
pub use niri::FlatWorkspaceV;
pub use niri::count_app_ids_flat;
pub use niri::first_bad_window;
pub use niri::lemma_flat_capture_named;
pub use niri::niri_capture;
pub use niri::niri_tree_spec;
pub use niri::idx_sorted;
pub use niri::lemma_sort_by_idx_permutes;
pub use niri::lemma_sort_by_idx_sorted;
pub use niri::sort_by_idx;
pub use niri::sort_workspaces;
pub use niri::spec_count_flat;
pub use niri::win_views;
pub use niri::windows_for;
pub use niri::ws_views;
pub use sway::RawNode;
pub use sway::RawNodeV;
pub use sway::capture_from;
pub use sway::count_app_ids;
pub use sway::kind_of_name;
pub use sway::layout_of_name;
pub use sway::lemma_capture_filters;
pub use sway::lemma_kind_folds_to_unknown;
pub use sway::lemma_layout_folds_to_unknown;
pub use sway::map_raw;
pub use sway::raw_view;
pub use sway::raws_view;
pub use sway::scratchpad_name;
pub use sway::spec_count_app_ids;
pub use sway::spec_kept_workspace;
pub use sway::spec_kind_of_name;
pub use sway::spec_layout_of_name;
pub use sway::sway_capture;
pub use strings::dec_of;
pub use strings::escape_quotes;
pub use strings::escaped;
pub use strings::str_eq;
pub use strings::u64_to_string;
pub use config::Args;
pub use config::Compositor;
pub use config::Config;
pub use config::Mode;
pub use config::UnknownCompositor;
pub use config::default_desktop_exec;
pub use config::spec_compositor_of;
pub use config::spec_tree_rel_path;
pub use config::tree_rel_path;
pub use replay::BackendCaps;
pub use replay::EngineCmd;
pub use replay::EngineCmdV;
pub use replay::ReplayStep;
pub use replay::ReplayStepV;
pub use replay::RunMode;
pub use replay::SplitAxis;
pub use replay::cmd_allowed;
pub use replay::lemma_clear_scope_empty;
pub use replay::lemma_scoped_clear_subset;
pub use replay::lemma_dry_run_inert;
pub use replay::lemma_scope_restricts_spawns;
pub use replay::niri_clear_plan;
pub use replay::replay_script;
pub use replay::resolve_cmd;
pub use replay::step_allowed;
pub use replay::sway_clear_plan;
pub use util::cmdline_from_bytes;
pub use util::cmdline_spec;
pub use util::first_nul;
pub use util::join_space;
pub use util::lossy_of;
pub use util::split_parts;
pub use consts::MAX_WAIT_MS;
pub use consts::POLL_INTERVAL_MS;
pub use consts::default_timeout;
