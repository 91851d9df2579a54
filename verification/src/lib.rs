//! Verified core logic of the Robrix home screen: summaries of membership
//! transitions, grouping of small state events, search-result layout,
//! event-source highlighting and the many small text helpers of the UI.

pub mod text;
pub mod ids;
pub mod range_map;
pub mod timeline;
pub mod membership_transitions;
pub mod event_group;
pub mod global_message_search;
pub mod encryption_notice;
pub mod event_source;
pub mod create_room;
pub mod add_room;
pub mod reactions;
pub mod directory;
pub mod create_bot;
pub mod create_space;
pub mod loading_pane;
pub mod location;
pub mod bot_binding;
pub mod dock;
pub mod editing_pane;
pub mod invite_screen;
pub mod invite_modal;
pub mod home_navigation;
pub mod dock_tabs;
pub mod create_room_form;
pub mod link_preview;
pub mod failed_send_banner;
