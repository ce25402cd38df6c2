//! Verified decision logic of the MindVault engine.

pub mod access;
pub mod auto_approve;
pub mod backlinks;
pub mod calendar;
pub mod clock;
pub mod crypto;
pub mod embedding;
pub mod enrichment;
pub mod error;
pub mod federation;
pub mod grants;
pub mod ids;
pub mod node;
pub mod inbox_consumer;
pub mod insight;
pub mod obsidian;
pub mod outbox_dispatch;
pub mod outbox_http_publisher;
pub mod peers;
pub mod proposals;
pub mod relay_promotion;
pub mod relay_reply;
pub mod sealed;
pub mod settings;
pub mod tasks;
pub mod text;
pub mod vault_import;
pub mod wikilinks;
pub mod work_order_transfer;
pub mod work_orders;
pub mod workspace_mount;
pub mod workspace_projection;
