//! Verified core of the Mechanix shell: notification formatting, markup
//! parsing, the notification center, toast list and drawer models, the
//! decisions of the notification app's event loop and of the launcher,
//! status and lock icons, configuration search paths, and the small helpers
//! the widgets share.
pub mod text;
pub mod helper;
pub mod markup;
pub mod clock;
pub mod center;
pub mod toasts;
pub mod events;
pub mod context;
pub mod load;
pub mod status_icons;
pub mod notification_icon;
pub mod app_icon;
pub mod config;
pub mod drawer;
pub mod launcher;
