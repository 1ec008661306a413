//! Verified core of the desktop shell that boots the `dsh web` host and shows
//! it in a native window.

pub mod boot;
pub mod command;
pub mod json_field;
pub mod readiness;
pub mod shell;
pub mod tail;
pub mod text;
pub mod updater;
pub mod upgrade;
pub mod web_url;
