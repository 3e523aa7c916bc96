//! The messaging layer: messages, recipients, attachments and folders.

pub mod attachment;
pub mod input;
pub mod recipient;
pub mod message;
pub mod folder;
pub mod receive;
pub mod search;
pub mod path;
pub mod update;
pub mod append;
pub mod create;
pub mod place_laws;
pub mod plan_laws;
pub mod message_laws;
pub mod row_laws;
pub mod size_laws;
pub mod append_laws;
pub mod whole_laws;
pub mod folder_laws;
pub mod copy_laws;
pub mod node_laws;
pub mod queue_laws;
pub mod receive_laws;
pub mod stored_append_laws;
pub mod stored_attachment_laws;
pub mod stored_contents_laws;
pub mod stored_folder_laws;
pub mod stored_laws;
pub mod stored_message_laws;
pub mod stored_row_laws;
