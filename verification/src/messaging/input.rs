//! What callers hand in to be stored.

use vstd::prelude::*;

verus! {

/// The type of a recipient, as `PR_RECIPIENT_TYPE` holds it.
#[derive(Clone, Copy, PartialEq, Eq, Debug, Structural)]
pub enum UnicodePstRecipientType {
    To,
    Cc,
    Bcc,
}

impl UnicodePstRecipientType {
    /// The value of `PR_RECIPIENT_TYPE`.
    pub open spec fn spec_code(self) -> u32 {
        match self {
            UnicodePstRecipientType::To => 1,
            UnicodePstRecipientType::Cc => 2,
            UnicodePstRecipientType::Bcc => 3,
        }
    }

    /// The value of `PR_RECIPIENT_TYPE`.
    pub fn code(self) -> (code: u32)
        ensures
            code == self.spec_code(),
    {
        match self {
            UnicodePstRecipientType::To => 1,
            UnicodePstRecipientType::Cc => 2,
            UnicodePstRecipientType::Bcc => 3,
        }
    }
}

/// A recipient of a message.
#[derive(Clone, Copy)]
pub struct UnicodePstRecipient<'a> {
    pub name: &'a str,
    pub email: &'a str,
    pub recipient_type: UnicodePstRecipientType,
}

/// A message.
#[derive(Clone, Copy)]
pub struct UnicodePstMessage<'a> {
    pub subject: &'a str,
    pub sender_name: &'a str,
    pub sender_email: &'a str,
    pub recipients: &'a [UnicodePstRecipient<'a>],
    pub body: &'a str,
    /// UTF-8 HTML for `PR_HTML`; `body` remains the plain-text fallback.
    pub html_body: Option<&'a str>,
    pub message_id: &'a str,
    /// Number of 100-nanosecond intervals since 1601-01-01 UTC.
    pub delivery_time: i64,
}

/// A file attached by value.
pub struct UnicodePstAttachment<'a> {
    /// File name shown by mail clients.
    pub filename: &'a str,
    /// MIME content type, such as `application/pdf`.
    pub mime_type: &'a str,
    /// MIME Content-ID of an inline HTML attachment. Surrounding `<` and `>` are removed.
    /// The HTML body must reference the normalized value with the `cid:` scheme.
    pub content_id: Option<&'a str>,
    /// Exact attachment bytes.
    pub data: &'a [u8],
}

/// One message and its attachments for a bulk append operation.
#[derive(Clone, Copy)]
pub struct UnicodePstBatchMessage<'a> {
    pub message: UnicodePstMessage<'a>,
    pub attachments: &'a [UnicodePstAttachment<'a>],
}

} // verus!
