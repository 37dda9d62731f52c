//! The ESMTP greeting exchange of an SMTP client: the `EHLO` request line, the
//! grammar of the server's reply, and the capability set negotiated by it.

pub mod data_types;
pub mod ehlo;
pub mod ehlo_data;
pub mod grammar;
pub mod reply;
pub mod response;
pub mod text;
