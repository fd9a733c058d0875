pub mod buffer;
pub mod name;
pub mod header;
pub mod query;
pub mod question;
pub mod record;
pub mod packet;
pub mod resolve;
