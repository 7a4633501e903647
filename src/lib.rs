pub mod corpus;
pub mod error;
pub mod key;
pub mod matcher;
pub mod phrase;
pub mod pipeline;
pub mod table;
pub mod text;
