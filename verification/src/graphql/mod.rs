//! What the GraphQL layer of each entity is made of.

pub mod entities;
pub mod orm_data_loader;
pub mod root_node;
