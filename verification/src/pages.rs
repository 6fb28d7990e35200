pub mod image;
pub mod page;
pub mod page_node;
