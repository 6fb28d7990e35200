pub mod image_controller;
pub mod page_controller;
pub mod page_node_controller;
