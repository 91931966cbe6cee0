pub mod geometry;
pub mod index;
pub mod component;
pub mod widgets;
pub mod align;
pub mod tree;
pub mod arena;
pub mod dom;
pub mod layout;
pub mod paint;
