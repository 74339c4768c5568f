pub mod collection;
pub mod composite;
pub mod map;
pub mod primitive;
pub mod string;
