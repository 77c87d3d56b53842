pub mod array;
pub mod containers;
pub mod ixx;
pub mod net;
pub mod ptr;
pub mod uxx;
