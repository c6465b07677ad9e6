pub mod diagnostics;
pub mod order;
pub mod pattern;
pub mod precheck;
pub mod roots;
pub mod session;
pub mod summary;
pub mod text;
