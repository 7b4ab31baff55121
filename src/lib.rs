pub mod value;
pub mod translate;
pub mod frame;
pub mod convert;
