pub mod array;
pub mod number;
pub mod promise;
