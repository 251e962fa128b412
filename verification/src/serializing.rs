pub mod binary_conversion;
pub mod read_write;
pub mod round_trip;
pub mod rpn;
pub mod traits;
pub mod vectorizable;
