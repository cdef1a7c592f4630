pub mod equality;
pub mod compare;
pub mod arith;
