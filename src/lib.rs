//! Generation of LWE bootstrapping keys, plain and seeded, sequential and
//! parallel, together with the forkable random stream that makes the two
//! execution strategies agree, and the split operations of the string layer.

pub mod bootstrap_key;
pub mod random;
pub mod strings;
