//! The tables of the two roles. Master and worker keep separate databases;
//! here each is a value that holds the rows, with the rules that change and
//! read them.
pub mod master;
pub mod worker;
